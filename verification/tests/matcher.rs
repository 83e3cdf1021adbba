use bittwiddler::pattern::{BitProperty, Variant, VariantValue, decode, encode, default_value,
    is_default_value, variant_to_string, variant_from_string, width};

fn property_one_def() -> BitProperty {
    BitProperty {
        name: "Property1".to_owned(),
        documentation: None,
        variants: vec![
            Variant {
                name: "ChoiceZero".to_owned(),
                pattern: "0000".to_owned(),
                keep_bits: false,
                documentation: None,
            },
            Variant {
                name: "ChoiceOne".to_owned(),
                pattern: "0001".to_owned(),
                keep_bits: false,
                documentation: None,
            },
            Variant {
                name: "ChoiceTwo".to_owned(),
                pattern: "0010".to_owned(),
                keep_bits: false,
                documentation: None,
            },
            Variant {
                name: "ChoiceThree".to_owned(),
                pattern: "0011".to_owned(),
                keep_bits: false,
                documentation: None,
            },
            Variant {
                name: "ChoiceWithX".to_owned(),
                pattern: "01xX".to_owned(),
                keep_bits: true,
                documentation: None,
            },
        ],
        catchall_variant: Some(Variant {
            name: "CatchallChoice".to_owned(),
            pattern: "catchall".to_owned(),
            keep_bits: true,
            documentation: None,
        }),
        default_variant_idx: Some(4),
    }
}

#[test]
fn scenario_decode() {
    let prop = property_one_def();
    assert_eq!(width(&prop), 4);

    // bits [0,0,0,1] -> ChoiceOne
    let v = decode(&prop, &vec![false, false, false, true]).unwrap();
    assert_eq!(v, VariantValue { variant_idx: 1, captured: vec![] });

    // bits [0,1,1,0] -> ChoiceWithX([f,t,t,f])
    let v = decode(&prop, &vec![false, true, true, false]).unwrap();
    assert_eq!(v, VariantValue { variant_idx: 4, captured: vec![false, true, true, false] });

    // bits [1,1,1,1] -> CatchallChoice([t,t,t,t])
    let v = decode(&prop, &vec![true, true, true, true]).unwrap();
    assert_eq!(v, VariantValue { variant_idx: 5, captured: vec![true, true, true, true] });
}

#[test]
fn scenario_strings() {
    let prop = property_one_def();

    let v = VariantValue { variant_idx: 4, captured: vec![false, true, true, false] };
    assert_eq!(variant_to_string(&prop, &v), "ChoiceWithX(0110)");

    let v = variant_from_string(&prop, "ChoiceWithX(0101)").unwrap();
    assert_eq!(v, VariantValue { variant_idx: 4, captured: vec![false, true, false, true] });

    let v = variant_from_string(&prop, "ChoiceTwo").unwrap();
    assert_eq!(v, VariantValue { variant_idx: 2, captured: vec![] });
    assert_eq!(variant_to_string(&prop, &v), "ChoiceTwo");

    // capture suffix deviations are conversion errors
    assert!(variant_from_string(&prop, "ChoiceWithX(01010)").is_err());
    assert!(variant_from_string(&prop, "ChoiceWithX(010)").is_err());
    assert!(variant_from_string(&prop, "ChoiceWithX(01a1)").is_err());
    assert!(variant_from_string(&prop, "ChoiceWithX(0101)x").is_err());
    assert!(variant_from_string(&prop, "NoSuchChoice").is_err());
}

#[test]
fn declaration_order_wins() {
    // ChoiceZero's literal bits also match the later wildcard variant,
    // but the earlier variant decodes.
    let prop = BitProperty {
        name: "Ordered".to_owned(),
        documentation: None,
        variants: vec![
            Variant {
                name: "First".to_owned(),
                pattern: "00".to_owned(),
                keep_bits: false,
                documentation: None,
            },
            Variant {
                name: "Anything".to_owned(),
                pattern: "xx".to_owned(),
                keep_bits: false,
                documentation: None,
            },
        ],
        catchall_variant: None,
        default_variant_idx: None,
    };
    let v = decode(&prop, &vec![false, false]).unwrap();
    assert_eq!(v.variant_idx, 0);
    let v = decode(&prop, &vec![true, false]).unwrap();
    assert_eq!(v.variant_idx, 1);
}

#[test]
fn encode_forms() {
    let prop = property_one_def();

    // encoding a capturing variant's decoded value reproduces the input
    let bits = vec![false, true, false, true];
    let v = decode(&prop, &bits).unwrap();
    assert_eq!(v.variant_idx, 4);
    assert_eq!(encode(&prop, &v), bits);

    // the catchall reproduces its capture verbatim
    let bits = vec![true, false, false, true];
    let v = decode(&prop, &bits).unwrap();
    assert_eq!(v.variant_idx, 5);
    assert_eq!(encode(&prop, &v), bits);

    // a non-capturing variant always gives its fixed-fill bits
    let v = VariantValue { variant_idx: 3, captured: vec![] };
    assert_eq!(encode(&prop, &v), vec![false, false, true, true]);
}

#[test]
fn wildcard_fill_letters() {
    // x fills with false, X fills with true, for a non-capturing variant
    let prop = BitProperty {
        name: "Fills".to_owned(),
        documentation: None,
        variants: vec![
            Variant {
                name: "Mixed".to_owned(),
                pattern: "0x1X".to_owned(),
                keep_bits: false,
                documentation: None,
            },
        ],
        catchall_variant: None,
        default_variant_idx: Some(0),
    };
    let v = VariantValue { variant_idx: 0, captured: vec![] };
    assert_eq!(encode(&prop, &v), vec![false, false, true, true]);

    // the default value of a capturing default carries the fill bits
    let prop2 = property_one_def();
    let d = default_value(&prop2).unwrap();
    assert_eq!(d, VariantValue { variant_idx: 4, captured: vec![false, true, false, true] });
    assert!(is_default_value(&prop2, &d));
    let not_d = VariantValue { variant_idx: 4, captured: vec![true, true, false, true] };
    assert!(!is_default_value(&prop2, &not_d));
    // default is decided by variant identity, not by bit coincidence
    let other = VariantValue { variant_idx: 1, captured: vec![] };
    assert!(!is_default_value(&prop2, &other));
}
