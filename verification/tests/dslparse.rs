use bittwiddler::dsl::{parse, ParseError};
use bittwiddler::pattern::{BitProperty, Variant};

fn lines(ls: &[&str]) -> Vec<String> {
    ls.iter().map(|l| l.to_string()).collect()
}

#[test]
fn test_parse_field() {
    let input = lines(&[
        "Property1",
        "0000 ChoiceZero",
        "0001 ChoiceOne",
        "0010 ChoiceTwo",
        "0011 ChoiceThree",
        "01xX ChoiceWithX()",
        "catchall *CatchallChoice()",
    ]);
    let result = parse(&input).unwrap();

    assert_eq!(
        result,
        BitProperty {
            name: "Property1".into(),
            documentation: None,
            variants: vec![
                Variant {
                    name: "ChoiceZero".into(),
                    pattern: "0000".into(),
                    keep_bits: false,
                    documentation: None
                },
                Variant {
                    name: "ChoiceOne".into(),
                    pattern: "0001".into(),
                    keep_bits: false,
                    documentation: None
                },
                Variant {
                    name: "ChoiceTwo".into(),
                    pattern: "0010".into(),
                    keep_bits: false,
                    documentation: None
                },
                Variant {
                    name: "ChoiceThree".into(),
                    pattern: "0011".into(),
                    keep_bits: false,
                    documentation: None
                },
                Variant {
                    name: "ChoiceWithX".into(),
                    pattern: "01xX".into(),
                    keep_bits: true,
                    documentation: None
                }
            ],
            catchall_variant: Some(Variant {
                name: "CatchallChoice".into(),
                pattern: "catchall".into(),
                keep_bits: true,
                documentation: None
            }),
            default_variant_idx: Some(4)
        },
    );
}

#[test]
fn test_parse_bad_ident() {
    let input = lines(&["# a comment", "Prop1#"]);
    let result = parse(&input);

    if let Err(e) = result {
        assert_eq!(
            e,
            ParseError::InvalidIdent {
                lineno: 2,
                ident: "Prop1#".to_owned()
            }
        );
    } else {
        panic!("wrong error");
    }
}

#[test]
fn test_parse_bad_pattern() {
    let input = lines(&["Prop1", "0002 Choice"]);
    let result = parse(&input);

    if let Err(e) = result {
        assert_eq!(
            e,
            ParseError::InvalidPattern {
                lineno: 2,
                pat: "0002".to_owned()
            }
        );
    } else {
        panic!("wrong error");
    }
}

#[test]
fn test_parse_bad_bit_count_mismatch() {
    let input = lines(&["Prop1", "0000 ChoiceA", "000 ChoiceB"]);
    let result = parse(&input);

    if let Err(e) = result {
        assert_eq!(
            e,
            ParseError::PatternBitCountMismatch {
                lineno: 3,
                expected_bits: 4,
                current_bits: 3
            }
        );
    } else {
        panic!("wrong error");
    }
}

#[test]
fn test_parse_bad_no_name() {
    let input = lines(&["0000 ChoiceA"]);
    let result = parse(&input);

    if let Err(e) = result {
        assert_eq!(e, ParseError::NoFirstPropertyName);
    } else {
        panic!("wrong error");
    }
}

#[test]
fn test_parse_bad_invalid_line() {
    let input = lines(&["Prop1", "Prop2"]);
    let result = parse(&input);

    if let Err(e) = result {
        assert_eq!(
            e,
            ParseError::InvalidLine {
                lineno: 2,
                line: "Prop2".into()
            }
        );
    } else {
        panic!("wrong error");
    }
}

#[test]
fn test_parse_bad_multiple_default() {
    let input = lines(&["Prop1", "0000 *ChoiceA", "0001 ChoiceB", "0010 *ChoiceC"]);
    let result = parse(&input);

    if let Err(e) = result {
        assert_eq!(e, ParseError::MultipleDefaultVariants { lineno: 4 });
    } else {
        panic!("wrong error");
    }
}

#[test]
fn test_parse_documentation_and_comments() {
    let input = lines(&[
        "",
        "# comment",
        "- also ignored",
        "/// a property",
        "/// documented twice",
        "Prop1",
        "01 ChoiceA a variant doc",
        "10 *ChoiceB",
    ]);
    let p = parse(&input).unwrap();
    assert_eq!(p.name, "Prop1");
    assert_eq!(p.documentation.as_deref(), Some("a property\ndocumented twice"));
    assert_eq!(p.variants.len(), 2);
    assert_eq!(p.variants[0].documentation.as_deref(), Some("a variant doc"));
    assert_eq!(p.default_variant_idx, Some(1));
    assert!(p.catchall_variant.is_none());
}

#[test]
fn test_parse_empty_input() {
    let input: Vec<String> = Vec::new();
    assert_eq!(parse(&input), Err(ParseError::NoFirstPropertyName));
}

#[test]
fn error_messages() {
    let e = ParseError::InvalidIdent { lineno: 2, ident: "Prop1#".into() };
    assert_eq!(e.message(), "invalid ident \"Prop1#\" on line 2");
    let e = ParseError::PatternBitCountMismatch { lineno: 3, expected_bits: 4, current_bits: 3 };
    assert_eq!(e.message(), "bit count mismatch on line 3, expected 4 got 3");
    let e = ParseError::NoFirstPropertyName;
    assert_eq!(e.message(), "pattern encountered, but no property name");
}
