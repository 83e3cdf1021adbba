use bittwiddler::codec::{uint_from_bits, uint_to_bits, uint_to_string, uint_from_string};
use bittwiddler::strconv::{u128_to_dec_chars, dec_chars_to_u128, u128_to_hex_chars,
    hex_chars_to_u128, chars_string, str_chars, trim};

#[test]
fn uint_codec_round_trip() {
    // bit i carries the 2^i place value (little-endian bit order)
    assert_eq!(uint_from_bits(&vec![true, false, false]), 1);
    assert_eq!(uint_from_bits(&vec![false, true, false]), 2);
    assert_eq!(uint_from_bits(&vec![true, false, true]), 5);
    assert_eq!(uint_to_bits(5, 3), vec![true, false, true]);

    for v in [0u128, 1, 2, 7, 0xa5, 0xffff, 123456789] {
        let bits = uint_to_bits(v, 64);
        assert_eq!(bits.len(), 64);
        assert_eq!(uint_from_bits(&bits), v);
    }

    // the full 128-bit width round-trips too
    let v = u128::MAX - 12345;
    assert_eq!(uint_from_bits(&uint_to_bits(v, 128)), v);

    // width-1 booleans
    assert_eq!(uint_from_bits(&uint_to_bits(1, 1)), 1);
    assert_eq!(uint_from_bits(&uint_to_bits(0, 1)), 0);
}

#[test]
fn decimal_strings() {
    assert_eq!(chars_string(&u128_to_dec_chars(0)), "0");
    assert_eq!(chars_string(&u128_to_dec_chars(255)), "255");
    assert_eq!(chars_string(&u128_to_dec_chars(10300)), "10300");

    assert_eq!(dec_chars_to_u128(&str_chars("0")), Some(0));
    assert_eq!(dec_chars_to_u128(&str_chars("00255")), Some(255));
    assert_eq!(dec_chars_to_u128(&str_chars("")), None);
    assert_eq!(dec_chars_to_u128(&str_chars("12a")), None);
    assert_eq!(
        dec_chars_to_u128(&str_chars("340282366920938463463374607431768211455")),
        Some(u128::MAX)
    );
    assert_eq!(
        dec_chars_to_u128(&str_chars("340282366920938463463374607431768211456")),
        None
    );
}

#[test]
fn hex_strings() {
    // canonical output form is uppercase hexadecimal
    assert_eq!(chars_string(&u128_to_hex_chars(0)), "0");
    assert_eq!(chars_string(&u128_to_hex_chars(0xa5)), "A5");
    assert_eq!(chars_string(&u128_to_hex_chars(0xdeadbeef)), "DEADBEEF");

    // parsing accepts either case
    assert_eq!(hex_chars_to_u128(&str_chars("a5")), Some(0xa5));
    assert_eq!(hex_chars_to_u128(&str_chars("A5")), Some(0xa5));
    assert_eq!(hex_chars_to_u128(&str_chars("")), None);
    assert_eq!(hex_chars_to_u128(&str_chars("5g")), None);
}

#[test]
fn canonical_integer_strings() {
    // canonical output: 0x-prefixed uppercase hexadecimal
    assert_eq!(uint_to_string(0xa5), "0xA5");
    assert_eq!(uint_to_string(0), "0x0");

    // input accepts either 0x-hex or decimal
    assert_eq!(uint_from_string("0xA5", 8), Some(0xa5));
    assert_eq!(uint_from_string("0xa5", 8), Some(0xa5));
    assert_eq!(uint_from_string("165", 8), Some(165));
    assert_eq!(uint_from_string("0x0", 1), Some(0));

    // values beyond the declared width, or malformed text, are errors
    assert_eq!(uint_from_string("256", 8), None);
    assert_eq!(uint_from_string("0x100", 8), None);
    assert_eq!(uint_from_string("2", 1), None);
    assert_eq!(uint_from_string("", 8), None);
    assert_eq!(uint_from_string("0xZZ", 8), None);
    assert_eq!(uint_from_string("12 3", 8), None);

    // the full width accepts everything a u128 holds
    assert_eq!(uint_from_string("0xFFFFFFFFFFFFFFFFFFFFFFFFFFFFFFFF", 128), Some(u128::MAX));
}

#[test]
fn trimming() {
    assert_eq!(trim(&str_chars("  a b\t")), str_chars("a b"));
    assert_eq!(trim(&str_chars("\t\r\n")), Vec::<char>::new());
    assert_eq!(trim(&str_chars("x")), vec!['x']);
}
