use bittwiddler::hierarchy::{TestBitstream, Tile};
use bittwiddler::textfile::{parse, get_args};

fn lines(ls: &[&str]) -> Vec<String> {
    ls.iter().map(|l| l.to_string()).collect()
}

#[test]
fn hierarchy_scenario() {
    // setting tile(0,0).property_two(1), then reading property_two(0..4)
    // on the same tile, yields false, true, false, false
    let mut b = TestBitstream { bits: vec![false; 256] };
    b.set_field(&Tile::tile(0, 0).property_two(1), true);
    assert_eq!(b.get_field(&Tile::tile(0, 0).property_two(0)), false);
    assert_eq!(b.get_field(&Tile::tile(0, 0).property_two(1)), true);
    assert_eq!(b.get_field(&Tile::tile(0, 0).property_two(2)), false);
    assert_eq!(b.get_field(&Tile::tile(0, 0).property_two(3)), false);
    // the bit landed at coordinate (x*4 + n, y*4 + 2) = (1, 2)
    assert!(b.bits[2 * 16 + 1]);
}

#[test]
fn text_line_scenario() {
    // the text line sets exactly coordinate (1, 2)
    let mut b = TestBitstream::new_zeroed();
    parse(&lines(&["tile[0, 0].property_two[1] = true"]), &mut b).unwrap();
    for i in 0..256 {
        assert_eq!(b.bits[i], i == 2 * 16 + 1);
    }

    // a malformed line with no '=' reports a line-numbered error and
    // leaves the bitstream unchanged
    let mut b2 = TestBitstream::new_zeroed();
    let e = parse(&lines(&["tile[0, 0].property_two[1]"]), &mut b2).unwrap_err();
    assert_eq!(e.line, 1);
    assert_eq!(e.message, "missing '='");
    for i in 0..256 {
        assert!(!b2.bits[i]);
    }
}

#[test]
fn text_errors() {
    let mut b = TestBitstream::new_zeroed();

    let e = parse(&lines(&["", "nothere[0, 0].property_two[1] = true"]), &mut b).unwrap_err();
    assert_eq!(e.line, 2);
    assert_eq!(e.message, "'nothere' is not valid");

    let e = parse(&lines(&["tile[0, 0].wrong_name = true"]), &mut b).unwrap_err();
    assert_eq!(e.message, "'wrong_name' is not valid");

    let e = parse(&lines(&["tile[0.property_two[1] = true"]), &mut b).unwrap_err();
    assert_eq!(e.message, "unclosed brackets");

    let e = parse(&lines(&["tile[9, 0].property_two[1] = true"]), &mut b).unwrap_err();
    assert_eq!(e.message, "arg was malformed");

    let e = parse(&lines(&["tile[0, 0].property_two[1] = maybe"]), &mut b).unwrap_err();
    assert_eq!(e.message, "value was malformed");

    // per-line atomicity: the successful first line stays applied
    let mut b3 = TestBitstream::new_zeroed();
    let e = parse(
        &lines(&["tile[0, 0].property_two[1] = true", "junk"]),
        &mut b3,
    )
    .unwrap_err();
    assert_eq!(e.line, 2);
    assert!(b3.bits[2 * 16 + 1]);
}

#[test]
fn write_read_round_trip() {
    let mut b = TestBitstream::new_zeroed();
    b.set_field(&Tile::tile(1, 2).property_one(), 0xa5);
    b.set_field(&Tile::tile(0, 0).property_two(3), true);
    b.set_field(&Tile::tile(3, 3).property_two(0), true);
    let _ = b.set_from_string(&Tile::tile(2, 1).property_three(), "yes");
    let _ = b.set_from_string(&Tile::tile(0, 3).property_four(), "[0, 3]");

    let doc = bittwiddler::textfile::write(&b);
    for l in doc.iter() {
        println!("{}", l);
    }

    let mut b2 = TestBitstream::new_zeroed();
    parse(&doc, &mut b2).unwrap();
    assert_eq!(b.bits, b2.bits);
}

#[test]
fn all_default_writes_empty_document() {
    let b = TestBitstream::new_zeroed();
    let doc = bittwiddler::textfile::write(&b);
    assert!(doc.is_empty());
}

#[test]
fn written_lines_have_labeled_tags() {
    let mut b = TestBitstream::new_zeroed();
    b.set_field(&Tile::tile(2, 1).property_two(3), true);
    let doc = bittwiddler::textfile::write(&b);
    assert_eq!(doc, vec!["tile[x=2, y=1].property_two[n=3] = true".to_string()]);
}

#[test]
fn get_args_forms() {
    let chars = |s: &str| s.chars().collect::<Vec<char>>();

    let (ident, args) = get_args(&chars("tile")).unwrap();
    assert_eq!(ident, chars("tile"));
    assert!(args.is_empty());

    let (ident, args) = get_args(&chars("tile[0, 1]")).unwrap();
    assert_eq!(ident, chars("tile"));
    assert_eq!(args, vec!["0".to_string(), "1".to_string()]);

    let (ident, args) = get_args(&chars("tile[x=0, y=1]")).unwrap();
    assert_eq!(ident, chars("tile"));
    assert_eq!(args, vec!["0".to_string(), "1".to_string()]);

    assert!(get_args(&chars("tile[0, 1")).is_err());
}

#[test]
fn write_order_is_grid_order() {
    // tiles enumerate with y in the outer place: tile (3, 0) writes
    // before tile (0, 1)
    let mut b = TestBitstream::new_zeroed();
    b.set_field(&Tile::tile(0, 1).property_two(0), true);
    b.set_field(&Tile::tile(3, 0).property_two(0), true);
    let doc = bittwiddler::textfile::write(&b);
    assert_eq!(
        doc,
        vec![
            "tile[x=3, y=0].property_two[n=0] = true".to_string(),
            "tile[x=0, y=1].property_two[n=0] = true".to_string(),
        ]
    );
}
