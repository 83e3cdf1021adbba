use bittwiddler::hierarchy::{TestBitstream, Tile};

const _1: bool = true;
const _0: bool = false;

fn example_bitstream() -> TestBitstream {
    let bits = vec![
        _1, _0, _0, _0,     _0, _0, _0, _0,     _0, _0, _0, _0,     _0, _0, _0, _0,
        _0, _0, _0, _0,     _0, _0, _0, _0,     _0, _0, _0, _0,     _0, _0, _0, _0,
        _0, _1, _1, _0,     _0, _0, _0, _0,     _0, _0, _0, _0,     _0, _0, _0, _0,
        _0, _1, _0, _0,     _1, _0, _0, _0,     _0, _0, _0, _0,     _0, _0, _0, _0,

        _0, _0, _0, _0,     _0, _1, _0, _0,     _1, _1, _0, _0,     _0, _0, _0, _0,
        _0, _0, _0, _0,     _0, _0, _0, _0,     _0, _0, _0, _0,     _0, _0, _0, _0,
        _0, _0, _0, _0,     _0, _0, _0, _0,     _0, _0, _0, _0,     _0, _0, _0, _0,
        _0, _0, _0, _0,     _0, _0, _0, _0,     _0, _0, _0, _0,     _0, _0, _0, _0,

        _0, _0, _0, _0,     _0, _0, _0, _0,     _0, _0, _0, _0,     _0, _0, _0, _0,
        _0, _0, _0, _0,     _0, _0, _0, _0,     _0, _0, _0, _0,     _0, _0, _0, _0,
        _0, _0, _0, _0,     _0, _0, _0, _0,     _0, _0, _0, _0,     _0, _0, _0, _0,
        _0, _0, _0, _0,     _0, _0, _0, _0,     _0, _0, _0, _0,     _0, _0, _0, _0,

        _0, _0, _0, _0,     _0, _0, _0, _0,     _0, _0, _0, _0,     _0, _0, _0, _0,
        _0, _0, _0, _0,     _0, _0, _0, _0,     _0, _0, _0, _0,     _0, _0, _0, _0,
        _0, _0, _0, _0,     _0, _0, _0, _0,     _0, _0, _0, _0,     _0, _0, _0, _0,
        _0, _0, _0, _0,     _0, _0, _0, _0,     _0, _0, _0, _0,     _0, _0, _0, _0,
    ];
    TestBitstream { bits }
}

#[test]
fn test_get() {
    let bitstream = example_bitstream();

    assert_eq!(bitstream.get_field(&Tile::tile(0, 0).property_one()), 1);
    assert_eq!(bitstream.get_field(&Tile::tile(1, 1).property_one()), 2);
    assert_eq!(bitstream.get_field(&Tile::tile(2, 1).property_one()), 3);

    assert_eq!(bitstream.get_field(&Tile::tile(0, 0).property_two(0)), _0);
    assert_eq!(bitstream.get_field(&Tile::tile(0, 0).property_two(1)), _1);
    assert_eq!(bitstream.get_field(&Tile::tile(0, 0).property_two(2)), _1);
    assert_eq!(bitstream.get_field(&Tile::tile(0, 0).property_two(3)), _0);

    assert_eq!(
        bitstream.get_as_string(&Tile::tile(0, 0).property_one()),
        "00000001"
    );
    assert_eq!(
        bitstream.get_as_string(&Tile::tile(1, 1).property_one()),
        "00000010"
    );
    assert_eq!(
        bitstream.get_as_string(&Tile::tile(2, 1).property_one()),
        "00000011"
    );

    assert_eq!(
        bitstream.get_as_string(&Tile::tile(0, 0).property_three()),
        "nonono"
    );
    assert_eq!(
        bitstream.get_as_string(&Tile::tile(1, 0).property_three()),
        "(1, 0)"
    );

    assert_eq!(
        bitstream.get_as_string(&Tile::tile(0, 0).property_four()),
        "[0, 0]"
    );
    assert_eq!(
        bitstream.get_as_string(&Tile::tile(1, 0).property_four()),
        "lalala"
    );
}

#[test]
fn test_set() {
    let mut bitstream = TestBitstream { bits: vec![false; 256] };
    bitstream.set_field(&Tile::tile(0, 0).property_one(), 0xa5);
    let _ = bitstream.set_from_string(&Tile::tile(1, 1).property_one(), "01011010");

    let bit_str = bitstream.to_string();
    println!("{}", bit_str);

    assert_eq!(bitstream.get_field(&Tile::tile(0, 0).property_one()), 0xa5);
    assert_eq!(bitstream.get_field(&Tile::tile(1, 1).property_one()), 0x5a);
}

#[test]
fn test_scripting() {
    let bitstream = TestBitstream { bits: vec![false; 256] };
    let x = TestBitstream::_scripting_iter_all_stuff();
    for xi in x {
        let path = xi._scripting_get_path();
        let result = xi._scripting_get(&bitstream);
        println!("{} = {}", path, result);
    }
}
