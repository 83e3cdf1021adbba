//! The round-trip law of the text format: writing a bitstream and
//! reading the document back into a zeroed bitstream of the same shape
//! reproduces every property reachable through the hierarchy, and an
//! all-default bitstream writes to an empty document.

use vstd::prelude::*;
use vstd::arithmetic::power2::lemma2_to64;
use crate::bit_access::{BitArray, Coordinate};
use crate::codec::{bits_to_nat, nat_to_bits, lemma_nat_to_bits_len, lemma_uint_round_trip,
    lemma_bits_to_nat_bound, lemma_bits_round_trip};
use crate::hierarchy::{TestBitstream, Tile, TilePropertyOneAccessor, TilePropertyTwoAccessor,
    TilePropertyThreeAccessor, TilePropertyFourAccessor, CustomBool, bitstring_of};
use crate::human_text::{PropertyAccessorDyn, HumanLevelDynamicAccessor};
use crate::property::{PropertyLeaf, PropertyAccessor, PropertyLeafWithStringConv,
    accessor_bits};
use crate::strconv::{spec_trim, is_ws, nat_to_dec, dec_digit_val, lemma_trim_noop,
    lemma_spec_find_is, lemma_spec_find_none, lemma_spec_rfind_is, lemma_dec_chars,
    lemma_dec_round_trip};

verus! {

/// The bit of a 256-bit plane model at a coordinate.
pub open spec fn bit_at(m: Seq<bool>, c: Coordinate) -> bool {
    if m.len() == 256 && c.x < 16 && c.y < 16 {
        m[c.y as int * 16 + c.x as int]
    } else {
        false
    }
}

/// The raw bits of a field accessor, read from a plane model.
pub open spec fn acc_bits_m(acc: PropertyAccessorDyn, m: Seq<bool>) -> Seq<bool> {
    match acc {
        PropertyAccessorDyn::One(a) => Seq::new(8, |i: int| bit_at(m, a.spec_bit_pos(i).0)),
        PropertyAccessorDyn::Two(a) => seq![bit_at(m, a.spec_bit_pos(0).0)],
        PropertyAccessorDyn::Three(a) => seq![bit_at(m, a.spec_bit_pos(0).0)],
        PropertyAccessorDyn::Four(a) => seq![bit_at(m, a.spec_bit_pos(0).0)],
    }
}

/// The accessor bits of a well-formed bitstream are its plane-model bits.
pub proof fn lemma_acc_bits_m(acc: PropertyAccessorDyn, b: TestBitstream)
    requires
        acc.wf(),
        b.wf(),
    ensures
        match acc {
            PropertyAccessorDyn::One(a) => accessor_bits(&a, &b) == acc_bits_m(acc, b.bits@),
            PropertyAccessorDyn::Two(a) => accessor_bits(&a, &b) == acc_bits_m(acc, b.bits@),
            PropertyAccessorDyn::Three(a) => accessor_bits(&a, &b) == acc_bits_m(acc, b.bits@),
            PropertyAccessorDyn::Four(a) => accessor_bits(&a, &b) == acc_bits_m(acc, b.bits@),
        },
{
    match acc {
        PropertyAccessorDyn::One(a) => {
            assert(accessor_bits(&a, &b) =~= acc_bits_m(acc, b.bits@));
        },
        PropertyAccessorDyn::Two(a) => {
            assert(accessor_bits(&a, &b) =~= acc_bits_m(acc, b.bits@));
        },
        PropertyAccessorDyn::Three(a) => {
            assert(accessor_bits(&a, &b) =~= acc_bits_m(acc, b.bits@));
        },
        PropertyAccessorDyn::Four(a) => {
            assert(accessor_bits(&a, &b) =~= acc_bits_m(acc, b.bits@));
        },
    }
}

/// A bit vector encodes zero exactly when every bit is clear.
pub proof fn lemma_bits_to_nat_zero(s: Seq<bool>)
    ensures
        (bits_to_nat(s) == 0) <==> (forall|i: int| 0 <= i < s.len() ==> !s[i]),
    decreases s.len(),
{
    if s.len() > 0 {
        lemma_bits_to_nat_zero(s.drop_first());
        assert(forall|i: int| 1 <= i < s.len() ==> s[i] == s.drop_first()[i - 1]);
    }
}

/// The characters a value string may hold: never an equals sign, and
/// non-whitespace at both ends.
pub open spec fn tame_value(s: Seq<char>) -> bool {
    &&& s.len() > 0
    &&& !is_ws(s[0])
    &&& !is_ws(s.last())
    &&& forall|i: int| 0 <= i < s.len() ==> s[i] != '='
}

/// The decimal rendering of a value is tame and contains no brackets,
/// dots, commas or equals signs.
pub proof fn lemma_dec_tame(v: nat)
    ensures
        ({
            let s = nat_to_dec(v);
            &&& s.len() > 0
            &&& forall|i: int| 0 <= i < s.len() ==> dec_digit_val(#[trigger] s[i]).is_some()
            &&& forall|i: int| 0 <= i < s.len() ==> s[i] != '=' && s[i] != '.' && s[i] != ','
                && s[i] != '[' && s[i] != ']' && s[i] != '(' && !is_ws(s[i])
        }),
{
    lemma_dec_round_trip(v);
    let s = nat_to_dec(v);
    assert forall|i: int| 0 <= i < s.len() implies s[i] != '=' && s[i] != '.' && s[i] != ','
        && s[i] != '[' && s[i] != ']' && s[i] != '(' && !is_ws(s[i]) by {
        assert(dec_digit_val(s[i]).is_some());
    }
}

/// What the writer renders for `property_one`, parsed back, gives the
/// field's value, and its text is tame.
pub proof fn lemma_value_one(a: TilePropertyOneAccessor, b: TestBitstream)
    requires
        b.wf(),
    ensures
        ({
            let v = <u8 as PropertyLeaf>::spec_from_bits(accessor_bits(&a, &b));
            let s = v.spec_to_string(&a);
            &&& <u8 as PropertyLeafWithStringConv<TilePropertyOneAccessor>>::spec_from_string(
                s,
                &a,
            ) == Some(v)
            &&& v.spec_to_bits() == accessor_bits(&a, &b)
            &&& tame_value(s)
        }),
{
    let raw = accessor_bits(&a, &b);
    assert(raw.len() == 8);
    let v = <u8 as PropertyLeaf>::spec_from_bits(raw);
    lemma_bits_to_nat_bound(raw);
    lemma2_to64();
    assert(v as nat == bits_to_nat(raw));
    lemma_bits_round_trip(raw);
    assert(v.spec_to_bits() =~= raw);
    let bits = nat_to_bits(v as nat, 8);
    lemma_nat_to_bits_len(v as nat, 8);
    let s = bitstring_of(bits);
    assert(s.len() == 8);
    assert(forall|i: int| 0 <= i < 8 ==> #[trigger] s[i] == (if bits[7 - i] {
        '1'
    } else {
        '0'
    }));
    assert(forall|i: int| 0 <= i < 8 ==> #[trigger] s[i] == '0' || s[i] == '1');
    let parsed_bits = Seq::new(8, |i: int| s[7 - i] == '1');
    assert(parsed_bits =~= bits);
    lemma_uint_round_trip(v as nat, 8);
    assert(bits_to_nat(parsed_bits) == v as nat);
    assert(<u8 as PropertyLeafWithStringConv<TilePropertyOneAccessor>>::spec_from_string(s, &a)
        == Some(v));
    assert(tame_value(s));
}

/// What the writer renders for `property_two`, parsed back, gives the
/// field's value, and its text is tame.
pub proof fn lemma_value_two(a: TilePropertyTwoAccessor, b: TestBitstream)
    requires
        b.wf(),
    ensures
        ({
            let v = <bool as PropertyLeaf>::spec_from_bits(accessor_bits(&a, &b));
            let s = v.spec_to_string(&a);
            &&& <bool as PropertyLeafWithStringConv<TilePropertyTwoAccessor>>::spec_from_string(
                s,
                &a,
            ) == Some(v)
            &&& v.spec_to_bits() == accessor_bits(&a, &b)
            &&& tame_value(s)
        }),
{
    let raw = accessor_bits(&a, &b);
    assert(raw.len() == 1);
    let v = <bool as PropertyLeaf>::spec_from_bits(raw);
    assert(v.spec_to_bits() =~= raw);
    let s = v.spec_to_string(&a);
    reveal_strlit("true");
    reveal_strlit("false");
    reveal_strlit("1");
    reveal_strlit("0");
    if v {
        assert(s == "true"@);
        assert(s.len() == 4 && s[0] == 't' && s[1] == 'r' && s[2] == 'u' && s[3] == 'e');
    } else {
        assert(s == "false"@);
        assert(s.len() == 5 && s[0] == 'f' && s[1] == 'a' && s[2] == 'l' && s[3] == 's'
            && s[4] == 'e');
    }
    assert(s != "1"@ && s != "0"@);
    if v {
        assert(<bool as PropertyLeafWithStringConv<TilePropertyTwoAccessor>>::spec_from_string(
            s,
            &a,
        ) == Some(true));
    } else {
        assert(s != "true"@);
        assert(<bool as PropertyLeafWithStringConv<TilePropertyTwoAccessor>>::spec_from_string(
            s,
            &a,
        ) == Some(false));
    }
    assert(tame_value(s));
}

/// What the writer renders for `property_three`, parsed back, gives the
/// field's value, and its text is tame.
pub proof fn lemma_value_three(a: TilePropertyThreeAccessor, b: TestBitstream)
    requires
        b.wf(),
    ensures
        ({
            let v = <CustomBool as PropertyLeaf>::spec_from_bits(accessor_bits(&a, &b));
            let s = v.spec_to_string(&a);
            &&& <CustomBool as PropertyLeafWithStringConv<
                TilePropertyThreeAccessor,
            >>::spec_from_string(s, &a) == Some(v)
            &&& v.spec_to_bits() == accessor_bits(&a, &b)
            &&& tame_value(s)
        }),
{
    let raw = accessor_bits(&a, &b);
    assert(raw.len() == 1);
    let v = <CustomBool as PropertyLeaf>::spec_from_bits(raw);
    assert(v.spec_to_bits() =~= raw);
    let s = v.spec_to_string(&a);
    reveal_strlit("nonono");
    reveal_strlit("(");
    reveal_strlit(", ");
    reveal_strlit(")");
    lemma_dec_tame(a.tile.x as nat);
    lemma_dec_tame(a.tile.y as nat);
    if !v.0 {
        assert(s == "nonono"@);
        assert(s.len() == 6 && s[0] == 'n' && s.last() == 'o');
        assert(tame_value(s));
    } else {
        assert(s[0] == '(');
        assert(s.last() == ')');
        assert(s != "nonono"@);
        assert(tame_value(s));
    }
}

/// What the writer renders for `property_four`, parsed back, gives the
/// field's value, and its text is tame.
pub proof fn lemma_value_four(a: TilePropertyFourAccessor, b: TestBitstream)
    requires
        b.wf(),
    ensures
        ({
            let v = <CustomBool as PropertyLeaf>::spec_from_bits(accessor_bits(&a, &b));
            let s = v.spec_to_string(&a);
            &&& <CustomBool as PropertyLeafWithStringConv<
                TilePropertyFourAccessor,
            >>::spec_from_string(s, &a) == Some(v)
            &&& v.spec_to_bits() == accessor_bits(&a, &b)
            &&& tame_value(s)
        }),
{
    let raw = accessor_bits(&a, &b);
    assert(raw.len() == 1);
    let v = <CustomBool as PropertyLeaf>::spec_from_bits(raw);
    assert(v.spec_to_bits() =~= raw);
    let s = v.spec_to_string(&a);
    reveal_strlit("lalala");
    reveal_strlit("[");
    reveal_strlit(", ");
    reveal_strlit("]");
    lemma_dec_tame(a.tile.x as nat);
    lemma_dec_tame(a.tile.y as nat);
    if !v.0 {
        assert(s == "lalala"@);
        assert(s.len() == 6 && s[0] == 'l' && s.last() == 'a');
        assert(tame_value(s));
    } else {
        assert(s[0] == '[');
        assert(s.last() == ']');
        assert(s != "lalala"@);
        assert(tame_value(s));
    }
}

/// The canonical text of a tile path segment.
pub open spec fn tile_seg(t: Tile) -> Seq<char> {
    "tile[x="@ + nat_to_dec(t.x as nat) + ", y="@ + nat_to_dec(t.y as nat) + "]"@
}

/// The writer's tile tag is the canonical segment, with its exact
/// character layout.
pub proof fn lemma_tile_seg(t: Tile)
    requires
        t.x < 4,
        t.y < 4,
    ensures
        crate::textfile::spec_full_name(
            Seq::empty(),
            "tile"@,
            crate::textfile::spec_level_pieces(HumanLevelDynamicAccessor::Tile(t)),
        ) == tile_seg(t),
        tile_seg(t).len() == 14,
        tile_seg(t)[0] == 't',
        tile_seg(t)[4] == '[',
        tile_seg(t).last() == ']',
        forall|i: int| 0 <= i < 4 ==> #[trigger] tile_seg(t)[i] != '[',
        forall|i: int| 0 <= i < 14 ==> #[trigger] tile_seg(t)[i] != '.',
        tile_seg(t).subrange(0, 4) == "tile"@,
        crate::textfile::spec_get_args(tile_seg(t)) == Some(
            ("tile"@, seq![nat_to_dec(t.x as nat), nat_to_dec(t.y as nat)]),
        ),
{
    reveal_strlit("tile");
    reveal_strlit("tile[x=");
    reveal_strlit(", y=");
    reveal_strlit("[");
    reveal_strlit("]");
    reveal_strlit("x");
    reveal_strlit("y");
    reveal_strlit("=");
    reveal_strlit(", ");
    lemma_dec_chars(t.x as nat);
    lemma_dec_chars(t.y as nat);
    lemma_dec_tame(t.x as nat);
    lemma_dec_tame(t.y as nat);
    let dx = nat_to_dec(t.x as nat);
    let dy = nat_to_dec(t.y as nat);
    let pieces = crate::textfile::spec_level_pieces(HumanLevelDynamicAccessor::Tile(t));
    let seg = crate::textfile::spec_full_name(Seq::empty(), "tile"@, pieces);
    let p2 = crate::textfile::spec_pieces_str(pieces, 2);
    assert(p2 =~= Seq::<char>::empty());
    let p1 = crate::textfile::spec_pieces_str(pieces, 1);
    assert(p1 == ", "@ + pieces[1].0 + "="@ + pieces[1].1 + p2);
    let p0 = crate::textfile::spec_pieces_str(pieces, 0);
    assert(p0 == Seq::<char>::empty() + pieces[0].0 + "="@ + pieces[0].1 + p1);
    assert(seg =~= tile_seg(t));
    let sg = tile_seg(t);
    assert(sg.len() == 14);
    assert(sg.subrange(0, 4) =~= "tile"@);
    // resolve the argument split
    lemma_spec_find_is(sg, 0, '[', 4);
    let args_part = sg.subrange(5, 14);
    assert(args_part.last() == ']');
    let inner = args_part.drop_last();
    assert(inner =~= "x="@ + dx + ", y="@ + dy) by {
        reveal_strlit("x=");
    }
    reveal_strlit("x=");
    assert(inner.len() == 8);
    assert(inner[0] == 'x' && inner[1] == '=' && inner[3] == ',');
    assert(inner[2] == dx[0]);
    lemma_spec_find_is(inner, 0, ',', 3);
    let piece1 = inner.subrange(0, 3);
    let rest = inner.subrange(4, 8);
    assert(rest[0] == ' ' && rest[1] == 'y' && rest[2] == '=' && rest[3] == dy[0]);
    lemma_spec_find_none(rest, 0, ',');
    assert(crate::textfile::split_commas(rest) =~= seq![rest]);
    assert(crate::textfile::split_commas(inner) =~= seq![inner.subrange(0, 3)]
        + crate::textfile::split_commas(inner.subrange(4, 8)));
    assert(inner.subrange(4, 8) =~= rest);
    assert(crate::textfile::split_commas(inner) =~= seq![piece1] + seq![rest]);
    // clean the first argument: x=D -> D
    assert(piece1[0] == 'x' && piece1[1] == '=' && piece1[2] == dx[0]);
    lemma_trim_noop(piece1);
    lemma_spec_find_is(piece1, 0, '=', 1);
    assert(piece1.subrange(2, 3) =~= dx);
    lemma_trim_noop(dx);
    assert(crate::textfile::spec_clean_arg(piece1) == dx);
    // clean the second argument: " y=D" -> D
    crate::strconv::lemma_ws_prefix_is(rest, 1);
    let rt = rest.subrange(1, 4);
    crate::strconv::lemma_ws_suffix_is(rt, 0);
    assert(spec_trim(rest) =~= rt);
    lemma_spec_find_is(rt, 0, '=', 1);
    assert(rt.subrange(2, 3) =~= dy);
    lemma_trim_noop(dy);
    assert(crate::textfile::spec_clean_arg(rest) == dy);
    assert(crate::textfile::split_commas(inner).map_values(
        |a: Seq<char>| crate::textfile::spec_clean_arg(a),
    ) =~= seq![dx, dy]);
    assert(crate::textfile::spec_get_args(sg) == Some(("tile"@, seq![dx, dy])));
}

/// The tile a field accessor belongs to.
pub open spec fn tile_of(acc: PropertyAccessorDyn) -> Tile {
    match acc {
        PropertyAccessorDyn::One(a) => a.tile,
        PropertyAccessorDyn::Two(a) => a.tile,
        PropertyAccessorDyn::Three(a) => a.tile,
        PropertyAccessorDyn::Four(a) => a.tile,
    }
}

/// The declared name of the field an accessor selects.
pub open spec fn field_name_of(acc: PropertyAccessorDyn) -> Seq<char> {
    match acc {
        PropertyAccessorDyn::One(_) => "property_one"@,
        PropertyAccessorDyn::Two(_) => "property_two"@,
        PropertyAccessorDyn::Three(_) => "property_three"@,
        PropertyAccessorDyn::Four(_) => "property_four"@,
    }
}

/// The field's position in the level's declaration order.
pub open spec fn field_idx_of(acc: PropertyAccessorDyn) -> nat {
    match acc {
        PropertyAccessorDyn::One(_) => 0,
        PropertyAccessorDyn::Two(_) => 1,
        PropertyAccessorDyn::Three(_) => 2,
        PropertyAccessorDyn::Four(_) => 3,
    }
}

/// The canonical tagged field text of an accessor.
pub open spec fn field_tag(acc: PropertyAccessorDyn) -> Seq<char> {
    match acc {
        PropertyAccessorDyn::One(_) => "property_one"@,
        PropertyAccessorDyn::Two(a) => "property_two[n="@ + nat_to_dec(a.n as nat) + "]"@,
        PropertyAccessorDyn::Three(_) => "property_three"@,
        PropertyAccessorDyn::Four(_) => "property_four"@,
    }
}

/// The canonical argument list of an accessor's tag.
pub open spec fn field_args(acc: PropertyAccessorDyn) -> Seq<Seq<char>> {
    match acc {
        PropertyAccessorDyn::Two(a) => seq![nat_to_dec(a.n as nat)],
        _ => Seq::empty(),
    }
}

/// The writer's tagged field name is the canonical tag, the tag resolves
/// back to the accessor it was written for, and its text is tame.
pub proof fn lemma_field_path(acc: PropertyAccessorDyn)
    requires
        acc.wf(),
    ensures
        ({
            let ft = field_tag(acc);
            &&& ft.len() >= 1
            &&& !is_ws(ft[0]) && ft[0] != '#' && ft[0] != '-'
            &&& !is_ws(ft.last())
            &&& forall|i: int| 0 <= i < ft.len() ==> #[trigger] ft[i] != '.'
            &&& crate::textfile::spec_get_args(ft) == Some((field_name_of(acc), field_args(acc)))
            &&& crate::textfile::spec_field_index(
                HumanLevelDynamicAccessor::Tile(tile_of(acc)),
                field_name_of(acc),
            ) == Some(field_idx_of(acc))
            &&& HumanLevelDynamicAccessor::Tile(tile_of(acc)).spec_construct_field(
                field_idx_of(acc),
                field_args(acc),
            ) == Some(acc)
            &&& forall|prefix: Seq<char>| #[trigger] crate::textfile::spec_full_name(
                prefix,
                field_name_of(acc),
                crate::textfile::spec_acc_pieces(acc),
            ) == prefix + field_tag(acc)
        }),
{
    reveal_strlit("property_one");
    reveal_strlit("property_two");
    reveal_strlit("property_three");
    reveal_strlit("property_four");
    reveal_strlit("property_two[n=");
    reveal_strlit("n");
    reveal_strlit("=");
    reveal_strlit("[");
    reveal_strlit("]");
    let ft = field_tag(acc);
    assert("property_two"@[9] == 't' && "property_one"@[9] == 'o');
    assert("property_two"@ != "property_one"@);
    match acc {
        PropertyAccessorDyn::Two(a) => {
            lemma_dec_chars(a.n as nat);
            lemma_dec_tame(a.n as nat);
            lemma_dec_round_trip(a.n as nat);
            let dn = nat_to_dec(a.n as nat);
            assert(ft.len() == 17);
            assert(ft[12] == '[');
            assert(forall|i: int| 0 <= i < 12 ==> #[trigger] ft[i] == "property_two"@[i]);
            assert(forall|i: int| 0 <= i < 12 ==> #[trigger] ft[i] != '[');
            lemma_spec_find_is(ft, 0, '[', 12);
            assert(ft.subrange(0, 12) =~= "property_two"@);
            let args_part = ft.subrange(13, 17);
            assert(args_part.last() == ']');
            let inner = args_part.drop_last();
            assert(inner =~= "n="@ + dn) by {
                reveal_strlit("n=");
            }
            reveal_strlit("n=");
            assert(inner.len() == 3);
            assert(inner[0] == 'n' && inner[1] == '=' && inner[2] == dn[0]);
            lemma_spec_find_none(inner, 0, ',');
            assert(crate::textfile::split_commas(inner) =~= seq![inner]);
            lemma_trim_noop(inner);
            lemma_spec_find_is(inner, 0, '=', 1);
            assert(inner.subrange(2, 3) =~= dn);
            lemma_trim_noop(dn);
            assert(crate::textfile::spec_clean_arg(inner) == dn);
            assert(crate::textfile::split_commas(inner).map_values(
                |x: Seq<char>| crate::textfile::spec_clean_arg(x),
            ) =~= seq![dn]);
            assert(crate::textfile::spec_get_args(ft) == Some(("property_two"@, seq![dn])));
            assert(crate::human_text::spec_parse_u8(dn) == Some(a.n));
            assert(HumanLevelDynamicAccessor::Tile(a.tile).spec_construct_field(1, seq![dn])
                == Some(PropertyAccessorDyn::Two(TilePropertyTwoAccessor { tile: a.tile, n: a.n })));
            assert(forall|i: int| 0 <= i < ft.len() ==> #[trigger] ft[i] != '.');
            // the writer's name: one piece, "n=" then the index
            assert forall|prefix: Seq<char>| #[trigger] crate::textfile::spec_full_name(
                prefix,
                field_name_of(acc),
                crate::textfile::spec_acc_pieces(acc),
            ) == prefix + ft by {
                let ps = crate::textfile::spec_acc_pieces(acc);
                let p1 = crate::textfile::spec_pieces_str(ps, 1);
                assert(p1 =~= Seq::<char>::empty());
                let p0 = crate::textfile::spec_pieces_str(ps, 0);
                assert(p0 == Seq::<char>::empty() + ps[0].0 + "="@ + ps[0].1 + p1);
                assert(crate::textfile::spec_full_name(prefix, field_name_of(acc), ps)
                    =~= prefix + ft);
            }
        },
        _ => {
            assert(crate::textfile::spec_get_args(ft) == Some((ft, Seq::<Seq<char>>::empty())))
                by {
                match acc {
                    PropertyAccessorDyn::One(_) => {
                        assert(forall|i: int| 0 <= i < ft.len() ==> #[trigger] ft[i] != '[');
                        lemma_spec_find_none(ft, 0, '[');
                    },
                    PropertyAccessorDyn::Three(_) => {
                        assert(forall|i: int| 0 <= i < ft.len() ==> #[trigger] ft[i] != '[');
                        lemma_spec_find_none(ft, 0, '[');
                    },
                    PropertyAccessorDyn::Four(_) => {
                        assert(forall|i: int| 0 <= i < ft.len() ==> #[trigger] ft[i] != '[');
                        lemma_spec_find_none(ft, 0, '[');
                    },
                    PropertyAccessorDyn::Two(_) => {},
                }
            }
            assert forall|prefix: Seq<char>| #[trigger] crate::textfile::spec_full_name(
                prefix,
                field_name_of(acc),
                crate::textfile::spec_acc_pieces(acc),
            ) == prefix + ft by {
                assert(crate::textfile::spec_full_name(
                    prefix,
                    field_name_of(acc),
                    crate::textfile::spec_acc_pieces(acc),
                ) =~= prefix + ft);
            }
        },
    }
}

/// The value string the writer renders for a field.
pub open spec fn value_of(acc: PropertyAccessorDyn, b: TestBitstream) -> Seq<char> {
    acc.spec_value_string(&b)
}

/// The whole line the writer emits for a field.
pub open spec fn field_line(acc: PropertyAccessorDyn, b: TestBitstream) -> Seq<char> {
    tile_seg(tile_of(acc)) + "."@ + field_tag(acc) + " = "@ + value_of(acc, b)
}

/// The value string parses back to the value it was rendered from, its
/// encoded bits are the accessor's bits in `b`, and its text is tame.
pub proof fn lemma_value_roundtrip(acc: PropertyAccessorDyn, b: TestBitstream)
    requires
        acc.wf(),
        b.wf(),
    ensures
        acc.spec_set_ok(value_of(acc, b)),
        tame_value(value_of(acc, b)),
{
    match acc {
        PropertyAccessorDyn::One(a) => lemma_value_one(a, b),
        PropertyAccessorDyn::Two(a) => lemma_value_two(a, b),
        PropertyAccessorDyn::Three(a) => lemma_value_three(a, b),
        PropertyAccessorDyn::Four(a) => lemma_value_four(a, b),
    }
}

/// Reading back the line written for a field applies exactly that
/// field's assignment: parsing the path resolves the same accessor, and
/// parsing the value gives the value that was written.
pub proof fn lemma_line_effect(acc: PropertyAccessorDyn, b: TestBitstream, m: Seq<bool>)
    requires
        acc.wf(),
        b.wf(),
        m.len() == 256,
    ensures
        crate::textfile::spec_line_effect(m, field_line(acc, b)) == Ok::<Seq<bool>, Seq<char>>(
            crate::textfile::spec_apply(acc, m, value_of(acc, b)),
        ),
{
    let t = tile_of(acc);
    lemma_tile_seg(t);
    lemma_field_path(acc);
    lemma_value_roundtrip(acc, b);
    reveal_strlit(" = ");
    reveal_strlit(".");
    let sg = tile_seg(t);
    let ft = field_tag(acc);
    let val = value_of(acc, b);
    let path = sg + "."@ + ft;
    let line = field_line(acc, b);
    assert(line =~= path + " = "@ + val);
    assert(path.len() == 15 + ft.len());
    assert(line.len() == path.len() + 3 + val.len());
    // the line is its own trim, and is no comment
    assert(line[0] == 't');
    assert(line.last() == val.last());
    lemma_trim_noop(line);
    assert(spec_trim(line) == line);
    // the last '=' is the separator
    let k = path.len() as int + 1;
    assert(line[k] == '=');
    assert forall|i: int| k < i < line.len() implies line[i] != '=' by {
        if i == k + 1 {
            assert(line[i] == ' ');
        } else {
            assert(line[i] == val[i - (path.len() + 3)]);
        }
    }
    lemma_spec_rfind_is(line, '=', k as nat);
    // the property part trims back to the path
    let takek = line.subrange(0, k);
    assert(takek =~= path + seq![' ']);
    assert(takek[0] == 't');
    crate::strconv::lemma_ws_prefix_is(takek, 0);
    assert(takek.subrange(0, takek.len() as int) =~= takek);
    assert(!is_ws(takek[takek.len() - 2]));
    crate::strconv::lemma_ws_suffix_is(takek, 1);
    assert(spec_trim(takek) =~= path);
    // the value part trims back to the value
    let skipk = line.subrange(k + 1, line.len() as int);
    assert(skipk =~= seq![' '] + val);
    crate::strconv::lemma_ws_prefix_is(skipk, 1);
    let skipt = skipk.subrange(1, skipk.len() as int);
    assert(skipt =~= val);
    crate::strconv::lemma_ws_suffix_is(skipt, 0);
    assert(spec_trim(skipk) =~= val);
    // the path splits at the dot into the tile segment and the field tag
    assert(path[14] == '.');
    assert(forall|i: int| 0 <= i < 14 ==> #[trigger] path[i] == sg[i]);
    lemma_spec_find_is(path, 0, '.', 14);
    assert(path.subrange(0, 14) =~= sg);
    let rest = path.subrange(15, path.len() as int);
    assert(rest =~= ft);
    // the tile segment resolves and constructs the tile
    let dx = nat_to_dec(t.x as nat);
    let dy = nat_to_dec(t.y as nat);
    lemma_dec_round_trip(t.x as nat);
    lemma_dec_round_trip(t.y as nat);
    reveal_strlit("tile");
    assert(crate::textfile::spec_sublevel_index(HumanLevelDynamicAccessor::Root, "tile"@)
        == Some(0nat));
    assert(crate::human_text::spec_parse_u8(dx) == Some(t.x));
    assert(crate::human_text::spec_parse_u8(dy) == Some(t.y));
    assert(HumanLevelDynamicAccessor::Root.spec_descend_sublevel(0, seq![dx, dy])
        == Some(HumanLevelDynamicAccessor::Tile(Tile { x: t.x, y: t.y })));
    assert((Tile { x: t.x, y: t.y }) == t);
    // the field tag has no dot, so it resolves as the field segment
    lemma_spec_find_none(ft, 0, '.');
    assert(crate::textfile::spec_walk(HumanLevelDynamicAccessor::Tile(t), ft, val, m)
        == Ok::<Seq<bool>, Seq<char>>(crate::textfile::spec_apply(acc, m, val)));
    assert(crate::textfile::spec_walk(HumanLevelDynamicAccessor::Root, path, val, m)
        == Ok::<Seq<bool>, Seq<char>>(crate::textfile::spec_apply(acc, m, val)));
}

/// Whether plane index `k` is one of the accessor's bit positions.
pub open spec fn owns_idx(acc: PropertyAccessorDyn, k: int) -> bool {
    let cx = k % 16;
    let cy = k / 16;
    match acc {
        PropertyAccessorDyn::One(a) => {
            let tx = a.tile.x as int * 4;
            let ty = a.tile.y as int * 4;
            tx <= cx < tx + 4 && ty <= cy < ty + 2
        },
        PropertyAccessorDyn::Two(a) => cx == a.tile.x as int * 4 + a.n as int && cy == a.tile.y
            as int * 4 + 2,
        PropertyAccessorDyn::Three(a) => cx == a.tile.x as int * 4 && cy == a.tile.y as int * 4
            + 3,
        PropertyAccessorDyn::Four(a) => cx == a.tile.x as int * 4 + 1 && cy == a.tile.y as int * 4
            + 3,
    }
}

/// Applying the written value sets exactly the accessor's bits to their
/// values in `b` and leaves every other bit alone.
pub proof fn lemma_apply_value(acc: PropertyAccessorDyn, b: TestBitstream, m: Seq<bool>)
    requires
        acc.wf(),
        b.wf(),
        m.len() == 256,
    ensures
        ({
            let m2 = crate::textfile::spec_apply(acc, m, value_of(acc, b));
            &&& m2.len() == 256
            &&& forall|k: int| 0 <= k < 256 ==> m2[k] == (if owns_idx(acc, k) {
                b.bits@[k]
            } else {
                m[k]
            })
        }),
{
    let val = value_of(acc, b);
    let m2 = crate::textfile::spec_apply(acc, m, val);
    lemma_acc_bits_m(acc, b);
    match acc {
        PropertyAccessorDyn::One(a) => {
            lemma_value_one(a, b);
            let bits = <u8 as PropertyLeafWithStringConv<
                TilePropertyOneAccessor,
            >>::spec_from_string(val, &a).unwrap().spec_to_bits();
            assert(bits == accessor_bits(&a, &b));
            assert(bits.len() == 8);
            let tx = a.tile.x as int * 4;
            let ty = a.tile.y as int * 4;
            assert forall|k: int| 0 <= k < 256 implies m2[k] == (if owns_idx(acc, k) {
                b.bits@[k]
            } else {
                m[k]
            }) by {
                let cx = k % 16;
                let cy = k / 16;
                if tx <= cx < tx + 4 && ty <= cy < ty + 2 {
                    let i = (cx - tx) + 4 * (cy - ty);
                    assert(0 <= i < 8);
                    assert(m2[k] == bits[i]);
                    let c = a.spec_bit_pos(i).0;
                    assert(c.x == cx && c.y == cy);
                    assert(k == c.y as int * 16 + c.x as int);
                    assert(bits[i] == b.spec_get(c));
                    assert(b.spec_get(c) == b.bits@[k]);
                }
            }
        },
        PropertyAccessorDyn::Two(a) => {
            lemma_value_two(a, b);
            let bits = <bool as PropertyLeafWithStringConv<
                TilePropertyTwoAccessor,
            >>::spec_from_string(val, &a).unwrap().spec_to_bits();
            assert(bits == accessor_bits(&a, &b));
            lemma_apply_single(a.spec_bit_pos(0).0, bits, b, m);
            assert forall|k: int| 0 <= k < 256 implies m2[k] == (if owns_idx(acc, k) {
                b.bits@[k]
            } else {
                m[k]
            }) by {
                let c = a.spec_bit_pos(0).0;
                assert(owns_idx(acc, k) <==> k == c.y as int * 16 + c.x as int);
            }
        },
        PropertyAccessorDyn::Three(a) => {
            lemma_value_three(a, b);
            let bits = <CustomBool as PropertyLeafWithStringConv<
                TilePropertyThreeAccessor,
            >>::spec_from_string(val, &a).unwrap().spec_to_bits();
            assert(bits == accessor_bits(&a, &b));
            lemma_apply_single(a.spec_bit_pos(0).0, bits, b, m);
            assert forall|k: int| 0 <= k < 256 implies m2[k] == (if owns_idx(acc, k) {
                b.bits@[k]
            } else {
                m[k]
            }) by {
                let c = a.spec_bit_pos(0).0;
                assert(owns_idx(acc, k) <==> k == c.y as int * 16 + c.x as int);
            }
        },
        PropertyAccessorDyn::Four(a) => {
            lemma_value_four(a, b);
            let bits = <CustomBool as PropertyLeafWithStringConv<
                TilePropertyFourAccessor,
            >>::spec_from_string(val, &a).unwrap().spec_to_bits();
            assert(bits == accessor_bits(&a, &b));
            lemma_apply_single(a.spec_bit_pos(0).0, bits, b, m);
            assert forall|k: int| 0 <= k < 256 implies m2[k] == (if owns_idx(acc, k) {
                b.bits@[k]
            } else {
                m[k]
            }) by {
                let c = a.spec_bit_pos(0).0;
                assert(owns_idx(acc, k) <==> k == c.y as int * 16 + c.x as int);
            }
        },
    }
}

/// One written bit lands at its coordinate with the bitstream's value.
proof fn lemma_apply_single(c: Coordinate, bits: Seq<bool>, b: TestBitstream, m: Seq<bool>)
    requires
        b.wf(),
        m.len() == 256,
        c.x < 16,
        c.y < 16,
        bits.len() == 1,
        bits[0] == b.spec_get(c),
    ensures
        ({
            let m2 = crate::textfile::apply_single_bit(m, c, bits[0]);
            &&& m2.len() == 256
            &&& forall|k: int| 0 <= k < 256 ==> m2[k] == (if k == c.y as int * 16 + c.x as int {
                b.bits@[k]
            } else {
                m[k]
            })
        }),
{
}

/// A field is at its default exactly when all of its raw bits are clear.
pub proof fn lemma_default_zero(acc: PropertyAccessorDyn, b: TestBitstream)
    requires
        acc.wf(),
        b.wf(),
    ensures
        acc.spec_is_at_default(&b) <==> (forall|k: int| 0 <= k < 256 && owns_idx(acc, k)
            ==> !b.bits@[k]),
{
    lemma_acc_bits_m(acc, b);
    match acc {
        PropertyAccessorDyn::One(a) => {
            let raw = accessor_bits(&a, &b);
            let v = <u8 as PropertyLeaf>::spec_from_bits(raw);
            lemma_bits_to_nat_bound(raw);
            lemma2_to64();
            lemma_bits_to_nat_zero(raw);
            let tx = a.tile.x as int * 4;
            let ty = a.tile.y as int * 4;
            if forall|i: int| 0 <= i < 8 ==> !raw[i] {
                assert(v == 0);
                assert forall|k: int| 0 <= k < 256 && owns_idx(acc, k) implies !b.bits@[k] by {
                    let cx = k % 16;
                    let cy = k / 16;
                    let i = (cx - tx) + 4 * (cy - ty);
                    assert(0 <= i < 8);
                    let c = a.spec_bit_pos(i).0;
                    assert(c.x == cx && c.y == cy);
                    assert(k == c.y as int * 16 + c.x as int);
                    assert(!raw[i]);
                    assert(raw[i] == b.spec_get(c));
                }
            }
            if forall|k: int| 0 <= k < 256 && #[trigger] owns_idx(acc, k) ==> !b.bits@[k] {
                assert forall|i: int| 0 <= i < 8 implies !raw[i] by {
                    let c = a.spec_bit_pos(i).0;
                    let k = c.y as int * 16 + c.x as int;
                    assert(c.x == tx + i % 4 && c.y == ty + i / 4);
                    assert(owns_idx(acc, k));
                    assert(raw[i] == b.spec_get(c));
                    assert(b.spec_get(c) == b.bits@[k]);
                }
                assert(v == 0);
            }
        },
        PropertyAccessorDyn::Two(a) => {
            let c = a.spec_bit_pos(0).0;
            let k = c.y as int * 16 + c.x as int;
            assert(owns_idx(acc, k));
            assert(forall|k2: int| 0 <= k2 < 256 && #[trigger] owns_idx(acc, k2) ==> k2 == k);
            assert(accessor_bits(&a, &b)[0] == b.spec_get(c));
            assert(b.spec_get(c) == b.bits@[k]);
        },
        PropertyAccessorDyn::Three(a) => {
            let c = a.spec_bit_pos(0).0;
            let k = c.y as int * 16 + c.x as int;
            assert(owns_idx(acc, k));
            assert(forall|k2: int| 0 <= k2 < 256 && #[trigger] owns_idx(acc, k2) ==> k2 == k);
            assert(accessor_bits(&a, &b)[0] == b.spec_get(c));
            assert(b.spec_get(c) == b.bits@[k]);
        },
        PropertyAccessorDyn::Four(a) => {
            let c = a.spec_bit_pos(0).0;
            let k = c.y as int * 16 + c.x as int;
            assert(owns_idx(acc, k));
            assert(forall|k2: int| 0 <= k2 < 256 && #[trigger] owns_idx(acc, k2) ==> k2 == k);
            assert(accessor_bits(&a, &b)[0] == b.spec_get(c));
            assert(b.spec_get(c) == b.bits@[k]);
        },
    }
}

/// Reading the tail of a concatenation is reading the second document.
proof fn lemma_read_shift(ls1: Seq<Seq<char>>, ls2: Seq<Seq<char>>, j: nat, m: Seq<bool>)
    ensures
        ({
            let whole = crate::textfile::spec_read(ls1 + ls2, ls1.len() + j, m);
            let part = crate::textfile::spec_read(ls2, j, m);
            whole.0 == part.0 && (whole.1 is None <==> part.1 is None)
        }),
    decreases ls2.len() - j,
{
    if j < ls2.len() {
        assert((ls1 + ls2)[ls1.len() + j as int] == ls2[j as int]);
        match crate::textfile::spec_line_effect(m, ls2[j as int]) {
            Ok(m2) => {
                lemma_read_shift(ls1, ls2, j + 1, m2);
            },
            Err(_) => {},
        }
    }
}

/// Reading a concatenation whose first part succeeds continues into the
/// second part from the state the first part left.
proof fn lemma_read_append(ls1: Seq<Seq<char>>, ls2: Seq<Seq<char>>, i: nat, m: Seq<bool>)
    requires
        i <= ls1.len(),
        crate::textfile::spec_read(ls1, i, m).1 is None,
    ensures
        ({
            let m1 = crate::textfile::spec_read(ls1, i, m).0;
            let whole = crate::textfile::spec_read(ls1 + ls2, i, m);
            let part = crate::textfile::spec_read(ls2, 0, m1);
            whole.0 == part.0 && (whole.1 is None <==> part.1 is None)
        }),
    decreases ls1.len() - i,
{
    if i == ls1.len() {
        lemma_read_shift(ls1, ls2, 0, m);
    } else {
        assert((ls1 + ls2)[i as int] == ls1[i as int]);
        match crate::textfile::spec_line_effect(m, ls1[i as int]) {
            Ok(m2) => {
                lemma_read_append(ls1, ls2, i + 1, m2);
            },
            Err(_) => {
                assert(false);
            },
        }
    }
}

/// Every bit of the plane holds either its source value or is still
/// clear: the shape an in-progress restore always has.
pub open spec fn restoring(m: Seq<bool>, b: TestBitstream) -> bool {
    m.len() == 256 && forall|k: int| 0 <= k < 256 ==> (m[k] == b.bits@[k] || !m[k])
}

/// Reading the writer's line group for one field restores exactly that
/// field's bits.
proof fn lemma_field_group_read(acc: PropertyAccessorDyn, b: TestBitstream, m: Seq<bool>)
    requires
        acc.wf(),
        b.wf(),
        restoring(m, b),
    ensures
        ({
            let lines = crate::textfile::spec_maybe_line(
                b,
                acc,
                tile_seg(tile_of(acc)) + "."@,
                field_name_of(acc),
            );
            let (m2, err) = crate::textfile::spec_read(lines, 0, m);
            &&& err is None
            &&& m2.len() == 256
            &&& forall|k: int| 0 <= k < 256 ==> m2[k] == (if owns_idx(acc, k) {
                b.bits@[k]
            } else {
                m[k]
            })
        }),
{
    lemma_field_path(acc);
    let prefix = tile_seg(tile_of(acc)) + "."@;
    let lines = crate::textfile::spec_maybe_line(b, acc, prefix, field_name_of(acc));
    if acc.spec_is_at_default(&b) {
        lemma_default_zero(acc, b);
        assert(lines.len() == 0);
        assert(crate::textfile::spec_read(lines, 0, m) == (m, None::<(nat, Seq<char>)>));
        assert forall|k: int| 0 <= k < 256 implies m[k] == (if owns_idx(acc, k) {
            b.bits@[k]
        } else {
            m[k]
        }) by {
            if owns_idx(acc, k) {
                assert(!b.bits@[k]);
                assert(m[k] == b.bits@[k] || !m[k]);
            }
        }
    } else {
        let line = crate::textfile::spec_full_name(
            prefix,
            field_name_of(acc),
            crate::textfile::spec_acc_pieces(acc),
        ) + " = "@ + acc.spec_value_string(&b);
        assert(lines =~= seq![line]);
        assert(line =~= field_line(acc, b));
        lemma_line_effect(acc, b, m);
        lemma_apply_value(acc, b, m);
        let m2 = crate::textfile::spec_apply(acc, m, value_of(acc, b));
        assert(crate::textfile::spec_read(lines, 1, m2) == (m2, None::<(nat, Seq<char>)>));
    }
}

/// Reading the `property_two` line group of a tile from `n` on restores
/// exactly those bits.
proof fn lemma_two_group_read(b: TestBitstream, t: Tile, m: Seq<bool>, n: nat)
    requires
        b.wf(),
        t.x < 4,
        t.y < 4,
        n <= 4,
        restoring(m, b),
    ensures
        ({
            let lines = crate::textfile::spec_two_lines(b, t, tile_seg(t) + "."@, n);
            let (m2, err) = crate::textfile::spec_read(lines, 0, m);
            &&& err is None
            &&& restoring(m2, b)
            &&& forall|k: int| 0 <= k < 256 ==> m2[k] == (if exists|n2: int|
                n <= n2 < 4 && #[trigger] owns_idx(
                    PropertyAccessorDyn::Two(TilePropertyTwoAccessor { tile: t, n: n2 as u8 }),
                    k,
                ) {
                b.bits@[k]
            } else {
                m[k]
            })
        }),
    decreases 4 - n,
{
    let prefix = tile_seg(t) + "."@;
    if n >= 4 {
        let lines = crate::textfile::spec_two_lines(b, t, prefix, n);
        assert(lines.len() == 0);
        assert(crate::textfile::spec_read(lines, 0, m) == (m, None::<(nat, Seq<char>)>));
    } else {
        let acc = PropertyAccessorDyn::Two(TilePropertyTwoAccessor { tile: t, n: n as u8 });
        let g1 = crate::textfile::spec_maybe_line(b, acc, prefix, "property_two"@);
        let g2 = crate::textfile::spec_two_lines(b, t, prefix, n + 1);
        assert(crate::textfile::spec_two_lines(b, t, prefix, n) == g1 + g2);
        lemma_field_group_read(acc, b, m);
        let m1 = crate::textfile::spec_read(g1, 0, m).0;
        lemma_two_group_read(b, t, m1, n + 1);
        lemma_read_append(g1, g2, 0, m);
        let m2 = crate::textfile::spec_read(g1 + g2, 0, m).0;
        assert forall|k: int| 0 <= k < 256 implies m2[k] == (if exists|n2: int|
            n <= n2 < 4 && #[trigger] owns_idx(
                PropertyAccessorDyn::Two(TilePropertyTwoAccessor { tile: t, n: n2 as u8 }),
                k,
            ) {
            b.bits@[k]
        } else {
            m[k]
        }) by {
            if owns_idx(acc, k) {
                assert(n <= (n as int) && (n as int) < 4);
            }
        }
    }
}

/// Reading the lines one tile wrote restores exactly that tile's bits.
proof fn lemma_tile_read(b: TestBitstream, t: Tile, m: Seq<bool>)
    requires
        b.wf(),
        t.x < 4,
        t.y < 4,
        restoring(m, b),
    ensures
        ({
            let lines = crate::textfile::spec_tile_lines(b, t, tile_seg(t) + "."@);
            let (m2, err) = crate::textfile::spec_read(lines, 0, m);
            &&& err is None
            &&& restoring(m2, b)
            &&& forall|k: int| 0 <= k < 256 ==> m2[k] == (if owned_by_tile(t, k) {
                b.bits@[k]
            } else {
                m[k]
            })
        }),
{
    let prefix = tile_seg(t) + "."@;
    let a1 = PropertyAccessorDyn::One(TilePropertyOneAccessor { tile: t });
    let a3 = PropertyAccessorDyn::Three(TilePropertyThreeAccessor { tile: t });
    let a4 = PropertyAccessorDyn::Four(TilePropertyFourAccessor { tile: t });
    let g1 = crate::textfile::spec_maybe_line(b, a1, prefix, "property_one"@);
    let g2 = crate::textfile::spec_two_lines(b, t, prefix, 0);
    let g3 = crate::textfile::spec_maybe_line(b, a3, prefix, "property_three"@);
    let g4 = crate::textfile::spec_maybe_line(b, a4, prefix, "property_four"@);
    assert(crate::textfile::spec_tile_lines(b, t, prefix) == g1 + g2 + g3 + g4);
    lemma_field_group_read(a1, b, m);
    let m1 = crate::textfile::spec_read(g1, 0, m).0;
    lemma_two_group_read(b, t, m1, 0);
    let m2 = crate::textfile::spec_read(g2, 0, m1).0;
    lemma_field_group_read(a3, b, m2);
    let m3 = crate::textfile::spec_read(g3, 0, m2).0;
    lemma_field_group_read(a4, b, m3);
    let m4 = crate::textfile::spec_read(g4, 0, m3).0;
    lemma_read_append(g3, g4, 0, m2);
    assert(crate::textfile::spec_read(g3 + g4, 0, m2).0 == m4);
    lemma_read_append(g2, g3 + g4, 0, m1);
    assert(g2 + (g3 + g4) =~= (g2 + g3) + g4);
    assert(crate::textfile::spec_read(g2 + g3 + g4, 0, m1).0 == m4) by {
        assert(g2 + g3 + g4 =~= g2 + (g3 + g4));
    }
    lemma_read_append(g1, g2 + g3 + g4, 0, m);
    assert(g1 + (g2 + g3 + g4) =~= g1 + g2 + g3 + g4);
    let whole = crate::textfile::spec_read(g1 + g2 + g3 + g4, 0, m);
    assert(whole.0 == m4 && whole.1 is None) by {
        assert(g1 + g2 + g3 + g4 =~= g1 + (g2 + g3 + g4));
    }
    assert forall|k: int| 0 <= k < 256 implies m4[k] == (if owned_by_tile(t, k) {
        b.bits@[k]
    } else {
        m[k]
    }) by {
        let cx = k % 16;
        let cy = k / 16;
        let tx = t.x as int * 4;
        let ty = t.y as int * 4;
        if owned_by_tile(t, k) {
            if ty <= cy < ty + 2 {
                assert(owns_idx(a1, k));
            } else if cy == ty + 2 {
                let n2 = cx - tx;
                assert(owns_idx(
                    PropertyAccessorDyn::Two(TilePropertyTwoAccessor { tile: t, n: n2 as u8 }),
                    k,
                ));
            } else {
                assert(cy == ty + 3);
                if cx == tx {
                    assert(owns_idx(a3, k));
                } else {
                    assert(cx == tx + 1);
                    assert(owns_idx(a4, k));
                }
            }
        } else {
            assert(!owns_idx(a1, k));
            assert(!owns_idx(a3, k));
            assert(!owns_idx(a4, k));
            assert(forall|n2: int| 0 <= n2 < 4 ==> !(#[trigger] owns_idx(
                PropertyAccessorDyn::Two(TilePropertyTwoAccessor { tile: t, n: n2 as u8 }),
                k,
            )));
        }
    }
}

/// Whether plane index `k` belongs to any field of the tile.
pub open spec fn owned_by_tile(t: Tile, k: int) -> bool {
    let cx = k % 16;
    let cy = k / 16;
    let tx = t.x as int * 4;
    let ty = t.y as int * 4;
    tx <= cx < tx + 4 && ty <= cy < ty + 4 && (cy - ty < 3 || cx - tx < 2)
}

/// Reading the lines of the tiles from `i` on restores their bits.
proof fn lemma_root_read(b: TestBitstream, m: Seq<bool>, i: nat)
    requires
        b.wf(),
        i <= 16,
        restoring(m, b),
    ensures
        ({
            let lines = crate::textfile::spec_root_tiles(b, Seq::empty(), i);
            let (m2, err) = crate::textfile::spec_read(lines, 0, m);
            &&& err is None
            &&& restoring(m2, b)
            &&& forall|k: int| 0 <= k < 256 ==> m2[k] == (if exists|j: int|
                i <= j < 16 && #[trigger] owned_by_tile(Tile { x: (j % 4) as u8, y: (j / 4) as u8 }, k) {
                b.bits@[k]
            } else {
                m[k]
            })
        }),
    decreases 16 - i,
{
    if i >= 16 {
        let lines = crate::textfile::spec_root_tiles(b, Seq::empty(), i);
        assert(lines.len() == 0);
        assert(crate::textfile::spec_read(lines, 0, m) == (m, None::<(nat, Seq<char>)>));
    } else {
        let t = Tile { x: (i as int % 4) as u8, y: (i as int / 4) as u8 };
        lemma_tile_seg(t);
        let g1 = crate::textfile::spec_tile_lines(b, t, tile_seg(t) + "."@);
        let g2 = crate::textfile::spec_root_tiles(b, Seq::empty(), i + 1);
        assert(crate::textfile::spec_root_tiles(b, Seq::empty(), i) == g1 + g2) by {
            assert(crate::textfile::spec_full_name(
                Seq::empty(),
                "tile"@,
                crate::textfile::spec_level_pieces(HumanLevelDynamicAccessor::Tile(t)),
            ) + "."@ == tile_seg(t) + "."@);
        }
        lemma_tile_read(b, t, m);
        let m1 = crate::textfile::spec_read(g1, 0, m).0;
        lemma_root_read(b, m1, i + 1);
        lemma_read_append(g1, g2, 0, m);
        let m2 = crate::textfile::spec_read(g1 + g2, 0, m).0;
        assert forall|k: int| 0 <= k < 256 implies m2[k] == (if exists|j: int|
            i <= j < 16 && #[trigger] owned_by_tile(Tile { x: (j % 4) as u8, y: (j / 4) as u8 }, k) {
            b.bits@[k]
        } else {
            m[k]
        }) by {
            if owned_by_tile(t, k) {
                assert(i <= (i as int) && (i as int) < 16 && owned_by_tile(
                    Tile { x: (i as int % 4) as u8, y: (i as int / 4) as u8 },
                    k,
                ));
            }
        }
    }
}

/// The round-trip law: reading the written document into a zeroed
/// bitstream of the same shape succeeds, and reproduces every property
/// reachable through the hierarchy bit for bit.
pub proof fn lemma_write_read_round_trip(b: TestBitstream, z: TestBitstream)
    requires
        b.wf(),
        z.wf(),
        forall|k: int| 0 <= k < 256 ==> !z.bits@[k],
    ensures
        ({
            let (m2, err) = crate::textfile::spec_read(
                crate::textfile::spec_write_doc(b),
                0,
                z.bits@,
            );
            &&& err is None
            &&& forall|acc: PropertyAccessorDyn| acc.wf() ==> acc_bits_m(acc, m2) == acc_bits_m(
                acc,
                b.bits@,
            )
        }),
{
    lemma_root_read(b, z.bits@, 0);
    let doc = crate::textfile::spec_write_doc(b);
    assert(doc == crate::textfile::spec_root_tiles(b, Seq::empty(), 0));
    let (m2, err) = crate::textfile::spec_read(doc, 0, z.bits@);
    assert forall|acc: PropertyAccessorDyn| acc.wf() implies acc_bits_m(acc, m2) == acc_bits_m(
        acc,
        b.bits@,
    ) by {
        let t = tile_of(acc);
        let j = t.y as int * 4 + t.x as int;
        assert(0 <= j < 16);
        assert((Tile { x: (j % 4) as u8, y: (j / 4) as u8 }) == t);
        assert forall|k: int| 0 <= k < 256 && owns_idx(acc, k) implies m2[k] == b.bits@[k] by {
            assert(owned_by_tile(t, k));
        }
        match acc {
            PropertyAccessorDyn::One(a) => {
                assert forall|i: int| 0 <= i < 8 implies acc_bits_m(acc, m2)[i] == acc_bits_m(
                    acc,
                    b.bits@,
                )[i] by {
                    let c = a.spec_bit_pos(i).0;
                    let k = c.y as int * 16 + c.x as int;
                    assert(owns_idx(acc, k));
                }
                assert(acc_bits_m(acc, m2) =~= acc_bits_m(acc, b.bits@));
            },
            PropertyAccessorDyn::Two(a) => {
                let c = a.spec_bit_pos(0).0;
                let k = c.y as int * 16 + c.x as int;
                assert(owns_idx(acc, k));
                assert(acc_bits_m(acc, m2) =~= acc_bits_m(acc, b.bits@));
            },
            PropertyAccessorDyn::Three(a) => {
                let c = a.spec_bit_pos(0).0;
                let k = c.y as int * 16 + c.x as int;
                assert(owns_idx(acc, k));
                assert(acc_bits_m(acc, m2) =~= acc_bits_m(acc, b.bits@));
            },
            PropertyAccessorDyn::Four(a) => {
                let c = a.spec_bit_pos(0).0;
                let k = c.y as int * 16 + c.x as int;
                assert(owns_idx(acc, k));
                assert(acc_bits_m(acc, m2) =~= acc_bits_m(acc, b.bits@));
            },
        }
    }
}

/// An all-default bitstream serializes to an empty document.
pub proof fn lemma_all_default_empty_doc(b: TestBitstream)
    requires
        b.wf(),
        forall|k: int| 0 <= k < 256 ==> !b.bits@[k],
    ensures
        crate::textfile::spec_write_doc(b).len() == 0,
{
    lemma_root_tiles_empty(b, 0);
}

proof fn lemma_maybe_line_empty(b: TestBitstream, acc: PropertyAccessorDyn, prefix: Seq<char>)
    requires
        b.wf(),
        acc.wf(),
        forall|k: int| 0 <= k < 256 ==> !b.bits@[k],
    ensures
        crate::textfile::spec_maybe_line(b, acc, prefix, field_name_of(acc)).len() == 0,
{
    lemma_default_zero(acc, b);
    assert(acc.spec_is_at_default(&b));
}

proof fn lemma_two_lines_empty(b: TestBitstream, t: Tile, prefix: Seq<char>, n: nat)
    requires
        b.wf(),
        t.x < 4,
        t.y < 4,
        forall|k: int| 0 <= k < 256 ==> !b.bits@[k],
    ensures
        crate::textfile::spec_two_lines(b, t, prefix, n).len() == 0,
    decreases 4 - n,
{
    if n < 4 {
        let acc = PropertyAccessorDyn::Two(TilePropertyTwoAccessor { tile: t, n: n as u8 });
        lemma_maybe_line_empty(b, acc, prefix);
        lemma_two_lines_empty(b, t, prefix, n + 1);
    }
}

proof fn lemma_root_tiles_empty(b: TestBitstream, i: nat)
    requires
        b.wf(),
        forall|k: int| 0 <= k < 256 ==> !b.bits@[k],
    ensures
        crate::textfile::spec_root_tiles(b, Seq::empty(), i).len() == 0,
    decreases 16 - i,
{
    if i < 16 {
        let t = Tile { x: (i as int % 4) as u8, y: (i as int / 4) as u8 };
        let prefix = crate::textfile::spec_full_name(
            Seq::empty(),
            "tile"@,
            crate::textfile::spec_level_pieces(HumanLevelDynamicAccessor::Tile(t)),
        ) + "."@;
        lemma_maybe_line_empty(b, PropertyAccessorDyn::One(TilePropertyOneAccessor { tile: t }), prefix);
        lemma_two_lines_empty(b, t, prefix, 0);
        lemma_maybe_line_empty(
            b,
            PropertyAccessorDyn::Three(TilePropertyThreeAccessor { tile: t }),
            prefix,
        );
        lemma_maybe_line_empty(
            b,
            PropertyAccessorDyn::Four(TilePropertyFourAccessor { tile: t }),
            prefix,
        );
        lemma_root_tiles_empty(b, i + 1);
    }
}

} // verus!
