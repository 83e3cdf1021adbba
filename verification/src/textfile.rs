//! The line-oriented human-readable text format: `path = value` lines,
//! read and written against the hierarchy.
//!
//! `path` is a dot-separated list of segments, each `name` or
//! `name[arg0, arg1, ...]` (an argument may be written `label=value`;
//! the label is ignored). All but the last segment name sublevels; the
//! last names a field. Blank lines and lines starting `#` or `-` are
//! ignored. Reading is strictly sequential: the first offending line
//! aborts with a 1-based line number and leaves the writes of earlier
//! lines applied (per-line atomicity, not whole-document atomicity).

use vstd::prelude::*;
use crate::bit_access::{BitArray, Coordinate};
use crate::hierarchy::{TestBitstream, Tile};
use crate::human_text::{PropertyAccessorDyn, HumanLevelDynamicAccessor};
use crate::property::{PropertyLeaf, PropertyLeafWithStringConv, PropertyAccessor};
use crate::strconv::{
    str_chars, chars_string, chars_eq, chars_subrange, trim, spec_trim, find_char, spec_find,
    lemma_spec_find, rfind_char, spec_rfind, lemma_spec_rfind,
};

verus! {

/// A text-document error: the 1-based line it arose on, and what went
/// wrong there.
#[derive(Debug, Clone, PartialEq, Eq)]
pub struct ParseError {
    pub line: usize,
    pub message: String,
}

/// Split one path segment into its bare name and its argument strings:
/// `name` gives no arguments, `name[a, b=c]` gives the trimmed argument
/// values (`a` and `c`); a `[` without a closing `]` at the very end is
/// malformed.
pub open spec fn spec_get_args(s: Seq<char>) -> Option<(Seq<char>, Seq<Seq<char>>)> {
    match spec_find(s, 0, '[') {
        None => Some((s, Seq::empty())),
        Some(k) => {
            let ident = s.subrange(0, k as int);
            let args_part = s.subrange(k + 1 as int, s.len() as int);
            if args_part.len() == 0 || args_part.last() != ']' {
                None
            } else {
                Some((ident, split_commas(args_part.drop_last()).map_values(|a: Seq<char>| spec_clean_arg(a))))
            }
        },
    }
}

/// Split on every comma; an empty string is one empty piece.
pub open spec fn split_commas(s: Seq<char>) -> Seq<Seq<char>>
    decreases s.len(),
{
    match spec_find(s, 0, ',') {
        None => seq![s],
        Some(k) => if k < s.len() {
            seq![s.subrange(0, k as int)] + split_commas(s.subrange(k + 1 as int, s.len() as int))
        } else {
            seq![s]
        },
    }
}

/// Trim an argument and drop an optional `label=` prefix.
pub open spec fn spec_clean_arg(a: Seq<char>) -> Seq<char> {
    let t = spec_trim(a);
    match spec_find(t, 0, '=') {
        Some(k) => spec_trim(t.subrange(k + 1 as int, t.len() as int)),
        None => t,
    }
}

fn clean_arg(a: &Vec<char>) -> (r: Vec<char>)
    ensures
        r@ == spec_clean_arg(a@),
{
    let t = trim(a);
    let tn = t.len();
    match find_char(&t, 0, '=') {
        Some(k) => {
            proof {
                lemma_spec_find(t@, 0, '=');
                assert(k < tn);
            }
            let rest = chars_subrange(&t, k + 1, tn);
            trim(&rest)
        },
        None => t,
    }
}

/// Split one path segment into its bare name and cleaned arguments.
#[verifier::loop_isolation(false)]
pub fn get_args(level: &Vec<char>) -> (r: Result<(Vec<char>, Vec<String>), ()>)
    ensures
        match r {
            Ok((ident, args)) => Some((ident@, args.deep_view())) == spec_get_args(level@),
            Err(_) => spec_get_args(level@).is_none(),
        },
{
    let n = level.len();
    let k = match find_char(level, 0, '[') {
        None => {
            let ident = chars_subrange(level, 0, n);
            let args: Vec<String> = Vec::new();
            proof {
                assert(ident@ =~= level@);
                assert(args.deep_view() =~= Seq::<Seq<char>>::empty());
            }
            return Ok((ident, args));
        },
        Some(k) => k,
    };
    proof {
        lemma_spec_find(level@, 0, '[');
        assert(k < n);
    }
    let ident = chars_subrange(level, 0, k);
    let args_part = chars_subrange(level, k + 1, n);
    if args_part.len() == 0 || args_part[args_part.len() - 1] != ']' {
        return Err(());
    }
    let inner = chars_subrange(&args_part, 0, args_part.len() - 1);
    proof {
        assert(inner@ =~= level@.subrange(k + 1 as int, n as int).drop_last());
    }
    let mut args: Vec<String> = Vec::new();
    let mut rest = inner;
    loop
        invariant
            split_commas(level@.subrange(k + 1 as int, n as int).drop_last()).map_values(
                |a: Seq<char>| spec_clean_arg(a),
            ) =~= args.deep_view() + split_commas(rest@).map_values(
                |a: Seq<char>| spec_clean_arg(a),
            ),
        decreases rest@.len() + 1,
    {
        let rn = rest.len();
        match find_char(&rest, 0, ',') {
            None => {
                let cleaned = clean_arg(&rest);
                args.push(chars_string(&cleaned));
                proof {
                    assert(split_commas(rest@) =~= seq![rest@]);
                    assert(args.deep_view() =~= args.deep_view().drop_last().push(spec_clean_arg(rest@)));
                    assert(args.deep_view() =~= split_commas(
                        level@.subrange(k + 1 as int, n as int).drop_last(),
                    ).map_values(|a: Seq<char>| spec_clean_arg(a)));
                }
                return Ok((ident, args));
            },
            Some(c) => {
                proof {
                    lemma_spec_find(rest@, 0, ',');
                    assert(c < rn);
                }
                let piece = chars_subrange(&rest, 0, c);
                let cleaned = clean_arg(&piece);
                args.push(chars_string(&cleaned));
                let new_rest = chars_subrange(&rest, c + 1, rn);
                proof {
                    assert(split_commas(rest@) =~= seq![rest@.subrange(0, c as int)]
                        + split_commas(rest@.subrange(c + 1 as int, rn as int)));
                }
                rest = new_rest;
            },
        }
    }
}

/// Which sublevel a bare segment name resolves to at a level: the index
/// into the level's sublevel names, by exact match.
pub open spec fn spec_sublevel_index(level: HumanLevelDynamicAccessor, name: Seq<char>) -> Option<
    nat,
> {
    match level {
        HumanLevelDynamicAccessor::Root => if name == "tile"@ {
            Some(0nat)
        } else {
            None
        },
        HumanLevelDynamicAccessor::Tile(_) => None,
    }
}

/// Which field a bare segment name resolves to at a level.
pub open spec fn spec_field_index(level: HumanLevelDynamicAccessor, name: Seq<char>) -> Option<
    nat,
> {
    match level {
        HumanLevelDynamicAccessor::Root => None,
        HumanLevelDynamicAccessor::Tile(_) => if name == "property_one"@ {
            Some(0nat)
        } else if name == "property_two"@ {
            Some(1nat)
        } else if name == "property_three"@ {
            Some(2nat)
        } else if name == "property_four"@ {
            Some(3nat)
        } else {
            None
        },
    }
}

fn sublevel_index(level: &HumanLevelDynamicAccessor, name: &Vec<char>) -> (r: Option<usize>)
    ensures
        match r {
            Some(i) => Some(i as nat) == spec_sublevel_index(*level, name@),
            None => spec_sublevel_index(*level, name@).is_none(),
        },
{
    match level {
        HumanLevelDynamicAccessor::Root => {
            if chars_eq(name, &str_chars("tile")) {
                Some(0)
            } else {
                None
            }
        },
        HumanLevelDynamicAccessor::Tile(_) => None,
    }
}

fn field_index(level: &HumanLevelDynamicAccessor, name: &Vec<char>) -> (r: Option<usize>)
    ensures
        match r {
            Some(i) => Some(i as nat) == spec_field_index(*level, name@),
            None => spec_field_index(*level, name@).is_none(),
        },
{
    match level {
        HumanLevelDynamicAccessor::Root => None,
        HumanLevelDynamicAccessor::Tile(_) => {
            if chars_eq(name, &str_chars("property_one")) {
                Some(0)
            } else if chars_eq(name, &str_chars("property_two")) {
                Some(1)
            } else if chars_eq(name, &str_chars("property_three")) {
                Some(2)
            } else if chars_eq(name, &str_chars("property_four")) {
                Some(3)
            } else {
                None
            }
        },
    }
}

/// What writing the parsed value of `value` through the accessor does to
/// the 256-bit plane, as a pointwise function: the accessor's bits take
/// the encoded value, every other bit keeps its old value.
pub open spec fn spec_apply(acc: PropertyAccessorDyn, m: Seq<bool>, value: Seq<char>) -> Seq<
    bool,
> {
    match acc {
        PropertyAccessorDyn::One(a) => {
            let bits = <u8 as PropertyLeafWithStringConv<
                crate::hierarchy::TilePropertyOneAccessor,
            >>::spec_from_string(value, &a).unwrap().spec_to_bits();
            Seq::new(m.len(), |k: int| {
                let cx = k % 16;
                let cy = k / 16;
                let tx = a.tile.x as int * 4;
                let ty = a.tile.y as int * 4;
                if m.len() == 256 && tx <= cx < tx + 4 && ty <= cy < ty + 2 {
                    bits[(cx - tx) + 4 * (cy - ty)]
                } else {
                    m[k]
                }
            })
        },
        PropertyAccessorDyn::Two(a) => {
            let bits = <bool as PropertyLeafWithStringConv<
                crate::hierarchy::TilePropertyTwoAccessor,
            >>::spec_from_string(value, &a).unwrap().spec_to_bits();
            apply_single_bit(m, a.spec_bit_pos(0).0, bits[0])
        },
        PropertyAccessorDyn::Three(a) => {
            let bits = <crate::hierarchy::CustomBool as PropertyLeafWithStringConv<
                crate::hierarchy::TilePropertyThreeAccessor,
            >>::spec_from_string(value, &a).unwrap().spec_to_bits();
            apply_single_bit(m, a.spec_bit_pos(0).0, bits[0])
        },
        PropertyAccessorDyn::Four(a) => {
            let bits = <crate::hierarchy::CustomBool as PropertyLeafWithStringConv<
                crate::hierarchy::TilePropertyFourAccessor,
            >>::spec_from_string(value, &a).unwrap().spec_to_bits();
            apply_single_bit(m, a.spec_bit_pos(0).0, bits[0])
        },
    }
}

/// Write one bit of the plane, pointwise.
pub open spec fn apply_single_bit(m: Seq<bool>, c: Coordinate, v: bool) -> Seq<bool> {
    Seq::new(m.len(), |k: int| if m.len() == 256 && c.x < 16 && c.y < 16
        && k == c.y as int * 16 + c.x as int {
        v
    } else {
        m[k]
    })
}

/// The relational set effect pins the new plane down to `spec_apply`.
proof fn lemma_apply_set(
    acc: PropertyAccessorDyn,
    old_b: TestBitstream,
    new_b: TestBitstream,
    value: Seq<char>,
)
    requires
        acc.wf(),
        old_b.wf(),
        new_b.wf(),
        acc.spec_set_ok(value),
        acc.spec_set_relation(old_b, new_b, value),
    ensures
        new_b.bits@ == spec_apply(acc, old_b.bits@, value),
{
    match acc {
        PropertyAccessorDyn::One(a) => {
            let bits = <u8 as PropertyLeafWithStringConv<
                crate::hierarchy::TilePropertyOneAccessor,
            >>::spec_from_string(value, &a).unwrap().spec_to_bits();
            let tgt = spec_apply(acc, old_b.bits@, value);
            assert forall|k: int| 0 <= k < 256 implies new_b.bits@[k] == tgt[k] by {
                let cx = k % 16;
                let cy = k / 16;
                let tx = a.tile.x as int * 4;
                let ty = a.tile.y as int * 4;
                let c = Coordinate { x: cx as usize, y: cy as usize };
                assert(new_b.spec_get(c) == new_b.bits@[k]);
                assert(old_b.spec_get(c) == old_b.bits@[k]);
                if tx <= cx < tx + 4 && ty <= cy < ty + 2 {
                    let i = (cx - tx) + 4 * (cy - ty);
                    assert(0 <= i < 8);
                    assert(a.spec_bit_pos(i).0 == c);
                    assert(new_b.spec_get(a.spec_bit_pos(i).0) == (bits[i] != a.spec_bit_pos(i).1));
                } else {
                    assert forall|i: int| 0 <= i < 8 implies c != (#[trigger] a.spec_bit_pos(i)).0 by {
                        assert(a.spec_bit_pos(i).0.x == tx + i % 4);
                        assert(a.spec_bit_pos(i).0.y == ty + i / 4);
                    }
                }
            }
            assert(new_b.bits@ =~= tgt);
        },
        PropertyAccessorDyn::Two(a) => {
            lemma_apply_set_single(old_b, new_b, a.spec_bit_pos(0).0,
                <bool as PropertyLeafWithStringConv<
                    crate::hierarchy::TilePropertyTwoAccessor,
                >>::spec_from_string(value, &a).unwrap().spec_to_bits());
        },
        PropertyAccessorDyn::Three(a) => {
            lemma_apply_set_single(old_b, new_b, a.spec_bit_pos(0).0,
                <crate::hierarchy::CustomBool as PropertyLeafWithStringConv<
                    crate::hierarchy::TilePropertyThreeAccessor,
                >>::spec_from_string(value, &a).unwrap().spec_to_bits());
        },
        PropertyAccessorDyn::Four(a) => {
            lemma_apply_set_single(old_b, new_b, a.spec_bit_pos(0).0,
                <crate::hierarchy::CustomBool as PropertyLeafWithStringConv<
                    crate::hierarchy::TilePropertyFourAccessor,
                >>::spec_from_string(value, &a).unwrap().spec_to_bits());
        },
    }
}

proof fn lemma_apply_set_single(
    old_b: TestBitstream,
    new_b: TestBitstream,
    c: Coordinate,
    bits: Seq<bool>,
)
    requires
        old_b.wf(),
        new_b.wf(),
        c.x < 16,
        c.y < 16,
        new_b.spec_get(c) == bits[0],
        forall|c2: Coordinate| c2 != c ==> new_b.spec_get(c2) == old_b.spec_get(c2),
    ensures
        new_b.bits@ == apply_single_bit(old_b.bits@, c, bits[0]),
{
    let tgt = apply_single_bit(old_b.bits@, c, bits[0]);
    assert forall|k: int| 0 <= k < 256 implies new_b.bits@[k] == tgt[k] by {
        let c2 = Coordinate { x: (k % 16) as usize, y: (k / 16) as usize };
        assert(new_b.spec_get(c2) == new_b.bits@[k]);
        assert(old_b.spec_get(c2) == old_b.bits@[k]);
        if c2 == c {
            assert(k == c.y as int * 16 + c.x as int);
        } else {
            assert(k != c.y as int * 16 + c.x as int);
        }
    }
    assert(new_b.bits@ =~= tgt);
}

/// What resolving and applying one `path = value` assignment from a
/// level does to the plane, or the error message it stops with.
pub open spec fn spec_walk(
    level: HumanLevelDynamicAccessor,
    property: Seq<char>,
    value: Seq<char>,
    m: Seq<bool>,
) -> Result<Seq<bool>, Seq<char>>
    decreases property.len(),
{
    match spec_find(property, 0, '.') {
        Some(d) => if d < property.len() {
            let seg = property.subrange(0, d as int);
            let rest = property.subrange(d + 1 as int, property.len() as int);
            match spec_get_args(seg) {
                None => Err("unclosed brackets"@),
                Some((ident, args)) => match spec_sublevel_index(level, ident) {
                    None => Err("'"@ + ident + "' is not valid"@),
                    Some(idx) => match level.spec_descend_sublevel(idx, args) {
                        None => Err("arg was malformed"@),
                        Some(l2) => spec_walk(l2, rest, value, m),
                    },
                },
            }
        } else {
            Err(Seq::empty())
        },
        None => match spec_get_args(property) {
            None => Err("unclosed brackets"@),
            Some((ident, args)) => match spec_field_index(level, ident) {
                None => Err("'"@ + ident + "' is not valid"@),
                Some(idx) => match level.spec_construct_field(idx, args) {
                    None => Err("arg was malformed"@),
                    Some(acc) => if acc.spec_set_ok(value) {
                        Ok(spec_apply(acc, m, value))
                    } else {
                        Err("value was malformed"@)
                    },
                },
            },
        },
    }
}

/// Resolve a dot-separated path from a level and apply the assignment.
fn walk(
    level: &HumanLevelDynamicAccessor,
    property: &Vec<char>,
    value: &String,
    b: &mut TestBitstream,
) -> (r: Result<(), String>)
    requires
        level.wf(),
        old(b).wf(),
    ensures
        final(b).wf(),
        match r {
            Ok(_) => spec_walk(*level, property@, value@, old(b).bits@)
                == Ok::<Seq<bool>, Seq<char>>(final(b).bits@),
            Err(msg) => spec_walk(*level, property@, value@, old(b).bits@)
                == Err::<Seq<bool>, Seq<char>>(msg@) && *final(b) == *old(b),
        },
    decreases property@.len(),
{
    let pn = property.len();
    match find_char(property, 0, '.') {
        Some(d) => {
            proof {
                lemma_spec_find(property@, 0, '.');
                assert(d < pn);
            }
            let seg = chars_subrange(property, 0, d);
            let rest = chars_subrange(property, d + 1, pn);
            let (ident, args) = match get_args(&seg) {
                Ok(x) => x,
                Err(_) => {
                    return Err(String::from_str("unclosed brackets"));
                },
            };
            let idx = match sublevel_index(level, &ident) {
                Some(i) => i,
                None => {
                    let mut msg = str_chars("'");
                    let mut id2 = ident;
                    msg.append(&mut id2);
                    let mut tail = str_chars("' is not valid");
                    msg.append(&mut tail);
                    proof {
                        assert(msg@ =~= "'"@ + ident@ + "' is not valid"@);
                    }
                    return Err(chars_string(&msg));
                },
            };
            let l2 = match level._human_descend_sublevel(idx, &args) {
                Ok(l2) => l2,
                Err(_) => {
                    return Err(String::from_str("arg was malformed"));
                },
            };
            walk(&l2, &rest, value, b)
        },
        None => {
            let (ident, args) = match get_args(property) {
                Ok(x) => x,
                Err(_) => {
                    return Err(String::from_str("unclosed brackets"));
                },
            };
            let idx = match field_index(level, &ident) {
                Some(i) => i,
                None => {
                    let mut msg = str_chars("'");
                    let mut id2 = ident;
                    msg.append(&mut id2);
                    let mut tail = str_chars("' is not valid");
                    msg.append(&mut tail);
                    proof {
                        assert(msg@ =~= "'"@ + ident@ + "' is not valid"@);
                    }
                    return Err(chars_string(&msg));
                },
            };
            let acc = match level._human_construct_field(idx, &args) {
                Ok(a) => a,
                Err(_) => {
                    return Err(String::from_str("arg was malformed"));
                },
            };
            let ghost old_b = *b;
            match acc._human_string_set(b, value.as_str()) {
                Ok(_) => {
                    proof {
                        lemma_apply_set(acc, old_b, *b, value@);
                    }
                    Ok(())
                },
                Err(_) => Err(String::from_str("value was malformed")),
            }
        },
    }
}

/// What one raw input line does to the plane: nothing for a blank or
/// comment line, an assignment or an error message otherwise.
pub open spec fn spec_line_effect(m: Seq<bool>, raw: Seq<char>) -> Result<Seq<bool>, Seq<char>> {
    let l = spec_trim(raw);
    if l.len() == 0 {
        Ok(m)
    } else if l[0] == '#' || l[0] == '-' {
        Ok(m)
    } else {
        match spec_rfind(l, '=') {
            None => Err("missing '='"@),
            Some(e) => {
                let property = spec_trim(l.subrange(0, e as int));
                let value = spec_trim(l.subrange(e + 1 as int, l.len() as int));
                spec_walk(HumanLevelDynamicAccessor::Root, property, value, m)
            },
        }
    }
}

/// What reading a document does: lines are applied strictly in order;
/// the first offending line stops processing, reporting its 1-based
/// number and message, with all earlier writes still applied.
pub open spec fn spec_read(lines: Seq<Seq<char>>, i: nat, m: Seq<bool>) -> (
    Seq<bool>,
    Option<(nat, Seq<char>)>,
)
    decreases lines.len() - i,
{
    if i >= lines.len() {
        (m, None)
    } else {
        match spec_line_effect(m, lines[i as int]) {
            Ok(m2) => spec_read(lines, i + 1, m2),
            Err(msg) => (m, Some((i + 1, msg))),
        }
    }
}

/// Read a human-readable document, one entry per input line, into the
/// bitstream. Any error aborts that line with a 1-based line number and
/// message; lines processed before it have already mutated the
/// bitstream (per-line atomicity only).
#[verifier::loop_isolation(false)]
pub fn parse(lines: &Vec<String>, bitstream: &mut TestBitstream) -> (r: Result<(), ParseError>)
    requires
        old(bitstream).wf(),
    ensures
        final(bitstream).wf(),
        ({
            let (m2, err) = spec_read(lines.deep_view(), 0, old(bitstream).bits@);
            &&& final(bitstream).bits@ == m2
            &&& match r {
                Ok(_) => err.is_none(),
                Err(e) => err == Some((e.line as nat, e.message@)),
            }
        }),
{
    let ghost ls = lines.deep_view();
    let mut i: usize = 0;
    while i < lines.len()
        invariant
            i <= lines@.len(),
            bitstream.wf(),
            spec_read(ls, i as nat, bitstream.bits@) == spec_read(ls, 0, old(bitstream).bits@),
        decreases lines@.len() - i,
    {
        let lineno: usize = i + 1;
        let raw = str_chars(lines[i].as_str());
        proof {
            assert(raw@ == ls[i as int]);
        }
        let l = trim(&raw);
        if l.len() == 0 {
            i = i + 1;
            continue;
        }
        if l[0] == '#' || l[0] == '-' {
            i = i + 1;
            continue;
        }
        let ln = l.len();
        match rfind_char(&l, '=') {
            None => {
                return Err(ParseError { line: lineno, message: String::from_str("missing '='") });
            },
            Some(e) => {
                proof {
                    lemma_spec_rfind(l@, '=');
                    assert(e < ln);
                }
                let prop_part = chars_subrange(&l, 0, e);
                let property = trim(&prop_part);
                let val_part = chars_subrange(&l, e + 1, ln);
                let value_chars = trim(&val_part);
                let value = chars_string(&value_chars);
                let root = HumanLevelDynamicAccessor::Root;
                match walk(&root, &property, &value, bitstream) {
                    Ok(_) => {},
                    Err(msg) => {
                        return Err(ParseError { line: lineno, message: msg });
                    },
                }
            },
        }
        i = i + 1;
    }
    Ok(())
}

/// The bracketed, comma-joined `name=value` pieces of a tag, from
/// position `i` on.
pub open spec fn spec_pieces_str(pieces: Seq<(Seq<char>, Seq<char>)>, i: nat) -> Seq<char>
    decreases pieces.len() - i,
{
    if i >= pieces.len() {
        Seq::empty()
    } else {
        (if i == 0 {
            Seq::empty()
        } else {
            ", "@
        }) + pieces[i as int].0 + "="@ + pieces[i as int].1 + spec_pieces_str(pieces, i + 1)
    }
}

/// A full instance name: prefix, then the declared name, then the
/// bracketed state pieces (omitted if there are none).
pub open spec fn spec_full_name(
    prefix: Seq<char>,
    name: Seq<char>,
    pieces: Seq<(Seq<char>, Seq<char>)>,
) -> Seq<char> {
    if pieces.len() > 0 {
        prefix + name + "["@ + spec_pieces_str(pieces, 0) + "]"@
    } else {
        prefix + name
    }
}

/// The state pieces of a field accessor, as the writer tags them.
pub open spec fn spec_acc_pieces(acc: PropertyAccessorDyn) -> Seq<(Seq<char>, Seq<char>)> {
    match acc {
        PropertyAccessorDyn::Two(a) => seq![("n"@, crate::strconv::nat_to_dec(a.n as nat))],
        _ => Seq::empty(),
    }
}

/// The state pieces of a level instance, as the writer tags them.
pub open spec fn spec_level_pieces(level: HumanLevelDynamicAccessor) -> Seq<(Seq<char>, Seq<char>)> {
    match level {
        HumanLevelDynamicAccessor::Root => Seq::empty(),
        HumanLevelDynamicAccessor::Tile(t) => seq![
            ("x"@, crate::strconv::nat_to_dec(t.x as nat)),
            ("y"@, crate::strconv::nat_to_dec(t.y as nat)),
        ],
    }
}

/// The line the writer emits for one field instance, if its value is not
/// at the default (default-suppression).
pub open spec fn spec_maybe_line(
    b: TestBitstream,
    acc: PropertyAccessorDyn,
    prefix: Seq<char>,
    fname: Seq<char>,
) -> Seq<Seq<char>> {
    if acc.spec_is_at_default(&b) {
        Seq::empty()
    } else {
        seq![
            spec_full_name(prefix, fname, spec_acc_pieces(acc)) + " = "@
                + acc.spec_value_string(&b),
        ]
    }
}

/// The lines for the `property_two` instances of a tile, from `n` on.
pub open spec fn spec_two_lines(b: TestBitstream, t: Tile, prefix: Seq<char>, n: nat) -> Seq<
    Seq<char>,
>
    decreases 4 - n,
{
    if n >= 4 {
        Seq::empty()
    } else {
        spec_maybe_line(
            b,
            PropertyAccessorDyn::Two(crate::hierarchy::TilePropertyTwoAccessor {
                tile: t,
                n: n as u8,
            }),
            prefix,
            "property_two"@,
        ) + spec_two_lines(b, t, prefix, n + 1)
    }
}

/// The lines one tile contributes: its fields in declaration order, each
/// enumerating its instances.
pub open spec fn spec_tile_lines(b: TestBitstream, t: Tile, prefix: Seq<char>) -> Seq<Seq<char>> {
    spec_maybe_line(
        b,
        PropertyAccessorDyn::One(crate::hierarchy::TilePropertyOneAccessor { tile: t }),
        prefix,
        "property_one"@,
    ) + spec_two_lines(b, t, prefix, 0) + spec_maybe_line(
        b,
        PropertyAccessorDyn::Three(crate::hierarchy::TilePropertyThreeAccessor { tile: t }),
        prefix,
        "property_three"@,
    ) + spec_maybe_line(
        b,
        PropertyAccessorDyn::Four(crate::hierarchy::TilePropertyFourAccessor { tile: t }),
        prefix,
        "property_four"@,
    )
}

/// The lines the tiles from index `i` on contribute, in enumeration
/// order (`y` in the outer place).
pub open spec fn spec_root_tiles(b: TestBitstream, prefix: Seq<char>, i: nat) -> Seq<Seq<char>>
    decreases 16 - i,
{
    if i >= 16 {
        Seq::empty()
    } else {
        let t = Tile { x: (i % 4) as u8, y: (i / 4) as u8 };
        spec_tile_lines(
            b,
            t,
            spec_full_name(prefix, "tile"@, spec_level_pieces(HumanLevelDynamicAccessor::Tile(t)))
                + "."@,
        ) + spec_root_tiles(b, prefix, i + 1)
    }
}

/// The lines a level contributes under a prefix: sublevel instances
/// first (depth first), then its own field instances.
pub open spec fn spec_level_lines(
    b: TestBitstream,
    level: HumanLevelDynamicAccessor,
    prefix: Seq<char>,
) -> Seq<Seq<char>> {
    match level {
        HumanLevelDynamicAccessor::Root => spec_root_tiles(b, prefix, 0),
        HumanLevelDynamicAccessor::Tile(t) => spec_tile_lines(b, t, prefix),
    }
}

/// The whole document of a bitstream: every non-default property
/// reachable from the root, one line each. An all-default bitstream
/// gives an empty document.
pub open spec fn spec_write_doc(b: TestBitstream) -> Seq<Seq<char>> {
    spec_level_lines(b, HumanLevelDynamicAccessor::Root, Seq::empty())
}

/// Append `name` and the bracketed state pieces to the prefix.
fn format_sublevel_name(prefix: &Vec<char>, name: &str, pieces: &Vec<(String, String)>) -> (r:
    Vec<char>)
    ensures
        r@ == spec_full_name(
            prefix@,
            name@,
            pieces@.map_values(|p: (String, String)| (p.0@, p.1@)),
        ),
{
    let ghost ps = pieces@.map_values(|p: (String, String)| (p.0@, p.1@));
    let mut out = prefix.clone();
    proof {
        assert(out@ == prefix@);
    }
    let mut nm = str_chars(name);
    out.append(&mut nm);
    if pieces.len() == 0 {
        proof {
            assert(out@ =~= spec_full_name(prefix@, name@, ps));
        }
        return out;
    }
    let mut open = str_chars("[");
    out.append(&mut open);
    let ghost base = out@;
    let mut i: usize = 0;
    while i < pieces.len()
        invariant
            i <= pieces@.len(),
            ps == pieces@.map_values(|p: (String, String)| (p.0@, p.1@)),
            base == prefix@ + name@ + "["@,
            out@ == base + spec_pieces_take(ps, i as nat),
        decreases pieces@.len() - i,
    {
        if i != 0 {
            let mut sep = str_chars(", ");
            out.append(&mut sep);
        }
        let mut nm2 = str_chars(pieces[i].0.as_str());
        out.append(&mut nm2);
        let mut eq = str_chars("=");
        out.append(&mut eq);
        let mut vl = str_chars(pieces[i].1.as_str());
        out.append(&mut vl);
        proof {
            assert(out@ =~= base + spec_pieces_take(ps, (i + 1) as nat));
        }
        i = i + 1;
    }
    let mut close = str_chars("]");
    out.append(&mut close);
    proof {
        lemma_pieces_take_all(ps, ps.len() as nat);
        assert(out@ =~= spec_full_name(prefix@, name@, ps));
    }
    out
}

/// The joined text of the first `upto` pieces.
pub open spec fn spec_pieces_take(ps: Seq<(Seq<char>, Seq<char>)>, upto: nat) -> Seq<char>
    decreases upto,
{
    if upto == 0 {
        Seq::empty()
    } else {
        spec_pieces_take(ps, (upto - 1) as nat) + (if upto == 1 {
            Seq::<char>::empty()
        } else {
            ", "@
        }) + ps[upto - 1].0 + "="@ + ps[upto - 1].1
    }
}

/// Emit the line for one field instance, unless its value is at the
/// declared default.
fn emit_field(
    b: &TestBitstream,
    acc: &PropertyAccessorDyn,
    prefix: &Vec<char>,
    fname: &str,
    out: &mut Vec<String>,
)
    requires
        b.wf(),
        acc.wf(),
    ensures
        final(out).deep_view() == old(out).deep_view() + spec_maybe_line(*b, *acc, prefix@, fname@),
{
    if acc._human_is_at_default(b) {
        proof {
            assert(final(out).deep_view() =~~= old(out).deep_view() + spec_maybe_line(
                *b,
                *acc,
                prefix@,
                fname@,
            ));
        }
        return;
    }
    let pieces = acc._human_dump_my_state();
    proof {
        assert(pieces@.map_values(|p: (String, String)| (p.0@, p.1@)) =~= spec_acc_pieces(*acc));
    }
    let mut line = format_sublevel_name(prefix, fname, &pieces);
    let mut sep = str_chars(" = ");
    line.append(&mut sep);
    let value = acc._human_string_get(b);
    let mut vc = str_chars(value.as_str());
    line.append(&mut vc);
    out.push(chars_string(&line));
    proof {
        assert(line@ =~= spec_full_name(prefix@, fname@, spec_acc_pieces(*acc)) + " = "@
            + acc.spec_value_string(b));
        assert(final(out).deep_view() =~~= old(out).deep_view() + spec_maybe_line(
            *b,
            *acc,
            prefix@,
            fname@,
        ));
    }
}

/// How far a level stands above the leaves, for recursion.
pub open spec fn level_rank(level: HumanLevelDynamicAccessor) -> nat {
    match level {
        HumanLevelDynamicAccessor::Root => 1,
        HumanLevelDynamicAccessor::Tile(_) => 0,
    }
}

/// Depth-first walk: every sublevel instance recursively, then every
/// field instance, appending one line per non-default field.
fn write_recurse(
    b: &TestBitstream,
    level: &HumanLevelDynamicAccessor,
    prefix: &Vec<char>,
    out: &mut Vec<String>,
)
    requires
        b.wf(),
        level.wf(),
    ensures
        final(out).deep_view() == old(out).deep_view() + spec_level_lines(*b, *level, prefix@),
    decreases level_rank(*level),
{
    match level {
        HumanLevelDynamicAccessor::Root => {
            let instances = level._human_construct_all_sublevels(0);
            let mut i: usize = 0;
            while i < instances.len()
                invariant
                    b.wf(),
                    *level == HumanLevelDynamicAccessor::Root,
                    instances@.len() == 16,
                    forall|k: int| 0 <= k < 16 ==> instances@[k]
                        == HumanLevelDynamicAccessor::Tile(Tile {
                            x: (k % 4) as u8,
                            y: (k / 4) as u8,
                        }),
                    i <= 16,
                    out.deep_view() + spec_root_tiles(*b, prefix@, i as nat) =~~= old(
                        out,
                    ).deep_view() + spec_root_tiles(*b, prefix@, 0),
                decreases instances@.len() - i,
            {
                let inst = &instances[i];
                proof {
                    assert(*inst == HumanLevelDynamicAccessor::Tile(Tile {
                        x: (i as int % 4) as u8,
                        y: (i as int / 4) as u8,
                    }));
                    assert(level_rank(*inst) == 0);
                }
                let pieces = inst._human_dump_my_state();
                proof {
                    assert(pieces@.map_values(|p: (String, String)| (p.0@, p.1@))
                        =~= spec_level_pieces(*inst));
                }
                let mut full = format_sublevel_name(prefix, "tile", &pieces);
                let mut dot = str_chars(".");
                full.append(&mut dot);
                let ghost out_before = out.deep_view();
                write_recurse(b, inst, &full, out);
                proof {
                    assert(full@ =~= spec_full_name(prefix@, "tile"@, spec_level_pieces(*inst))
                        + "."@);
                    assert(out.deep_view() + spec_root_tiles(*b, prefix@, (i + 1) as nat)
                        =~~= old(out).deep_view() + spec_root_tiles(*b, prefix@, 0));
                }
                i = i + 1;
            }
            proof {
                assert(spec_root_tiles(*b, prefix@, 16).len() == 0);
                assert(out.deep_view() =~~= old(out).deep_view() + spec_level_lines(
                    *b,
                    *level,
                    prefix@,
                ));
            }
        },
        HumanLevelDynamicAccessor::Tile(t) => {
            let acc1 = PropertyAccessorDyn::One(crate::hierarchy::TilePropertyOneAccessor {
                tile: *t,
            });
            emit_field(b, &acc1, prefix, "property_one", out);
            let mut n: u8 = 0;
            while n < 4
                invariant
                    b.wf(),
                    t.x < 4 && t.y < 4,
                    n <= 4,
                    out.deep_view() + spec_two_lines(*b, *t, prefix@, n as nat) =~~= old(
                        out,
                    ).deep_view() + spec_maybe_line(
                        *b,
                        PropertyAccessorDyn::One(crate::hierarchy::TilePropertyOneAccessor {
                            tile: *t,
                        }),
                        prefix@,
                        "property_one"@,
                    ) + spec_two_lines(*b, *t, prefix@, 0),
                decreases 4 - n,
            {
                let acc2 = PropertyAccessorDyn::Two(crate::hierarchy::TilePropertyTwoAccessor {
                    tile: *t,
                    n,
                });
                emit_field(b, &acc2, prefix, "property_two", out);
                n = n + 1;
            }
            proof {
                assert(spec_two_lines(*b, *t, prefix@, 4).len() == 0);
            }
            let acc3 = PropertyAccessorDyn::Three(crate::hierarchy::TilePropertyThreeAccessor {
                tile: *t,
            });
            emit_field(b, &acc3, prefix, "property_three", out);
            let acc4 = PropertyAccessorDyn::Four(crate::hierarchy::TilePropertyFourAccessor {
                tile: *t,
            });
            emit_field(b, &acc4, prefix, "property_four", out);
            proof {
                assert(out.deep_view() =~~= old(out).deep_view() + spec_level_lines(
                    *b,
                    *level,
                    prefix@,
                ));
            }
        },
    }
}

/// Serialize every non-default property reachable through the hierarchy,
/// one `path = value` line each, in the deterministic depth-first
/// enumeration order. An all-default bitstream gives an empty document.
pub fn write(bitstream: &TestBitstream) -> (r: Vec<String>)
    requires
        bitstream.wf(),
    ensures
        r.deep_view() == spec_write_doc(*bitstream),
{
    let mut out: Vec<String> = Vec::new();
    let prefix: Vec<char> = Vec::new();
    let root = HumanLevelDynamicAccessor::Root;
    write_recurse(bitstream, &root, &prefix, &mut out);
    proof {
        assert(out.deep_view() =~~= spec_write_doc(*bitstream));
    }
    out
}

/// Joining forwards and joining from a position agree on the whole list.
proof fn lemma_pieces_take_all(ps: Seq<(Seq<char>, Seq<char>)>, k: nat)
    requires
        k <= ps.len(),
    ensures
        spec_pieces_take(ps, k) + spec_pieces_str(ps, k) == spec_pieces_str(ps, 0).take(
            spec_pieces_str(ps, 0).len() as int,
        ),
        k == ps.len() ==> spec_pieces_take(ps, k) == spec_pieces_str(ps, 0),
    decreases k,
{
    if k == 0 {
        assert(spec_pieces_take(ps, 0) + spec_pieces_str(ps, 0) =~= spec_pieces_str(ps, 0).take(
            spec_pieces_str(ps, 0).len() as int,
        ));
    } else {
        lemma_pieces_take_all(ps, (k - 1) as nat);
        assert(spec_pieces_take(ps, k) + spec_pieces_str(ps, k)
            =~= spec_pieces_take(ps, (k - 1) as nat) + spec_pieces_str(ps, (k - 1) as nat));
        if k == ps.len() {
            assert(spec_pieces_str(ps, k) =~= Seq::<char>::empty());
            assert(spec_pieces_take(ps, k) =~= spec_pieces_take(ps, k) + spec_pieces_str(ps, k));
            assert(spec_pieces_str(ps, 0).take(spec_pieces_str(ps, 0).len() as int)
                =~= spec_pieces_str(ps, 0));
        }
    }
}

} // verus!
