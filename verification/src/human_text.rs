//! Dynamic, name-driven access to the hierarchy for the human-readable
//! text layer.
//!
//! The open-ended trait-object dispatch a hierarchy generator would
//! produce is realised here as a closed tagged union of the node kinds
//! declared by the example hierarchy: every level and every field
//! accessor is one variant, and name resolution drives a static
//! registry of constructors.

use itertools::Itertools;
use vstd::prelude::*;
use crate::bit_access::{BitArray, Coordinate};
use crate::hierarchy::{TestBitstream, Tile, TilePropertyOneAccessor, TilePropertyTwoAccessor,
    TilePropertyThreeAccessor, TilePropertyFourAccessor};
use crate::property::{PropertyLeaf, PropertyAccessor, PropertyLeafWithStringConv,
    PropertyLeafWithDefault, accessor_in_bounds, accessor_injective, accessor_bits};
use crate::strconv::{str_chars, chars_string, is_dec_str, dec_str_val, dec_chars_to_u128,
    u128_to_dec_chars, nat_to_dec};

verus! {

/// One bit of hierarchy-instance state (a construction parameter),
/// convertible to and from its human-readable string form.
pub trait StatePiece: Sized {
    /// The human-readable form.
    spec fn spec_to_human(&self) -> Seq<char>;

    /// What a human-readable form parses to, if anything.
    spec fn spec_from_human(s: Seq<char>) -> Option<Self>;

    /// Render this piece of state.
    fn to_human_string(&self) -> (r: String)
        ensures
            r@ == self.spec_to_human(),
    ;

    /// Parse a piece of state.
    fn from_human_string(s: &str) -> (r: Result<Self, ()>)
        ensures
            match r {
                Ok(v) => Self::spec_from_human(s@) == Some(v),
                Err(_) => Self::spec_from_human(s@).is_none(),
            },
    ;
}

/// What a decimal parameter string parses to: a plain all-digit decimal
/// that fits the type.
pub open spec fn spec_parse_u8(s: Seq<char>) -> Option<u8> {
    if is_dec_str(s) && dec_str_val(s) <= 255 {
        Some(dec_str_val(s) as u8)
    } else {
        None
    }
}

impl StatePiece for u8 {
    open spec fn spec_to_human(&self) -> Seq<char> {
        nat_to_dec(*self as nat)
    }

    open spec fn spec_from_human(s: Seq<char>) -> Option<u8> {
        spec_parse_u8(s)
    }

    fn to_human_string(&self) -> (r: String) {
        let d = u128_to_dec_chars(*self as u128);
        chars_string(&d)
    }

    fn from_human_string(s: &str) -> (r: Result<Self, ()>) {
        let cs = str_chars(s);
        match dec_chars_to_u128(&cs) {
            Some(v) => {
                if v <= 255 {
                    Ok(v as u8)
                } else {
                    Err(())
                }
            },
            None => Err(()),
        }
    }
}

/// The closed union of all field accessors reachable in the hierarchy.
pub enum PropertyAccessorDyn {
    One(TilePropertyOneAccessor),
    Two(TilePropertyTwoAccessor),
    Three(TilePropertyThreeAccessor),
    Four(TilePropertyFourAccessor),
}

/// The set-from-string effect of an accessor on a bit array: on success
/// the accessor's bits take the encoded value, everything else is
/// untouched; shape is always preserved.
pub open spec fn accessor_set_relation<A: PropertyAccessor>(
    a: &A,
    old_b: TestBitstream,
    new_b: TestBitstream,
    v: A::Output,
) -> bool {
    &&& forall|i: int| 0 <= i < <A::Output as PropertyLeaf>::leaf_width()
        ==> new_b.spec_get((#[trigger] a.spec_bit_pos(i)).0)
            == (v.spec_to_bits()[i] != a.spec_bit_pos(i).1)
    &&& forall|c: Coordinate| (forall|i: int|
        0 <= i < <A::Output as PropertyLeaf>::leaf_width()
            ==> c != (#[trigger] a.spec_bit_pos(i)).0)
        ==> new_b.spec_get(c) == old_b.spec_get(c)
}

impl PropertyAccessorDyn {
    /// Structurally valid: the tile lies on the 4x4 grid and the bit
    /// index (if any) in its declared domain, so every bit position lies
    /// within the 16x16 plane.
    pub open spec fn wf(&self) -> bool {
        match self {
            PropertyAccessorDyn::One(a) => a.tile.x < 4 && a.tile.y < 4,
            PropertyAccessorDyn::Two(a) => a.tile.x < 4 && a.tile.y < 4 && a.n < 4,
            PropertyAccessorDyn::Three(a) => a.tile.x < 4 && a.tile.y < 4,
            PropertyAccessorDyn::Four(a) => a.tile.x < 4 && a.tile.y < 4,
        }
    }

    /// Whether this accessor covers the coordinate.
    pub open spec fn owns(&self, c: Coordinate) -> bool {
        match self {
            PropertyAccessorDyn::One(a) => exists|i: int| 0 <= i < 8 && c == (#[trigger] a.spec_bit_pos(i)).0,
            PropertyAccessorDyn::Two(a) => c == a.spec_bit_pos(0).0,
            PropertyAccessorDyn::Three(a) => c == a.spec_bit_pos(0).0,
            PropertyAccessorDyn::Four(a) => c == a.spec_bit_pos(0).0,
        }
    }

    /// The current value of the field in its string form.
    pub open spec fn spec_value_string(&self, b: &TestBitstream) -> Seq<char> {
        match self {
            PropertyAccessorDyn::One(a) => <u8 as PropertyLeaf>::spec_from_bits(
                accessor_bits(a, b),
            ).spec_to_string(a),
            PropertyAccessorDyn::Two(a) => <bool as PropertyLeaf>::spec_from_bits(
                accessor_bits(a, b),
            ).spec_to_string(a),
            PropertyAccessorDyn::Three(a) => <crate::hierarchy::CustomBool as PropertyLeaf>::spec_from_bits(
                accessor_bits(a, b),
            ).spec_to_string(a),
            PropertyAccessorDyn::Four(a) => <crate::hierarchy::CustomBool as PropertyLeaf>::spec_from_bits(
                accessor_bits(a, b),
            ).spec_to_string(a),
        }
    }

    /// Whether a value string parses for this field.
    pub open spec fn spec_set_ok(&self, s: Seq<char>) -> bool {
        match self {
            PropertyAccessorDyn::One(a) =>
                <u8 as PropertyLeafWithStringConv<TilePropertyOneAccessor>>::spec_from_string(s, a).is_some(),
            PropertyAccessorDyn::Two(a) =>
                <bool as PropertyLeafWithStringConv<TilePropertyTwoAccessor>>::spec_from_string(s, a).is_some(),
            PropertyAccessorDyn::Three(a) =>
                <crate::hierarchy::CustomBool as PropertyLeafWithStringConv<TilePropertyThreeAccessor>>::spec_from_string(s, a).is_some(),
            PropertyAccessorDyn::Four(a) =>
                <crate::hierarchy::CustomBool as PropertyLeafWithStringConv<TilePropertyFourAccessor>>::spec_from_string(s, a).is_some(),
        }
    }

    /// The set-from-string effect: what the bit array becomes when the
    /// parsed value is written through this accessor.
    pub open spec fn spec_set_relation(
        &self,
        old_b: TestBitstream,
        new_b: TestBitstream,
        s: Seq<char>,
    ) -> bool {
        match self {
            PropertyAccessorDyn::One(a) => accessor_set_relation(
                a,
                old_b,
                new_b,
                <u8 as PropertyLeafWithStringConv<TilePropertyOneAccessor>>::spec_from_string(s, a).unwrap(),
            ),
            PropertyAccessorDyn::Two(a) => accessor_set_relation(
                a,
                old_b,
                new_b,
                <bool as PropertyLeafWithStringConv<TilePropertyTwoAccessor>>::spec_from_string(s, a).unwrap(),
            ),
            PropertyAccessorDyn::Three(a) => accessor_set_relation(
                a,
                old_b,
                new_b,
                <crate::hierarchy::CustomBool as PropertyLeafWithStringConv<TilePropertyThreeAccessor>>::spec_from_string(s, a).unwrap(),
            ),
            PropertyAccessorDyn::Four(a) => accessor_set_relation(
                a,
                old_b,
                new_b,
                <crate::hierarchy::CustomBool as PropertyLeafWithStringConv<TilePropertyFourAccessor>>::spec_from_string(s, a).unwrap(),
            ),
        }
    }

    /// Whether the field currently holds its default value.
    pub open spec fn spec_is_at_default(&self, b: &TestBitstream) -> bool {
        match self {
            PropertyAccessorDyn::One(a) => <u8 as PropertyLeaf>::spec_from_bits(
                accessor_bits(a, b),
            ).spec_is_default(a),
            PropertyAccessorDyn::Two(a) => <bool as PropertyLeaf>::spec_from_bits(
                accessor_bits(a, b),
            ).spec_is_default(a),
            PropertyAccessorDyn::Three(a) => <crate::hierarchy::CustomBool as PropertyLeaf>::spec_from_bits(
                accessor_bits(a, b),
            ).spec_is_default(a),
            PropertyAccessorDyn::Four(a) => <crate::hierarchy::CustomBool as PropertyLeaf>::spec_from_bits(
                accessor_bits(a, b),
            ).spec_is_default(a),
        }
    }

    /// Every bit position of a well-formed accessor lies in a well-formed
    /// bitstream, and its positions are pairwise distinct.
    pub proof fn lemma_wf_bounds(&self, b: &TestBitstream)
        requires
            self.wf(),
            b.wf(),
        ensures
            match self {
                PropertyAccessorDyn::One(a) => accessor_in_bounds(a, b) && accessor_injective(a),
                PropertyAccessorDyn::Two(a) => accessor_in_bounds(a, b) && accessor_injective(a),
                PropertyAccessorDyn::Three(a) => accessor_in_bounds(a, b) && accessor_injective(a),
                PropertyAccessorDyn::Four(a) => accessor_in_bounds(a, b) && accessor_injective(a),
            },
    {
    }

    /// Read the field's current value in string form.
    pub fn _human_string_get(&self, b: &TestBitstream) -> (r: String)
        requires
            self.wf(),
            b.wf(),
        ensures
            r@ == self.spec_value_string(b),
    {
        proof {
            self.lemma_wf_bounds(b);
        }
        match self {
            PropertyAccessorDyn::One(a) => b.get_as_string(a),
            PropertyAccessorDyn::Two(a) => b.get_as_string(a),
            PropertyAccessorDyn::Three(a) => b.get_as_string(a),
            PropertyAccessorDyn::Four(a) => b.get_as_string(a),
        }
    }

    /// Write the field from a value string; a conversion failure leaves
    /// the bitstream untouched.
    pub fn _human_string_set(&self, b: &mut TestBitstream, val: &str) -> (r: Result<(), ()>)
        requires
            self.wf(),
            old(b).wf(),
        ensures
            final(b).wf(),
            match r {
                Ok(_) => self.spec_set_ok(val@) && self.spec_set_relation(*old(b), *final(b), val@),
                Err(_) => !self.spec_set_ok(val@) && *final(b) == *old(b),
            },
    {
        proof {
            self.lemma_wf_bounds(b);
        }
        let r = match self {
            PropertyAccessorDyn::One(a) => b.set_from_string(a, val),
            PropertyAccessorDyn::Two(a) => b.set_from_string(a, val),
            PropertyAccessorDyn::Three(a) => b.set_from_string(a, val),
            PropertyAccessorDyn::Four(a) => b.set_from_string(a, val),
        };
        proof {
            assert(b.spec_valid(Coordinate { x: 0, y: 0 }) == old(b).spec_valid(
                Coordinate { x: 0, y: 0 },
            ));
        }
        r
    }

    /// Whether the field currently holds its default value.
    pub fn _human_is_at_default(&self, b: &TestBitstream) -> (r: bool)
        requires
            self.wf(),
            b.wf(),
        ensures
            r == self.spec_is_at_default(b),
    {
        proof {
            self.lemma_wf_bounds(b);
        }
        match self {
            PropertyAccessorDyn::One(a) => b.is_at_default(a),
            PropertyAccessorDyn::Two(a) => b.is_at_default(a),
            PropertyAccessorDyn::Three(a) => b.is_at_default(a),
            PropertyAccessorDyn::Four(a) => b.is_at_default(a),
        }
    }

    /// The state pieces identifying this instance beyond its level: the
    /// bit index for `property_two`, nothing for the others.
    pub fn _human_dump_my_state(&self) -> (r: Vec<(String, String)>)
        ensures
            match self {
                PropertyAccessorDyn::Two(a) => r@.len() == 1 && r@[0].0@ == "n"@
                    && r@[0].1@ == nat_to_dec(a.n as nat),
                _ => r@.len() == 0,
            },
    {
        match self {
            PropertyAccessorDyn::Two(a) => {
                let mut r: Vec<(String, String)> = Vec::new();
                let d = u128_to_dec_chars(a.n as u128);
                r.push((String::from_str("n"), chars_string(&d)));
                r
            },
            _ => Vec::new(),
        }
    }
}

/// The closed union of hierarchy levels: the root, and one tile of its
/// 4x4 grid.
pub enum HumanLevelDynamicAccessor {
    Root,
    Tile(Tile),
}

impl HumanLevelDynamicAccessor {
    /// Structurally valid: a tile level lies on the 4x4 grid.
    pub open spec fn wf(&self) -> bool {
        match self {
            HumanLevelDynamicAccessor::Root => true,
            HumanLevelDynamicAccessor::Tile(t) => t.x < 4 && t.y < 4,
        }
    }

    /// The field names this level exposes, in declaration order.
    pub fn _human_fields(&self) -> (r: Vec<&'static str>)
        ensures
            match self {
                HumanLevelDynamicAccessor::Root => r@.len() == 0,
                HumanLevelDynamicAccessor::Tile(_) => r@.len() == 4 && r@[0]@ == "property_one"@
                    && r@[1]@ == "property_two"@ && r@[2]@ == "property_three"@
                    && r@[3]@ == "property_four"@,
            },
    {
        match self {
            HumanLevelDynamicAccessor::Root => Vec::new(),
            HumanLevelDynamicAccessor::Tile(_) => {
                let mut r: Vec<&'static str> = Vec::new();
                r.push("property_one");
                r.push("property_two");
                r.push("property_three");
                r.push("property_four");
                r
            },
        }
    }

    /// The sublevel names this level exposes, in declaration order.
    pub fn _human_sublevels(&self) -> (r: Vec<&'static str>)
        ensures
            match self {
                HumanLevelDynamicAccessor::Root => r@.len() == 1 && r@[0]@ == "tile"@,
                HumanLevelDynamicAccessor::Tile(_) => r@.len() == 0,
            },
    {
        match self {
            HumanLevelDynamicAccessor::Root => {
                let mut r: Vec<&'static str> = Vec::new();
                r.push("tile");
                r
            },
            HumanLevelDynamicAccessor::Tile(_) => Vec::new(),
        }
    }

    /// What constructing the field at `idx` from string parameters
    /// yields: an accessor, or a parameter-count / parse / range error.
    pub open spec fn spec_construct_field(&self, idx: nat, params: Seq<Seq<char>>) -> Option<
        PropertyAccessorDyn,
    > {
        match self {
            HumanLevelDynamicAccessor::Root => None,
            HumanLevelDynamicAccessor::Tile(t) => if idx == 0 {
                Some(PropertyAccessorDyn::One(TilePropertyOneAccessor { tile: *t }))
            } else if idx == 1 {
                if params.len() >= 1 {
                    match spec_parse_u8(params[0]) {
                        Some(n) => if n < 4 {
                            Some(PropertyAccessorDyn::Two(TilePropertyTwoAccessor { tile: *t, n }))
                        } else {
                            None
                        },
                        None => None,
                    }
                } else {
                    None
                }
            } else if idx == 2 {
                Some(PropertyAccessorDyn::Three(TilePropertyThreeAccessor { tile: *t }))
            } else if idx == 3 {
                Some(PropertyAccessorDyn::Four(TilePropertyFourAccessor { tile: *t }))
            } else {
                None
            },
        }
    }

    /// Construct one field accessor from its string parameters. The
    /// bit-index parameter must parse and lie in its declared domain.
    pub fn _human_construct_field(&self, idx: usize, params: &Vec<String>) -> (r: Result<
        PropertyAccessorDyn,
        (),
    >)
        ensures
            match r {
                Ok(a) => Some(a) == self.spec_construct_field(idx as nat, params.deep_view())
                    && (self.wf() ==> a.wf()),
                Err(_) => self.spec_construct_field(idx as nat, params.deep_view()).is_none(),
            },
    {
        let t = match self {
            HumanLevelDynamicAccessor::Root => {
                return Err(());
            },
            HumanLevelDynamicAccessor::Tile(t) => t,
        };
        if idx == 0 {
            Ok(PropertyAccessorDyn::One(TilePropertyOneAccessor { tile: *t }))
        } else if idx == 1 {
            if params.len() < 1 {
                return Err(());
            }
            proof {
                assert(params.deep_view()[0] == params@[0]@);
            }
            let n = match u8::from_human_string(params[0].as_str()) {
                Ok(n) => n,
                Err(_) => {
                    return Err(());
                },
            };
            if n < 4 {
                Ok(PropertyAccessorDyn::Two(TilePropertyTwoAccessor { tile: *t, n }))
            } else {
                Err(())
            }
        } else if idx == 2 {
            Ok(PropertyAccessorDyn::Three(TilePropertyThreeAccessor { tile: *t }))
        } else if idx == 3 {
            Ok(PropertyAccessorDyn::Four(TilePropertyFourAccessor { tile: *t }))
        } else {
            Err(())
        }
    }

    /// What descending to the sublevel at `idx` from string parameters
    /// yields.
    pub open spec fn spec_descend_sublevel(&self, idx: nat, params: Seq<Seq<char>>) -> Option<
        HumanLevelDynamicAccessor,
    > {
        match self {
            HumanLevelDynamicAccessor::Root => if idx == 0 && params.len() >= 2 {
                match (spec_parse_u8(params[0]), spec_parse_u8(params[1])) {
                    (Some(x), Some(y)) => if x < 4 && y < 4 {
                        Some(HumanLevelDynamicAccessor::Tile(Tile { x, y }))
                    } else {
                        None
                    },
                    _ => None,
                }
            } else {
                None
            },
            HumanLevelDynamicAccessor::Tile(_) => None,
        }
    }

    /// Construct one sublevel instance from its string parameters. The
    /// grid coordinates must parse and lie in the declared 4x4 domain.
    pub fn _human_descend_sublevel(&self, idx: usize, params: &Vec<String>) -> (r: Result<
        HumanLevelDynamicAccessor,
        (),
    >)
        ensures
            match r {
                Ok(l) => Some(l) == self.spec_descend_sublevel(idx as nat, params.deep_view())
                    && l.wf(),
                Err(_) => self.spec_descend_sublevel(idx as nat, params.deep_view()).is_none(),
            },
    {
        match self {
            HumanLevelDynamicAccessor::Root => {
                if idx != 0 || params.len() < 2 {
                    return Err(());
                }
                proof {
                    assert(params.deep_view()[0] == params@[0]@);
                    assert(params.deep_view()[1] == params@[1]@);
                }
                let x = match u8::from_human_string(params[0].as_str()) {
                    Ok(x) => x,
                    Err(_) => {
                        return Err(());
                    },
                };
                let y = match u8::from_human_string(params[1].as_str()) {
                    Ok(y) => y,
                    Err(_) => {
                        return Err(());
                    },
                };
                if x < 4 && y < 4 {
                    Ok(HumanLevelDynamicAccessor::Tile(Tile { x, y }))
                } else {
                    Err(())
                }
            },
            HumanLevelDynamicAccessor::Tile(_) => Err(()),
        }
    }

    /// Every instance of the field at `idx` under this level, in its
    /// deterministic enumeration order.
    pub fn _human_construct_all_fields(&self, idx: usize) -> (r: Vec<PropertyAccessorDyn>)
        ensures
            match self {
                HumanLevelDynamicAccessor::Root => r@.len() == 0,
                HumanLevelDynamicAccessor::Tile(t) => {
                    &&& idx == 0 ==> r@.len() == 1
                        && r@[0] == PropertyAccessorDyn::One(TilePropertyOneAccessor { tile: *t })
                    &&& idx == 1 ==> r@.len() == 4 && forall|i: int| 0 <= i < 4
                        ==> r@[i] == PropertyAccessorDyn::Two(TilePropertyTwoAccessor {
                            tile: *t,
                            n: i as u8,
                        })
                    &&& idx == 2 ==> r@.len() == 1
                        && r@[0] == PropertyAccessorDyn::Three(TilePropertyThreeAccessor { tile: *t })
                    &&& idx == 3 ==> r@.len() == 1
                        && r@[0] == PropertyAccessorDyn::Four(TilePropertyFourAccessor { tile: *t })
                    &&& idx > 3 ==> r@.len() == 0
                },
            },
    {
        let t = match self {
            HumanLevelDynamicAccessor::Root => {
                return Vec::new();
            },
            HumanLevelDynamicAccessor::Tile(t) => t,
        };
        let mut r: Vec<PropertyAccessorDyn> = Vec::new();
        if idx == 0 {
            r.push(PropertyAccessorDyn::One(TilePropertyOneAccessor { tile: *t }));
        } else if idx == 1 {
            let mut n: u8 = 0;
            while n < 4
                invariant
                    n <= 4,
                    r@.len() == n as int,
                    forall|i: int| 0 <= i < n as int
                        ==> r@[i] == PropertyAccessorDyn::Two(TilePropertyTwoAccessor {
                            tile: *t,
                            n: i as u8,
                        }),
                decreases 4 - n,
            {
                r.push(PropertyAccessorDyn::Two(TilePropertyTwoAccessor { tile: *t, n }));
                n = n + 1;
            }
        } else if idx == 2 {
            r.push(PropertyAccessorDyn::Three(TilePropertyThreeAccessor { tile: *t }));
        } else if idx == 3 {
            r.push(PropertyAccessorDyn::Four(TilePropertyFourAccessor { tile: *t }));
        }
        r
    }

    /// Every instance of the sublevel at `idx` under this level: for the
    /// root's `tile`, the 4x4 grid with `y` varying in the outer place.
    pub fn _human_construct_all_sublevels(&self, idx: usize) -> (r: Vec<
        HumanLevelDynamicAccessor,
    >)
        ensures
            match self {
                HumanLevelDynamicAccessor::Root => {
                    &&& idx == 0 ==> r@.len() == 16 && forall|i: int| 0 <= i < 16
                        ==> r@[i] == HumanLevelDynamicAccessor::Tile(Tile {
                            x: (i % 4) as u8,
                            y: (i / 4) as u8,
                        })
                    &&& idx != 0 ==> r@.len() == 0
                },
                HumanLevelDynamicAccessor::Tile(_) => r@.len() == 0,
            },
    {
        match self {
            HumanLevelDynamicAccessor::Root => {
                if idx != 0 {
                    return Vec::new();
                }
                let pairs = tile_index_pairs();
                let mut r: Vec<HumanLevelDynamicAccessor> = Vec::new();
                let mut i: usize = 0;
                while i < pairs.len()
                    invariant
                        pairs@.len() == 16,
                        forall|k: int| 0 <= k < 16
                            ==> pairs@[k] == (((k / 4) as u8), ((k % 4) as u8)),
                        i <= 16,
                        r@.len() == i,
                        forall|k: int| 0 <= k < i
                            ==> r@[k] == HumanLevelDynamicAccessor::Tile(Tile {
                                x: (k % 4) as u8,
                                y: (k / 4) as u8,
                            }),
                    decreases pairs@.len() - i,
                {
                    let (y, x) = pairs[i];
                    r.push(HumanLevelDynamicAccessor::Tile(Tile { x, y }));
                    i = i + 1;
                }
                r
            },
            HumanLevelDynamicAccessor::Tile(_) => Vec::new(),
        }
    }

    /// The state pieces identifying this level instance: the grid
    /// coordinates for a tile, nothing for the root.
    pub fn _human_dump_my_state(&self) -> (r: Vec<(String, String)>)
        ensures
            match self {
                HumanLevelDynamicAccessor::Root => r@.len() == 0,
                HumanLevelDynamicAccessor::Tile(t) => r@.len() == 2
                    && r@[0].0@ == "x"@ && r@[0].1@ == nat_to_dec(t.x as nat)
                    && r@[1].0@ == "y"@ && r@[1].1@ == nat_to_dec(t.y as nat),
            },
    {
        match self {
            HumanLevelDynamicAccessor::Root => Vec::new(),
            HumanLevelDynamicAccessor::Tile(t) => {
                let mut r: Vec<(String, String)> = Vec::new();
                let xd = u128_to_dec_chars(t.x as u128);
                r.push((String::from_str("x"), chars_string(&xd)));
                let yd = u128_to_dec_chars(t.y as u128);
                r.push((String::from_str("y"), chars_string(&yd)));
                r
            },
        }
    }
}

/// Relies on itertools' Iterator::cartesian_product: the pairs of two
/// ranges in order, the first range varying in the outer place, so that
/// pair `i` of `(0..4) x (0..4)` is `(i / 4, i % 4)`.
#[verifier::external_body]
fn tile_index_pairs() -> (r: Vec<(u8, u8)>)
    ensures
        r@.len() == 16,
        forall|i: int| 0 <= i < 16 ==> r@[i] == (((i / 4) as u8), ((i % 4) as u8)),
{
    (0u8..4u8).cartesian_product(0u8..4u8).collect()
}

/// The accessor standing at position `k` of the all-fields enumeration:
/// tiles in grid order (`y` outer), and within each tile `property_one`,
/// `property_three`, `property_four`, then the four `property_two` bits.
pub open spec fn spec_all_stuff_elem(k: int) -> PropertyAccessorDyn {
    let ti = k / 7;
    let j = k % 7;
    let t = Tile { x: (ti % 4) as u8, y: (ti / 4) as u8 };
    if j == 0 {
        PropertyAccessorDyn::One(TilePropertyOneAccessor { tile: t })
    } else if j == 1 {
        PropertyAccessorDyn::Three(TilePropertyThreeAccessor { tile: t })
    } else if j == 2 {
        PropertyAccessorDyn::Four(TilePropertyFourAccessor { tile: t })
    } else {
        PropertyAccessorDyn::Two(TilePropertyTwoAccessor { tile: t, n: (j - 3) as u8 })
    }
}

impl PropertyAccessorDyn {
    /// The full scripting path naming this accessor.
    pub open spec fn spec_path(&self) -> Seq<char> {
        match self {
            PropertyAccessorDyn::One(a) => "tile["@ + nat_to_dec(a.tile.x as nat) + ", "@
                + nat_to_dec(a.tile.y as nat) + "].property_one"@,
            PropertyAccessorDyn::Two(a) => "tile["@ + nat_to_dec(a.tile.x as nat) + ", "@
                + nat_to_dec(a.tile.y as nat) + "].property_two["@ + nat_to_dec(a.n as nat)
                + "]"@,
            PropertyAccessorDyn::Three(a) => "tile["@ + nat_to_dec(a.tile.x as nat) + ", "@
                + nat_to_dec(a.tile.y as nat) + "].property_three"@,
            PropertyAccessorDyn::Four(a) => "tile["@ + nat_to_dec(a.tile.x as nat) + ", "@
                + nat_to_dec(a.tile.y as nat) + "].property_four"@,
        }
    }

    /// Render this accessor's full scripting path.
    pub fn _scripting_get_path(&self) -> (r: String)
        ensures
            r@ == self.spec_path(),
    {
        let (t, tail, n) = match self {
            PropertyAccessorDyn::One(a) => (a.tile, "].property_one", None),
            PropertyAccessorDyn::Two(a) => (a.tile, "].property_two[", Some(a.n)),
            PropertyAccessorDyn::Three(a) => (a.tile, "].property_three", None),
            PropertyAccessorDyn::Four(a) => (a.tile, "].property_four", None),
        };
        let mut out = str_chars("tile[");
        let mut xd = u128_to_dec_chars(t.x as u128);
        out.append(&mut xd);
        let mut mid = str_chars(", ");
        out.append(&mut mid);
        let mut yd = u128_to_dec_chars(t.y as u128);
        out.append(&mut yd);
        let mut tl = str_chars(tail);
        out.append(&mut tl);
        match n {
            Some(n) => {
                let mut nd = u128_to_dec_chars(n as u128);
                out.append(&mut nd);
                let mut close = str_chars("]");
                out.append(&mut close);
            },
            None => {},
        }
        proof {
            assert(out@ =~= self.spec_path());
        }
        chars_string(&out)
    }

    /// Read the field's current value in string form (scripting entry).
    pub fn _scripting_get(&self, b: &TestBitstream) -> (r: String)
        requires
            self.wf(),
            b.wf(),
        ensures
            r@ == self.spec_value_string(b),
    {
        self._human_string_get(b)
    }

    /// Write the field from a value string (scripting entry).
    pub fn _scripting_set(&self, b: &mut TestBitstream, val: &str) -> (r: Result<(), ()>)
        requires
            self.wf(),
            old(b).wf(),
        ensures
            final(b).wf(),
            match r {
                Ok(_) => self.spec_set_ok(val@) && self.spec_set_relation(*old(b), *final(b), val@),
                Err(_) => !self.spec_set_ok(val@) && *final(b) == *old(b),
            },
    {
        self._human_string_set(b, val)
    }
}

impl TestBitstream {
    /// Every field accessor of the whole hierarchy, in a deterministic
    /// order: tiles in grid order, and within each tile `property_one`,
    /// `property_three`, `property_four`, then the `property_two` bits.
    pub fn _scripting_iter_all_stuff() -> (r: Vec<PropertyAccessorDyn>)
        ensures
            r@.len() == 112,
            forall|k: int| 0 <= k < 112 ==> r@[k] == spec_all_stuff_elem(k) && (
            #[trigger] r@[k]).wf(),
    {
        let pairs = tile_index_pairs();
        let mut r: Vec<PropertyAccessorDyn> = Vec::new();
        let mut i: usize = 0;
        while i < pairs.len()
            invariant
                pairs@.len() == 16,
                forall|k: int| 0 <= k < 16 ==> pairs@[k] == (((k / 4) as u8), ((k % 4) as u8)),
                i <= 16,
                r@.len() == 7 * i,
                forall|k: int| 0 <= k < r@.len() ==> r@[k] == spec_all_stuff_elem(k) && (
                #[trigger] r@[k]).wf(),
            decreases pairs@.len() - i,
        {
            let (y, x) = pairs[i];
            let t = Tile { x, y };
            r.push(PropertyAccessorDyn::One(TilePropertyOneAccessor { tile: t }));
            r.push(PropertyAccessorDyn::Three(TilePropertyThreeAccessor { tile: t }));
            r.push(PropertyAccessorDyn::Four(TilePropertyFourAccessor { tile: t }));
            let mut n: u8 = 0;
            while n < 4
                invariant
                    0 <= i < 16,
                    pairs@.len() == 16,
                    forall|k: int| 0 <= k < 16 ==> pairs@[k] == (((k / 4) as u8), ((k % 4) as u8)),
                    t == (Tile { x: (i as int % 4) as u8, y: (i as int / 4) as u8 }),
                    n <= 4,
                    r@.len() == 7 * i + 3 + n,
                    forall|k: int| 0 <= k < 7 * i ==> r@[k] == spec_all_stuff_elem(k) && (
                    #[trigger] r@[k]).wf(),
                    forall|k: int| 7 * i <= k < r@.len() ==> r@[k] == spec_all_stuff_elem(k) && (
                    #[trigger] r@[k]).wf(),
                decreases 4 - n,
            {
                r.push(PropertyAccessorDyn::Two(TilePropertyTwoAccessor { tile: t, n }));
                proof {
                    let k = r@.len() - 1;
                    assert(k / 7 == i && k % 7 == 3 + n) by (nonlinear_arith)
                        requires
                            k == 7 * (i as int) + 3 + n,
                            0 <= i < 16,
                            0 <= n < 4;
                }
                n = n + 1;
            }
            i = i + 1;
        }
        r
    }
}

} // verus!
