//! A two-level example hierarchy over a 16x16 bitstream: a root with a
//! 4x4 grid of `tile(x, y)` sublevels, each exposing four properties at
//! tile-relative coordinates.
//!
//! `property_one` is an 8-bit unsigned integer filling the tile's top two
//! rows; `property_two(n)` is one boolean per `n` in `0..4` on the third
//! row; `property_three` and `property_four` are custom booleans with
//! instance-dependent string forms on the fourth row.

use vstd::prelude::*;
use crate::bit_access::{BitArray, Coordinate};
use crate::codec::{bits_to_nat, nat_to_bits, lemma_nat_to_bits_len, lemma_uint_round_trip,
    lemma_bits_to_nat_bound, uint_from_bits, uint_to_bits};
use crate::property::{PropertyLeaf, PropertyAccessor, PropertyLeafWithStringConv,
    PropertyLeafWithDefault, get_property, set_property, get_as_string_prop,
    set_from_string_prop, is_at_default_prop, accessor_in_bounds, accessor_injective,
    accessor_bits};
use crate::strconv::{str_chars, chars_string, chars_eq, u128_to_dec_chars, nat_to_dec};
use vstd::arithmetic::power2::{pow2, lemma2_to64};

verus! {

impl PropertyLeaf for bool {
    open spec fn leaf_width() -> nat {
        1
    }

    open spec fn spec_to_bits(&self) -> Seq<bool> {
        seq![*self]
    }

    open spec fn spec_from_bits(bits: Seq<bool>) -> Self {
        if bits.len() > 0 {
            bits[0]
        } else {
            false
        }
    }

    proof fn lemma_to_bits_width(&self) {
    }

    proof fn lemma_leaf_round_trip(&self) {
    }

    fn width() -> usize {
        1
    }

    fn from_bits(bits: &Vec<bool>) -> Self {
        bits[0]
    }

    fn to_bits(&self) -> (r: Vec<bool>) {
        let mut r: Vec<bool> = Vec::new();
        r.push(*self);
        proof {
            assert(r@ =~= seq![*self]);
        }
        r
    }
}

impl PropertyLeaf for u8 {
    open spec fn leaf_width() -> nat {
        8
    }

    open spec fn spec_to_bits(&self) -> Seq<bool> {
        nat_to_bits(*self as nat, 8)
    }

    open spec fn spec_from_bits(bits: Seq<bool>) -> Self {
        (bits_to_nat(bits) % 256) as u8
    }

    proof fn lemma_to_bits_width(&self) {
        lemma_nat_to_bits_len(*self as nat, 8);
    }

    proof fn lemma_leaf_round_trip(&self) {
        lemma2_to64();
        lemma_uint_round_trip(*self as nat, 8);
    }

    fn width() -> usize {
        8
    }

    fn from_bits(bits: &Vec<bool>) -> (r: Self) {
        let x = uint_from_bits(bits);
        proof {
            lemma_bits_to_nat_bound(bits@);
            lemma2_to64();
        }
        x as u8
    }

    fn to_bits(&self) -> (r: Vec<bool>) {
        proof {
            lemma2_to64();
        }
        uint_to_bits(*self as u128, 8)
    }
}

/// The struct holding the example bitstream's actual data: a 16x16 plane
/// stored row-major as 256 booleans.
pub struct TestBitstream {
    pub bits: Vec<bool>,
}

impl TestBitstream {
    /// The stored vector covers the whole 16x16 plane.
    pub open spec fn wf(&self) -> bool {
        self.bits@.len() == 256
    }

    /// A fresh all-zero (all-default) bitstream.
    pub fn new_zeroed() -> (r: TestBitstream)
        ensures
            r.wf(),
            forall|c: Coordinate| !r.spec_get(c),
    {
        let bits = vec![false; 256];
        TestBitstream { bits }
    }
}

/// One rendered row of the plane: sixteen `'0'`/`'1'` characters and a
/// line end.
pub open spec fn spec_bitmap_row(m: Seq<bool>, y: int) -> Seq<char> {
    Seq::new(16, |x: int| if m[y * 16 + x] {
        '1'
    } else {
        '0'
    }).push('\n')
}

/// The rendered rows from `y` down.
pub open spec fn spec_bitmap_rows(m: Seq<bool>, y: nat) -> Seq<char>
    decreases 16 - y,
{
    if y >= 16 {
        Seq::empty()
    } else {
        spec_bitmap_row(m, y as int) + spec_bitmap_rows(m, y + 1)
    }
}

impl TestBitstream {
    /// Render the whole plane, one row of `'0'`/`'1'` characters per
    /// line, top row first.
    pub fn to_string(&self) -> (r: String)
        requires
            self.wf(),
        ensures
            r@ == spec_bitmap_rows(self.bits@, 0),
    {
        let mut out: Vec<char> = Vec::new();
        let mut y: usize = 0;
        while y < 16
            invariant
                self.wf(),
                y <= 16,
                out@ + spec_bitmap_rows(self.bits@, y as nat) =~= spec_bitmap_rows(self.bits@, 0),
            decreases 16 - y,
        {
            let ghost row_start = out@;
            let mut x: usize = 0;
            while x < 16
                invariant
                    self.wf(),
                    y < 16,
                    x <= 16,
                    out@ =~= row_start + Seq::new(x as nat, |k: int| if self.bits@[y as int * 16
                        + k] {
                        '1'
                    } else {
                        '0'
                    }),
                decreases 16 - x,
            {
                out.push(if self.bits[y * 16 + x] {
                    '1'
                } else {
                    '0'
                });
                x = x + 1;
            }
            out.push('\n');
            proof {
                assert(out@ =~= row_start + spec_bitmap_row(self.bits@, y as int));
                assert(out@ + spec_bitmap_rows(self.bits@, (y + 1) as nat) =~= spec_bitmap_rows(
                    self.bits@,
                    0,
                ));
            }
            y = y + 1;
        }
        chars_string(&out)
    }
}

impl BitArray for TestBitstream {
    open spec fn spec_valid(&self, c: Coordinate) -> bool {
        self.bits@.len() == 256 && c.x < 16 && c.y < 16
    }

    open spec fn spec_get(&self, c: Coordinate) -> bool {
        if self.bits@.len() == 256 && c.x < 16 && c.y < 16 {
            self.bits@[c.y as int * 16 + c.x as int]
        } else {
            false
        }
    }

    fn get(&self, c: Coordinate) -> bool {
        self.bits[c.y * 16 + c.x]
    }

    fn set(&mut self, c: Coordinate, val: bool) {
        self.bits[c.y * 16 + c.x] = val;
        proof {
            assert forall|c2: Coordinate| c2 != c implies self.spec_get(c2) == old(
                self,
            ).spec_get(c2) by {
                if c2.x < 16 && c2.y < 16 {
                    assert(c2.y as int * 16 + c2.x as int != c.y as int * 16 + c.x as int);
                }
            }
        }
    }
}

/// One tile of the 4x4 grid, identified by its grid coordinates.
#[derive(Clone, Copy, PartialEq, Eq, Structural, Debug)]
pub struct Tile {
    pub x: u8,
    pub y: u8,
}

impl Tile {
    /// The sublevel constructor: the tile at grid position `(x, y)`.
    pub fn tile(x: u8, y: u8) -> (r: Self)
        ensures
            r.x == x,
            r.y == y,
    {
        Self { x, y }
    }

    pub fn property_one(&self) -> (r: TilePropertyOneAccessor)
        ensures
            r.tile == *self,
    {
        TilePropertyOneAccessor { tile: *self }
    }

    pub fn property_two(&self, n: u8) -> (r: TilePropertyTwoAccessor)
        ensures
            r.tile == *self,
            r.n == n,
    {
        TilePropertyTwoAccessor { tile: *self, n }
    }

    pub fn property_three(&self) -> (r: TilePropertyThreeAccessor)
        ensures
            r.tile == *self,
    {
        TilePropertyThreeAccessor { tile: *self }
    }

    pub fn property_four(&self) -> (r: TilePropertyFourAccessor)
        ensures
            r.tile == *self,
    {
        TilePropertyFourAccessor { tile: *self }
    }
}

/// The 8-bit integer filling the tile's top two rows, bit `i` at
/// `(x*4 + i%4, y*4 + i/4)`.
#[derive(Clone, Copy, PartialEq, Eq, Structural, Debug)]
pub struct TilePropertyOneAccessor {
    pub tile: Tile,
}

impl PropertyAccessor for TilePropertyOneAccessor {
    type Output = u8;

    open spec fn spec_bit_pos(&self, biti: int) -> (Coordinate, bool) {
        (
            Coordinate {
                x: (self.tile.x as int * 4 + biti % 4) as usize,
                y: (self.tile.y as int * 4 + biti / 4) as usize,
            },
            false,
        )
    }

    fn get_bit_pos(&self, biti: usize) -> (Coordinate, bool) {
        let x = self.tile.x as usize * 4 + (biti % 4);
        let y = self.tile.y as usize * 4 + (biti / 4);
        (Coordinate::new(x, y), false)
    }
}

/// One boolean per `n` in `0..4` on the tile's third row, at
/// `(x*4 + n, y*4 + 2)`.
#[derive(Clone, Copy, PartialEq, Eq, Structural, Debug)]
pub struct TilePropertyTwoAccessor {
    pub tile: Tile,
    pub n: u8,
}

impl PropertyAccessor for TilePropertyTwoAccessor {
    type Output = bool;

    open spec fn spec_bit_pos(&self, _biti: int) -> (Coordinate, bool) {
        (
            Coordinate {
                x: (self.tile.x as int * 4 + self.n as int) as usize,
                y: (self.tile.y as int * 4 + 2) as usize,
            },
            false,
        )
    }

    fn get_bit_pos(&self, _biti: usize) -> (Coordinate, bool) {
        let x = self.tile.x as usize * 4 + self.n as usize;
        let y = self.tile.y as usize * 4 + 2;
        (Coordinate::new(x, y), false)
    }
}

/// A custom boolean at `(x*4, y*4 + 3)` whose string forms depend on the
/// tile it belongs to.
#[derive(Clone, Copy, PartialEq, Eq, Structural, Debug)]
pub struct TilePropertyThreeAccessor {
    pub tile: Tile,
}

impl PropertyAccessor for TilePropertyThreeAccessor {
    type Output = CustomBool;

    open spec fn spec_bit_pos(&self, _biti: int) -> (Coordinate, bool) {
        (
            Coordinate {
                x: (self.tile.x as int * 4) as usize,
                y: (self.tile.y as int * 4 + 3) as usize,
            },
            false,
        )
    }

    fn get_bit_pos(&self, _biti: usize) -> (Coordinate, bool) {
        let x = self.tile.x as usize * 4;
        let y = self.tile.y as usize * 4 + 3;
        (Coordinate::new(x, y), false)
    }
}

/// A custom boolean at `(x*4 + 1, y*4 + 3)` with its own string forms.
#[derive(Clone, Copy, PartialEq, Eq, Structural, Debug)]
pub struct TilePropertyFourAccessor {
    pub tile: Tile,
}

impl PropertyAccessor for TilePropertyFourAccessor {
    type Output = CustomBool;

    open spec fn spec_bit_pos(&self, _biti: int) -> (Coordinate, bool) {
        (
            Coordinate {
                x: (self.tile.x as int * 4 + 1) as usize,
                y: (self.tile.y as int * 4 + 3) as usize,
            },
            false,
        )
    }

    fn get_bit_pos(&self, _biti: usize) -> (Coordinate, bool) {
        let x = self.tile.x as usize * 4 + 1;
        let y = self.tile.y as usize * 4 + 3;
        (Coordinate::new(x, y), false)
    }
}

/// A boolean with entirely custom, accessor-dependent string forms.
#[derive(Clone, Copy, PartialEq, Eq, Structural, Debug)]
pub struct CustomBool(pub bool);

impl PropertyLeaf for CustomBool {
    open spec fn leaf_width() -> nat {
        1
    }

    open spec fn spec_to_bits(&self) -> Seq<bool> {
        seq![self.0]
    }

    open spec fn spec_from_bits(bits: Seq<bool>) -> Self {
        if bits.len() > 0 {
            CustomBool(bits[0])
        } else {
            CustomBool(false)
        }
    }

    proof fn lemma_to_bits_width(&self) {
    }

    proof fn lemma_leaf_round_trip(&self) {
    }

    fn width() -> usize {
        1
    }

    fn from_bits(bits: &Vec<bool>) -> Self {
        CustomBool(bits[0])
    }

    fn to_bits(&self) -> (r: Vec<bool>) {
        let mut r: Vec<bool> = Vec::new();
        r.push(self.0);
        proof {
            assert(r@ =~= seq![self.0]);
        }
        r
    }
}

impl<A: PropertyAccessor> PropertyLeafWithStringConv<A> for bool {
    open spec fn spec_to_string(&self, _a: &A) -> Seq<char> {
        if *self {
            "true"@
        } else {
            "false"@
        }
    }

    open spec fn spec_from_string(s: Seq<char>, _a: &A) -> Option<bool> {
        if s == "true"@ || s == "1"@ {
            Some(true)
        } else if s == "false"@ || s == "0"@ {
            Some(false)
        } else {
            None
        }
    }

    fn to_string(&self, _a: &A) -> (r: String) {
        if *self {
            String::from_str("true")
        } else {
            String::from_str("false")
        }
    }

    fn from_string(s: &str, _a: &A) -> (r: Result<Self, ()>) {
        let cs = str_chars(s);
        if chars_eq(&cs, &str_chars("true")) || chars_eq(&cs, &str_chars("1")) {
            Ok(true)
        } else if chars_eq(&cs, &str_chars("false")) || chars_eq(&cs, &str_chars("0")) {
            Ok(false)
        } else {
            Err(())
        }
    }
}

/// The generic fallback string form: a fixed-length string of `'0'`/`'1'`
/// characters, most significant bit first.
pub open spec fn bitstring_of(bits: Seq<bool>) -> Seq<char> {
    Seq::new(bits.len(), |i: int| if bits[bits.len() - 1 - i] {
        '1'
    } else {
        '0'
    })
}

impl<A: PropertyAccessor> PropertyLeafWithStringConv<A> for u8 {
    open spec fn spec_to_string(&self, _a: &A) -> Seq<char> {
        bitstring_of(nat_to_bits(*self as nat, 8))
    }

    open spec fn spec_from_string(s: Seq<char>, _a: &A) -> Option<u8> {
        if s.len() == 8 && (forall|i: int| 0 <= i < 8 ==> s[i] == '0' || s[i] == '1') {
            Some((bits_to_nat(Seq::new(8, |i: int| s[7 - i] == '1')) % 256) as u8)
        } else {
            None
        }
    }

    fn to_string(&self, _a: &A) -> (r: String) {
        let bits = PropertyLeaf::to_bits(self);
        proof {
            lemma_nat_to_bits_len(*self as nat, 8);
        }
        let mut out: Vec<char> = Vec::new();
        let mut i: usize = 0;
        while i < bits.len()
            invariant
                bits@ == nat_to_bits(*self as nat, 8),
                bits@.len() == 8,
                i <= 8,
                out@.len() == i,
                forall|j: int| 0 <= j < i ==> out@[j] == bitstring_of(bits@)[j],
            decreases bits@.len() - i,
        {
            out.push(if bits[bits.len() - 1 - i] {
                '1'
            } else {
                '0'
            });
            i = i + 1;
        }
        proof {
            assert(out@ =~= bitstring_of(bits@));
        }
        chars_string(&out)
    }

    fn from_string(s: &str, _a: &A) -> (r: Result<Self, ()>) {
        let cs = str_chars(s);
        if cs.len() != 8 {
            return Err(());
        }
        let mut bits: Vec<bool> = Vec::new();
        let mut i: usize = 0;
        while i < 8
            invariant
                cs@ == s@,
                cs@.len() == 8,
                i <= 8,
                bits@.len() == i,
                forall|j: int| 0 <= j < i ==> (#[trigger] cs@[7 - j] == '0' || cs@[7 - j] == '1'),
                forall|j: int| 0 <= j < i ==> #[trigger] bits@[j] == (cs@[7 - j] == '1'),
            decreases 8 - i,
        {
            let c = cs[7 - i];
            if c == '1' {
                bits.push(true);
            } else if c == '0' {
                bits.push(false);
            } else {
                proof {
                    assert(!(s@[7 - i as int] == '0' || s@[7 - i as int] == '1'));
                }
                return Err(());
            }
            i = i + 1;
        }
        let x = uint_from_bits(&bits);
        proof {
            lemma_bits_to_nat_bound(bits@);
            lemma2_to64();
            assert forall|k: int| 0 <= k < 8 implies s@[k] == '0' || s@[k] == '1' by {
                assert(cs@[7 - (7 - k)] == '0' || cs@[7 - (7 - k)] == '1');
            }
            assert(bits@ =~= Seq::new(8, |i: int| s@[7 - i] == '1'));
        }
        Ok(x as u8)
    }
}

impl PropertyLeafWithStringConv<TilePropertyThreeAccessor> for CustomBool {
    open spec fn spec_to_string(&self, a: &TilePropertyThreeAccessor) -> Seq<char> {
        if !self.0 {
            "nonono"@
        } else {
            "("@ + nat_to_dec(a.tile.x as nat) + ", "@ + nat_to_dec(a.tile.y as nat) + ")"@
        }
    }

    open spec fn spec_from_string(s: Seq<char>, _a: &TilePropertyThreeAccessor) -> Option<
        CustomBool,
    > {
        if s == "nonono"@ {
            Some(CustomBool(false))
        } else {
            Some(CustomBool(true))
        }
    }

    fn to_string(&self, a: &TilePropertyThreeAccessor) -> (r: String) {
        if !self.0 {
            String::from_str("nonono")
        } else {
            let mut out = str_chars("(");
            let mut xd = u128_to_dec_chars(a.tile.x as u128);
            out.append(&mut xd);
            let mut mid = str_chars(", ");
            out.append(&mut mid);
            let mut yd = u128_to_dec_chars(a.tile.y as u128);
            out.append(&mut yd);
            let mut close = str_chars(")");
            out.append(&mut close);
            proof {
                assert(out@ =~= "("@ + nat_to_dec(a.tile.x as nat) + ", "@
                    + nat_to_dec(a.tile.y as nat) + ")"@);
            }
            chars_string(&out)
        }
    }

    fn from_string(s: &str, _a: &TilePropertyThreeAccessor) -> (r: Result<Self, ()>) {
        let cs = str_chars(s);
        if chars_eq(&cs, &str_chars("nonono")) {
            Ok(CustomBool(false))
        } else {
            Ok(CustomBool(true))
        }
    }
}

impl PropertyLeafWithStringConv<TilePropertyFourAccessor> for CustomBool {
    open spec fn spec_to_string(&self, a: &TilePropertyFourAccessor) -> Seq<char> {
        if !self.0 {
            "lalala"@
        } else {
            "["@ + nat_to_dec(a.tile.x as nat) + ", "@ + nat_to_dec(a.tile.y as nat) + "]"@
        }
    }

    open spec fn spec_from_string(s: Seq<char>, _a: &TilePropertyFourAccessor) -> Option<
        CustomBool,
    > {
        if s == "lalala"@ {
            Some(CustomBool(false))
        } else {
            Some(CustomBool(true))
        }
    }

    fn to_string(&self, a: &TilePropertyFourAccessor) -> (r: String) {
        if !self.0 {
            String::from_str("lalala")
        } else {
            let mut out = str_chars("[");
            let mut xd = u128_to_dec_chars(a.tile.x as u128);
            out.append(&mut xd);
            let mut mid = str_chars(", ");
            out.append(&mut mid);
            let mut yd = u128_to_dec_chars(a.tile.y as u128);
            out.append(&mut yd);
            let mut close = str_chars("]");
            out.append(&mut close);
            proof {
                assert(out@ =~= "["@ + nat_to_dec(a.tile.x as nat) + ", "@
                    + nat_to_dec(a.tile.y as nat) + "]"@);
            }
            chars_string(&out)
        }
    }

    fn from_string(s: &str, _a: &TilePropertyFourAccessor) -> (r: Result<Self, ()>) {
        let cs = str_chars(s);
        if chars_eq(&cs, &str_chars("lalala")) {
            Ok(CustomBool(false))
        } else {
            Ok(CustomBool(true))
        }
    }
}

impl<A: PropertyAccessor> PropertyLeafWithDefault<A> for bool {
    open spec fn spec_is_default(&self, _a: &A) -> bool {
        !*self
    }

    fn is_default(&self, _a: &A) -> bool {
        !*self
    }
}

impl<A: PropertyAccessor> PropertyLeafWithDefault<A> for u8 {
    open spec fn spec_is_default(&self, _a: &A) -> bool {
        *self == 0
    }

    fn is_default(&self, _a: &A) -> bool {
        *self == 0
    }
}

impl<A: PropertyAccessor> PropertyLeafWithDefault<A> for CustomBool {
    open spec fn spec_is_default(&self, _a: &A) -> bool {
        !self.0
    }

    fn is_default(&self, _a: &A) -> bool {
        !self.0
    }
}

impl TestBitstream {
    /// Read one property as its typed value.
    pub fn get_field<A: PropertyAccessor>(&self, accessor: &A) -> (r: A::Output)
        requires
            accessor_in_bounds(accessor, self),
        ensures
            r == <A::Output as PropertyLeaf>::spec_from_bits(accessor_bits(accessor, self)),
    {
        get_property(accessor, self)
    }

    /// Write one property from its typed value.
    pub fn set_field<A: PropertyAccessor>(&mut self, accessor: &A, val: A::Output)
        requires
            accessor_in_bounds(accessor, old(self)),
            accessor_injective(accessor),
        ensures
            forall|i: int| 0 <= i < <A::Output as PropertyLeaf>::leaf_width()
                ==> final(self).spec_get((#[trigger] accessor.spec_bit_pos(i)).0)
                    == (val.spec_to_bits()[i] != accessor.spec_bit_pos(i).1),
            forall|c: Coordinate| (forall|i: int|
                0 <= i < <A::Output as PropertyLeaf>::leaf_width()
                    ==> c != (#[trigger] accessor.spec_bit_pos(i)).0)
                ==> final(self).spec_get(c) == old(self).spec_get(c),
            forall|c: Coordinate| final(self).spec_valid(c) == old(self).spec_valid(c),
    {
        set_property(accessor, self, &val)
    }

    /// Read one property in its string form.
    pub fn get_as_string<A: PropertyAccessor>(&self, accessor: &A) -> (r: String)
        where A::Output: PropertyLeafWithStringConv<A>
        requires
            accessor_in_bounds(accessor, self),
        ensures
            r@ == <A::Output as PropertyLeaf>::spec_from_bits(
                accessor_bits(accessor, self),
            ).spec_to_string(accessor),
    {
        get_as_string_prop(accessor, self)
    }

    /// Write one property from its string form; the string is parsed in
    /// full before any bit is written, so a conversion failure leaves the
    /// bitstream unmodified.
    pub fn set_from_string<A: PropertyAccessor>(&mut self, accessor: &A, val: &str) -> (r: Result<
        (),
        (),
    >)
        where A::Output: PropertyLeafWithStringConv<A>
        requires
            accessor_in_bounds(accessor, old(self)),
            accessor_injective(accessor),
        ensures
            match r {
                Ok(_) => <A::Output as PropertyLeafWithStringConv<A>>::spec_from_string(
                    val@,
                    accessor,
                ).is_some(),
                Err(_) => {
                    &&& <A::Output as PropertyLeafWithStringConv<A>>::spec_from_string(
                        val@,
                        accessor,
                    ).is_none()
                    &&& *final(self) == *old(self)
                },
            },
            r.is_ok() ==> {
                let v = <A::Output as PropertyLeafWithStringConv<A>>::spec_from_string(
                    val@,
                    accessor,
                ).unwrap();
                &&& forall|i: int| 0 <= i < <A::Output as PropertyLeaf>::leaf_width()
                    ==> final(self).spec_get((#[trigger] accessor.spec_bit_pos(i)).0)
                        == (v.spec_to_bits()[i] != accessor.spec_bit_pos(i).1)
                &&& forall|c: Coordinate| (forall|i: int|
                    0 <= i < <A::Output as PropertyLeaf>::leaf_width()
                        ==> c != (#[trigger] accessor.spec_bit_pos(i)).0)
                    ==> final(self).spec_get(c) == old(self).spec_get(c)
            },
            forall|c: Coordinate| final(self).spec_valid(c) == old(self).spec_valid(c),
    {
        set_from_string_prop(accessor, self, val)
    }

    /// Whether one property currently holds its default value.
    pub fn is_at_default<A: PropertyAccessor>(&self, accessor: &A) -> (r: bool)
        where A::Output: PropertyLeafWithDefault<A>
        requires
            accessor_in_bounds(accessor, self),
        ensures
            r == <A::Output as PropertyLeaf>::spec_from_bits(
                accessor_bits(accessor, self),
            ).spec_is_default(accessor),
    {
        is_at_default_prop(accessor, self)
    }
}

} // verus!
