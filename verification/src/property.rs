//! Properties and accessors: a property is a typed field of a bitstream,
//! an accessor binds one property instance's per-bit coordinates (plus an
//! optional inversion per bit) to the value codec, exposing get / set
//! against a [`BitArray`].

use vstd::prelude::*;
use crate::bit_access::{BitArray, Coordinate};

verus! {

/// Conversion between a typed property value and a fixed-width ordered
/// bit vector. Every implementation carries the round-trip law: decoding
/// an encoded value gives the value back.
pub trait PropertyLeaf: Sized {
    /// The fixed number of bits this property takes.
    spec fn leaf_width() -> nat;

    /// The bit vector that `to_bits` produces.
    spec fn spec_to_bits(&self) -> Seq<bool>;

    /// The value that `from_bits` produces.
    spec fn spec_from_bits(bits: Seq<bool>) -> Self;

    /// Encoding always produces exactly `leaf_width` bits.
    proof fn lemma_to_bits_width(&self)
        ensures
            self.spec_to_bits().len() == Self::leaf_width(),
    ;

    /// Decoding an encoded value gives the value back, for every value.
    proof fn lemma_leaf_round_trip(&self)
        ensures
            Self::spec_from_bits(self.spec_to_bits()) == *self,
    ;

    /// The width as a runtime value.
    fn width() -> (r: usize)
        ensures
            r as nat == Self::leaf_width(),
    ;

    /// Convert a bit vector of exactly the declared width to a value.
    fn from_bits(bits: &Vec<bool>) -> (r: Self)
        requires
            bits@.len() == Self::leaf_width(),
        ensures
            r == Self::spec_from_bits(bits@),
    ;

    /// Convert a value to its bit vector.
    fn to_bits(&self) -> (r: Vec<bool>)
        ensures
            r@ == self.spec_to_bits(),
    ;
}

/// The complete package of state selecting one property instance in a
/// bitstream: a map from bit index to coordinate plus an invert flag.
/// Stateless; it never owns bit data.
pub trait PropertyAccessor: Sized {
    /// The friendly type of this property.
    type Output: PropertyLeaf;

    /// The coordinate and inversion of each bit of this property.
    spec fn spec_bit_pos(&self, biti: int) -> (Coordinate, bool);

    /// The coordinate and inversion of one bit, as runtime values.
    fn get_bit_pos(&self, biti: usize) -> (r: (Coordinate, bool))
        requires
            (biti as nat) < <Self::Output as PropertyLeaf>::leaf_width(),
        ensures
            r == self.spec_bit_pos(biti as int),
    ;
}

/// The raw bit vector an accessor reads out of a bit array (with each
/// bit's inversion applied).
pub open spec fn accessor_bits<A: PropertyAccessor, B: BitArray>(a: &A, b: &B) -> Seq<bool> {
    Seq::new(
        <A::Output as PropertyLeaf>::leaf_width(),
        |i: int| b.spec_get(a.spec_bit_pos(i).0) != a.spec_bit_pos(i).1,
    )
}

/// Every bit position of the accessor lies within the bit array.
pub open spec fn accessor_in_bounds<A: PropertyAccessor, B: BitArray>(a: &A, b: &B) -> bool {
    forall|i: int| 0 <= i < <A::Output as PropertyLeaf>::leaf_width()
        ==> b.spec_valid(#[trigger] a.spec_bit_pos(i).0)
}

/// No two bits of the accessor share a coordinate.
pub open spec fn accessor_injective<A: PropertyAccessor>(a: &A) -> bool {
    forall|i: int, j: int|
        0 <= i < j < <A::Output as PropertyLeaf>::leaf_width()
            ==> (#[trigger] a.spec_bit_pos(i)).0 != (#[trigger] a.spec_bit_pos(j)).0
}

/// Read all the bits of a property instance and convert them to the
/// friendly type.
pub fn get_property<A: PropertyAccessor, B: BitArray>(a: &A, b: &B) -> (r: A::Output)
    requires
        accessor_in_bounds(a, b),
    ensures
        r == <A::Output as PropertyLeaf>::spec_from_bits(accessor_bits(a, b)),
{
    let w = <A::Output as PropertyLeaf>::width();
    let mut bits: Vec<bool> = Vec::new();
    let mut biti: usize = 0;
    while biti < w
        invariant
            w as nat == <A::Output as PropertyLeaf>::leaf_width(),
            biti <= w,
            accessor_in_bounds(a, b),
            bits@.len() == biti,
            forall|i: int| 0 <= i < biti ==> bits@[i] == accessor_bits(a, b)[i],
        decreases w - biti,
    {
        let (c, inv) = a.get_bit_pos(biti);
        let bit = b.get(c);
        bits.push(bit != inv);
        biti = biti + 1;
    }
    proof {
        assert(bits@ =~= accessor_bits(a, b));
    }
    <A::Output as PropertyLeaf>::from_bits(&bits)
}

/// Convert a value to its bit vector and write every bit to its
/// coordinate. Requires the accessor's coordinates to be pairwise
/// distinct, so that each written bit survives the writes after it.
pub fn set_property<A: PropertyAccessor, B: BitArray>(a: &A, b: &mut B, val: &A::Output)
    requires
        accessor_in_bounds(a, old(b)),
        accessor_injective(a),
    ensures
        forall|i: int| 0 <= i < <A::Output as PropertyLeaf>::leaf_width()
            ==> final(b).spec_get((#[trigger] a.spec_bit_pos(i)).0)
                == (val.spec_to_bits()[i] != a.spec_bit_pos(i).1),
        forall|c: Coordinate| (forall|i: int|
            0 <= i < <A::Output as PropertyLeaf>::leaf_width()
                ==> c != (#[trigger] a.spec_bit_pos(i)).0)
            ==> final(b).spec_get(c) == old(b).spec_get(c),
        forall|c: Coordinate| final(b).spec_valid(c) == old(b).spec_valid(c),
{
    let bits = val.to_bits();
    proof {
        val.lemma_to_bits_width();
    }
    let w = <A::Output as PropertyLeaf>::width();
    let mut biti: usize = 0;
    while biti < w
        invariant
            w as nat == <A::Output as PropertyLeaf>::leaf_width(),
            biti <= w,
            bits@ == val.spec_to_bits(),
            bits@.len() == w,
            accessor_in_bounds(a, old(b)),
            accessor_injective(a),
            forall|c: Coordinate| b.spec_valid(c) == old(b).spec_valid(c),
            forall|i: int| 0 <= i < biti
                ==> b.spec_get((#[trigger] a.spec_bit_pos(i)).0)
                    == (bits@[i] != a.spec_bit_pos(i).1),
            forall|c: Coordinate| (forall|i: int| 0 <= i < w
                ==> c != (#[trigger] a.spec_bit_pos(i)).0)
                ==> b.spec_get(c) == old(b).spec_get(c),
            forall|i: int| biti <= i < w
                ==> b.spec_get((#[trigger] a.spec_bit_pos(i)).0)
                    == old(b).spec_get(a.spec_bit_pos(i).0),
        decreases w - biti,
    {
        let (c, inv) = a.get_bit_pos(biti);
        b.set(c, bits[biti] != inv);
        biti = biti + 1;
    }
}

/// Conversion between a property value and a human-readable string. The
/// accessor is available so that an instance's identity can shape its
/// string forms.
pub trait PropertyLeafWithStringConv<A: PropertyAccessor>: PropertyLeaf {
    /// The string form of this value.
    spec fn spec_to_string(&self, a: &A) -> Seq<char>;

    /// The value a string parses to, if any.
    spec fn spec_from_string(s: Seq<char>, a: &A) -> Option<Self>;

    /// Render the value.
    fn to_string(&self, a: &A) -> (r: String)
        ensures
            r@ == self.spec_to_string(a),
    ;

    /// Parse a value; a failure reports an error and produces nothing.
    fn from_string(s: &str, a: &A) -> (r: Result<Self, ()>)
        ensures
            match r {
                Ok(v) => Self::spec_from_string(s@, a) == Some(v),
                Err(_) => Self::spec_from_string(s@, a).is_none(),
            },
    ;
}

/// Whether a property value is at its declared default.
pub trait PropertyLeafWithDefault<A: PropertyAccessor>: PropertyLeaf {
    /// The default test in spec form.
    spec fn spec_is_default(&self, a: &A) -> bool;

    /// Whether this value is the default.
    fn is_default(&self, a: &A) -> (r: bool)
        ensures
            r == self.spec_is_default(a),
    ;
}

/// Read a property and render it as a string.
pub fn get_as_string_prop<A: PropertyAccessor, B: BitArray>(a: &A, b: &B) -> (r: String)
    where A::Output: PropertyLeafWithStringConv<A>
    requires
        accessor_in_bounds(a, b),
    ensures
        r@ == <A::Output as PropertyLeaf>::spec_from_bits(accessor_bits(a, b)).spec_to_string(a),
{
    let val = get_property(a, b);
    val.to_string(a)
}

/// Whether the property's current value is at its default.
pub fn is_at_default_prop<A: PropertyAccessor, B: BitArray>(a: &A, b: &B) -> (r: bool)
    where A::Output: PropertyLeafWithDefault<A>
    requires
        accessor_in_bounds(a, b),
    ensures
        r == <A::Output as PropertyLeaf>::spec_from_bits(accessor_bits(a, b)).spec_is_default(a),
{
    let val = get_property(a, b);
    val.is_default(a)
}

/// Parse the full string before writing any bit: a conversion failure
/// leaves the bit array unmodified.
pub fn set_from_string_prop<A: PropertyAccessor, B: BitArray>(
    a: &A,
    b: &mut B,
    s: &str,
) -> (r: Result<(), ()>)
    where A::Output: PropertyLeafWithStringConv<A>
    requires
        accessor_in_bounds(a, old(b)),
        accessor_injective(a),
    ensures
        match r {
            Ok(_) => {
                &&& <A::Output as PropertyLeafWithStringConv<A>>::spec_from_string(s@, a).is_some()
                &&& {
                    let val = <A::Output as PropertyLeafWithStringConv<A>>::spec_from_string(
                        s@,
                        a,
                    ).unwrap();
                    &&& forall|i: int| 0 <= i < <A::Output as PropertyLeaf>::leaf_width()
                        ==> final(b).spec_get((#[trigger] a.spec_bit_pos(i)).0)
                            == (val.spec_to_bits()[i] != a.spec_bit_pos(i).1)
                    &&& forall|c: Coordinate| (forall|i: int|
                        0 <= i < <A::Output as PropertyLeaf>::leaf_width()
                            ==> c != (#[trigger] a.spec_bit_pos(i)).0)
                        ==> final(b).spec_get(c) == old(b).spec_get(c)
                }
            },
            Err(_) => {
                &&& <A::Output as PropertyLeafWithStringConv<A>>::spec_from_string(s@, a).is_none()
                &&& *final(b) == *old(b)
            },
        },
        forall|c: Coordinate| final(b).spec_valid(c) == old(b).spec_valid(c),
{
    let val = match <A::Output as PropertyLeafWithStringConv<A>>::from_string(s, a) {
        Ok(v) => v,
        Err(_) => {
            return Err(());
        },
    };
    set_property(a, b, &val);
    Ok(())
}

} // verus!
