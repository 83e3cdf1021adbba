//! The value codec: a bidirectional mapping between a fixed-length ordered
//! bit vector and a typed value.
//!
//! Bit `i` of a vector carries the `2^i` place value (little-endian bit
//! order), so a vector of width `N` encodes exactly the unsigned integers
//! below `2^N`. Widths from 1 up to 128 are supported through `u128`.

use vstd::prelude::*;
use vstd::arithmetic::power2::{pow2, lemma_pow2_unfold, lemma_pow2_adds, lemma_pow2_pos, lemma2_to64};

verus! {

/// The unsigned integer encoded by a bit vector, reading bit `i` as the
/// `2^i` place value.
pub open spec fn bits_to_nat(bits: Seq<bool>) -> nat
    decreases bits.len(),
{
    if bits.len() == 0 {
        0
    } else {
        (if bits[0] { 1nat } else { 0nat }) + 2 * bits_to_nat(bits.drop_first())
    }
}

/// The `width`-bit little-endian bit vector of `v` (modulo `2^width`).
pub open spec fn nat_to_bits(v: nat, width: nat) -> Seq<bool>
    decreases width,
{
    if width == 0 {
        Seq::empty()
    } else {
        seq![v % 2 == 1] + nat_to_bits(v / 2, (width - 1) as nat)
    }
}

pub proof fn lemma_nat_to_bits_len(v: nat, width: nat)
    ensures
        nat_to_bits(v, width).len() == width,
    decreases width,
{
    if width > 0 {
        lemma_nat_to_bits_len(v / 2, (width - 1) as nat);
    }
}

/// A bit vector's value is bounded by `2^width`.
pub proof fn lemma_bits_to_nat_bound(bits: Seq<bool>)
    ensures
        bits_to_nat(bits) < pow2(bits.len()),
    decreases bits.len(),
{
    if bits.len() == 0 {
        lemma2_to64();
    } else {
        lemma_bits_to_nat_bound(bits.drop_first());
        lemma_pow2_unfold(bits.len());
    }
}

/// Decoding an encoded value gives the value back, for every width and
/// every value below `2^width`.
pub proof fn lemma_uint_round_trip(v: nat, width: nat)
    requires
        v < pow2(width),
    ensures
        bits_to_nat(nat_to_bits(v, width)) == v,
    decreases width,
{
    if width == 0 {
        lemma2_to64();
    } else {
        lemma_pow2_unfold(width);
        assert(v / 2 < pow2((width - 1) as nat));
        lemma_uint_round_trip(v / 2, (width - 1) as nat);
        let b = nat_to_bits(v, width);
        assert(b.drop_first() =~= nat_to_bits(v / 2, (width - 1) as nat));
    }
}

/// Re-encoding a decoded bit vector reproduces the vector exactly: the
/// integer codec is canonical in both directions.
pub proof fn lemma_bits_round_trip(bits: Seq<bool>)
    ensures
        nat_to_bits(bits_to_nat(bits), bits.len()) =~= bits,
    decreases bits.len(),
{
    if bits.len() > 0 {
        lemma_bits_round_trip(bits.drop_first());
        let v = bits_to_nat(bits);
        assert(v % 2 == 1 <==> bits[0]);
        assert(v / 2 == bits_to_nat(bits.drop_first()));
        assert(nat_to_bits(v, bits.len()).drop_first() =~= nat_to_bits(v / 2, (bits.len() - 1) as nat));
    }
}

/// `2^128 - 1` is the largest `u128`, so every 128-bit vector's value fits.
pub proof fn lemma_pow2_128()
    ensures
        pow2(128) == 0x100000000000000000000000000000000,
{
    lemma2_to64();
    lemma_pow2_adds(64, 64);
}

proof fn lemma_pow2_le_128(w: nat)
    requires
        w <= 128,
    ensures
        pow2(w) <= pow2(128),
{
    if w < 128 {
        vstd::arithmetic::power2::lemma_pow2_strictly_increases(w, 128);
    }
}

/// Decode a bit vector of width at most 128 as an unsigned integer,
/// reading bit `i` as the `2^i` place value.
pub fn uint_from_bits(bits: &Vec<bool>) -> (r: u128)
    requires
        bits@.len() <= 128,
    ensures
        r as nat == bits_to_nat(bits@),
{
    proof {
        lemma_pow2_128();
        lemma_pow2_le_128(bits@.len());
    }
    let mut r: u128 = 0;
    let mut i: usize = bits.len();
    while i > 0
        invariant
            i <= bits@.len() <= 128,
            r as nat == bits_to_nat(bits@.subrange(i as int, bits@.len() as int)),
        decreases i,
    {
        proof {
            let tail = bits@.subrange(i as int, bits@.len() as int);
            lemma_bits_to_nat_bound(tail);
            lemma_pow2_le_128(tail.len());
            lemma_pow2_128();
            lemma_pow2_unfold((tail.len() + 1) as nat);
            lemma_pow2_le_128((tail.len() + 1) as nat);
            assert(bits@.subrange(i as int - 1, bits@.len() as int).drop_first()
                =~= tail);
        }
        i = i - 1;
        r = 2 * r + (if bits[i] { 1 } else { 0 });
    }
    proof {
        assert(bits@.subrange(0, bits@.len() as int) =~= bits@);
    }
    r
}

/// Encode an unsigned integer below `2^width` as its `width`-bit
/// little-endian bit vector.
pub fn uint_to_bits(v: u128, width: usize) -> (r: Vec<bool>)
    requires
        width <= 128,
        (v as nat) < pow2(width as nat),
    ensures
        r@ == nat_to_bits(v as nat, width as nat),
        r@.len() == width,
{
    let mut r: Vec<bool> = Vec::new();
    let mut cur: u128 = v;
    let mut i: usize = 0;
    while i < width
        invariant
            i <= width,
            r@.len() == i,
            nat_to_bits(v as nat, width as nat)
                =~= r@ + nat_to_bits(cur as nat, (width - i) as nat),
        decreases width - i,
    {
        proof {
            assert(nat_to_bits(cur as nat, (width - i) as nat)
                =~= seq![cur as nat % 2 == 1] + nat_to_bits(cur as nat / 2, (width - i - 1) as nat));
        }
        let b = cur % 2 == 1;
        r.push(b);
        cur = cur / 2;
        i = i + 1;
    }
    proof {
        lemma_nat_to_bits_len(v as nat, width as nat);
        assert(nat_to_bits(cur as nat, 0) =~= Seq::<bool>::empty());
        assert(r@ =~= r@ + Seq::<bool>::empty());
    }
    r
}

/// The canonical string form of an unsigned integer: `0x`-prefixed
/// uppercase hexadecimal.
pub fn uint_to_string(v: u128) -> (r: String)
    ensures
        r@ == "0x"@ + crate::strconv::nat_to_hex(v as nat),
{
    let mut out = crate::strconv::str_chars("0x");
    let mut digits = crate::strconv::u128_to_hex_chars(v);
    out.append(&mut digits);
    crate::strconv::chars_string(&out)
}

/// What an integer input string denotes: hexadecimal under a `0x`
/// prefix, decimal otherwise; nothing if malformed or too large for a
/// property of the given width.
pub open spec fn spec_uint_from_string(s: Seq<char>, width: nat) -> Option<u128> {
    let parsed = if s.len() >= 2 && s[0] == '0' && s[1] == 'x' {
        let digits = s.subrange(2, s.len() as int);
        if crate::strconv::is_hex_str(digits) {
            Some(crate::strconv::hex_str_val(digits))
        } else {
            None
        }
    } else {
        if crate::strconv::is_dec_str(s) {
            Some(crate::strconv::dec_str_val(s))
        } else {
            None
        }
    };
    match parsed {
        Some(v) => if v < pow2(width) && v <= u128::MAX as nat {
            Some(v as u128)
        } else {
            None
        },
        None => None,
    }
}

/// Parse an unsigned integer for a property of the given width,
/// accepting `0x`-prefixed hexadecimal or plain decimal. Any other form,
/// or a value that does not fit the width, is a conversion error.
pub fn uint_from_string(s: &str, width: usize) -> (r: Option<u128>)
    requires
        width <= 128,
    ensures
        r == spec_uint_from_string(s@, width as nat),
{
    proof {
        lemma_pow2_128();
        lemma_pow2_le_128(width as nat);
    }
    let cs = crate::strconv::str_chars(s);
    let parsed: Option<u128> = if cs.len() >= 2 && cs[0] == '0' && cs[1] == 'x' {
        let digits = crate::strconv::chars_subrange(&cs, 2, cs.len());
        match crate::strconv::hex_chars_to_u128(&digits) {
            Some(v) => Some(v),
            None => {
                proof {
                    if crate::strconv::is_hex_str(cs@.subrange(2, cs@.len() as int)) {
                        assert(crate::strconv::hex_str_val(cs@.subrange(2, cs@.len() as int))
                            > u128::MAX as nat);
                    }
                }
                None
            },
        }
    } else {
        match crate::strconv::dec_chars_to_u128(&cs) {
            Some(v) => Some(v),
            None => {
                proof {
                    if crate::strconv::is_dec_str(cs@) {
                        assert(crate::strconv::dec_str_val(cs@) > u128::MAX as nat);
                    }
                }
                None
            },
        }
    };
    match parsed {
        Some(v) => {
            let fits = if width == 128 {
                true
            } else {
                proof {
                    vstd::arithmetic::power2::lemma_pow2_strictly_increases(width as nat, 128);
                }
                (v as u128) < pow2_exec(width)
            };
            if fits {
                Some(v)
            } else {
                None
            }
        },
        None => None,
    }
}

/// `2^e` for exponents below 128, as a runtime value.
pub fn pow2_exec(e: usize) -> (r: u128)
    requires
        e < 128,
    ensures
        r as nat == pow2(e as nat),
{
    proof {
        lemma2_to64();
        lemma_pow2_128();
        lemma_pow2_le_128((e + 1) as nat);
        if (e as nat) < 128 {
            vstd::arithmetic::power2::lemma_pow2_strictly_increases(e as nat, 128);
        }
    }
    let mut r: u128 = 1;
    let mut i: usize = 0;
    while i < e
        invariant
            i <= e < 128,
            r as nat == pow2(i as nat),
        decreases e - i,
    {
        proof {
            lemma_pow2_unfold((i + 1) as nat);
            lemma_pow2_le_128((i + 1) as nat);
            lemma_pow2_128();
            if ((i + 1) as nat) < 128 {
                vstd::arithmetic::power2::lemma_pow2_strictly_increases((i + 1) as nat, 128);
            }
        }
        r = r * 2;
        i = i + 1;
    }
    r
}

} // verus!
