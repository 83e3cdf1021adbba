//! String utilities shared by the text-facing layers: conversion between
//! `String` and `Vec<char>`, whitespace trimming, searching, and exact
//! decimal / hexadecimal renderings of unsigned integers.
//!
//! All logic works on `Vec<char>` so that it can be specified over
//! `Seq<char>`; only the two conversion functions at the top touch `std`'s
//! string machinery.

use vstd::prelude::*;

verus! {

/// Relies on str::chars: yields the characters of the string in order.
#[verifier::external_body]
pub fn str_chars(s: &str) -> (r: Vec<char>)
    ensures
        r@ == s@,
{
    s.chars().collect()
}

/// Relies on String's FromIterator over chars: collecting characters builds
/// the string holding exactly those characters in order.
#[verifier::external_body]
pub fn chars_string(v: &Vec<char>) -> (r: String)
    ensures
        r@ == v@,
{
    v.iter().collect()
}

/// The whitespace characters that line trimming removes.
pub open spec fn is_ws(c: char) -> bool {
    c == ' ' || c == '\t' || c == '\r' || c == '\n'
}

/// Length of the longest all-whitespace prefix.
pub open spec fn ws_prefix(s: Seq<char>) -> nat
    decreases s.len(),
{
    if s.len() == 0 || !is_ws(s[0]) {
        0
    } else {
        1 + ws_prefix(s.drop_first())
    }
}

/// Length of the longest all-whitespace suffix.
pub open spec fn ws_suffix(s: Seq<char>) -> nat
    decreases s.len(),
{
    if s.len() == 0 || !is_ws(s.last()) {
        0
    } else {
        1 + ws_suffix(s.drop_last())
    }
}

/// The sequence with leading and trailing whitespace removed.
pub open spec fn spec_trim(s: Seq<char>) -> Seq<char> {
    let t = s.subrange(ws_prefix(s) as int, s.len() as int);
    t.subrange(0, (t.len() - ws_suffix(t)) as int)
}

proof fn lemma_ws_prefix_bounds(s: Seq<char>)
    ensures
        ws_prefix(s) <= s.len(),
        forall|i: int| 0 <= i < ws_prefix(s) ==> is_ws(s[i]),
        ws_prefix(s) < s.len() ==> !is_ws(s[ws_prefix(s) as int]),
    decreases s.len(),
{
    if s.len() > 0 && is_ws(s[0]) {
        let t = s.drop_first();
        lemma_ws_prefix_bounds(t);
        assert(forall|i: int| 1 <= i < s.len() ==> s[i] == t[i - 1]);
    }
}

pub proof fn lemma_ws_prefix_is(s: Seq<char>, k: nat)
    requires
        k <= s.len(),
        forall|i: int| 0 <= i < k ==> is_ws(s[i]),
        k < s.len() ==> !is_ws(s[k as int]),
    ensures
        ws_prefix(s) == k,
    decreases s.len(),
{
    if s.len() == 0 || !is_ws(s[0]) {
    } else {
        assert(k > 0);
        lemma_ws_prefix_is(s.drop_first(), (k - 1) as nat);
    }
}

proof fn lemma_ws_suffix_bounds(s: Seq<char>)
    ensures
        ws_suffix(s) <= s.len(),
        forall|i: int| s.len() - ws_suffix(s) <= i < s.len() ==> is_ws(s[i]),
        ws_suffix(s) < s.len() ==> !is_ws(s[s.len() - ws_suffix(s) - 1]),
    decreases s.len(),
{
    if s.len() > 0 && is_ws(s.last()) {
        let t = s.drop_last();
        lemma_ws_suffix_bounds(t);
        assert(forall|i: int| 0 <= i < s.len() - 1 ==> s[i] == t[i]);
    }
}

pub proof fn lemma_ws_suffix_is(s: Seq<char>, k: nat)
    requires
        k <= s.len(),
        forall|i: int| s.len() - k <= i < s.len() ==> is_ws(s[i]),
        k < s.len() ==> !is_ws(s[s.len() - k - 1]),
    ensures
        ws_suffix(s) == k,
    decreases s.len(),
{
    if s.len() == 0 || !is_ws(s.last()) {
    } else {
        assert(k > 0);
        lemma_ws_suffix_is(s.drop_last(), (k - 1) as nat);
    }
}

/// Copy the subrange `[from, to)` out of a character vector.
pub fn chars_subrange(v: &Vec<char>, from: usize, to: usize) -> (r: Vec<char>)
    requires
        from <= to <= v@.len(),
    ensures
        r@ == v@.subrange(from as int, to as int),
{
    let mut r: Vec<char> = Vec::new();
    let mut i: usize = from;
    while i < to
        invariant
            from <= i <= to <= v@.len(),
            r@ == v@.subrange(from as int, i as int),
        decreases to - i,
    {
        r.push(v[i]);
        proof {
            assert(v@.subrange(from as int, i + 1 as int)
                =~= v@.subrange(from as int, i as int).push(v@[i as int]));
        }
        i = i + 1;
    }
    r
}

/// Whether a character is line whitespace.
pub fn is_ws_exec(c: char) -> (r: bool)
    ensures
        r == is_ws(c),
{
    c == ' ' || c == '\t' || c == '\r' || c == '\n'
}

/// Remove leading and trailing whitespace.
pub fn trim(v: &Vec<char>) -> (r: Vec<char>)
    ensures
        r@ == spec_trim(v@),
{
    let n = v.len();
    let mut a: usize = 0;
    while a < n && is_ws_exec(v[a])
        invariant
            a <= n == v@.len(),
            forall|i: int| 0 <= i < a ==> is_ws(v@[i]),
        decreases n - a,
    {
        a = a + 1;
    }
    proof {
        lemma_ws_prefix_is(v@, a as nat);
    }
    let mut b: usize = n;
    while b > a && is_ws_exec(v[b - 1])
        invariant
            a <= b <= n == v@.len(),
            forall|i: int| b <= i < n ==> is_ws(v@[i]),
            a < n ==> !is_ws(v@[a as int]),
        decreases b,
    {
        b = b - 1;
    }
    let r = chars_subrange(v, a, b);
    proof {
        let t = v@.subrange(a as int, n as int);
        if b == a {
            lemma_ws_suffix_is(t, (n - a) as nat);
        } else {
            lemma_ws_suffix_is(t, (n - b) as nat);
        }
        assert(r@ =~= spec_trim(v@));
    }
    r
}

/// Trimming does nothing to a sequence whose ends are not whitespace.
pub proof fn lemma_trim_noop(s: Seq<char>)
    requires
        s.len() > 0,
        !is_ws(s[0]),
        !is_ws(s.last()),
    ensures
        spec_trim(s) == s,
{
    lemma_ws_prefix_is(s, 0);
    let t = s.subrange(0, s.len() as int);
    assert(t =~= s);
    lemma_ws_suffix_is(t, 0);
    assert(spec_trim(s) =~= s);
}

/// First position at or after `from` holding character `c`.
pub open spec fn spec_find(s: Seq<char>, from: nat, c: char) -> Option<nat>
    decreases s.len() - from,
{
    if from >= s.len() {
        None
    } else if s[from as int] == c {
        Some(from)
    } else {
        spec_find(s, from + 1, c)
    }
}

pub proof fn lemma_spec_find(s: Seq<char>, from: nat, c: char)
    requires
        from <= s.len(),
    ensures
        match spec_find(s, from, c) {
            Some(k) => from <= k < s.len() && s[k as int] == c
                && forall|i: int| from <= i < k ==> s[i] != c,
            None => forall|i: int| from <= i < s.len() ==> s[i] != c,
        },
    decreases s.len() - from,
{
    if from < s.len() && s[from as int] != c {
        lemma_spec_find(s, from + 1, c);
    }
}

/// Find the first occurrence of `c` at or after `from`.
pub fn find_char(v: &Vec<char>, from: usize, c: char) -> (r: Option<usize>)
    requires
        from <= v@.len(),
    ensures
        match r {
            Some(k) => Some(k as nat) == spec_find(v@, from as nat, c),
            None => spec_find(v@, from as nat, c).is_none(),
        },
{
    let mut i: usize = from;
    while i < v.len()
        invariant
            from <= i <= v@.len(),
            spec_find(v@, from as nat, c) == spec_find(v@, i as nat, c),
        decreases v@.len() - i,
    {
        if v[i] == c {
            return Some(i);
        }
        i = i + 1;
    }
    None
}

/// Whether a character is a space or a tab: the separators that split a
/// definition line into its fields.
pub open spec fn is_blank(c: char) -> bool {
    c == ' ' || c == '\t'
}

/// First position at or after `from` holding a space or tab.
pub open spec fn spec_find_blank(s: Seq<char>, from: nat) -> Option<nat>
    decreases s.len() - from,
{
    if from >= s.len() {
        None
    } else if is_blank(s[from as int]) {
        Some(from)
    } else {
        spec_find_blank(s, from + 1)
    }
}

pub proof fn lemma_spec_find_blank(s: Seq<char>, from: nat)
    requires
        from <= s.len(),
    ensures
        match spec_find_blank(s, from) {
            Some(k) => from <= k < s.len() && is_blank(s[k as int])
                && forall|i: int| from <= i < k ==> !is_blank(s[i]),
            None => forall|i: int| from <= i < s.len() ==> !is_blank(s[i]),
        },
    decreases s.len() - from,
{
    if from < s.len() && !is_blank(s[from as int]) {
        lemma_spec_find_blank(s, from + 1);
    }
}

/// Find the first space or tab at or after `from`.
pub fn find_blank(v: &Vec<char>, from: usize) -> (r: Option<usize>)
    requires
        from <= v@.len(),
    ensures
        match r {
            Some(k) => Some(k as nat) == spec_find_blank(v@, from as nat),
            None => spec_find_blank(v@, from as nat).is_none(),
        },
{
    let mut i: usize = from;
    while i < v.len()
        invariant
            from <= i <= v@.len(),
            spec_find_blank(v@, from as nat) == spec_find_blank(v@, i as nat),
        decreases v@.len() - i,
    {
        if v[i] == ' ' || v[i] == '\t' {
            return Some(i);
        }
        i = i + 1;
    }
    None
}

/// A position whose earlier positions all miss `c` is the first find.
pub proof fn lemma_spec_find_is(s: Seq<char>, from: nat, c: char, k: nat)
    requires
        from <= k < s.len(),
        s[k as int] == c,
        forall|i: int| from <= i < k ==> s[i] != c,
    ensures
        spec_find(s, from, c) == Some(k),
    decreases k - from,
{
    if from < k {
        lemma_spec_find_is(s, from + 1, c, k);
    }
}

/// `c` is absent at and after `from`: nothing to find.
pub proof fn lemma_spec_find_none(s: Seq<char>, from: nat, c: char)
    requires
        from <= s.len(),
        forall|i: int| from <= i < s.len() ==> s[i] != c,
    ensures
        spec_find(s, from, c).is_none(),
    decreases s.len() - from,
{
    if from < s.len() {
        lemma_spec_find_none(s, from + 1, c);
    }
}

/// A position whose later positions all miss `c` is the last find.
pub proof fn lemma_spec_rfind_is(s: Seq<char>, c: char, k: nat)
    requires
        k < s.len(),
        s[k as int] == c,
        forall|i: int| k < i < s.len() ==> s[i] != c,
    ensures
        spec_rfind(s, c) == Some(k),
    decreases s.len(),
{
    if k + 1 < s.len() {
        let t = s.drop_last();
        assert(forall|i: int| 0 <= i < t.len() ==> t[i] == s[i]);
        lemma_spec_rfind_is(t, c, k);
    }
}

/// The digits of a rendered decimal are decimal digits, and a value
/// below ten renders as one character.
pub proof fn lemma_dec_chars(v: nat)
    ensures
        is_dec_str(nat_to_dec(v)),
        v < 10 ==> nat_to_dec(v).len() == 1,
{
    lemma_dec_round_trip(v);
}

/// Last position holding character `c`.
pub open spec fn spec_rfind(s: Seq<char>, c: char) -> Option<nat>
    decreases s.len(),
{
    if s.len() == 0 {
        None
    } else if s.last() == c {
        Some((s.len() - 1) as nat)
    } else {
        spec_rfind(s.drop_last(), c)
    }
}

pub proof fn lemma_spec_rfind(s: Seq<char>, c: char)
    ensures
        match spec_rfind(s, c) {
            Some(k) => k < s.len() && s[k as int] == c
                && forall|i: int| k < i < s.len() ==> s[i] != c,
            None => forall|i: int| 0 <= i < s.len() ==> s[i] != c,
        },
    decreases s.len(),
{
    if s.len() > 0 && s.last() != c {
        let t = s.drop_last();
        lemma_spec_rfind(t, c);
        assert(forall|i: int| 0 <= i < s.len() - 1 ==> s[i] == t[i]);
    }
}

/// Find the last occurrence of `c`.
pub fn rfind_char(v: &Vec<char>, c: char) -> (r: Option<usize>)
    ensures
        match r {
            Some(k) => Some(k as nat) == spec_rfind(v@, c),
            None => spec_rfind(v@, c).is_none(),
        },
{
    proof {
        assert(v@.subrange(0, v@.len() as int) =~= v@);
    }
    let mut i: usize = v.len();
    while i > 0
        invariant
            i <= v@.len(),
            spec_rfind(v@, c) == spec_rfind(v@.subrange(0, i as int), c),
        decreases i,
    {
        proof {
            assert(v@.subrange(0, i as int).drop_last() =~= v@.subrange(0, i - 1 as int));
        }
        if v[i - 1] == c {
            return Some(i - 1);
        }
        i = i - 1;
    }
    None
}

/// Character-vector equality.
pub fn chars_eq(a: &Vec<char>, b: &Vec<char>) -> (r: bool)
    ensures
        r == (a@ == b@),
{
    if a.len() != b.len() {
        proof {
            assert(a@ != b@);
        }
        return false;
    }
    let mut i: usize = 0;
    while i < a.len()
        invariant
            i <= a@.len() == b@.len(),
            forall|j: int| 0 <= j < i ==> a@[j] == b@[j],
        decreases a@.len() - i,
    {
        if a[i] != b[i] {
            return false;
        }
        i = i + 1;
    }
    proof {
        assert(a@ =~= b@);
    }
    true
}

/// The decimal digits of `v`, most significant first, with no leading
/// zeros (`0` renders as `"0"`).
pub open spec fn nat_to_dec(v: nat) -> Seq<char>
    decreases v,
{
    if v < 10 {
        seq![dec_digit_char(v)]
    } else {
        nat_to_dec(v / 10) + seq![dec_digit_char(v % 10)]
    }
}

pub open spec fn dec_digit_char(d: nat) -> char {
    if d == 0 { '0' } else if d == 1 { '1' } else if d == 2 { '2' } else if d == 3 { '3' }
    else if d == 4 { '4' } else if d == 5 { '5' } else if d == 6 { '6' } else if d == 7 { '7' }
    else if d == 8 { '8' } else { '9' }
}

/// The value of a decimal digit character, `None` for any other character.
pub open spec fn dec_digit_val(c: char) -> Option<nat> {
    if c == '0' { Some(0nat) } else if c == '1' { Some(1nat) } else if c == '2' { Some(2nat) }
    else if c == '3' { Some(3nat) } else if c == '4' { Some(4nat) } else if c == '5' { Some(5nat) }
    else if c == '6' { Some(6nat) } else if c == '7' { Some(7nat) } else if c == '8' { Some(8nat) }
    else if c == '9' { Some(9nat) } else { None }
}

/// Whether every character is a decimal digit (and there is at least one).
pub open spec fn is_dec_str(s: Seq<char>) -> bool {
    s.len() > 0 && forall|i: int| 0 <= i < s.len() ==> dec_digit_val(s[i]).is_some()
}

/// The value of an all-digit character sequence, most significant first.
pub open spec fn dec_str_val(s: Seq<char>) -> nat
    decreases s.len(),
{
    if s.len() == 0 {
        0
    } else {
        dec_str_val(s.drop_last()) * 10 + dec_digit_val(s.last()).unwrap_or(0)
    }
}

exec fn dec_digit_char_exec(d: u128) -> (r: char)
    requires
        d < 10,
    ensures
        r == dec_digit_char(d as nat),
{
    if d == 0 { '0' } else if d == 1 { '1' } else if d == 2 { '2' } else if d == 3 { '3' }
    else if d == 4 { '4' } else if d == 5 { '5' } else if d == 6 { '6' } else if d == 7 { '7' }
    else if d == 8 { '8' } else { '9' }
}

exec fn dec_digit_val_exec(c: char) -> (r: Option<u8>)
    ensures
        match r {
            Some(d) => dec_digit_val(c) == Some(d as nat),
            None => dec_digit_val(c).is_none(),
        },
{
    if c == '0' { Some(0) } else if c == '1' { Some(1) } else if c == '2' { Some(2) }
    else if c == '3' { Some(3) } else if c == '4' { Some(4) } else if c == '5' { Some(5) }
    else if c == '6' { Some(6) } else if c == '7' { Some(7) } else if c == '8' { Some(8) }
    else if c == '9' { Some(9) } else { None }
}

fn push_dec_digits(v: u128, out: &mut Vec<char>)
    ensures
        final(out)@ == old(out)@ + nat_to_dec(v as nat),
    decreases v,
{
    if v < 10 {
        out.push(dec_digit_char_exec(v));
    } else {
        proof {
            assert(v / 10 < v) by (nonlinear_arith)
                requires v >= 10;
        }
        push_dec_digits(v / 10, out);
        out.push(dec_digit_char_exec(v % 10));
        proof {
            assert(old(out)@ + nat_to_dec(v as nat / 10) + seq![dec_digit_char((v % 10) as nat)]
                =~= old(out)@ + nat_to_dec(v as nat));
        }
    }
}

/// Render an unsigned integer in decimal.
pub fn u128_to_dec_chars(v: u128) -> (r: Vec<char>)
    ensures
        r@ == nat_to_dec(v as nat),
{
    let mut out: Vec<char> = Vec::new();
    push_dec_digits(v, &mut out);
    proof {
        assert(out@ =~= nat_to_dec(v as nat));
    }
    out
}

/// Parse an all-decimal-digit character sequence; `None` on an empty
/// sequence, a non-digit character, or a value that overflows `u128`.
pub fn dec_chars_to_u128(s: &Vec<char>) -> (r: Option<u128>)
    ensures
        match r {
            Some(v) => is_dec_str(s@) && dec_str_val(s@) == v as nat,
            None => !is_dec_str(s@) || dec_str_val(s@) > u128::MAX as nat,
        },
{
    if s.len() == 0 {
        return None;
    }
    let mut acc: u128 = 0;
    let mut i: usize = 0;
    while i < s.len()
        invariant
            i <= s@.len(),
            forall|j: int| 0 <= j < i ==> dec_digit_val(s@[j]).is_some(),
            acc as nat == dec_str_val(s@.subrange(0, i as int)),
        decreases s@.len() - i,
    {
        let d = match dec_digit_val_exec(s[i]) {
            Some(d) => d,
            None => {
                proof {
                    assert(dec_digit_val(s@[i as int]).is_none());
                }
                return None;
            },
        };
        proof {
            assert(s@.subrange(0, i + 1 as int).drop_last() =~= s@.subrange(0, i as int));
        }
        if acc > (u128::MAX - d as u128) / 10 {
            proof {
                let pre = s@.subrange(0, i + 1 as int);
                lemma_dec_str_val_monotone(s@, i + 1 as int);
                assert(dec_str_val(pre) > u128::MAX as nat) by (nonlinear_arith)
                    requires
                        dec_str_val(pre) == acc as nat * 10 + dec_digit_val(s@[i as int]).unwrap_or(0),
                        dec_digit_val(s@[i as int]) == Some(d as nat),
                        acc as nat > ((u128::MAX - d as u128) / 10) as nat,
                        d < 10;
            }
            return None;
        }
        proof {
            assert((acc * 10 + d as u128) as nat == acc as nat * 10 + d as nat
                && acc as nat * 10 + d as nat <= u128::MAX as nat) by (nonlinear_arith)
                requires
                    acc as nat <= ((u128::MAX - d as u128) / 10) as nat,
                    d < 10;
        }
        acc = acc * 10 + d as u128;
        i = i + 1;
    }
    proof {
        assert(s@.subrange(0, s@.len() as int) =~= s@);
    }
    Some(acc)
}

/// A longer digit string never has a smaller value than its prefix.
proof fn lemma_dec_str_val_monotone(s: Seq<char>, k: int)
    requires
        0 <= k <= s.len(),
    ensures
        dec_str_val(s.subrange(0, k)) <= dec_str_val(s),
    decreases s.len() - k,
{
    if k < s.len() {
        lemma_dec_str_val_monotone(s, k + 1);
        let a = s.subrange(0, k);
        let b = s.subrange(0, k + 1);
        assert(b.drop_last() =~= a);
        assert(dec_str_val(a) <= dec_str_val(a) * 10 + dec_digit_val(b.last()).unwrap_or(0))
            by (nonlinear_arith);
    } else {
        assert(s.subrange(0, k) =~= s);
    }
}

/// Each decimal digit character parses back to its value.
pub proof fn lemma_dec_digit_inverse(d: nat)
    requires
        d < 10,
    ensures
        dec_digit_val(dec_digit_char(d)) == Some(d),
{
}

/// Parsing a rendered decimal gives the value back.
pub proof fn lemma_dec_round_trip(v: nat)
    ensures
        is_dec_str(nat_to_dec(v)),
        dec_str_val(nat_to_dec(v)) == v,
    decreases v,
{
    if v < 10 {
        lemma_dec_digit_inverse(v);
        let s = nat_to_dec(v);
        assert(s.drop_last() =~= Seq::<char>::empty());
        assert(dec_str_val(Seq::<char>::empty()) == 0);
    } else {
        lemma_dec_round_trip(v / 10);
        lemma_dec_digit_inverse(v % 10);
        let s = nat_to_dec(v);
        let t = nat_to_dec(v / 10);
        assert(s.drop_last() =~= t);
        assert(s.last() == dec_digit_char(v % 10));
        assert(forall|i: int| 0 <= i < t.len() ==> s[i] == t[i]);
        assert(dec_str_val(s) == (v / 10) * 10 + v % 10);
        assert((v / 10) * 10 + v % 10 == v) by (nonlinear_arith);
    }
}

/// The uppercase hexadecimal digits of `v`, most significant first, with
/// no leading zeros.
pub open spec fn nat_to_hex(v: nat) -> Seq<char>
    decreases v,
{
    if v < 16 {
        seq![hex_digit_char(v)]
    } else {
        nat_to_hex(v / 16) + seq![hex_digit_char(v % 16)]
    }
}

pub open spec fn hex_digit_char(d: nat) -> char {
    if d == 0 { '0' } else if d == 1 { '1' } else if d == 2 { '2' } else if d == 3 { '3' }
    else if d == 4 { '4' } else if d == 5 { '5' } else if d == 6 { '6' } else if d == 7 { '7' }
    else if d == 8 { '8' } else if d == 9 { '9' } else if d == 10 { 'A' } else if d == 11 { 'B' }
    else if d == 12 { 'C' } else if d == 13 { 'D' } else if d == 14 { 'E' } else { 'F' }
}

/// The value of a hexadecimal digit character, either case, `None` for any
/// other character.
pub open spec fn hex_digit_val(c: char) -> Option<nat> {
    if c == 'A' || c == 'a' { Some(10nat) } else if c == 'B' || c == 'b' { Some(11nat) }
    else if c == 'C' || c == 'c' { Some(12nat) } else if c == 'D' || c == 'd' { Some(13nat) }
    else if c == 'E' || c == 'e' { Some(14nat) } else if c == 'F' || c == 'f' { Some(15nat) }
    else { dec_digit_val(c) }
}

pub open spec fn is_hex_str(s: Seq<char>) -> bool {
    s.len() > 0 && forall|i: int| 0 <= i < s.len() ==> hex_digit_val(s[i]).is_some()
}

pub open spec fn hex_str_val(s: Seq<char>) -> nat
    decreases s.len(),
{
    if s.len() == 0 {
        0
    } else {
        hex_str_val(s.drop_last()) * 16 + hex_digit_val(s.last()).unwrap_or(0)
    }
}

exec fn hex_digit_char_exec(d: u128) -> (r: char)
    requires
        d < 16,
    ensures
        r == hex_digit_char(d as nat),
{
    if d == 0 { '0' } else if d == 1 { '1' } else if d == 2 { '2' } else if d == 3 { '3' }
    else if d == 4 { '4' } else if d == 5 { '5' } else if d == 6 { '6' } else if d == 7 { '7' }
    else if d == 8 { '8' } else if d == 9 { '9' } else if d == 10 { 'A' } else if d == 11 { 'B' }
    else if d == 12 { 'C' } else if d == 13 { 'D' } else if d == 14 { 'E' } else { 'F' }
}

exec fn hex_digit_val_exec(c: char) -> (r: Option<u8>)
    ensures
        match r {
            Some(d) => hex_digit_val(c) == Some(d as nat),
            None => hex_digit_val(c).is_none(),
        },
{
    if c == 'A' || c == 'a' { Some(10) } else if c == 'B' || c == 'b' { Some(11) }
    else if c == 'C' || c == 'c' { Some(12) } else if c == 'D' || c == 'd' { Some(13) }
    else if c == 'E' || c == 'e' { Some(14) } else if c == 'F' || c == 'f' { Some(15) }
    else { dec_digit_val_exec(c) }
}

fn push_hex_digits(v: u128, out: &mut Vec<char>)
    ensures
        final(out)@ == old(out)@ + nat_to_hex(v as nat),
    decreases v,
{
    if v < 16 {
        out.push(hex_digit_char_exec(v));
    } else {
        proof {
            assert(v / 16 < v) by (nonlinear_arith)
                requires v >= 16;
        }
        push_hex_digits(v / 16, out);
        out.push(hex_digit_char_exec(v % 16));
        proof {
            assert(old(out)@ + nat_to_hex(v as nat / 16) + seq![hex_digit_char((v % 16) as nat)]
                =~= old(out)@ + nat_to_hex(v as nat));
        }
    }
}

/// Render an unsigned integer in uppercase hexadecimal (no `0x` prefix).
pub fn u128_to_hex_chars(v: u128) -> (r: Vec<char>)
    ensures
        r@ == nat_to_hex(v as nat),
{
    let mut out: Vec<char> = Vec::new();
    push_hex_digits(v, &mut out);
    proof {
        assert(out@ =~= nat_to_hex(v as nat));
    }
    out
}

/// Parse an all-hex-digit character sequence; `None` on an empty sequence,
/// a non-digit character, or a value that overflows `u128`.
pub fn hex_chars_to_u128(s: &Vec<char>) -> (r: Option<u128>)
    ensures
        match r {
            Some(v) => is_hex_str(s@) && hex_str_val(s@) == v as nat,
            None => !is_hex_str(s@) || hex_str_val(s@) > u128::MAX as nat,
        },
{
    if s.len() == 0 {
        return None;
    }
    let mut acc: u128 = 0;
    let mut i: usize = 0;
    while i < s.len()
        invariant
            i <= s@.len(),
            forall|j: int| 0 <= j < i ==> hex_digit_val(s@[j]).is_some(),
            acc as nat == hex_str_val(s@.subrange(0, i as int)),
        decreases s@.len() - i,
    {
        let d = match hex_digit_val_exec(s[i]) {
            Some(d) => d,
            None => {
                proof {
                    assert(hex_digit_val(s@[i as int]).is_none());
                }
                return None;
            },
        };
        proof {
            assert(s@.subrange(0, i + 1 as int).drop_last() =~= s@.subrange(0, i as int));
        }
        if acc > (u128::MAX - d as u128) / 16 {
            proof {
                let pre = s@.subrange(0, i + 1 as int);
                lemma_hex_str_val_monotone(s@, i + 1 as int);
                assert(hex_str_val(pre) > u128::MAX as nat) by (nonlinear_arith)
                    requires
                        hex_str_val(pre) == acc as nat * 16 + hex_digit_val(s@[i as int]).unwrap_or(0),
                        hex_digit_val(s@[i as int]) == Some(d as nat),
                        acc as nat > ((u128::MAX - d as u128) / 16) as nat,
                        d < 16;
            }
            return None;
        }
        proof {
            assert((acc * 16 + d as u128) as nat == acc as nat * 16 + d as nat
                && acc as nat * 16 + d as nat <= u128::MAX as nat) by (nonlinear_arith)
                requires
                    acc as nat <= ((u128::MAX - d as u128) / 16) as nat,
                    d < 16;
        }
        acc = acc * 16 + d as u128;
        i = i + 1;
    }
    proof {
        assert(s@.subrange(0, s@.len() as int) =~= s@);
    }
    Some(acc)
}

proof fn lemma_hex_str_val_monotone(s: Seq<char>, k: int)
    requires
        0 <= k <= s.len(),
    ensures
        hex_str_val(s.subrange(0, k)) <= hex_str_val(s),
    decreases s.len() - k,
{
    if k < s.len() {
        lemma_hex_str_val_monotone(s, k + 1);
        let a = s.subrange(0, k);
        let b = s.subrange(0, k + 1);
        assert(b.drop_last() =~= a);
        assert(hex_str_val(a) <= hex_str_val(a) * 16 + hex_digit_val(b.last()).unwrap_or(0))
            by (nonlinear_arith);
    } else {
        assert(s.subrange(0, k) =~= s);
    }
}

/// Each hexadecimal digit character parses back to its value.
pub proof fn lemma_hex_digit_inverse(d: nat)
    requires
        d < 16,
    ensures
        hex_digit_val(hex_digit_char(d)) == Some(d),
{
}

/// Parsing a rendered hexadecimal gives the value back.
pub proof fn lemma_hex_round_trip(v: nat)
    ensures
        is_hex_str(nat_to_hex(v)),
        hex_str_val(nat_to_hex(v)) == v,
    decreases v,
{
    if v < 16 {
        lemma_hex_digit_inverse(v);
        let s = nat_to_hex(v);
        assert(s.drop_last() =~= Seq::<char>::empty());
        assert(hex_str_val(Seq::<char>::empty()) == 0);
    } else {
        lemma_hex_round_trip(v / 16);
        lemma_hex_digit_inverse(v % 16);
        let s = nat_to_hex(v);
        let t = nat_to_hex(v / 16);
        assert(s.drop_last() =~= t);
        assert(s.last() == hex_digit_char(v % 16));
        assert(forall|i: int| 0 <= i < t.len() ==> s[i] == t[i]);
        assert(hex_str_val(s) == (v / 16) * 16 + v % 16);
        assert((v / 16) * 16 + v % 16 == v) by (nonlinear_arith);
    }
}

} // verus!
