//! The bit-pattern variant matcher: decode / encode semantics for
//! enumerated properties defined by a small pattern DSL.
//!
//! A property declares an ordered list of variants, each with a pattern
//! over `{0, 1, x, X}` of the property's width, plus an optional catchall
//! variant that matches anything. Decoding evaluates variants strictly in
//! declaration order; the first variant whose literal positions all agree
//! with the input wins, wildcard positions (`x` / `X`) matching
//! unconditionally. Encoding writes literal positions from the pattern;
//! wildcard positions take the fixed fill (`x` gives false, `X` gives
//! true) for a non-capturing variant, and the caller-supplied captured bit
//! for a capturing ("keep bits") one. The catchall always captures and
//! reproduces the full bit vector verbatim.

use vstd::prelude::*;
use crate::strconv::{str_chars, chars_string, spec_find, lemma_spec_find, chars_subrange, find_char, chars_eq};

verus! {

/// One named alternative encoding of an enumerated property.
#[derive(Clone, Debug, PartialEq, Eq)]
pub struct Variant {
    pub name: String,
    /// A fixed-width string over `{0, 1, x, X}`, or the token `catchall`.
    pub pattern: String,
    /// Whether wildcard positions pass through captured instance bits.
    pub keep_bits: bool,
    pub documentation: Option<String>,
}

/// A complete enumerated-property definition.
#[derive(Clone, Debug, PartialEq, Eq)]
pub struct BitProperty {
    pub name: String,
    pub documentation: Option<String>,
    /// The non-catchall variants, in declaration order.
    pub variants: Vec<Variant>,
    /// Evaluated last, matches unconditionally, always keeps bits.
    pub catchall_variant: Option<Variant>,
    /// Index into `variants` of the variant marked as default, if any.
    pub default_variant_idx: Option<usize>,
}

/// A decoded value of an enumerated property: which variant, by index in
/// declaration order (`variants.len()` stands for the catchall), plus the
/// captured bit vector when that variant keeps bits (empty otherwise).
#[derive(Clone, Debug, PartialEq, Eq)]
pub struct VariantValue {
    pub variant_idx: usize,
    pub captured: Vec<bool>,
}

pub open spec fn pattern_char_ok(c: char) -> bool {
    c == '0' || c == '1' || c == 'x' || c == 'X'
}

/// The declared width of the property: the shared length of its
/// non-catchall patterns.
pub open spec fn prop_width(p: BitProperty) -> nat {
    if p.variants@.len() == 0 {
        0
    } else {
        p.variants@[0].pattern@.len()
    }
}

/// A variant pattern of the right width over the pattern alphabet.
pub open spec fn wf_variant(v: Variant, width: nat) -> bool {
    v.pattern@.len() == width && forall|i: int| 0 <= i < width ==> pattern_char_ok(v.pattern@[i])
}

/// The definition invariant: all non-catchall patterns share one width,
/// the catchall (if present) keeps bits, and the default index is in
/// range.
pub open spec fn wf_property(p: BitProperty) -> bool {
    &&& forall|j: int| 0 <= j < p.variants@.len() ==> wf_variant(#[trigger] p.variants@[j], prop_width(p))
    &&& match p.catchall_variant {
        Some(cv) => cv.keep_bits,
        None => true,
    }
    &&& match p.default_variant_idx {
        Some(i) => i < p.variants@.len(),
        None => true,
    }
}

/// Whether a pattern matches a bit vector: every literal position agrees,
/// wildcards match unconditionally.
pub open spec fn pattern_matches(pat: Seq<char>, bits: Seq<bool>) -> bool {
    pat.len() == bits.len() && forall|i: int|
        0 <= i < pat.len() ==> ((pat[i] == '0' ==> !bits[i]) && (pat[i] == '1' ==> bits[i]))
}

/// The first variant index at or after `j` whose pattern matches.
pub open spec fn first_match_from(vs: Seq<Variant>, bits: Seq<bool>, j: nat) -> Option<nat>
    decreases vs.len() - j,
{
    if j >= vs.len() {
        None
    } else if pattern_matches(vs[j as int].pattern@, bits) {
        Some(j)
    } else {
        first_match_from(vs, bits, j + 1)
    }
}

/// Which variant a bit vector decodes to: the first matching variant in
/// declaration order, else the catchall (index `variants.len()`) if one is
/// declared, else nothing.
pub open spec fn spec_first_match(p: BitProperty, bits: Seq<bool>) -> Option<nat> {
    match first_match_from(p.variants@, bits, 0) {
        Some(j) => Some(j),
        None => if p.catchall_variant.is_some() {
            Some(p.variants@.len() as nat)
        } else {
            None
        },
    }
}

/// Whether the variant at `idx` keeps (captures) its bits; the catchall
/// always does.
pub open spec fn spec_keeps(p: BitProperty, idx: nat) -> bool {
    if idx < p.variants@.len() {
        p.variants@[idx as int].keep_bits
    } else {
        true
    }
}

pub proof fn lemma_first_match_from(vs: Seq<Variant>, bits: Seq<bool>, j: nat)
    requires
        j <= vs.len(),
    ensures
        match first_match_from(vs, bits, j) {
            Some(k) => j <= k < vs.len() && pattern_matches(vs[k as int].pattern@, bits)
                && forall|i: int| j <= i < k ==> !pattern_matches(#[trigger] vs[i].pattern@, bits),
            None => forall|i: int| j <= i < vs.len() ==> !pattern_matches(#[trigger] vs[i].pattern@, bits),
        },
    decreases vs.len() - j,
{
    if j < vs.len() && !pattern_matches(vs[j as int].pattern@, bits) {
        lemma_first_match_from(vs, bits, j + 1);
    }
}

/// One encoded bit: literal positions come from the pattern; wildcards
/// take the captured bit for a capturing variant, else the fixed fill.
pub open spec fn encoded_bit(c: char, keep: bool, captured: Seq<bool>, i: int) -> bool {
    if c == '0' {
        false
    } else if c == '1' {
        true
    } else if keep {
        if 0 <= i < captured.len() {
            captured[i]
        } else {
            false
        }
    } else {
        c == 'X'
    }
}

/// The bit vector that encoding a non-catchall variant produces.
pub open spec fn spec_encode_variant(v: Variant, captured: Seq<bool>) -> Seq<bool> {
    Seq::new(v.pattern@.len(), |i: int| encoded_bit(v.pattern@[i], v.keep_bits, captured, i))
}

/// The bit vector that encoding a value produces: pattern-driven for a
/// declared variant, the captured bits verbatim for the catchall.
pub open spec fn spec_encode(p: BitProperty, idx: nat, captured: Seq<bool>) -> Seq<bool> {
    if idx < p.variants@.len() {
        spec_encode_variant(p.variants@[idx as int], captured)
    } else {
        captured
    }
}

/// The fixed-fill bits of a pattern: `1`/`X` give true, `0`/`x` give
/// false. This is a non-capturing variant's canonical encoded form, and
/// the capture storage of a default-constructed capturing value.
pub open spec fn fill_bits(pat: Seq<char>) -> Seq<bool> {
    Seq::new(pat.len(), |i: int| pat[i] == '1' || pat[i] == 'X')
}

/// A structurally valid value of a property: the index is in range (the
/// catchall index only if a catchall exists), and the capture storage is
/// the property's width for a capturing variant and empty otherwise.
pub open spec fn valid_value(p: BitProperty, v: VariantValue) -> bool {
    &&& v.variant_idx <= p.variants@.len()
    &&& (v.variant_idx == p.variants@.len() ==> p.catchall_variant.is_some())
    &&& v.captured@.len() == (if spec_keeps(p, v.variant_idx as nat) {
        prop_width(p)
    } else {
        0
    })
}

/// Whether a value is the property's default: the default variant by
/// identity and, if it captures, exactly the fixed-fill capture bits.
pub open spec fn spec_is_default(p: BitProperty, v: VariantValue) -> bool {
    match p.default_variant_idx {
        Some(i) => v.variant_idx == i
            && (spec_keeps(p, i as nat) ==> v.captured@ == fill_bits(p.variants@[i as int].pattern@)),
        None => false,
    }
}

/// Copy a bit vector.
pub fn copy_bits(v: &Vec<bool>) -> (r: Vec<bool>)
    ensures
        r@ == v@,
{
    let mut r: Vec<bool> = Vec::new();
    let mut i: usize = 0;
    while i < v.len()
        invariant
            i <= v@.len(),
            r@ == v@.subrange(0, i as int),
        decreases v@.len() - i,
    {
        r.push(v[i]);
        proof {
            assert(v@.subrange(0, i + 1 as int)
                =~= v@.subrange(0, i as int).push(v@[i as int]));
        }
        i = i + 1;
    }
    proof {
        assert(v@.subrange(0, v@.len() as int) =~= v@);
    }
    r
}

/// Whether a pattern matches a bit vector.
pub fn pattern_matches_exec(pat: &Vec<char>, bits: &Vec<bool>) -> (r: bool)
    ensures
        r == pattern_matches(pat@, bits@),
{
    if pat.len() != bits.len() {
        return false;
    }
    let mut i: usize = 0;
    while i < pat.len()
        invariant
            i <= pat@.len() == bits@.len(),
            forall|j: int| 0 <= j < i ==> ((pat@[j] == '0' ==> !bits@[j]) && (pat@[j] == '1' ==> bits@[j])),
        decreases pat@.len() - i,
    {
        let c = pat[i];
        if c == '0' && bits[i] {
            return false;
        }
        if c == '1' && !bits[i] {
            return false;
        }
        i = i + 1;
    }
    true
}

/// Decode a bit vector against a property definition: variants are tried
/// strictly in declaration order and the first match wins; the catchall,
/// if any, matches whatever is left; `None` comes back only when no
/// variant matches and no catchall is declared.
pub fn decode(prop: &BitProperty, bits: &Vec<bool>) -> (r: Option<VariantValue>)
    requires
        wf_property(*prop),
        bits@.len() == prop_width(*prop),
    ensures
        match r {
            Some(v) => {
                &&& Some(v.variant_idx as nat) == spec_first_match(*prop, bits@)
                &&& v.captured@ == (if spec_keeps(*prop, v.variant_idx as nat) {
                    bits@
                } else {
                    Seq::<bool>::empty()
                })
                &&& valid_value(*prop, v)
            },
            None => spec_first_match(*prop, bits@).is_none(),
        },
{
    let mut j: usize = 0;
    while j < prop.variants.len()
        invariant
            wf_property(*prop),
            bits@.len() == prop_width(*prop),
            j <= prop.variants@.len(),
            first_match_from(prop.variants@, bits@, 0) == first_match_from(prop.variants@, bits@, j as nat),
        decreases prop.variants@.len() - j,
    {
        let pat = str_chars(prop.variants[j].pattern.as_str());
        if pattern_matches_exec(&pat, bits) {
            let captured = if prop.variants[j].keep_bits {
                copy_bits(bits)
            } else {
                Vec::new()
            };
            proof {
                assert(first_match_from(prop.variants@, bits@, j as nat) == Some(j as nat));
                assert(wf_variant(prop.variants@[j as int], prop_width(*prop)));
            }
            return Some(VariantValue { variant_idx: j, captured });
        }
        j = j + 1;
    }
    if prop.catchall_variant.is_some() {
        let captured = copy_bits(bits);
        Some(VariantValue { variant_idx: prop.variants.len(), captured })
    } else {
        None
    }
}

/// Encode a value back to its bit vector: literal pattern positions win,
/// wildcards take the captured bit (capturing) or the fixed fill
/// (non-capturing), and the catchall reproduces its capture verbatim.
pub fn encode(prop: &BitProperty, val: &VariantValue) -> (r: Vec<bool>)
    requires
        wf_property(*prop),
        valid_value(*prop, *val),
    ensures
        r@ == spec_encode(*prop, val.variant_idx as nat, val.captured@),
        r@.len() == prop_width(*prop),
{
    if val.variant_idx == prop.variants.len() {
        let r = copy_bits(&val.captured);
        return r;
    }
    let var = &prop.variants[val.variant_idx];
    let pat = str_chars(var.pattern.as_str());
    let keep = var.keep_bits;
    let mut r: Vec<bool> = Vec::new();
    let mut i: usize = 0;
    while i < pat.len()
        invariant
            i <= pat@.len(),
            pat@ == prop.variants@[val.variant_idx as int].pattern@,
            keep == prop.variants@[val.variant_idx as int].keep_bits,
            val.variant_idx < prop.variants@.len(),
            keep ==> val.captured@.len() == pat@.len(),
            r@.len() == i,
            forall|k: int| 0 <= k < i ==> r@[k] == encoded_bit(pat@[k], keep, val.captured@, k),
        decreases pat@.len() - i,
    {
        let c = pat[i];
        let b = if c == '0' {
            false
        } else if c == '1' {
            true
        } else if keep {
            val.captured[i]
        } else {
            c == 'X'
        };
        r.push(b);
        i = i + 1;
    }
    proof {
        assert(wf_variant(prop.variants@[val.variant_idx as int], prop_width(*prop)));
        assert(r@ =~= spec_encode(*prop, val.variant_idx as nat, val.captured@));
    }
    r
}

/// The property's default-constructed value, if a default variant is
/// declared: that variant, with fixed-fill capture storage when it
/// captures (no instance data exists at default-construction time).
pub fn default_value(prop: &BitProperty) -> (r: Option<VariantValue>)
    requires
        wf_property(*prop),
    ensures
        match r {
            Some(v) => {
                &&& prop.default_variant_idx == Some(v.variant_idx)
                &&& v.captured@ == (if spec_keeps(*prop, v.variant_idx as nat) {
                    fill_bits(prop.variants@[v.variant_idx as int].pattern@)
                } else {
                    Seq::<bool>::empty()
                })
                &&& valid_value(*prop, v)
                &&& spec_is_default(*prop, v)
            },
            None => prop.default_variant_idx.is_none(),
        },
{
    let i = match prop.default_variant_idx {
        Some(i) => i,
        None => {
            return None;
        },
    };
    let var = &prop.variants[i];
    let pat = str_chars(var.pattern.as_str());
    let mut captured: Vec<bool> = Vec::new();
    if var.keep_bits {
        let mut k: usize = 0;
        while k < pat.len()
            invariant
                k <= pat@.len(),
                pat@ == prop.variants@[i as int].pattern@,
                captured@.len() == k,
                forall|m: int| 0 <= m < k ==> captured@[m] == (pat@[m] == '1' || pat@[m] == 'X'),
            decreases pat@.len() - k,
        {
            let c = pat[k];
            captured.push(c == '1' || c == 'X');
            k = k + 1;
        }
        proof {
            assert(captured@ =~= fill_bits(prop.variants@[i as int].pattern@));
        }
    }
    proof {
        assert(wf_variant(prop.variants@[i as int], prop_width(*prop)));
    }
    Some(VariantValue { variant_idx: i, captured })
}

/// Whether a value is at the property's default, decided by variant
/// identity (and, for a capturing default, by its capture bits equalling
/// the fixed fill) rather than by encoded-bit equality alone.
pub fn is_default_value(prop: &BitProperty, val: &VariantValue) -> (r: bool)
    requires
        wf_property(*prop),
        valid_value(*prop, *val),
    ensures
        r == spec_is_default(*prop, *val),
{
    let i = match prop.default_variant_idx {
        Some(i) => i,
        None => {
            return false;
        },
    };
    if val.variant_idx != i {
        return false;
    }
    if !prop.variants[i].keep_bits {
        return true;
    }
    let pat = str_chars(prop.variants[i].pattern.as_str());
    proof {
        assert(wf_variant(prop.variants@[i as int], prop_width(*prop)));
    }
    let mut k: usize = 0;
    while k < pat.len()
        invariant
            k <= pat@.len(),
            i < prop.variants@.len(),
            prop.default_variant_idx == Some(i),
            prop.variants@[i as int].keep_bits,
            pat@ == prop.variants@[i as int].pattern@,
            val.variant_idx == i,
            val.captured@.len() == pat@.len(),
            forall|m: int| 0 <= m < k ==> val.captured@[m] == (pat@[m] == '1' || pat@[m] == 'X'),
        decreases pat@.len() - k,
    {
        let c = pat[k];
        if val.captured[k] != (c == '1' || c == 'X') {
            proof {
                assert(val.captured@[k as int] != fill_bits(pat@)[k as int]);
            }
            return false;
        }
        k = k + 1;
    }
    proof {
        assert(val.captured@ =~= fill_bits(prop.variants@[i as int].pattern@));
    }
    true
}

/// The property's declared width, as a runtime value.
pub fn width(prop: &BitProperty) -> (r: usize)
    ensures
        r == prop_width(*prop),
{
    if prop.variants.len() == 0 {
        0
    } else {
        let pat = str_chars(prop.variants[0].pattern.as_str());
        pat.len()
    }
}

/// The name of the variant at `idx` (`variants.len()` selects the
/// catchall).
pub open spec fn variant_name(p: BitProperty, idx: nat) -> Seq<char> {
    if idx < p.variants@.len() {
        p.variants@[idx as int].name@
    } else {
        match p.catchall_variant {
            Some(cv) => cv.name@,
            None => Seq::empty(),
        }
    }
}

/// The characters rendering a captured bit vector, one `'1'`/`'0'` per
/// bit, in declaration (index) order.
pub open spec fn bit_chars(b: Seq<bool>) -> Seq<char> {
    Seq::new(b.len(), |i: int| if b[i] { '1' } else { '0' })
}

/// The string form of a value: the bare variant name for a non-capturing
/// variant; `name(` + one character per captured bit + `)` for a
/// capturing one.
pub open spec fn spec_value_string(p: BitProperty, idx: nat, captured: Seq<bool>) -> Seq<char> {
    if spec_keeps(p, idx) {
        variant_name(p, idx) + seq!['('] + bit_chars(captured) + seq![')']
    } else {
        variant_name(p, idx)
    }
}

/// Render a value in its string form.
pub fn variant_to_string(prop: &BitProperty, val: &VariantValue) -> (r: String)
    requires
        wf_property(*prop),
        valid_value(*prop, *val),
    ensures
        r@ == spec_value_string(*prop, val.variant_idx as nat, val.captured@),
{
    let name = if val.variant_idx < prop.variants.len() {
        str_chars(prop.variants[val.variant_idx].name.as_str())
    } else {
        match &prop.catchall_variant {
            Some(cv) => str_chars(cv.name.as_str()),
            None => Vec::new(),
        }
    };
    let keeps = if val.variant_idx < prop.variants.len() {
        prop.variants[val.variant_idx].keep_bits
    } else {
        true
    };
    let mut out = name;
    if keeps {
        out.push('(');
        let ghost base = out@;
        let mut i: usize = 0;
        while i < val.captured.len()
            invariant
                i <= val.captured@.len(),
                out@ == base + bit_chars(val.captured@).subrange(0, i as int),
            decreases val.captured@.len() - i,
        {
            out.push(if val.captured[i] { '1' } else { '0' });
            proof {
                assert(bit_chars(val.captured@).subrange(0, i + 1 as int)
                    =~= bit_chars(val.captured@).subrange(0, i as int).push(
                        if val.captured@[i as int] { '1' } else { '0' }));
            }
            i = i + 1;
        }
        out.push(')');
        proof {
            assert(bit_chars(val.captured@).subrange(0, val.captured@.len() as int)
                =~= bit_chars(val.captured@));
            assert(out@ =~= spec_value_string(*prop, val.variant_idx as nat, val.captured@));
        }
    }
    chars_string(&out)
}

/// The first variant index at or after `j` named `name`
/// (`variants.len()` stands for the catchall).
pub open spec fn find_name_from(p: BitProperty, name: Seq<char>, j: nat) -> Option<nat>
    decreases p.variants@.len() - j,
{
    if j >= p.variants@.len() {
        match p.catchall_variant {
            Some(cv) => if cv.name@ == name {
                Some(p.variants@.len() as nat)
            } else {
                None
            },
            None => None,
        }
    } else if p.variants@[j as int].name@ == name {
        Some(j)
    } else {
        find_name_from(p, name, j + 1)
    }
}

/// A parenthesized capture suffix: exactly `w` characters of `'0'`/`'1'`
/// followed by `')'` with nothing after.
pub open spec fn spec_parse_captured(rest: Seq<char>, w: nat) -> Option<Seq<bool>> {
    if rest.len() == w + 1 && rest[w as int] == ')' && (forall|i: int|
        0 <= i < w ==> rest[i] == '0' || rest[i] == '1') {
        Some(Seq::new(w, |i: int| rest[i] == '1'))
    } else {
        None
    }
}

/// What parsing a value string yields: the input is split on the first
/// `'('`; the prefix selects the variant by name in declaration order
/// (the catchall last); a capturing variant then demands a well-formed
/// capture suffix, while a non-capturing one ignores the suffix.
pub open spec fn spec_value_from_string(p: BitProperty, s: Seq<char>) -> Option<(nat, Seq<bool>)> {
    let split = spec_find(s, 0, '(');
    let name = match split {
        Some(k) => s.subrange(0, k as int),
        None => s,
    };
    let rest = match split {
        Some(k) => s.subrange(k + 1 as int, s.len() as int),
        None => Seq::empty(),
    };
    match find_name_from(p, name, 0) {
        None => None,
        Some(idx) => if !spec_keeps(p, idx) {
            Some((idx, Seq::empty()))
        } else {
            match spec_parse_captured(rest, prop_width(p)) {
                Some(bits) => Some((idx, bits)),
                None => None,
            }
        },
    }
}

/// Find the variant named `name`, variants in declaration order first,
/// then the catchall.
fn find_variant_by_name(prop: &BitProperty, name: &Vec<char>) -> (r: Option<usize>)
    ensures
        match r {
            Some(i) => {
                &&& Some(i as nat) == find_name_from(*prop, name@, 0)
                &&& i <= prop.variants@.len()
                &&& (i == prop.variants@.len() ==> prop.catchall_variant.is_some())
            },
            None => find_name_from(*prop, name@, 0).is_none(),
        },
{
    let mut j: usize = 0;
    while j < prop.variants.len()
        invariant
            j <= prop.variants@.len(),
            find_name_from(*prop, name@, 0) == find_name_from(*prop, name@, j as nat),
        decreases prop.variants@.len() - j,
    {
        let vn = str_chars(prop.variants[j].name.as_str());
        if chars_eq(&vn, name) {
            proof {
                assert(find_name_from(*prop, name@, j as nat) == Some(j as nat));
            }
            return Some(j);
        }
        j = j + 1;
    }
    match &prop.catchall_variant {
        Some(cv) => {
            let cn = str_chars(cv.name.as_str());
            if chars_eq(&cn, name) {
                Some(prop.variants.len())
            } else {
                None
            }
        },
        None => None,
    }
}

/// Parse a value from its string form. Any deviation is a conversion
/// error that leaves nothing written.
#[verifier::loop_isolation(false)]
pub fn variant_from_string(prop: &BitProperty, s: &str) -> (r: Result<VariantValue, ()>)
    requires
        wf_property(*prop),
    ensures
        match r {
            Ok(v) => {
                &&& Some((v.variant_idx as nat, v.captured@)) == spec_value_from_string(*prop, s@)
                &&& valid_value(*prop, v)
            },
            Err(_) => spec_value_from_string(*prop, s@).is_none(),
        },
{
    let cs = str_chars(s);
    let n = cs.len();
    let split = find_char(&cs, 0, '(');
    let (name, rest) = match split {
        Some(k) => {
            proof {
                lemma_spec_find(cs@, 0, '(');
                assert(k < n);
            }
            (chars_subrange(&cs, 0, k), chars_subrange(&cs, k + 1, n))
        },
        None => (cs, Vec::new()),
    };
    proof {
        assert(name@ == (match spec_find(s@, 0, '(') {
            Some(k) => s@.subrange(0, k as int),
            None => s@,
        }));
        assert(rest@ =~= (match spec_find(s@, 0, '(') {
            Some(k) => s@.subrange(k + 1 as int, s@.len() as int),
            None => Seq::<char>::empty(),
        }));
    }
    let idx = match find_variant_by_name(prop, &name) {
        Some(i) => i,
        None => {
            return Err(());
        },
    };
    let keeps = if idx < prop.variants.len() {
        prop.variants[idx].keep_bits
    } else {
        true
    };
    if !keeps {
        return Ok(VariantValue { variant_idx: idx, captured: Vec::new() });
    }
    let w = width(prop);
    if rest.len() == 0 || rest.len() - 1 != w {
        return Err(());
    }
    if rest[w] != ')' {
        return Err(());
    }
    let mut bits: Vec<bool> = Vec::new();
    let mut i: usize = 0;
    while i < w
        invariant
            wf_property(*prop),
            w == prop_width(*prop),
            i <= w,
            rest@.len() == w + 1,
            bits@.len() == i,
            forall|m: int| 0 <= m < i ==> (rest@[m] == '0' || rest@[m] == '1'),
            forall|m: int| 0 <= m < i ==> bits@[m] == (rest@[m] == '1'),
        decreases w - i,
    {
        let c = rest[i];
        if c == '1' {
            bits.push(true);
        } else if c == '0' {
            bits.push(false);
        } else {
            return Err(());
        }
        i = i + 1;
    }
    proof {
        let parsed = spec_parse_captured(rest@, prop_width(*prop));
        assert(parsed == Some(bits@)) by {
            assert(bits@ =~= Seq::new(prop_width(*prop), |m: int| rest@[m] == '1'));
        }
    }
    Ok(VariantValue { variant_idx: idx, captured: bits })
}

/// Priority by declaration order, not pattern specificity: when the
/// variant at index `i` matches, decoding never lands on any variant
/// after `i`, even if a later variant's wildcards would also match.
pub proof fn lemma_decode_priority(p: BitProperty, bits: Seq<bool>, i: nat)
    requires
        wf_property(p),
        i < p.variants@.len(),
        pattern_matches(p.variants@[i as int].pattern@, bits),
    ensures
        match spec_first_match(p, bits) {
            Some(k) => k <= i,
            None => false,
        },
{
    lemma_first_match_from(p.variants@, bits, 0);
}

/// Encoding a capturing variant's decoded value reproduces the exact
/// original bit vector.
pub proof fn lemma_capturing_round_trip(p: BitProperty, bits: Seq<bool>, idx: nat)
    requires
        wf_property(p),
        bits.len() == prop_width(p),
        spec_first_match(p, bits) == Some(idx),
        spec_keeps(p, idx),
    ensures
        spec_encode(p, idx, bits) == bits,
{
    if idx < p.variants@.len() {
        lemma_first_match_from(p.variants@, bits, 0);
        let v = p.variants@[idx as int];
        assert(wf_variant(v, prop_width(p)));
        assert(pattern_matches(v.pattern@, bits));
        assert forall|i: int| 0 <= i < v.pattern@.len() implies
            spec_encode_variant(v, bits)[i] == bits[i] by {
            assert(pattern_char_ok(v.pattern@[i]));
        }
        assert(spec_encode_variant(v, bits) =~= bits);
    }
}

/// Encoding a non-capturing variant always reproduces its fixed-fill
/// canonical bits, regardless of what the capture storage holds.
pub proof fn lemma_non_capturing_canonical(p: BitProperty, idx: nat, captured: Seq<bool>)
    requires
        wf_property(p),
        idx < p.variants@.len(),
        !spec_keeps(p, idx),
    ensures
        spec_encode(p, idx, captured) == fill_bits(p.variants@[idx as int].pattern@),
{
    let v = p.variants@[idx as int];
    assert(wf_variant(v, prop_width(p)));
    assert forall|i: int| 0 <= i < v.pattern@.len() implies
        spec_encode_variant(v, captured)[i] == fill_bits(v.pattern@)[i] by {
        assert(pattern_char_ok(v.pattern@[i]));
    }
    assert(spec_encode_variant(v, captured) =~= fill_bits(v.pattern@));
}

} // verus!
