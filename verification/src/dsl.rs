//! The bit-property definition DSL: a line-oriented text format declaring
//! one enumerated property and its variants.
//!
//! Per line: blank lines and lines starting `#` or `-` are ignored;
//! `///`-prefixed lines accumulate as documentation for the property; a
//! bare valid identifier opens the property; a `<pattern> <name> [doc]`
//! line adds a variant, where `pattern` is a fixed-width string over
//! `{0, 1, x, X}` or the literal `catchall`, and `name` may be prefixed
//! `*` (marks the default; at most one) and/or suffixed `()` (marks
//! keep-bits). Whitespace here means ASCII spaces, tabs and line ends.

use vstd::prelude::*;
use crate::pattern::{Variant, BitProperty, pattern_char_ok};
use crate::strconv::{
    str_chars, chars_string, chars_eq, chars_subrange, trim, spec_trim, find_blank,
    spec_find_blank,
};

verus! {

/// Relies on unicode_ident::is_xid_start: whether a character has the
/// XID_Start property; the result depends on the character alone.
#[verifier::external_body]
fn is_xid_start(c: char) -> (r: bool)
    ensures
        r == xid_start(c),
{
    unicode_ident::is_xid_start(c)
}

/// Relies on unicode_ident::is_xid_continue: whether a character has the
/// XID_Continue property; the result depends on the character alone.
#[verifier::external_body]
fn is_xid_continue(c: char) -> (r: bool)
    ensures
        r == xid_continue(c),
{
    unicode_ident::is_xid_continue(c)
}

pub uninterp spec fn xid_start(c: char) -> bool;

pub uninterp spec fn xid_continue(c: char) -> bool;

/// A valid identifier: not the bare underscore, starting with `_` or an
/// XID_Start character, continuing with XID_Continue characters.
pub open spec fn spec_valid_ident(s: Seq<char>) -> bool {
    &&& s.len() > 0
    &&& !(s.len() == 1 && s[0] == '_')
    &&& (s[0] == '_' || xid_start(s[0]))
    &&& forall|i: int| 1 <= i < s.len() ==> xid_continue(s[i])
}

/// Whether a character sequence is a valid identifier.
pub fn is_valid_ident(s: &Vec<char>) -> (r: bool)
    ensures
        r == spec_valid_ident(s@),
{
    if s.len() == 0 {
        return false;
    }
    if s.len() == 1 && s[0] == '_' {
        return false;
    }
    let c0 = s[0];
    if c0 != '_' && !is_xid_start(c0) {
        return false;
    }
    let mut i: usize = 1;
    while i < s.len()
        invariant
            1 <= i <= s@.len(),
            forall|j: int| 1 <= j < i ==> xid_continue(s@[j]),
        decreases s@.len() - i,
    {
        if !is_xid_continue(s[i]) {
            return false;
        }
        i = i + 1;
    }
    true
}

/// A well-formed pattern field: the token `catchall`, or any string over
/// the pattern alphabet `{0, 1, x, X}`.
pub open spec fn spec_check_pattern(s: Seq<char>) -> bool {
    s == "catchall"@ || forall|i: int| 0 <= i < s.len() ==> pattern_char_ok(s[i])
}

/// Whether a pattern field is well formed.
pub fn check_pattern(pat: &Vec<char>) -> (r: bool)
    ensures
        r == spec_check_pattern(pat@),
{
    let ca = str_chars("catchall");
    if chars_eq(pat, &ca) {
        return true;
    }
    let mut i: usize = 0;
    while i < pat.len()
        invariant
            i <= pat@.len(),
            pat@ != "catchall"@,
            forall|j: int| 0 <= j < i ==> pattern_char_ok(pat@[j]),
        decreases pat@.len() - i,
    {
        let c = pat[i];
        if !(c == '0' || c == '1' || c == 'x' || c == 'X') {
            return false;
        }
        i = i + 1;
    }
    true
}

/// The ghost shape of a variant: its fields as mathematical values.
pub struct VariantModel {
    pub name: Seq<char>,
    pub pattern: Seq<char>,
    pub keep_bits: bool,
    pub documentation: Option<Seq<char>>,
}

/// The ghost shape of a property definition.
pub struct BitPropertyModel {
    pub name: Seq<char>,
    pub documentation: Option<Seq<char>>,
    pub variants: Seq<VariantModel>,
    pub catchall_variant: Option<VariantModel>,
    pub default_variant_idx: Option<nat>,
}

impl View for Variant {
    type V = VariantModel;

    open spec fn view(&self) -> VariantModel {
        VariantModel {
            name: self.name@,
            pattern: self.pattern@,
            keep_bits: self.keep_bits,
            documentation: match self.documentation {
                Some(d) => Some(d@),
                None => None,
            },
        }
    }
}

impl View for BitProperty {
    type V = BitPropertyModel;

    open spec fn view(&self) -> BitPropertyModel {
        BitPropertyModel {
            name: self.name@,
            documentation: match self.documentation {
                Some(d) => Some(d@),
                None => None,
            },
            variants: self.variants@.map_values(|v: Variant| v@),
            catchall_variant: match self.catchall_variant {
                Some(cv) => Some(cv@),
                None => None,
            },
            default_variant_idx: match self.default_variant_idx {
                Some(i) => Some(i as nat),
                None => None,
            },
        }
    }
}

/// A definition-processing error, fatal to the whole definition.
#[derive(Debug, Clone, PartialEq, Eq)]
pub enum ParseError {
    /// A variant line appeared before any property name.
    NoFirstPropertyName,
    /// A line that fits no form at this point of the file.
    InvalidLine { lineno: usize, line: String },
    /// A property or variant name that is not a valid identifier.
    InvalidIdent { lineno: usize, ident: String },
    /// A pattern field with characters outside `{0, 1, x, X}`.
    InvalidPattern { lineno: usize, pat: String },
    /// A pattern whose width differs from the property's width.
    PatternBitCountMismatch { lineno: usize, expected_bits: usize, current_bits: usize },
    /// More than one variant marked as default.
    MultipleDefaultVariants { lineno: usize },
}

impl ParseError {
    /// The human-readable account of this error. (`Formatter`-based
    /// trait impls stay outside verified code, so this is a method.)
    pub fn message(&self) -> (r: String)
        ensures
            r@ == spec_error_message(*self),
    {
        match self {
            ParseError::NoFirstPropertyName => String::from_str(
                "pattern encountered, but no property name",
            ),
            ParseError::InvalidLine { lineno, line } => {
                let mut out = str_chars("invalid line \"");
                let mut l = str_chars(line.as_str());
                out.append(&mut l);
                let mut mid = str_chars("\" on line ");
                out.append(&mut mid);
                let mut n = crate::strconv::u128_to_dec_chars(*lineno as u128);
                out.append(&mut n);
                proof {
                    assert(out@ =~= spec_error_message(*self));
                }
                chars_string(&out)
            },
            ParseError::InvalidIdent { lineno, ident } => {
                let mut out = str_chars("invalid ident \"");
                let mut l = str_chars(ident.as_str());
                out.append(&mut l);
                let mut mid = str_chars("\" on line ");
                out.append(&mut mid);
                let mut n = crate::strconv::u128_to_dec_chars(*lineno as u128);
                out.append(&mut n);
                proof {
                    assert(out@ =~= spec_error_message(*self));
                }
                chars_string(&out)
            },
            ParseError::InvalidPattern { lineno, pat } => {
                let mut out = str_chars("invalid pattern \"");
                let mut l = str_chars(pat.as_str());
                out.append(&mut l);
                let mut mid = str_chars("\" on line ");
                out.append(&mut mid);
                let mut n = crate::strconv::u128_to_dec_chars(*lineno as u128);
                out.append(&mut n);
                proof {
                    assert(out@ =~= spec_error_message(*self));
                }
                chars_string(&out)
            },
            ParseError::PatternBitCountMismatch { lineno, expected_bits, current_bits } => {
                let mut out = str_chars("bit count mismatch on line ");
                let mut n = crate::strconv::u128_to_dec_chars(*lineno as u128);
                out.append(&mut n);
                let mut mid = str_chars(", expected ");
                out.append(&mut mid);
                let mut e = crate::strconv::u128_to_dec_chars(*expected_bits as u128);
                out.append(&mut e);
                let mut mid2 = str_chars(" got ");
                out.append(&mut mid2);
                let mut c = crate::strconv::u128_to_dec_chars(*current_bits as u128);
                out.append(&mut c);
                proof {
                    assert(out@ =~= spec_error_message(*self));
                }
                chars_string(&out)
            },
            ParseError::MultipleDefaultVariants { lineno } => {
                let mut out = str_chars("multiple variants marked as default on line ");
                let mut n = crate::strconv::u128_to_dec_chars(*lineno as u128);
                out.append(&mut n);
                proof {
                    assert(out@ =~= spec_error_message(*self));
                }
                chars_string(&out)
            },
        }
    }
}

/// The exact text `message` renders for each error.
pub open spec fn spec_error_message(e: ParseError) -> Seq<char> {
    match e {
        ParseError::NoFirstPropertyName => "pattern encountered, but no property name"@,
        ParseError::InvalidLine { lineno, line } => "invalid line \""@ + line@ + "\" on line "@
            + crate::strconv::nat_to_dec(lineno as nat),
        ParseError::InvalidIdent { lineno, ident } => "invalid ident \""@ + ident@
            + "\" on line "@ + crate::strconv::nat_to_dec(lineno as nat),
        ParseError::InvalidPattern { lineno, pat } => "invalid pattern \""@ + pat@
            + "\" on line "@ + crate::strconv::nat_to_dec(lineno as nat),
        ParseError::PatternBitCountMismatch { lineno, expected_bits, current_bits } =>
            "bit count mismatch on line "@ + crate::strconv::nat_to_dec(lineno as nat)
            + ", expected "@ + crate::strconv::nat_to_dec(expected_bits as nat) + " got "@
            + crate::strconv::nat_to_dec(current_bits as nat),
        ParseError::MultipleDefaultVariants { lineno } =>
            "multiple variants marked as default on line "@ + crate::strconv::nat_to_dec(
                lineno as nat,
            ),
    }
}

/// The ghost shape of a parse error.
pub enum ParseErrorModel {
    NoFirstPropertyName,
    InvalidLine { lineno: nat, line: Seq<char> },
    InvalidIdent { lineno: nat, ident: Seq<char> },
    InvalidPattern { lineno: nat, pat: Seq<char> },
    PatternBitCountMismatch { lineno: nat, expected_bits: nat, current_bits: nat },
    MultipleDefaultVariants { lineno: nat },
}

impl View for ParseError {
    type V = ParseErrorModel;

    open spec fn view(&self) -> ParseErrorModel {
        match self {
            ParseError::NoFirstPropertyName => ParseErrorModel::NoFirstPropertyName,
            ParseError::InvalidLine { lineno, line } => ParseErrorModel::InvalidLine {
                lineno: *lineno as nat,
                line: line@,
            },
            ParseError::InvalidIdent { lineno, ident } => ParseErrorModel::InvalidIdent {
                lineno: *lineno as nat,
                ident: ident@,
            },
            ParseError::InvalidPattern { lineno, pat } => ParseErrorModel::InvalidPattern {
                lineno: *lineno as nat,
                pat: pat@,
            },
            ParseError::PatternBitCountMismatch { lineno, expected_bits, current_bits } =>
                ParseErrorModel::PatternBitCountMismatch {
                    lineno: *lineno as nat,
                    expected_bits: *expected_bits as nat,
                    current_bits: *current_bits as nat,
                },
            ParseError::MultipleDefaultVariants { lineno } =>
                ParseErrorModel::MultipleDefaultVariants { lineno: *lineno as nat },
        }
    }
}

/// Options shaping the code a definition is compiled to: whether the
/// output targets `no_std`, which feature gates its allocating parts, and
/// whether string-conversion support is emitted at all.
#[derive(Debug, Clone, PartialEq, Eq)]
pub struct Settings {
    pub enable_no_std: bool,
    pub alloc_feature_gate: Option<String>,
    pub emit_string_formatter: bool,
}

impl Default for Settings {
    /// Standard-library output with string-conversion support.
    fn default() -> (r: Self)
        ensures
            !r.enable_no_std,
            r.alloc_feature_gate is None,
            r.emit_string_formatter,
    {
        Self { enable_no_std: false, alloc_feature_gate: None, emit_string_formatter: true }
    }
}

/// The parser state between lines: the property under construction, the
/// width fixed by the first non-catchall pattern, and documentation
/// accumulated ahead of the property name.
pub struct DslState {
    pub wip: Option<BitPropertyModel>,
    pub pat_bits: Option<nat>,
    pub doc: Option<Seq<char>>,
}

/// What one line does to the parser state.
pub open spec fn dsl_step(st: DslState, raw: Seq<char>, lineno: nat) -> Result<
    DslState,
    ParseErrorModel,
> {
    let t = spec_trim(raw);
    if t.len() == 0 {
        Ok(st)
    } else if t[0] == '#' || t[0] == '-' {
        Ok(st)
    } else if t.len() >= 3 && t[0] == '/' && t[1] == '/' && t[2] == '/' {
        if st.wip.is_some() {
            Err(ParseErrorModel::InvalidLine { lineno, line: t })
        } else {
            let doc_line = spec_trim(t.subrange(3, t.len() as int));
            let nd = match st.doc {
                Some(d) => d + seq!['\n'] + doc_line,
                None => doc_line,
            };
            Ok(DslState { doc: Some(nd), ..st })
        }
    } else {
        match spec_find_blank(t, 0) {
            Some(k) => dsl_step_variant(st, t, k, lineno),
            None => {
                if st.wip.is_some() {
                    Err(ParseErrorModel::InvalidLine { lineno, line: t })
                } else if !spec_valid_ident(t) {
                    Err(ParseErrorModel::InvalidIdent { lineno, ident: t })
                } else {
                    Ok(DslState {
                        wip: Some(BitPropertyModel {
                            name: t,
                            documentation: st.doc,
                            variants: Seq::empty(),
                            catchall_variant: None,
                            default_variant_idx: None,
                        }),
                        pat_bits: st.pat_bits,
                        doc: None,
                    })
                }
            },
        }
    }
}

/// What a variant line (one with a blank at position `k` of the trimmed
/// line `t`) does to the parser state.
pub open spec fn dsl_step_variant(st: DslState, t: Seq<char>, k: nat, lineno: nat) -> Result<
    DslState,
    ParseErrorModel,
> {
    let var_pat = spec_trim(t.subrange(0, k as int));
    let name_doc = spec_trim(t.subrange(k + 1 as int, t.len() as int));
    let var_name_raw = match spec_find_blank(name_doc, 0) {
        Some(k2) => spec_trim(name_doc.subrange(0, k2 as int)),
        None => name_doc,
    };
    let vdoc = match spec_find_blank(name_doc, 0) {
        Some(k2) => Some(spec_trim(name_doc.subrange(k2 + 1 as int, name_doc.len() as int))),
        None => None,
    };
    match st.wip {
        None => Err(ParseErrorModel::NoFirstPropertyName),
        Some(wip) => {
            let n1 = if var_name_raw.len() > 0 && var_name_raw[0] == '*' {
                var_name_raw.subrange(1, var_name_raw.len() as int)
            } else {
                var_name_raw
            };
            let is_default = var_name_raw.len() > 0 && var_name_raw[0] == '*';
            let keep_bits = n1.len() >= 2 && n1[n1.len() - 2] == '(' && n1[n1.len() - 1] == ')';
            let var_name = if keep_bits {
                n1.subrange(0, n1.len() - 2)
            } else {
                n1
            };
            if !spec_valid_ident(var_name) {
                Err(ParseErrorModel::InvalidIdent { lineno, ident: var_name })
            } else if !spec_check_pattern(var_pat) {
                Err(ParseErrorModel::InvalidPattern { lineno, pat: var_pat })
            } else {
                let is_catchall = var_pat == "catchall"@;
                if !is_catchall && st.pat_bits.is_some() && st.pat_bits != Some(var_pat.len()) {
                    Err(ParseErrorModel::PatternBitCountMismatch {
                        lineno,
                        expected_bits: match st.pat_bits { Some(pb) => pb, None => 0 },
                        current_bits: var_pat.len(),
                    })
                } else {
                    let new_pat_bits = if !is_catchall && st.pat_bits.is_none() {
                        Some(var_pat.len())
                    } else {
                        st.pat_bits
                    };
                    let var = VariantModel {
                        name: var_name,
                        pattern: var_pat,
                        keep_bits: keep_bits || is_catchall,
                        documentation: vdoc,
                    };
                    let wip2 = if is_catchall {
                        BitPropertyModel { catchall_variant: Some(var), ..wip }
                    } else {
                        BitPropertyModel { variants: wip.variants.push(var), ..wip }
                    };
                    if is_default {
                        if wip2.default_variant_idx.is_some() {
                            Err(ParseErrorModel::MultipleDefaultVariants { lineno })
                        } else if wip2.variants.len() == 0 {
                            Err(ParseErrorModel::InvalidLine { lineno, line: t })
                        } else {
                            Ok(DslState {
                                wip: Some(BitPropertyModel {
                                    default_variant_idx: Some((wip2.variants.len() - 1) as nat),
                                    ..wip2
                                }),
                                pat_bits: new_pat_bits,
                                doc: st.doc,
                            })
                        }
                    } else {
                        Ok(DslState { wip: Some(wip2), pat_bits: new_pat_bits, doc: st.doc })
                    }
                }
            }
        },
    }
}

/// Run the parser over the lines from index `i` on.
pub open spec fn dsl_run(lines: Seq<Seq<char>>, i: nat, st: DslState) -> Result<
    BitPropertyModel,
    ParseErrorModel,
>
    decreases lines.len() - i,
{
    if i >= lines.len() {
        match st.wip {
            Some(p) => Ok(p),
            None => Err(ParseErrorModel::NoFirstPropertyName),
        }
    } else {
        match dsl_step(st, lines[i as int], i + 1) {
            Ok(st2) => dsl_run(lines, i + 1, st2),
            Err(e) => Err(e),
        }
    }
}

/// What parsing a whole definition text yields.
pub open spec fn spec_parse(lines: Seq<Seq<char>>) -> Result<BitPropertyModel, ParseErrorModel> {
    dsl_run(lines, 0, DslState { wip: None, pat_bits: None, doc: None })
}

spec fn opt_prop_view(o: Option<BitProperty>) -> Option<BitPropertyModel> {
    match o {
        Some(p) => Some(p@),
        None => None,
    }
}

spec fn opt_nat_view(o: Option<usize>) -> Option<nat> {
    match o {
        Some(v) => Some(v as nat),
        None => None,
    }
}

spec fn opt_chars_view(o: Option<Vec<char>>) -> Option<Seq<char>> {
    match o {
        Some(v) => Some(v@),
        None => None,
    }
}

/// Strip the markers off a raw variant name: a `*` prefix marks the
/// default variant, a `()` suffix marks keep-bits; what remains is the
/// name. Gives `(name, keep_bits, is_default)`.
pub fn parse_variant_name(var_name: &Vec<char>) -> (r: (Vec<char>, bool, bool))
    ensures
        ({
            let (name, keep_bits, is_default) = r;
            let n1 = if var_name@.len() > 0 && var_name@[0] == '*' {
                var_name@.subrange(1, var_name@.len() as int)
            } else {
                var_name@
            };
            &&& is_default == (var_name@.len() > 0 && var_name@[0] == '*')
            &&& keep_bits == (n1.len() >= 2 && n1[n1.len() - 2] == '(' && n1[n1.len() - 1] == ')')
            &&& name@ == (if keep_bits {
                n1.subrange(0, n1.len() - 2)
            } else {
                n1
            })
        }),
{
    let is_default = var_name.len() > 0 && var_name[0] == '*';
    let n1 = if is_default {
        chars_subrange(var_name, 1, var_name.len())
    } else {
        chars_subrange(var_name, 0, var_name.len())
    };
    proof {
        assert(n1@ =~= (if var_name@.len() > 0 && var_name@[0] == '*' {
            var_name@.subrange(1, var_name@.len() as int)
        } else {
            var_name@
        }));
    }
    let keep_bits = n1.len() >= 2 && n1[n1.len() - 2] == '(' && n1[n1.len() - 1] == ')';
    let name = if keep_bits {
        chars_subrange(&n1, 0, n1.len() - 2)
    } else {
        n1
    };
    (name, keep_bits, is_default)
}

/// Parse a bit-property definition, one entry per input line. Lines are
/// processed in order; the first offending line aborts the parse with a
/// 1-based line number. A `catchall` line marked default when no
/// plain variant was declared yet is itself an invalid line.
#[verifier::loop_isolation(false)]
#[verifier::rlimit(30)]
pub fn parse(lines: &Vec<String>) -> (r: Result<BitProperty, ParseError>)
    ensures
        match r {
            Ok(p) => spec_parse(lines.deep_view()) == Ok::<BitPropertyModel, ParseErrorModel>(p@),
            Err(e) => spec_parse(lines.deep_view()) == Err::<BitPropertyModel, ParseErrorModel>(e@),
        },
{
    let ghost ls = lines.deep_view();
    let mut wip: Option<BitProperty> = None;
    let mut pat_bits: Option<usize> = None;
    let mut doc: Option<Vec<char>> = None;
    let mut i: usize = 0;
    proof {
        assert(ls.len() == lines@.len());
    }
    while i < lines.len()
        invariant
            i <= lines@.len(),
            dsl_run(ls, i as nat, DslState {
                wip: opt_prop_view(wip),
                pat_bits: opt_nat_view(pat_bits),
                doc: opt_chars_view(doc),
            }) == spec_parse(ls),
        decreases lines@.len() - i,
    {
        let ghost st = DslState {
            wip: opt_prop_view(wip),
            pat_bits: opt_nat_view(pat_bits),
            doc: opt_chars_view(doc),
        };
        let lineno: usize = i + 1;
        let raw = str_chars(lines[i].as_str());
        proof {
            assert(raw@ == ls[i as int]);
        }
        let t = trim(&raw);
        if t.len() == 0 {
            i = i + 1;
            continue;
        }
        if t[0] == '#' || t[0] == '-' {
            i = i + 1;
            continue;
        }
        if t.len() >= 3 && t[0] == '/' && t[1] == '/' && t[2] == '/' {
            if wip.is_some() {
                proof {
                    assert(dsl_step(st, ls[i as int], lineno as nat)
                        == Err::<DslState, ParseErrorModel>(ParseErrorModel::InvalidLine {
                            lineno: lineno as nat,
                            line: t@,
                        }));
                }
                return Err(ParseError::InvalidLine { lineno, line: chars_string(&t) });
            }
            let tail = chars_subrange(&t, 3, t.len());
            let doc_line = trim(&tail);
            let nd = match doc {
                Some(mut d) => {
                    d.push('\n');
                    let mut dl = doc_line;
                    d.append(&mut dl);
                    proof {
                        assert(d@ =~= match st.doc {
                            Some(sd) => sd + seq!['\n'] + spec_trim(t@.subrange(3, t@.len() as int)),
                            None => Seq::<char>::empty(),
                        });
                    }
                    d
                },
                None => doc_line,
            };
            doc = Some(nd);
            i = i + 1;
            continue;
        }
        match find_blank(&t, 0) {
            Some(k) => {
                let tn = t.len();
                proof {
                    crate::strconv::lemma_spec_find_blank(t@, 0);
                    assert(k < tn);
                }
                let before = chars_subrange(&t, 0, k);
                let var_pat = trim(&before);
                let after = chars_subrange(&t, k + 1, tn);
                let name_doc = trim(&after);
                let (var_name_raw, vdoc) = match find_blank(&name_doc, 0) {
                    Some(k2) => {
                        let nn = name_doc.len();
                        proof {
                            crate::strconv::lemma_spec_find_blank(name_doc@, 0);
                            assert(k2 < nn);
                        }
                        let b2 = chars_subrange(&name_doc, 0, k2);
                        let a2 = chars_subrange(&name_doc, k2 + 1, nn);
                        (trim(&b2), Some(trim(&a2)))
                    },
                    None => (name_doc, None),
                };
                let cur_wip = wip;
                wip = None;
                let mut prop = match cur_wip {
                    Some(p) => p,
                    None => {
                        return Err(ParseError::NoFirstPropertyName);
                    },
                };
                let (var_name, keep_suffix, is_default) = parse_variant_name(&var_name_raw);
                if !is_valid_ident(&var_name) {
                    return Err(ParseError::InvalidIdent {
                        lineno,
                        ident: chars_string(&var_name),
                    });
                }
                if !check_pattern(&var_pat) {
                    return Err(ParseError::InvalidPattern { lineno, pat: chars_string(&var_pat) });
                }
                let ca = str_chars("catchall");
                let is_catchall = chars_eq(&var_pat, &ca);
                if !is_catchall {
                    match pat_bits {
                        Some(pb) => {
                            if pb != var_pat.len() {
                                return Err(ParseError::PatternBitCountMismatch {
                                    lineno,
                                    expected_bits: pb,
                                    current_bits: var_pat.len(),
                                });
                            }
                        },
                        None => {
                            pat_bits = Some(var_pat.len());
                        },
                    }
                }
                let var = Variant {
                    name: chars_string(&var_name),
                    pattern: chars_string(&var_pat),
                    keep_bits: keep_suffix || is_catchall,
                    documentation: match vdoc {
                        Some(d) => Some(chars_string(&d)),
                        None => None,
                    },
                };
                if is_catchall {
                    prop.catchall_variant = Some(var);
                } else {
                    prop.variants.push(var);
                    proof {
                        assert(prop.variants@.map_values(|v: Variant| v@)
                            =~= match st.wip {
                                Some(w) => w.variants.push(var@),
                                None => Seq::<VariantModel>::empty(),
                            });
                    }
                }
                if is_default {
                    if prop.default_variant_idx.is_some() {
                        return Err(ParseError::MultipleDefaultVariants { lineno });
                    }
                    if prop.variants.len() == 0 {
                        return Err(ParseError::InvalidLine {
                            lineno,
                            line: chars_string(&t),
                        });
                    }
                    prop.default_variant_idx = Some(prop.variants.len() - 1);
                }
                wip = Some(prop);
            },
            None => {
                if wip.is_some() {
                    return Err(ParseError::InvalidLine { lineno, line: chars_string(&t) });
                }
                if !is_valid_ident(&t) {
                    return Err(ParseError::InvalidIdent { lineno, ident: chars_string(&t) });
                }
                let prop = BitProperty {
                    name: chars_string(&t),
                    documentation: match doc {
                        Some(d) => Some(chars_string(&d)),
                        None => None,
                    },
                    variants: Vec::new(),
                    catchall_variant: None,
                    default_variant_idx: None,
                };
                proof {
                    assert(prop.variants@.map_values(|v: Variant| v@)
                        =~= Seq::<VariantModel>::empty());
                }
                doc = None;
                wip = Some(prop);
            },
        }
        i = i + 1;
    }
    let final_wip = wip;
    match final_wip {
        Some(p) => Ok(p),
        None => Err(ParseError::NoFirstPropertyName),
    }
}

} // verus!
