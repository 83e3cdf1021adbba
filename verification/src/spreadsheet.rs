//! The symbol-annotated grid layout: a rectangular sheet of cells, each
//! blank or holding `sym`, `sym[bit]` or `sym[instance][bit]`, followed
//! (after one all-blank row) by a two-column map from grid symbols to
//! code names. From a parsed tile, per-property coordinate tables are
//! built: one ordered coordinate list per instance, one coordinate per
//! bit.

use vstd::prelude::*;
use crate::bit_access::Coordinate;
use crate::strconv::{
    str_chars, chars_string, chars_eq, chars_subrange, find_char, spec_find, lemma_spec_find,
    is_dec_str, dec_str_val, dec_chars_to_u128,
};

verus! {

/// One annotated cell of the grid: which symbol, which instance of it,
/// and which bit.
#[derive(Debug, Clone, PartialEq, Eq)]
pub struct TileBit {
    pub spreadsheet_sym: String,
    pub instance_address: Option<usize>,
    pub bit_idx: usize,
}

/// One parsed sheet: its name, the annotated grid, and the map from
/// grid symbols to code names (keys unique, in first-seen order).
#[derive(Debug, Clone, PartialEq, Eq)]
pub struct Tile {
    pub name: String,
    pub grid: Vec<Vec<Option<TileBit>>>,
    pub spreadsheet_sym_map: Vec<(String, String)>,
}

/// A layout-parsing error, fatal to the whole layout.
#[derive(Debug, Clone, PartialEq, Eq)]
pub enum ParseError {
    /// The sheet has no cells at all.
    UnexpectedNone,
    /// A cell holding something other than text or blank.
    InvalidCellContentType { row: u32, col: u32 },
    /// A text cell that does not fit `sym`, `sym[bit]` or
    /// `sym[instance][bit]`.
    MalformedCellContents { row: u32, col: u32, contents: String },
    /// A symbol-map row without both a symbol and a code name.
    InvalidSymMapCell { row: u32 },
    /// A symbol mapped twice.
    DuplicateSymMapSym { row: u32, ident: String },
}

/// A coordinate-table error from the layout compiler.
#[derive(Debug, Clone, PartialEq, Eq)]
pub enum EmitError {
    /// A grid symbol with no map entry.
    MissingSymMap { row: u32, col: u32, sym: String },
    /// Some instance/bit combination never appears in the grid.
    MissingBit { instance_idx: usize, missing_bit_idx: usize, code_ident: String },
}

/// The exact text `ParseError::message` renders.
pub open spec fn spec_parse_error_message(e: ParseError) -> Seq<char> {
    match e {
        ParseError::UnexpectedNone => "unexpectedly got a None while parsing spreadsheet"@,
        ParseError::InvalidCellContentType { row, col } => "invalid cell content type at ("@
            + crate::strconv::nat_to_dec(row as nat) + ", "@ + crate::strconv::nat_to_dec(
            col as nat,
        ) + ") (must be string or empty)"@,
        ParseError::MalformedCellContents { row, col, contents } => "malformed cell contents \""@
            + contents@ + "\" at ("@ + crate::strconv::nat_to_dec(row as nat) + ", "@
            + crate::strconv::nat_to_dec(col as nat) + ")"@,
        ParseError::InvalidSymMapCell { row } => "invalid spreadsheet symbol map entry on row "@
            + crate::strconv::nat_to_dec(row as nat),
        ParseError::DuplicateSymMapSym { row, ident } => "duplicate spreadsheet symbol \""@
            + ident@ + "\" on row "@ + crate::strconv::nat_to_dec(row as nat),
    }
}

impl ParseError {
    /// The human-readable account of this error.
    pub fn message(&self) -> (r: String)
        ensures
            r@ == spec_parse_error_message(*self),
    {
        match self {
            ParseError::UnexpectedNone => String::from_str(
                "unexpectedly got a None while parsing spreadsheet",
            ),
            ParseError::InvalidCellContentType { row, col } => {
                let mut out = str_chars("invalid cell content type at (");
                let mut a = crate::strconv::u128_to_dec_chars(*row as u128);
                out.append(&mut a);
                let mut mid = str_chars(", ");
                out.append(&mut mid);
                let mut b = crate::strconv::u128_to_dec_chars(*col as u128);
                out.append(&mut b);
                let mut tail = str_chars(") (must be string or empty)");
                out.append(&mut tail);
                proof {
                    assert(out@ =~= spec_parse_error_message(*self));
                }
                chars_string(&out)
            },
            ParseError::MalformedCellContents { row, col, contents } => {
                let mut out = str_chars("malformed cell contents \"");
                let mut c = str_chars(contents.as_str());
                out.append(&mut c);
                let mut mid = str_chars("\" at (");
                out.append(&mut mid);
                let mut a = crate::strconv::u128_to_dec_chars(*row as u128);
                out.append(&mut a);
                let mut mid2 = str_chars(", ");
                out.append(&mut mid2);
                let mut b = crate::strconv::u128_to_dec_chars(*col as u128);
                out.append(&mut b);
                let mut tail = str_chars(")");
                out.append(&mut tail);
                proof {
                    assert(out@ =~= spec_parse_error_message(*self));
                }
                chars_string(&out)
            },
            ParseError::InvalidSymMapCell { row } => {
                let mut out = str_chars("invalid spreadsheet symbol map entry on row ");
                let mut a = crate::strconv::u128_to_dec_chars(*row as u128);
                out.append(&mut a);
                proof {
                    assert(out@ =~= spec_parse_error_message(*self));
                }
                chars_string(&out)
            },
            ParseError::DuplicateSymMapSym { row, ident } => {
                let mut out = str_chars("duplicate spreadsheet symbol \"");
                let mut c = str_chars(ident.as_str());
                out.append(&mut c);
                let mut mid = str_chars("\" on row ");
                out.append(&mut mid);
                let mut a = crate::strconv::u128_to_dec_chars(*row as u128);
                out.append(&mut a);
                proof {
                    assert(out@ =~= spec_parse_error_message(*self));
                }
                chars_string(&out)
            },
        }
    }
}

/// The exact text `EmitError::message` renders.
pub open spec fn spec_emit_error_message(e: EmitError) -> Seq<char> {
    match e {
        EmitError::MissingSymMap { row, col, sym } => "missing sym \""@ + sym@ + "\" at ("@
            + crate::strconv::nat_to_dec(row as nat) + ", "@ + crate::strconv::nat_to_dec(
            col as nat,
        ) + ")"@,
        EmitError::MissingBit { instance_idx, missing_bit_idx, code_ident } => "missing bit "@
            + crate::strconv::nat_to_dec(missing_bit_idx as nat) + " for instance "@
            + crate::strconv::nat_to_dec(instance_idx as nat) + " of "@ + code_ident@,
    }
}

impl EmitError {
    /// The human-readable account of this error.
    pub fn message(&self) -> (r: String)
        ensures
            r@ == spec_emit_error_message(*self),
    {
        match self {
            EmitError::MissingSymMap { row, col, sym } => {
                let mut out = str_chars("missing sym \"");
                let mut c = str_chars(sym.as_str());
                out.append(&mut c);
                let mut mid = str_chars("\" at (");
                out.append(&mut mid);
                let mut a = crate::strconv::u128_to_dec_chars(*row as u128);
                out.append(&mut a);
                let mut mid2 = str_chars(", ");
                out.append(&mut mid2);
                let mut b = crate::strconv::u128_to_dec_chars(*col as u128);
                out.append(&mut b);
                let mut tail = str_chars(")");
                out.append(&mut tail);
                proof {
                    assert(out@ =~= spec_emit_error_message(*self));
                }
                chars_string(&out)
            },
            EmitError::MissingBit { instance_idx, missing_bit_idx, code_ident } => {
                let mut out = str_chars("missing bit ");
                let mut a = crate::strconv::u128_to_dec_chars(*missing_bit_idx as u128);
                out.append(&mut a);
                let mut mid = str_chars(" for instance ");
                out.append(&mut mid);
                let mut b = crate::strconv::u128_to_dec_chars(*instance_idx as u128);
                out.append(&mut b);
                let mut mid2 = str_chars(" of ");
                out.append(&mut mid2);
                let mut c = str_chars(code_ident.as_str());
                out.append(&mut c);
                proof {
                    assert(out@ =~= spec_emit_error_message(*self));
                }
                chars_string(&out)
            },
        }
    }
}

/// What one cell may hold, as the layout reader sees it.
#[derive(Debug, Clone, PartialEq, Eq)]
pub enum CellValue {
    /// A text cell.
    Str(String),
    /// A blank cell.
    Empty,
    /// Any other content type (a number, a date, ...).
    Other,
}

/// One sheet handed in by the host: its name and its cells, row-major.
#[derive(Debug, Clone, PartialEq, Eq)]
pub struct Sheet {
    pub name: String,
    pub cells: Vec<Vec<CellValue>>,
}

/// A bracket-free, non-empty symbol.
pub open spec fn sym_ok(s: Seq<char>) -> bool {
    s.len() > 0 && forall|i: int| 0 <= i < s.len() ==> s[i] != '[' && s[i] != ']'
}

/// A decimal index group, optionally `+`-prefixed as the grid notation
/// allows, with its value.
pub open spec fn spec_index_group(s: Seq<char>) -> Option<nat> {
    let digits = if s.len() > 0 && s[0] == '+' {
        s.subrange(1, s.len() as int)
    } else {
        s
    };
    if is_dec_str(digits) && dec_str_val(digits) <= usize::MAX as nat {
        Some(dec_str_val(digits))
    } else {
        None
    }
}

/// What a trimmed text cell parses to: `sym` alone, `sym[bit]`, or
/// `sym[instance][bit]`; anything else is malformed.
pub open spec fn spec_parse_cell_text(s: Seq<char>) -> Option<(Seq<char>, Option<nat>, nat)> {
    match spec_find(s, 0, '[') {
        None => if sym_ok(s) {
            Some((s, None, 0))
        } else {
            None
        },
        Some(k) => {
            let sym = s.subrange(0, k as int);
            let rest = s.subrange(k as int, s.len() as int);
            if !sym_ok(sym) {
                None
            } else {
                match spec_bracket_groups(rest) {
                    Some(groups) => if groups.len() == 1 {
                        match spec_index_group(groups[0]) {
                            Some(b) => Some((sym, None, b)),
                            None => None,
                        }
                    } else if groups.len() == 2 {
                        match (spec_index_group(groups[0]), spec_index_group(groups[1])) {
                            (Some(a), Some(b)) => Some((sym, Some(a), b)),
                            _ => None,
                        }
                    } else {
                        None
                    },
                    None => None,
                }
            }
        },
    }
}

/// The bracket groups of a `[..][..]...` tail: the text between each
/// balanced pair, `None` if the tail is not exactly such groups.
pub open spec fn spec_bracket_groups(s: Seq<char>) -> Option<Seq<Seq<char>>>
    decreases s.len(),
{
    if s.len() == 0 {
        Some(Seq::empty())
    } else if s[0] != '[' {
        None
    } else {
        match spec_find(s, 1, ']') {
            None => None,
            Some(k) => if k < s.len() {
                let inner = s.subrange(1, k as int);
                if spec_find(inner, 0, '[').is_some() {
                    None
                } else {
                    match spec_bracket_groups(s.subrange(k + 1 as int, s.len() as int)) {
                        Some(rest) => Some(seq![inner] + rest),
                        None => None,
                    }
                }
            } else {
                None
            },
        }
    }
}

fn parse_index_group(s: &Vec<char>) -> (r: Option<usize>)
    ensures
        match r {
            Some(v) => spec_index_group(s@) == Some(v as nat),
            None => spec_index_group(s@).is_none(),
        },
{
    let digits = if s.len() > 0 && s[0] == '+' {
        chars_subrange(s, 1, s.len())
    } else {
        chars_subrange(s, 0, s.len())
    };
    proof {
        assert(digits@ =~= (if s@.len() > 0 && s@[0] == '+' {
            s@.subrange(1, s@.len() as int)
        } else {
            s@
        }));
    }
    match dec_chars_to_u128(&digits) {
        Some(v) => {
            if v <= usize::MAX as u128 {
                Some(v as usize)
            } else {
                None
            }
        },
        None => None,
    }
}

fn bracket_groups(s: &Vec<char>) -> (r: Option<Vec<Vec<char>>>)
    ensures
        match r {
            Some(groups) => Some(groups.deep_view()) == spec_bracket_groups(s@),
            None => spec_bracket_groups(s@).is_none(),
        },
    decreases s@.len(),
{
    let n = s.len();
    if n == 0 {
        let groups: Vec<Vec<char>> = Vec::new();
        proof {
            assert(groups.deep_view() =~= Seq::<Seq<char>>::empty());
        }
        return Some(groups);
    }
    if s[0] != '[' {
        return None;
    }
    let k = match find_char(s, 1, ']') {
        None => {
            return None;
        },
        Some(k) => k,
    };
    proof {
        lemma_spec_find(s@, 1, ']');
        assert(k < n);
    }
    let inner = chars_subrange(s, 1, k);
    if find_char(&inner, 0, '[').is_some() {
        return None;
    }
    let tail = chars_subrange(s, k + 1, n);
    match bracket_groups(&tail) {
        Some(mut rest) => {
            let ghost rest_dv = rest.deep_view();
            rest.insert(0, inner);
            proof {
                assert(rest.deep_view() =~~= seq![s@.subrange(1, k as int)] + rest_dv);
            }
            Some(rest)
        },
        None => None,
    }
}

fn sym_ok_exec(s: &Vec<char>) -> (r: bool)
    ensures
        r == sym_ok(s@),
{
    if s.len() == 0 {
        return false;
    }
    let mut i: usize = 0;
    while i < s.len()
        invariant
            i <= s@.len(),
            s@.len() > 0,
            forall|j: int| 0 <= j < i ==> s@[j] != '[' && s@[j] != ']',
        decreases s@.len() - i,
    {
        if s[i] == '[' || s[i] == ']' {
            return false;
        }
        i = i + 1;
    }
    true
}

/// Parse one annotated cell: blank gives nothing, text must fit the
/// `sym[instance][bit]` grammar, any other content type is an error.
/// Text is taken as given (the host trims it).
pub fn parse_cell(row: u32, col: u32, cell: &CellValue) -> (r: Result<Option<TileBit>, ParseError>)
    ensures
        match r {
            Ok(Some(tb)) => match *cell {
                CellValue::Str(s) => spec_parse_cell_text(s@) == Some(
                    (
                        tb.spreadsheet_sym@,
                        match tb.instance_address {
                            Some(a) => Some(a as nat),
                            None => None,
                        },
                        tb.bit_idx as nat,
                    ),
                ),
                _ => false,
            },
            Ok(None) => *cell == CellValue::Empty,
            Err(e) => match *cell {
                CellValue::Str(s) => spec_parse_cell_text(s@).is_none() && e == (
                    ParseError::MalformedCellContents { row, col, contents: s }
                ),
                CellValue::Empty => false,
                CellValue::Other => e == (ParseError::InvalidCellContentType { row, col }),
            },
        },
{
    let s = match cell {
        CellValue::Str(s) => s,
        CellValue::Empty => {
            return Ok(None);
        },
        CellValue::Other => {
            return Err(ParseError::InvalidCellContentType { row, col });
        },
    };
    let cs = str_chars(s.as_str());
    let n = cs.len();
    let malformed = Err(ParseError::MalformedCellContents { row, col, contents: s.clone() });
    match find_char(&cs, 0, '[') {
        None => {
            if sym_ok_exec(&cs) {
                proof {
                    assert(cs@ =~= s@);
                }
                Ok(Some(TileBit {
                    spreadsheet_sym: s.clone(),
                    instance_address: None,
                    bit_idx: 0,
                }))
            } else {
                malformed
            }
        },
        Some(k) => {
            proof {
                lemma_spec_find(cs@, 0, '[');
                assert(k < n);
            }
            let sym = chars_subrange(&cs, 0, k);
            let rest = chars_subrange(&cs, k, n);
            if !sym_ok_exec(&sym) {
                return malformed;
            }
            let groups = match bracket_groups(&rest) {
                Some(g) => g,
                None => {
                    return malformed;
                },
            };
            if groups.len() == 1 {
                proof {
                    assert(groups.deep_view()[0] == groups@[0]@);
                }
                match parse_index_group(&groups[0]) {
                    Some(b) => Ok(Some(TileBit {
                        spreadsheet_sym: chars_string(&sym),
                        instance_address: None,
                        bit_idx: b,
                    })),
                    None => malformed,
                }
            } else if groups.len() == 2 {
                proof {
                    assert(groups.deep_view()[0] == groups@[0]@);
                    assert(groups.deep_view()[1] == groups@[1]@);
                }
                let a = match parse_index_group(&groups[0]) {
                    Some(a) => a,
                    None => {
                        return malformed;
                    },
                };
                match parse_index_group(&groups[1]) {
                    Some(b) => Ok(Some(TileBit {
                        spreadsheet_sym: chars_string(&sym),
                        instance_address: Some(a),
                        bit_idx: b,
                    })),
                    None => malformed,
                }
            } else {
                malformed
            }
        },
    }
}

/// The text of a cell, if it holds text.
pub fn cell_to_string(cell: Option<&CellValue>) -> (r: Option<String>)
    ensures
        match r {
            Some(s) => match cell {
                Some(c) => *c == CellValue::Str(s),
                None => false,
            },
            None => match cell {
                Some(c) => !(*c is Str),
                None => true,
            },
        },
{
    match cell {
        Some(CellValue::Str(s)) => Some(s.clone()),
        _ => None,
    }
}

/// The ghost shape of an annotated cell.
pub enum CellModel {
    Str(Seq<char>),
    Empty,
    Other,
}

impl View for CellValue {
    type V = CellModel;

    open spec fn view(&self) -> CellModel {
        match self {
            CellValue::Str(s) => CellModel::Str(s@),
            CellValue::Empty => CellModel::Empty,
            CellValue::Other => CellModel::Other,
        }
    }
}

/// The ghost shape of a parsed grid cell.
pub struct TileBitModel {
    pub sym: Seq<char>,
    pub instance: Option<nat>,
    pub bit: nat,
}

impl View for TileBit {
    type V = TileBitModel;

    open spec fn view(&self) -> TileBitModel {
        TileBitModel {
            sym: self.spreadsheet_sym@,
            instance: match self.instance_address {
                Some(a) => Some(a as nat),
                None => None,
            },
            bit: self.bit_idx as nat,
        }
    }
}

/// The ghost shape of a parse error.
pub enum SheetErrorModel {
    UnexpectedNone,
    InvalidCellContentType { row: nat, col: nat },
    MalformedCellContents { row: nat, col: nat, contents: Seq<char> },
    InvalidSymMapCell { row: nat },
    DuplicateSymMapSym { row: nat, ident: Seq<char> },
}

impl View for ParseError {
    type V = SheetErrorModel;

    open spec fn view(&self) -> SheetErrorModel {
        match self {
            ParseError::UnexpectedNone => SheetErrorModel::UnexpectedNone,
            ParseError::InvalidCellContentType { row, col } =>
                SheetErrorModel::InvalidCellContentType { row: *row as nat, col: *col as nat },
            ParseError::MalformedCellContents { row, col, contents } =>
                SheetErrorModel::MalformedCellContents {
                    row: *row as nat,
                    col: *col as nat,
                    contents: contents@,
                },
            ParseError::InvalidSymMapCell { row } => SheetErrorModel::InvalidSymMapCell {
                row: *row as nat,
            },
            ParseError::DuplicateSymMapSym { row, ident } => SheetErrorModel::DuplicateSymMapSym {
                row: *row as nat,
                ident: ident@,
            },
        }
    }
}

/// The ghost shape of a parsed sheet.
pub struct TileModel {
    pub name: Seq<char>,
    pub grid: Seq<Seq<Option<TileBitModel>>>,
    pub sym_map: Seq<(Seq<char>, Seq<char>)>,
}

impl View for Tile {
    type V = TileModel;

    open spec fn view(&self) -> TileModel {
        TileModel {
            name: self.name@,
            grid: self.grid@.map_values(
                |row: Vec<Option<TileBit>>| row@.map_values(
                    |c: Option<TileBit>| match c {
                        Some(tb) => Some(tb@),
                        None => None,
                    },
                ),
            ),
            sym_map: self.spreadsheet_sym_map@.map_values(|p: (String, String)| (p.0@, p.1@)),
        }
    }
}

/// The cells of one sheet, as ghost values.
pub open spec fn cells_model(cells: Vec<Vec<CellValue>>) -> Seq<Seq<CellModel>> {
    cells@.map_values(|row: Vec<CellValue>| row@.map_values(|c: CellValue| c@))
}

/// The cell at a grid position, blank where the row stops short.
pub open spec fn cell_at(g: Seq<Seq<CellModel>>, r: int, c: int) -> CellModel {
    if 0 <= r < g.len() && 0 <= c < g[r].len() {
        g[r][c]
    } else {
        CellModel::Empty
    }
}

/// The widest row of the sheet.
pub open spec fn spec_ncols(g: Seq<Seq<CellModel>>, upto: nat) -> nat
    decreases upto,
{
    if upto == 0 {
        0
    } else {
        let rest = spec_ncols(g, (upto - 1) as nat);
        if g[upto - 1].len() > rest {
            g[upto - 1].len()
        } else {
            rest
        }
    }
}

/// What parsing one cell yields, as ghost values.
pub open spec fn spec_cell_result(g: Seq<Seq<CellModel>>, r: int, c: int) -> Result<
    Option<TileBitModel>,
    SheetErrorModel,
> {
    match cell_at(g, r, c) {
        CellModel::Empty => Ok(None),
        CellModel::Other => Err(SheetErrorModel::InvalidCellContentType {
            row: r as nat,
            col: c as nat,
        }),
        CellModel::Str(s) => match spec_parse_cell_text(s) {
            Some((sym, inst, bit)) => Ok(Some(TileBitModel { sym, instance: inst, bit })),
            None => Err(SheetErrorModel::MalformedCellContents {
                row: r as nat,
                col: c as nat,
                contents: s,
            }),
        },
    }
}

/// Scan one grid row from column `c` on: stop early at an `XXX` marker,
/// note whether every cell so far was blank, parse the rest.
pub open spec fn spec_scan_row(
    g: Seq<Seq<CellModel>>,
    r: int,
    c: nat,
    ncols: nat,
) -> Result<(Seq<Option<TileBitModel>>, bool), SheetErrorModel>
    decreases ncols - c,
{
    if c >= ncols {
        Ok((Seq::empty(), true))
    } else {
        let cell = cell_at(g, r, c as int);
        let nonblank = !(cell is Empty);
        if cell == CellModel::Str("XXX"@) {
            Ok((Seq::empty(), !nonblank))
        } else {
            match spec_cell_result(g, r, c as int) {
                Err(e) => Err(e),
                Ok(tb) => match spec_scan_row(g, r, c + 1, ncols) {
                    Err(e) => Err(e),
                    Ok((rest, rest_empty)) => Ok((seq![tb] + rest, rest_empty && !nonblank)),
                },
            }
        }
    }
}

/// Scan the grid rows from `r` on, stopping at the first all-blank row;
/// gives the grid rows and the row the symbol map starts at (0 when no
/// all-blank row separates them).
pub open spec fn spec_scan_grid(g: Seq<Seq<CellModel>>, r: nat, ncols: nat) -> Result<
    (Seq<Seq<Option<TileBitModel>>>, nat),
    SheetErrorModel,
>
    decreases g.len() - r,
{
    if r >= g.len() {
        Ok((Seq::empty(), 0))
    } else {
        match spec_scan_row(g, r as int, 0, ncols) {
            Err(e) => Err(e),
            Ok((row, all_empty)) => if all_empty {
                Ok((Seq::empty(), r + 1))
            } else {
                match spec_scan_grid(g, r + 1, ncols) {
                    Err(e) => Err(e),
                    Ok((rest, start)) => Ok((seq![row] + rest, start)),
                }
            },
        }
    }
}

/// Whether a key already stands in the map.
pub open spec fn map_has_key(entries: Seq<(Seq<char>, Seq<char>)>, key: Seq<char>) -> bool {
    exists|i: int| 0 <= i < entries.len() && entries[i].0 == key
}

/// Scan the symbol-map rows from `r` on: column 0 is the grid symbol,
/// column 1 the code name; both must be text, and no symbol may repeat.
pub open spec fn spec_scan_map(
    g: Seq<Seq<CellModel>>,
    r: nat,
    acc: Seq<(Seq<char>, Seq<char>)>,
) -> Result<Seq<(Seq<char>, Seq<char>)>, SheetErrorModel>
    decreases g.len() - r,
{
    if r >= g.len() {
        Ok(acc)
    } else {
        match (cell_at(g, r as int, 0), cell_at(g, r as int, 1)) {
            (CellModel::Str(sym), CellModel::Str(code)) => if map_has_key(acc, sym) {
                Err(SheetErrorModel::DuplicateSymMapSym { row: r, ident: sym })
            } else {
                spec_scan_map(g, r + 1, acc.push((sym, code)))
            },
            _ => Err(SheetErrorModel::InvalidSymMapCell { row: r }),
        }
    }
}

/// What parsing one whole sheet yields.
pub open spec fn spec_parse_sheet(name: Seq<char>, g: Seq<Seq<CellModel>>) -> Result<
    TileModel,
    SheetErrorModel,
> {
    let ncols = spec_ncols(g, g.len() as nat);
    if g.len() == 0 || ncols == 0 {
        Err(SheetErrorModel::UnexpectedNone)
    } else {
        match spec_scan_grid(g, 0, ncols) {
            Err(e) => Err(e),
            Ok((grid, map_start)) => match spec_scan_map(g, map_start, Seq::empty()) {
                Err(e) => Err(e),
                Ok(sym_map) => Ok(TileModel { name, grid, sym_map }),
            },
        }
    }
}

/// The ghost view of one grid row under construction.
pub open spec fn row_model(row: Vec<Option<TileBit>>) -> Seq<Option<TileBitModel>> {
    row@.map_values(|c: Option<TileBit>| match c {
        Some(tb) => Some(tb@),
        None => None,
    })
}

#[verifier::loop_isolation(false)]
fn scan_row_exec(cells: &Vec<Vec<CellValue>>, r: usize, ncols: usize) -> (res: Result<
    (Vec<Option<TileBit>>, bool),
    ParseError,
>)
    requires
        cells@.len() <= u32::MAX,
        r < cells@.len(),
        ncols <= u32::MAX,
    ensures
        match res {
            Ok((row, ae)) => Ok::<(Seq<Option<TileBitModel>>, bool), SheetErrorModel>((row_model(row), ae)) == spec_scan_row(
                cells_model(*cells),
                r as int,
                0,
                ncols as nat,
            ),
            Err(e) => Err::<(Seq<Option<TileBitModel>>, bool), SheetErrorModel>(e@)
                == spec_scan_row(cells_model(*cells), r as int, 0, ncols as nat),
        },
{
    let ghost g = cells_model(*cells);
    let empty_cell = CellValue::Empty;
    let xxx = str_chars("XXX");
    let mut row: Vec<Option<TileBit>> = Vec::new();
    let mut all_empty = true;
    let mut c: usize = 0;
    while c < ncols
        invariant
            c <= ncols,
            row_model(row).len() == c,
            spec_scan_row(g, r as int, 0, ncols as nat) == (match spec_scan_row(
                g,
                r as int,
                c as nat,
                ncols as nat,
            ) {
                Ok((rest, rae)) => Ok::<(Seq<Option<TileBitModel>>, bool), SheetErrorModel>(
                    (row_model(row) + rest, rae && all_empty),
                ),
                Err(e) => Err(e),
            }),
        decreases ncols - c,
    {
        let cell = if c < cells[r].len() {
            &cells[r][c]
        } else {
            &empty_cell
        };
        proof {
            assert(cell@ == cell_at(g, r as int, c as int));
        }
        let is_empty = match cell {
            CellValue::Empty => true,
            _ => false,
        };
        if is_empty {
        } else {
            all_empty = false;
        }
        let is_xxx = match cell {
            CellValue::Str(s) => chars_eq(&str_chars(s.as_str()), &xxx),
            _ => false,
        };
        if is_xxx {
            return Ok((row, all_empty));
        }
        match parse_cell(r as u32, c as u32, cell) {
            Ok(tb) => {
                let ghost rm0 = row_model(row);
                let ghost tbm: Option<TileBitModel> = match tb {
                    Some(ref t) => Some(t@),
                    None => None,
                };
                proof {
                    assert(Ok::<Option<TileBitModel>, SheetErrorModel>(tbm) == spec_cell_result(
                        g,
                        r as int,
                        c as int,
                    ));
                }
                row.push(tb);
                proof {
                    assert(row_model(row) =~= rm0.push(tbm));
                    match spec_scan_row(g, r as int, (c + 1) as nat, ncols as nat) {
                        Ok((rest, _rae)) => {
                            assert(rm0 + (seq![tbm] + rest) =~= row_model(row) + rest);
                        },
                        Err(_) => {},
                    }
                }
            },
            Err(e) => {
                proof {
                    assert(Err::<Option<TileBitModel>, SheetErrorModel>(e@) == spec_cell_result(
                        g,
                        r as int,
                        c as int,
                    ));
                }
                return Err(e);
            },
        }
        c = c + 1;
    }
    proof {
        assert(spec_scan_row(g, r as int, ncols as nat, ncols as nat)
            == Ok::<(Seq<Option<TileBitModel>>, bool), SheetErrorModel>((Seq::empty(), true)));
        assert(row_model(row) + Seq::<Option<TileBitModel>>::empty() =~= row_model(row));
    }
    Ok((row, all_empty))
}

/// Whether a symbol already stands in the map.
fn map_contains_key(entries: &Vec<(String, String)>, key: &String) -> (r: bool)
    ensures
        r == map_has_key(entries@.map_values(|p: (String, String)| (p.0@, p.1@)), key@),
{
    let ghost m = entries@.map_values(|p: (String, String)| (p.0@, p.1@));
    let mut i: usize = 0;
    while i < entries.len()
        invariant
            i <= entries@.len(),
            m == entries@.map_values(|p: (String, String)| (p.0@, p.1@)),
            forall|j: int| 0 <= j < i ==> (#[trigger] m[j]).0 != key@,
        decreases entries@.len() - i,
    {
        if chars_eq(&str_chars(entries[i].0.as_str()), &str_chars(key.as_str())) {
            proof {
                assert(m[i as int].0 == key@);
            }
            return true;
        }
        i = i + 1;
    }
    false
}

/// Parse one sheet: the annotated grid up to the first all-blank row,
/// then the two-column symbol map.
#[verifier::loop_isolation(false)]
fn parse_sheet(sheet: &Sheet) -> (res: Result<Tile, ParseError>)
    requires
        sheet.cells@.len() <= u32::MAX,
        forall|i: int| 0 <= i < sheet.cells@.len() ==> (#[trigger] sheet.cells@[i])@.len()
            <= u32::MAX,
    ensures
        match res {
            Ok(t) => Ok::<TileModel, SheetErrorModel>(t@) == spec_parse_sheet(sheet.name@, cells_model(sheet.cells)),
            Err(e) => Err::<TileModel, SheetErrorModel>(e@) == spec_parse_sheet(
                sheet.name@,
                cells_model(sheet.cells),
            ),
        },
{
    let ghost g = cells_model(sheet.cells);
    let rows = sheet.cells.len();
    let mut ncols: usize = 0;
    let mut i: usize = 0;
    while i < rows
        invariant
            i <= rows,
            ncols as nat == spec_ncols(g, i as nat),
            ncols <= u32::MAX,
        decreases rows - i,
    {
        if sheet.cells[i].len() > ncols {
            ncols = sheet.cells[i].len();
        }
        i = i + 1;
    }
    if rows == 0 || ncols == 0 {
        return Err(ParseError::UnexpectedNone);
    }
    let mut grid: Vec<Vec<Option<TileBit>>> = Vec::new();
    let mut map_start: usize = 0;
    let mut found_empty = false;
    let mut r: usize = 0;
    while r < rows && !found_empty
        invariant
            r <= rows,
            ncols as nat == spec_ncols(g, g.len() as nat),
            map_start <= rows,
            !found_empty ==> map_start == 0,
            !found_empty ==> spec_scan_grid(g, 0, ncols as nat) == (match spec_scan_grid(
                g,
                r as nat,
                ncols as nat,
            ) {
                Ok((rest, start)) => Ok::<(Seq<Seq<Option<TileBitModel>>>, nat), SheetErrorModel>(
                    (grid@.map_values(|row: Vec<Option<TileBit>>| row_model(row)) + rest, start),
                ),
                Err(e) => Err(e),
            }),
            found_empty ==> spec_scan_grid(g, 0, ncols as nat) == Ok::<
                (Seq<Seq<Option<TileBitModel>>>, nat),
                SheetErrorModel,
            >((grid@.map_values(|row: Vec<Option<TileBit>>| row_model(row)), map_start as nat)),
        decreases rows - r,
    {
        let (row, all_empty) = match scan_row_exec(&sheet.cells, r, ncols) {
            Ok(x) => x,
            Err(e) => {
                return Err(e);
            },
        };
        let ghost gm_before = grid@.map_values(|row: Vec<Option<TileBit>>| row_model(row));
        if all_empty {
            map_start = r + 1;
            found_empty = true;
            proof {
                assert(gm_before + Seq::<Seq<Option<TileBitModel>>>::empty() =~= gm_before);
            }
            r = r + 1;
        } else {
            let ghost rm = row_model(row);
            grid.push(row);
            proof {
                assert(grid@.map_values(|row: Vec<Option<TileBit>>| row_model(row))
                    =~= gm_before.push(rm));
                match spec_scan_grid(g, (r + 1) as nat, ncols as nat) {
                    Ok((rest, _start)) => {
                        assert(gm_before + (seq![rm] + rest)
                            =~= gm_before.push(rm) + rest);
                    },
                    Err(_) => {},
                }
            }
            r = r + 1;
        }
    }
    proof {
        if !found_empty {
            assert(spec_scan_grid(g, rows as nat, ncols as nat) == Ok::<
                (Seq<Seq<Option<TileBitModel>>>, nat),
                SheetErrorModel,
            >((Seq::empty(), 0)));
            assert(grid@.map_values(|row: Vec<Option<TileBit>>| row_model(row))
                + Seq::<Seq<Option<TileBitModel>>>::empty() =~= grid@.map_values(
                |row: Vec<Option<TileBit>>| row_model(row)));
        }
    }
    let mut sym_map: Vec<(String, String)> = Vec::new();
    proof {
        assert(sym_map@.map_values(|p: (String, String)| (p.0@, p.1@))
            =~= Seq::<(Seq<char>, Seq<char>)>::empty());
    }
    let mut r2: usize = map_start;
    while r2 < rows
        invariant
            map_start <= rows,
            r2 <= rows,
            spec_scan_map(g, map_start as nat, Seq::empty()) == spec_scan_map(
                g,
                r2 as nat,
                sym_map@.map_values(|p: (String, String)| (p.0@, p.1@)),
            ),
        decreases rows - r2,
    {
        let srow = &sheet.cells[r2];
        let sym_cell = if srow.len() > 0 {
            cell_to_string(Some(&srow[0]))
        } else {
            cell_to_string(None)
        };
        let code_cell = if srow.len() > 1 {
            cell_to_string(Some(&srow[1]))
        } else {
            cell_to_string(None)
        };
        proof {
            match sym_cell {
                Some(ref s) => assert(cell_at(g, r2 as int, 0) == CellModel::Str(s@)),
                None => assert(!(cell_at(g, r2 as int, 0) is Str)),
            }
            match code_cell {
                Some(ref s) => assert(cell_at(g, r2 as int, 1) == CellModel::Str(s@)),
                None => assert(!(cell_at(g, r2 as int, 1) is Str)),
            }
        }
        let (sym, code) = match (sym_cell, code_cell) {
            (Some(sym), Some(code)) => (sym, code),
            _ => {
                return Err(ParseError::InvalidSymMapCell { row: r2 as u32 });
            },
        };
        if map_contains_key(&sym_map, &sym) {
            return Err(ParseError::DuplicateSymMapSym { row: r2 as u32, ident: sym });
        }
        let ghost sm_before = sym_map@.map_values(|p: (String, String)| (p.0@, p.1@));
        sym_map.push((sym, code));
        proof {
            assert(sym_map@.map_values(|p: (String, String)| (p.0@, p.1@))
                =~= sm_before.push((sym_map@.last().0@, sym_map@.last().1@)));
        }
        r2 = r2 + 1;
    }
    proof {
        assert(spec_scan_map(g, rows as nat, sym_map@.map_values(
            |p: (String, String)| (p.0@, p.1@),
        )) == Ok::<Seq<(Seq<char>, Seq<char>)>, SheetErrorModel>(sym_map@.map_values(
            |p: (String, String)| (p.0@, p.1@),
        )));
    }
    let ghost gm_final = grid@.map_values(|row: Vec<Option<TileBit>>| row_model(row));
    let ghost sm_final = sym_map@.map_values(|p: (String, String)| (p.0@, p.1@));
    let t = Tile { name: sheet.name.clone(), grid, spreadsheet_sym_map: sym_map };
    proof {
        assert(t@.grid =~~= gm_final);
        assert(t@.sym_map =~~= sm_final);
        assert(t@ == (TileModel { name: sheet.name@, grid: gm_final, sym_map: sm_final }));
    }
    Ok(t)
}

/// Parse every sheet of a workbook into its annotated tile. The first
/// offending sheet aborts the whole parse.
#[verifier::loop_isolation(false)]
#[verifier::rlimit(80)]
#[verifier::spinoff_prover]
pub fn parse(sheets: &Vec<Sheet>) -> (res: Result<Vec<Tile>, ParseError>)
    requires
        forall|s: int| 0 <= s < sheets@.len() ==> (#[trigger] sheets@[s]).cells@.len()
            <= u32::MAX,
        forall|s: int, i: int| 0 <= s < sheets@.len() && 0 <= i < sheets@[s].cells@.len()
            ==> (#[trigger] sheets@[s].cells@[i])@.len() <= u32::MAX,
    ensures
        match res {
            Ok(tiles) => tiles@.len() == sheets@.len() && forall|s: int|
                0 <= s < sheets@.len() ==> Ok::<TileModel, SheetErrorModel>(
                    (#[trigger] tiles@[s])@,
                ) == spec_parse_sheet(sheets@[s].name@, cells_model(sheets@[s].cells)),
            Err(e) => exists|s: int| 0 <= s < sheets@.len()
                && Err::<TileModel, SheetErrorModel>(e@) == spec_parse_sheet(
                    (#[trigger] sheets@[s]).name@,
                    cells_model(sheets@[s].cells),
                ),
        },
{
    let mut tiles: Vec<Tile> = Vec::new();
    let mut s: usize = 0;
    while s < sheets.len()
        invariant
            s <= sheets@.len(),
            tiles@.len() == s,
            forall|j: int| 0 <= j < s ==> Ok::<TileModel, SheetErrorModel>(
                (#[trigger] tiles@[j])@,
            ) == spec_parse_sheet(sheets@[j].name@, cells_model(sheets@[j].cells)),
        decreases sheets@.len() - s,
    {
        match parse_sheet(&sheets[s]) {
            Ok(t) => {
                tiles.push(t);
            },
            Err(e) => {
                return Err(e);
            },
        }
        s = s + 1;
    }
    Ok(tiles)
}

} // verus!
