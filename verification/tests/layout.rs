use bittwiddler::spreadsheet::{parse, parse_cell, cell_to_string, CellValue, Sheet, TileBit,
    ParseError, EmitError};

fn s(t: &str) -> CellValue {
    CellValue::Str(t.to_string())
}

fn sheet(name: &str, rows: &[&[CellValue]]) -> Sheet {
    Sheet {
        name: name.to_string(),
        cells: rows.iter().map(|r| r.to_vec()).collect(),
    }
}

#[test]
fn cell_grammar() {
    assert_eq!(
        parse_cell(0, 0, &s("SYM")).unwrap(),
        Some(TileBit { spreadsheet_sym: "SYM".into(), instance_address: None, bit_idx: 0 })
    );
    assert_eq!(
        parse_cell(0, 0, &s("SYM[3]")).unwrap(),
        Some(TileBit { spreadsheet_sym: "SYM".into(), instance_address: None, bit_idx: 3 })
    );
    assert_eq!(
        parse_cell(0, 0, &s("SYM[1][2]")).unwrap(),
        Some(TileBit { spreadsheet_sym: "SYM".into(), instance_address: Some(1), bit_idx: 2 })
    );
    assert_eq!(parse_cell(0, 0, &CellValue::Empty).unwrap(), None);

    // the malformed-cell scenario from the layout tests
    assert_eq!(
        parse_cell(2, 3, &s("P2[0][0")),
        Err(ParseError::MalformedCellContents {
            row: 2,
            col: 3,
            contents: "P2[0][0".into()
        })
    );
    assert!(parse_cell(0, 0, &s("")).is_err());
    assert!(parse_cell(0, 0, &s("A]B")).is_err());
    assert_eq!(
        parse_cell(1, 2, &CellValue::Other),
        Err(ParseError::InvalidCellContentType { row: 1, col: 2 })
    );
}

#[test]
fn parse_sheet_layout() {
    let e = CellValue::Empty;
    let tiles = parse(&vec![sheet(
        "test_tile",
        &[
            &[s("P1[0]"), s("P1[1]"), s("P2[0][0]")],
            &[s("P2[1][0]"), e.clone(), s("XXX"), s("ignored")],
            &[e.clone(), e.clone(), e.clone()],
            &[s("P1"), s("PROPERTY_ONE")],
            &[s("P2"), s("PROPERTY_TWO")],
        ],
    )])
    .unwrap();

    assert_eq!(tiles.len(), 1);
    let t = &tiles[0];
    assert_eq!(t.name, "test_tile");
    assert_eq!(t.grid.len(), 2);
    // the first row spans the sheet's bounding box, padded with a blank
    assert_eq!(t.grid[0].len(), 4);
    assert_eq!(t.grid[0][3], None);
    // the second row stops at the XXX marker, keeping the blank before it
    assert_eq!(t.grid[1].len(), 2);
    assert_eq!(t.grid[1][1], None);
    assert_eq!(
        t.grid[0][2],
        Some(TileBit { spreadsheet_sym: "P2".into(), instance_address: Some(0), bit_idx: 0 })
    );
    assert_eq!(
        t.spreadsheet_sym_map,
        vec![
            ("P1".to_string(), "PROPERTY_ONE".to_string()),
            ("P2".to_string(), "PROPERTY_TWO".to_string()),
        ]
    );
}

#[test]
fn parse_sheet_errors() {
    let e = CellValue::Empty;

    // an empty sheet has nothing to parse
    assert_eq!(
        parse(&vec![sheet("empty", &[])]),
        Err(ParseError::UnexpectedNone)
    );

    // a malformed cell aborts
    let r = parse(&vec![sheet("bad", &[&[s("A]B")], &[e.clone()], &[s("A"), s("B")]])]);
    assert!(matches!(r, Err(ParseError::MalformedCellContents { .. })));

    // a non-text cell aborts
    let r = parse(&vec![sheet(
        "badtype",
        &[&[CellValue::Other], &[e.clone()], &[s("A"), s("B")]],
    )]);
    assert_eq!(r, Err(ParseError::InvalidCellContentType { row: 0, col: 0 }));

    // a symbol-map row without both columns aborts
    let r = parse(&vec![sheet("badmap", &[&[s("A")], &[e.clone()], &[s("A")]])]);
    assert_eq!(r, Err(ParseError::InvalidSymMapCell { row: 2 }));

    // a repeated symbol aborts
    let r = parse(&vec![sheet(
        "dupmap",
        &[&[s("A")], &[e.clone()], &[s("A"), s("B")], &[s("A"), s("C")]],
    )]);
    assert_eq!(
        r,
        Err(ParseError::DuplicateSymMapSym { row: 3, ident: "A".into() })
    );
}

#[test]
fn emit_error_shapes() {
    // the two coordinate-table error kinds carry their grid location and
    // the property they belong to
    let a = EmitError::MissingSymMap { row: 1, col: 2, sym: "Q".into() };
    let b = EmitError::MissingBit { instance_idx: 0, missing_bit_idx: 3, code_ident: "P".into() };
    assert_ne!(a, b);
    assert_eq!(
        a,
        EmitError::MissingSymMap { row: 1, col: 2, sym: "Q".into() }
    );
}

#[test]
fn layout_error_messages() {
    let e = ParseError::DuplicateSymMapSym { row: 3, ident: "A".into() };
    assert_eq!(e.message(), "duplicate spreadsheet symbol \"A\" on row 3");
    let e = EmitError::MissingBit { instance_idx: 1, missing_bit_idx: 2, code_ident: "P".into() };
    assert_eq!(e.message(), "missing bit 2 for instance 1 of P");
    let e = EmitError::MissingSymMap { row: 0, col: 5, sym: "Q".into() };
    assert_eq!(e.message(), "missing sym \"Q\" at (0, 5)");
}
