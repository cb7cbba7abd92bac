use quadratic_core::code::{
    CodeCellLanguage, CodeCellRunOutput, CodeCellRunResult, CodeCellValue, OutputArray, Value,
};
use quadratic_core::formulas::{
    args_at, common_array_size, get_expanded, referenced_cell, zip_map, CellRef, CellRefCoord,
};
use quadratic_core::ids::{CellRef as DurableRef, ColumnId, RegionRef, RowId, SheetId};
use quadratic_core::order::{first_key, key_after, key_between, order_lt, starts_with};
use quadratic_core::position::{Pos, Rect};
use quadratic_core::grid::Grid;
use quadratic_core::sheet::{GridBounds, Sheet};
use quadratic_core::text::{column_name, decimal_string, signed_decimal_string};
use quadratic_core::values::{
    Array, ArraySize, Axis, BasicValue, CellValue, Decimal, FormulaError,
};

fn text(s: &str) -> CellValue {
    CellValue::Text(s.to_string())
}

fn number(n: i64) -> BasicValue {
    BasicValue::Number(Decimal { unscaled: n, scale: 0 })
}

#[test]
fn rect_basics() {
    let r = Rect::new_span(Pos { x: 5, y: -2 }, Pos { x: 1, y: 3 });
    assert_eq!(r, Rect { min: Pos { x: 1, y: -2 }, max: Pos { x: 5, y: 3 } });
    assert_eq!(r.width(), 5);
    assert_eq!(r.height(), 6);
    assert_eq!(r.checked_width(), Some(5));
    assert_eq!(r.size(), ArraySize { w: 5, h: 6 });
    assert_eq!(r.x_range(), 1..6);
    assert_eq!(r.y_range(), -2..4);
    assert!(r.contains(Pos { x: 1, y: -2 }));
    assert!(r.contains(Pos { x: 5, y: 3 }));
    assert!(!r.contains(Pos { x: 6, y: 3 }));
    assert!(!r.contains(Pos { x: 3, y: 4 }));
    assert_eq!(Rect::from_ranges(1..6, -2..4), r);
    assert_eq!(Rect::single_pos(Pos { x: 2, y: 2 }).width(), 1);
    let mut e = Rect::single_pos(Pos { x: 0, y: 0 });
    e.extend_to(Pos { x: -3, y: 7 });
    assert_eq!(e, Rect { min: Pos { x: -3, y: 0 }, max: Pos { x: 0, y: 7 } });
    let empty = Rect { min: Pos { x: 1, y: 1 }, max: Pos { x: 0, y: 1 } };
    assert_eq!(empty.checked_width(), None);
    let wide = Rect { min: Pos { x: i64::MIN, y: 0 }, max: Pos { x: i64::MAX, y: 0 } };
    assert_eq!(wide.checked_width(), None);
    assert_eq!(wide.checked_height(), Some(1));
}

#[test]
fn quadrants_round_down() {
    assert_eq!(Pos { x: 0, y: 15 }.quadrant(), (0, 0));
    assert_eq!(Pos { x: 16, y: 31 }.quadrant(), (1, 1));
    assert_eq!(Pos { x: -1, y: -16 }.quadrant(), (-1, -1));
    assert_eq!(Pos { x: -17, y: 32 }.quadrant(), (-2, 2));
    assert_eq!(Pos { x: i64::MIN, y: i64::MAX }.quadrant(), (i64::MIN / 16, i64::MAX / 16));
    assert_eq!(Pos::origin(), Pos { x: 0, y: 0 });
    assert_eq!(Pos::from_pair((3, 4)), Pos { x: 3, y: 4 });
}

#[test]
fn a1_names() {
    assert_eq!(column_name(0), "A");
    assert_eq!(column_name(25), "Z");
    assert_eq!(column_name(26), "AA");
    assert_eq!(column_name(27), "AB");
    assert_eq!(column_name(51), "AZ");
    assert_eq!(column_name(52), "BA");
    assert_eq!(column_name(701), "ZZ");
    assert_eq!(column_name(702), "AAA");
    assert_eq!(column_name(-1), "nA");
    assert_eq!(column_name(-27), "nAA");
    assert_eq!(Pos { x: 0, y: 1 }.a1_string(), "A1");
    assert_eq!(Pos { x: 27, y: 120 }.a1_string(), "AB120");
    assert_eq!(Pos { x: -1, y: -5 }.a1_string(), "nA-5");
    assert_eq!(decimal_string(0), "0");
    assert_eq!(decimal_string(1203), "1203");
    assert_eq!(decimal_string(u128::MAX), u128::MAX.to_string());
    assert_eq!(signed_decimal_string(i64::MIN), i64::MIN.to_string());
    assert_eq!(signed_decimal_string(-7), "-7");
}

#[test]
fn array_sizes_and_arrays() {
    assert_eq!(ArraySize::new(0, 3), None);
    assert_eq!(ArraySize::new(3, 0), None);
    assert_eq!(ArraySize::new(2, 3), Some(ArraySize { w: 2, h: 3 }));
    assert_eq!(ArraySize::new(2, 3).unwrap().len(), 6);
    assert_eq!(ArraySize { w: u32::MAX, h: u32::MAX }.len(), u32::MAX as u64 * u32::MAX as u64);
    assert_eq!(ArraySize::one_by_one(), ArraySize { w: 1, h: 1 });

    let size = ArraySize::new(2, 2).unwrap();
    assert!(Array::from_row_major(size, vec![text("a")]).is_none());
    assert!(Array::from_row_major(ArraySize { w: 0, h: 0 }, vec![]).is_none());
    let a = Array::from_row_major(size, vec![text("a"), text("b"), text("c"), text("d")]).unwrap();
    assert_eq!(a.width(), 2);
    assert_eq!(a.height(), 2);
    assert_eq!(a.size(), size);
    assert_eq!(a.get(1, 0), Some(&text("b")));
    assert_eq!(a.get(0, 1), Some(&text("c")));
    assert_eq!(a.get(2, 0), None);
    assert_eq!(a.get(0, 2), None);
    assert_eq!(a.duplicate(), a);
    assert_eq!(a.clone().into_cell_values_vec(), vec![text("a"), text("b"), text("c"), text("d")]);

    let empty = Array::new_empty(ArraySize::new(3, 1).unwrap());
    assert_eq!(empty.cell_values(), &vec![CellValue::Blank, CellValue::Blank, CellValue::Blank]);
    let one = Array::from_value(text("x"));
    assert_eq!(one.size(), ArraySize::one_by_one());
    assert_eq!(one.get(0, 0), Some(&text("x")));
    assert!(CellValue::Blank.is_blank());
    assert!(!text("").is_blank());
    assert_eq!(CellValue::text("hi"), text("hi"));
}

#[test]
fn regions() {
    let s = SheetId { id: 1 };
    let region = RegionRef {
        sheet: s,
        columns: vec![ColumnId { id: 1 }, ColumnId { id: 2 }, ColumnId { id: 3 }],
        rows: vec![RowId { id: 10 }, RowId { id: 20 }],
    };
    assert!(region.is_valid());
    assert_eq!(region.size(), ArraySize::new(3, 2));
    let refs = region.cell_refs();
    let at = |c: i64, r: i64| DurableRef { sheet: s, column: ColumnId { id: c }, row: RowId { id: r } };
    assert_eq!(refs, vec![at(1, 10), at(2, 10), at(3, 10), at(1, 20), at(2, 20), at(3, 20)]);
    assert_eq!(region.duplicate(), region);

    let no_rows = RegionRef { sheet: s, columns: vec![ColumnId { id: 1 }], rows: vec![] };
    assert_eq!(no_rows.size(), None);
    assert!(no_rows.cell_refs().is_empty());
    let no_columns = RegionRef { sheet: s, columns: vec![], rows: vec![RowId { id: 1 }] };
    assert_eq!(no_columns.size(), None);

    let twice = RegionRef {
        sheet: s,
        columns: vec![ColumnId { id: 1 }, ColumnId { id: 1 }],
        rows: vec![RowId { id: 1 }],
    };
    assert!(!twice.is_valid());
    let rows_twice = RegionRef {
        sheet: s,
        columns: vec![ColumnId { id: 1 }],
        rows: vec![RowId { id: 1 }, RowId { id: 2 }, RowId { id: 1 }],
    };
    assert!(!rows_twice.is_valid());

    let single = RegionRef::from_cell_ref(at(4, 5));
    assert_eq!(single.columns, vec![ColumnId { id: 4 }]);
    assert_eq!(single.rows, vec![RowId { id: 5 }]);
}

#[test]
fn order_keys() {
    let lt = |a: &str, b: &str| order_lt(&a.to_string(), &b.to_string());
    assert!(lt("a", "b"));
    assert!(!lt("b", "a"));
    assert!(!lt("a", "a"));
    assert!(lt("", "a"));
    assert!(!lt("a", ""));
    assert!(lt("n", "nn"));
    assert!(lt("nan", "nn"));
    assert!(lt("Z", "a"));
    assert!(starts_with(&"abc".to_string(), &"ab".to_string()));
    assert!(starts_with(&"abc".to_string(), &"".to_string()));
    assert!(!starts_with(&"ab".to_string(), &"abc".to_string()));
    assert!(!starts_with(&"abc".to_string(), &"ac".to_string()));

    assert_eq!(first_key(), "n");
    assert_eq!(key_after(&"n".to_string()), "nn");
    let between = |a: &str, b: &str| key_between(&a.to_string(), &b.to_string());
    assert_eq!(between("b", "d"), Some("bn".to_string()));
    assert_eq!(between("n", "nn"), Some("nan".to_string()));
    assert_eq!(between("n", "nan"), Some("naan".to_string()));
    assert_eq!(between("", "n"), Some("an".to_string()));
    assert_eq!(between("n", "n"), None);
    assert_eq!(between("n", "na"), None);
    for (a, b) in [("b", "d"), ("n", "nn"), ("n", "nan"), ("", "n"), ("x", "xaab")] {
        let k = between(a, b).unwrap();
        assert!(lt(a, &k), "{a} < {k}");
        assert!(lt(&k, b), "{k} < {b}");
    }
}

#[test]
fn sheet_cells_and_bounds() {
    let s = SheetId { id: 1 };
    let mut sheet = Sheet::new(s, "One".to_string(), "n".to_string());
    assert_eq!(sheet.bounds(), GridBounds::Empty);
    assert_eq!(sheet.get_cell_value(Pos { x: 0, y: 0 }), None);
    assert_eq!(sheet.set_cell_value(Pos { x: 2, y: 3 }, text("a")), CellValue::Blank);
    assert_eq!(sheet.set_cell_value(Pos { x: 2, y: 3 }, text("b")), text("a"));
    assert_eq!(sheet.get_cell_value(Pos { x: 2, y: 3 }), Some(&text("b")));
    assert_eq!(sheet.bounds(), GridBounds::NonEmpty(Rect::single_pos(Pos { x: 2, y: 3 })));
    sheet.set_cell_value(Pos { x: -1, y: 8 }, text("c"));
    assert_eq!(
        sheet.bounds(),
        GridBounds::NonEmpty(Rect { min: Pos { x: -1, y: 3 }, max: Pos { x: 2, y: 8 } })
    );
    assert!(sheet.has_column(2));
    assert!(!sheet.has_column(0));
    assert!(sheet.has_row(8));
    assert!(!sheet.has_row(4));
    // writing a blank clears the cell
    assert_eq!(sheet.set_cell_value(Pos { x: 2, y: 3 }, CellValue::Blank), text("b"));
    assert_eq!(sheet.get_cell_value(Pos { x: 2, y: 3 }), None);
    assert_eq!(sheet.bounds(), GridBounds::NonEmpty(Rect::single_pos(Pos { x: -1, y: 8 })));
    assert_eq!(sheet.set_cell_value(Pos { x: 5, y: 5 }, CellValue::Blank), CellValue::Blank);
    assert_eq!(sheet.cell_entries(), vec![(Pos { x: -1, y: 8 }, text("c"))]);
    sheet.recalculate_bounds();
    assert_eq!(sheet.bounds(), GridBounds::NonEmpty(Rect::single_pos(Pos { x: -1, y: 8 })));

    let r = sheet.cell_ref(Pos { x: 4, y: 5 });
    assert_eq!(sheet.cell_ref_to_pos(r), Some(Pos { x: 4, y: 5 }));
    let foreign = DurableRef { sheet: SheetId { id: 2 }, column: ColumnId { id: 4 }, row: RowId { id: 5 } };
    assert_eq!(sheet.cell_ref_to_pos(foreign), None);

    assert_eq!(sheet.set_name("Two".to_string()), "One");
    assert_eq!(sheet.set_color(Some("red".to_string())), None);
    assert_eq!(sheet.set_order("nn".to_string()), "n");
    assert_eq!(sheet.duplicate(), sheet);
}

fn code_cell(result: Option<CodeCellRunResult>) -> CodeCellValue {
    CodeCellValue {
        language: CodeCellLanguage::Python,
        code_string: "1 + 1".to_string(),
        formatted_code_string: None,
        last_modified: "2023-10-01".to_string(),
        output: result.map(|result| CodeCellRunOutput { std_out: None, std_err: None, result }),
    }
}

#[test]
fn code_cell_outputs() {
    let never_ran = code_cell(None);
    assert_eq!(never_ran.get_output_value(0, 0), None);
    assert_eq!(never_ran.output_size(), ArraySize { w: 1, h: 1 });

    let failed = code_cell(Some(CodeCellRunResult::Failure { error: FormulaError::CircularReference }));
    assert!(!failed.output.as_ref().unwrap().result.is_ok());
    assert_eq!(failed.output.as_ref().unwrap().output_value(), None);
    assert_eq!(failed.get_output_value(0, 0), None);
    assert_eq!(failed.output_size(), ArraySize { w: 1, h: 1 });

    let single = code_cell(Some(CodeCellRunResult::Success {
        output_value: Value::Single(number(2)),
        cells_accessed: vec![],
    }));
    assert!(single.output.as_ref().unwrap().result.is_ok());
    assert_eq!(single.output.as_ref().unwrap().output_value(), Some(&Value::Single(number(2))));
    assert_eq!(
        single.get_output_value(0, 0),
        Some(CellValue::Number(Decimal { unscaled: 2, scale: 0 }))
    );
    assert_eq!(single.output_size(), ArraySize { w: 1, h: 1 });

    let array = OutputArray::from_row_major(
        ArraySize { w: 2, h: 2 },
        vec![number(1), number(2), number(3), number(4)],
    )
    .unwrap();
    let many = code_cell(Some(CodeCellRunResult::Success {
        output_value: Value::Array(array),
        cells_accessed: vec![],
    }));
    assert_eq!(many.output_size(), ArraySize { w: 2, h: 2 });
    assert_eq!(
        many.get_output_value(1, 0),
        Some(CellValue::Number(Decimal { unscaled: 2, scale: 0 }))
    );
    assert_eq!(
        many.get_output_value(0, 1),
        Some(CellValue::Number(Decimal { unscaled: 3, scale: 0 }))
    );
    assert_eq!(many.get_output_value(2, 0), None);
    assert_eq!(many.duplicate(), many);
    assert!(OutputArray::from_row_major(ArraySize { w: 2, h: 2 }, vec![number(1)]).is_none());
}

#[test]
fn references_and_circularity() {
    let here = Pos { x: 3, y: 4 };
    let up = CellRef { x: CellRefCoord::Relative(0), y: CellRefCoord::Relative(-1) };
    assert_eq!(referenced_cell(up, here), Ok(Pos { x: 3, y: 3 }));
    let fixed = CellRef { x: CellRefCoord::Absolute(0), y: CellRefCoord::Absolute(0) };
    assert_eq!(referenced_cell(fixed, here), Ok(Pos { x: 0, y: 0 }));
    let itself = CellRef { x: CellRefCoord::Relative(0), y: CellRefCoord::Absolute(4) };
    assert_eq!(referenced_cell(itself, here), Err(FormulaError::CircularReference));
    assert_eq!(CellRefCoord::Relative(1).checked_resolve(i64::MAX), None);
    assert_eq!(CellRefCoord::Relative(-1).checked_resolve(i64::MAX), Some(i64::MAX - 1));
    assert_eq!(CellRefCoord::Absolute(9).checked_resolve(i64::MAX), Some(9));
}

fn row(values: &[i64]) -> Value {
    Value::Array(
        OutputArray::from_row_major(
            ArraySize { w: values.len() as u32, h: 1 },
            values.iter().map(|n| number(*n)).collect(),
        )
        .unwrap(),
    )
}

fn column(values: &[i64]) -> Value {
    Value::Array(
        OutputArray::from_row_major(
            ArraySize { w: 1, h: values.len() as u32 },
            values.iter().map(|n| number(*n)).collect(),
        )
        .unwrap(),
    )
}

fn sum(args: &Vec<&BasicValue>) -> Result<BasicValue, FormulaError> {
    let mut total = 0;
    for a in args {
        match a {
            BasicValue::Number(d) => total += d.unscaled,
            _ => return Err(FormulaError::Evaluation("not a number".to_string())),
        }
    }
    Ok(number(total))
}

#[test]
fn zip_map_expands_arrays() {
    // {1,2,3} + {10,20,30}
    let r = zip_map(&vec![row(&[1, 2, 3]), row(&[10, 20, 30])], sum).unwrap();
    assert_eq!(r, row(&[11, 22, 33]));
    // a single value is expanded
    let r = zip_map(&vec![row(&[1, 2, 3]), Value::Single(number(100))], sum).unwrap();
    assert_eq!(r, row(&[101, 102, 103]));
    // a row and a column are both expanded
    let r = zip_map(&vec![row(&[1, 2, 3]), column(&[10, 20, 30])], sum).unwrap();
    let want = Value::Array(
        OutputArray::from_row_major(
            ArraySize { w: 3, h: 3 },
            [11, 12, 13, 21, 22, 23, 31, 32, 33].iter().map(|n| number(*n)).collect(),
        )
        .unwrap(),
    );
    assert_eq!(r, want);
    // a single result is no array
    let r = zip_map(&vec![Value::Single(number(1)), row(&[2])], sum).unwrap();
    assert_eq!(r, Value::Single(number(3)));
    assert_eq!(zip_map(&vec![], sum), Ok(Value::Single(number(0))));
    // arrays that cannot be expanded to one size
    assert_eq!(
        zip_map(&vec![row(&[1, 2, 3]), row(&[1, 2])], sum),
        Err(FormulaError::ArrayAxisMismatch { axis: Axis::X, expected: 3, got: 2 })
    );
    assert_eq!(
        common_array_size(&vec![column(&[1, 2]), column(&[1, 2, 3])]),
        Err(FormulaError::ArrayAxisMismatch { axis: Axis::Y, expected: 2, got: 3 })
    );
    assert_eq!(
        common_array_size(&vec![row(&[1, 2, 3]), column(&[1, 2])]),
        Ok(ArraySize { w: 3, h: 2 })
    );
    // the error of the function comes out
    let r = zip_map(&vec![row(&[1, 2]), Value::Single(BasicValue::Blank)], sum);
    assert_eq!(r, Err(FormulaError::Evaluation("not a number".to_string())));
    let values = vec![row(&[1, 2, 3]), column(&[10, 20])];
    assert_eq!(args_at(&values, 2, 1), vec![&number(3), &number(20)]);
    assert_eq!(get_expanded(&values[0], 2, 7), Some(&number(3)));
    assert_eq!(get_expanded(&values[0], 3, 0), None);
}

#[test]
fn formulas_read_plain_values() {
    assert_eq!(text("a").into_basic_value(), BasicValue::Text("a".to_string()));
    assert_eq!(CellValue::Blank.into_basic_value(), BasicValue::Blank);
    assert_eq!(CellValue::Logical(true).into_basic_value(), BasicValue::Logical(true));
    assert_eq!(number(3).into_cell_value(), CellValue::Number(Decimal { unscaled: 3, scale: 0 }));
    // a code cell reads as what its output shows in the cell
    assert_eq!(CellValue::Code(code_cell(None)).into_basic_value(), BasicValue::Blank);
    let single = code_cell(Some(CodeCellRunResult::Success {
        output_value: Value::Single(number(2)),
        cells_accessed: vec![],
    }));
    assert_eq!(CellValue::Code(single).into_basic_value(), number(2));
    let many = code_cell(Some(CodeCellRunResult::Success {
        output_value: row(&[7, 8, 9]),
        cells_accessed: vec![],
    }));
    assert_eq!(many.first_output(), number(7));
    assert_eq!(CellValue::Code(many).into_basic_value(), number(7));
    let failed = code_cell(Some(CodeCellRunResult::Failure {
        error: FormulaError::Evaluation("boom".to_string()),
    }));
    assert_eq!(CellValue::Code(failed).into_basic_value(), BasicValue::Blank);
}

#[test]
fn grid_without_sheets_and_bounds_of_a_sheet() {
    let empty = Grid::empty();
    assert_eq!(empty.len(), 0);
    assert_eq!(empty.sheet_ids(), vec![]);
    assert_eq!(empty.first_sheet_id(), None);
    assert_eq!(empty.end_order(), "n");

    let s = SheetId { id: 1 };
    let mut grid = Grid::with_first_sheet(s);
    grid.set_cell_value_at(0, Pos { x: 4, y: -2 }, text("a"));
    grid.set_cell_value_at(0, Pos { x: 1, y: 9 }, text("b"));
    let fresh = GridBounds::NonEmpty(Rect { min: Pos { x: 1, y: -2 }, max: Pos { x: 4, y: 9 } });
    grid.recalculate_bounds_at(0);
    assert_eq!(grid.sheets()[0].bounds(), fresh);
    grid.set_cell_value_at(0, Pos { x: 4, y: -2 }, CellValue::Blank);
    grid.recalculate_bounds_at(0);
    assert_eq!(
        grid.sheets()[0].bounds(),
        GridBounds::NonEmpty(Rect::single_pos(Pos { x: 1, y: 9 }))
    );
    grid.set_cell_value_at(0, Pos { x: 1, y: 9 }, CellValue::Blank);
    grid.recalculate_bounds_at(0);
    assert_eq!(grid.sheets()[0].bounds(), GridBounds::Empty);
}
