use quadratic_core::controller::engine::GridController;
use quadratic_core::grid::Grid;
use quadratic_core::ids::{SheetId, TransactionId};
use quadratic_core::operation::Operation;
use quadratic_core::position::{Pos, Rect};
use quadratic_core::sheet::GridBounds;
use quadratic_core::values::{Array, ArraySize, CellValue};

fn text(s: &str) -> CellValue {
    CellValue::Text(s.to_string())
}

fn get_the_cell(g: &GridController, sheet_id: SheetId, pos: Pos) -> CellValue {
    g.sheet(sheet_id).get_cell_value(pos).cloned().unwrap_or(CellValue::Blank)
}

#[test]
fn test_set_cell_undo_redo() {
    let mut g = GridController::new();
    let sheet_id = g.grid().sheets()[0].id();
    let pos = Pos { x: 3, y: 6 };
    let expected_regions = vec![(sheet_id, Rect::single_pos(pos))];

    assert_eq!(get_the_cell(&g, sheet_id, pos), CellValue::Blank);
    g.set_cell_value(sheet_id, pos, text("a"), None);
    assert_eq!(get_the_cell(&g, sheet_id, pos), text("a"));
    g.set_cell_value(sheet_id, pos, text("b"), None);
    assert_eq!(get_the_cell(&g, sheet_id, pos), text("b"));
    assert!(g.undo(None).unwrap().cell_regions_modified == expected_regions);
    assert_eq!(get_the_cell(&g, sheet_id, pos), text("a"));
    assert!(g.redo(None).unwrap().cell_regions_modified == expected_regions);
    assert_eq!(get_the_cell(&g, sheet_id, pos), text("b"));
    assert!(g.undo(None).unwrap().cell_regions_modified == expected_regions);
    assert_eq!(get_the_cell(&g, sheet_id, pos), text("a"));
    assert!(g.undo(None).unwrap().cell_regions_modified == expected_regions);
    assert_eq!(get_the_cell(&g, sheet_id, pos), CellValue::Blank);
    assert!(g.undo(None).is_none());
    assert_eq!(get_the_cell(&g, sheet_id, pos), CellValue::Blank);
    assert!(g.redo(None).unwrap().cell_regions_modified == expected_regions);
    assert_eq!(get_the_cell(&g, sheet_id, pos), text("a"));
    assert!(g.redo(None).unwrap().cell_regions_modified == expected_regions);
    assert_eq!(get_the_cell(&g, sheet_id, pos), text("b"));
    assert!(g.redo(None).is_none());
    assert_eq!(get_the_cell(&g, sheet_id, pos), text("b"));
}

fn check_reorder(
    g: &mut GridController,
    a: SheetId,
    b: Option<SheetId>,
    expected: [SheetId; 3],
    old_sheet_ids: &Vec<SheetId>,
) {
    g.move_sheet(a, b, None);
    assert_eq!(expected.to_vec(), g.sheet_ids());
    g.undo(None);
    assert_eq!(*old_sheet_ids, g.sheet_ids());
}

fn check_delete(
    g: &mut GridController,
    a: SheetId,
    expected: [SheetId; 2],
    old_sheet_ids: &Vec<SheetId>,
) {
    g.delete_sheet(a, None);
    assert_eq!(expected.to_vec(), g.sheet_ids());
    g.undo(None);
    assert_eq!(*old_sheet_ids, g.sheet_ids());
}

fn add_delete_reorder_sheets() {
    let mut g = GridController::new();
    g.add_sheet(None);
    g.add_sheet(None);
    let old_sheet_ids = g.sheet_ids();
    let s1 = old_sheet_ids[0];
    let s2 = old_sheet_ids[1];
    let s3 = old_sheet_ids[2];

    check_reorder(&mut g, s1, Some(s2), [s1, s2, s3], &old_sheet_ids);
    check_reorder(&mut g, s1, Some(s3), [s2, s1, s3], &old_sheet_ids);
    check_reorder(&mut g, s1, None, [s2, s3, s1], &old_sheet_ids);
    check_reorder(&mut g, s2, Some(s1), [s2, s1, s3], &old_sheet_ids);
    check_reorder(&mut g, s2, Some(s3), [s1, s2, s3], &old_sheet_ids);
    check_reorder(&mut g, s2, None, [s1, s3, s2], &old_sheet_ids);
    check_reorder(&mut g, s3, Some(s1), [s3, s1, s2], &old_sheet_ids);
    check_reorder(&mut g, s3, Some(s2), [s1, s3, s2], &old_sheet_ids);
    check_reorder(&mut g, s3, None, [s1, s2, s3], &old_sheet_ids);

    check_delete(&mut g, s1, [s2, s3], &old_sheet_ids);
    check_delete(&mut g, s2, [s1, s3], &old_sheet_ids);
    check_delete(&mut g, s3, [s1, s2], &old_sheet_ids);
}

#[test]
fn controller_test_add_delete_reorder_sheets() {
    add_delete_reorder_sheets();
}

#[test]
fn sheets_test_add_delete_reorder_sheets() {
    add_delete_reorder_sheets();
}

fn duplicate_sheet() {
    let mut g = GridController::new();
    let old_sheet_ids = g.sheet_ids();
    let s1 = old_sheet_ids[0];

    g.set_sheet_name(s1, String::from("Nice Name"), None);
    g.duplicate_sheet(s1, None);
    let sheet_ids = g.sheet_ids();
    let s2 = sheet_ids[1];

    let sheet1 = g.sheet(s1);
    let sheet2 = g.sheet(s2);

    assert_eq!(*sheet2.name(), format!("{} Copy", sheet1.name()));
}

#[test]
fn controller_test_duplicate_sheet() {
    duplicate_sheet();
}

#[test]
fn sheets_test_duplicate_sheet() {
    duplicate_sheet();
}

#[test]
fn test_delete_last_sheet() {
    let mut g = GridController::new();
    let sheet_ids = g.sheet_ids();
    let first_sheet_id = sheet_ids[0];

    g.delete_sheet(first_sheet_id, None);
    let new_sheet_ids = g.sheet_ids();
    assert_eq!(new_sheet_ids.len(), 1);
    assert_ne!(new_sheet_ids[0], sheet_ids[0]);

    g.undo(None);
    let new_sheet_ids_2 = g.sheet_ids();
    assert_eq!(sheet_ids[0], new_sheet_ids_2[0]);

    g.redo(None);
    let new_sheet_ids_3 = g.sheet_ids();
    assert_eq!(new_sheet_ids[0], new_sheet_ids_3[0]);
}

#[test]
fn test_add_sheet() {
    let mut gc = GridController::new();
    let summary = gc.add_sheet(None);
    assert_eq!(gc.grid().sheets().len(), 2);
    assert!(summary.save);
    assert!(summary.sheet_list_modified);
    gc.undo(None);
    assert_eq!(gc.grid().sheets().len(), 1);
    assert!(summary.save);
    assert!(summary.sheet_list_modified);
}

#[test]
fn test_delete_sheet() {
    let mut gc = GridController::new();
    let sheet_id = gc.sheet_ids()[0];
    let summary = gc.delete_sheet(sheet_id, None);
    assert_eq!(gc.grid().sheets().len(), 1);
    assert!(summary.save);
    assert!(summary.sheet_list_modified);
    gc.undo(None);
    assert_eq!(gc.grid().sheets().len(), 1);
    assert_eq!(gc.grid().sheets()[0].id(), sheet_id);
    assert!(summary.save);
    assert!(summary.sheet_list_modified);
}

#[test]
fn test_execute_operation_set_sheet_name() {
    let mut gc = GridController::new();
    let sheet_id = gc.sheet_ids()[0];
    let name = "new name".to_string();
    let summary = gc.set_sheet_name(sheet_id, name.clone(), None);
    assert_eq!(*gc.grid().sheets()[0].name(), name);
    assert!(summary.save);
    assert!(summary.sheet_list_modified);
    gc.undo(None);
    assert_eq!(*gc.grid().sheets()[0].name(), "Sheet 1".to_string());
    assert!(summary.save);
    assert!(summary.sheet_list_modified);
}

#[test]
fn test_set_sheet_color() {
    let mut gc = GridController::new();
    let sheet_id = gc.sheet_ids()[0];
    let color = Some("red".to_string());
    let summary = gc.set_sheet_color(sheet_id, color.clone(), None);
    assert_eq!(*gc.grid().sheets()[0].color(), color);
    assert!(summary.save);
    assert!(summary.sheet_list_modified);
    gc.undo(None);
    assert_eq!(*gc.grid().sheets()[0].color(), None);
    assert!(summary.save);
    assert!(summary.sheet_list_modified);
}

#[test]
fn test_sheet_reorder() {
    let mut gc = GridController::new();
    let sheet_id = gc.sheet_ids()[0];
    gc.add_sheet(None);
    assert_eq!(gc.grid().sheets().len(), 2);
    let sheet_id2 = gc.sheet_ids()[1];
    let summary = gc.move_sheet(sheet_id, None, None);
    assert_eq!(gc.grid().sheets()[0].id(), sheet_id2);
    assert_eq!(gc.grid().sheets()[1].id(), sheet_id);
    assert!(summary.save);
    assert!(summary.sheet_list_modified);
    gc.undo(None);
    assert_eq!(gc.grid().sheets()[0].id(), sheet_id);
    assert_eq!(gc.grid().sheets()[1].id(), sheet_id2);
    assert!(summary.save);
    assert!(summary.sheet_list_modified);
    let summary = gc.move_sheet(sheet_id2, Some(sheet_id), None);
    assert_eq!(gc.grid().sheets()[0].id(), sheet_id2);
    assert_eq!(gc.grid().sheets()[1].id(), sheet_id);
    assert!(summary.save);
    assert!(summary.sheet_list_modified);
    gc.undo(None);
    assert_eq!(gc.grid().sheets()[0].id(), sheet_id);
    assert_eq!(gc.grid().sheets()[1].id(), sheet_id2);
    assert!(summary.save);
    assert!(summary.sheet_list_modified);
}

#[test]
fn set_then_undo_twice_then_redo_twice() {
    let mut g = GridController::from_grid(Grid::with_first_sheet(SheetId { id: 7 }));
    let s = SheetId { id: 7 };
    let pos = Pos { x: 3, y: 6 };
    g.set_cell_value(s, pos, text("a"), None);
    g.set_cell_value(s, pos, text("b"), None);
    assert_eq!(get_the_cell(&g, s, pos), text("b"));
    assert!(g.undo(None).is_some());
    assert!(g.undo(None).is_some());
    assert_eq!(get_the_cell(&g, s, pos), CellValue::Blank);
    assert!(g.undo(None).is_none());
    assert!(g.redo(None).is_some());
    assert!(g.redo(None).is_some());
    assert_eq!(get_the_cell(&g, s, pos), text("b"));
    assert!(g.redo(None).is_none());
}

#[test]
fn reorder_and_undo_for_each_target() {
    let cases: [(usize, Option<usize>, [usize; 3]); 4] = [
        (0, Some(1), [0, 1, 2]),
        (0, Some(2), [1, 0, 2]),
        (0, None, [1, 2, 0]),
        (2, Some(0), [2, 0, 1]),
    ];
    for (target, to_before, expected) in cases {
        let mut g = GridController::new();
        g.add_sheet(None);
        g.add_sheet(None);
        let ids = g.sheet_ids();
        g.move_sheet(ids[target], to_before.map(|i| ids[i]), None);
        let want: Vec<SheetId> = expected.iter().map(|i| ids[*i]).collect();
        assert_eq!(g.sheet_ids(), want);
        g.undo(None);
        assert_eq!(g.sheet_ids(), ids);
    }
}

#[test]
fn user_transaction_is_exact_under_given_ids() {
    let s = SheetId { id: 1 };
    let mut g = GridController::from_grid(Grid::with_first_sheet(s));
    let ops = g.set_cell_value_operations(s, Pos { x: 0, y: 0 }, text("x"));
    let id = TransactionId { id: 99 };
    let summary = g.transact_forward(ops.clone(), SheetId { id: 2 }, id, Some("cursor".to_string()));
    assert!(summary.save);
    assert_eq!(summary.transaction_id, Some(id));
    assert_eq!(summary.operations, Some(ops));
    assert_eq!(summary.cursor, None);
    assert_eq!(summary.generate_thumbnail, true);
    assert!(!summary.sheet_list_modified);
    assert!(g.has_undo());
    assert!(!g.has_redo());
    assert_eq!(g.unsaved_len(), 1);
    // the undo hands out the cursor of the transaction it consumed
    let undone = g.undo_as(TransactionId { id: 100 }, Some("later".to_string())).unwrap();
    assert_eq!(undone.cursor, Some("cursor".to_string()));
    assert_eq!(undone.transaction_id, Some(TransactionId { id: 100 }));
    assert!(g.has_redo());
    assert_eq!(g.unsaved_len(), 2);
    let redone = g.redo_as(TransactionId { id: 101 }, None).unwrap();
    assert_eq!(redone.cursor, Some("later".to_string()));
}

#[test]
fn user_action_clears_redo_even_when_it_changes_nothing() {
    let s = SheetId { id: 1 };
    let mut g = GridController::from_grid(Grid::with_first_sheet(s));
    g.set_cell_value(s, Pos { x: 0, y: 0 }, text("x"), None);
    g.undo(None);
    assert!(g.has_redo());
    // no such sheet: the transaction cannot be applied
    let summary = g.set_cell_value(SheetId { id: 5 }, Pos { x: 0, y: 0 }, text("y"), None);
    assert!(!summary.save);
    assert_eq!(summary.transaction_id, None);
    assert!(!g.has_redo());
    assert!(!g.has_undo());
}

#[test]
fn failing_transaction_is_unwound() {
    let s = SheetId { id: 1 };
    let mut g = GridController::from_grid(Grid::with_first_sheet(s));
    let before = g.grid().clone();
    let mut ops = g.set_cell_value_operations(s, Pos { x: 1, y: 1 }, text("x"));
    ops.extend(g.set_sheet_name_operations(s, "Renamed".to_string()));
    // the third operation names a sheet that is not there
    ops.extend(g.set_sheet_name_operations(SheetId { id: 9 }, "Other".to_string()));
    let summary = g.transact_forward(ops, SheetId { id: 2 }, TransactionId { id: 3 }, None);
    assert_eq!(*g.grid(), before);
    assert!(!summary.save);
    assert!(summary.cell_regions_modified.is_empty());
    assert!(!g.has_undo());
    assert_eq!(g.unsaved_len(), 0);
}

#[test]
fn duplicate_name_is_refused() {
    let s = SheetId { id: 1 };
    let mut g = GridController::from_grid(Grid::with_first_sheet(s));
    g.add_sheet(None);
    let ids = g.sheet_ids();
    assert_eq!(*g.sheet(ids[1]).name(), "Sheet 2".to_string());
    let summary = g.set_sheet_name(ids[1], "Sheet 1".to_string(), None);
    assert!(!summary.save);
    assert_eq!(*g.sheet(ids[1]).name(), "Sheet 2".to_string());
    // a sheet may be given the name it has
    let summary = g.set_sheet_name(ids[1], "Sheet 2".to_string(), None);
    assert!(summary.save);
    // duplicating twice would give the same name twice: the second is refused
    g.duplicate_sheet(ids[0], None);
    assert_eq!(g.sheet_ids().len(), 3);
    g.duplicate_sheet(ids[0], None);
    assert_eq!(g.sheet_ids().len(), 3);
    let names: Vec<String> = g.grid().sheets().iter().map(|s| s.name().clone()).collect();
    for i in 0..names.len() {
        for j in 0..names.len() {
            if i != j {
                assert_ne!(names[i], names[j]);
            }
        }
    }
}

#[test]
fn set_cells_and_delete_cell_values() {
    let s = SheetId { id: 1 };
    let mut g = GridController::from_grid(Grid::with_first_sheet(s));
    let values = Array::from_row_major(
        ArraySize::new(2, 2).unwrap(),
        vec![text("a"), text("b"), text("c"), text("d")],
    )
    .unwrap();
    let summary = g.set_cells(s, Pos { x: 10, y: 20 }, values, None);
    assert_eq!(
        summary.cell_regions_modified,
        vec![(s, Rect { min: Pos { x: 10, y: 20 }, max: Pos { x: 11, y: 21 } })]
    );
    assert_eq!(get_the_cell(&g, s, Pos { x: 10, y: 20 }), text("a"));
    assert_eq!(get_the_cell(&g, s, Pos { x: 11, y: 20 }), text("b"));
    assert_eq!(get_the_cell(&g, s, Pos { x: 10, y: 21 }), text("c"));
    assert_eq!(get_the_cell(&g, s, Pos { x: 11, y: 21 }), text("d"));
    assert_eq!(
        g.sheet(s).bounds(),
        GridBounds::NonEmpty(Rect { min: Pos { x: 10, y: 20 }, max: Pos { x: 11, y: 21 } })
    );

    // only the columns and rows that hold a value are named
    let region = g.existing_region(s, Rect { min: Pos { x: 0, y: 0 }, max: Pos { x: 10, y: 30 } });
    assert_eq!(region.columns.len(), 1);
    assert_eq!(region.rows.len(), 2);
    assert_eq!(region.size(), ArraySize::new(1, 2));

    g.delete_cell_values(s, Rect { min: Pos { x: 0, y: 0 }, max: Pos { x: 10, y: 30 } }, None);
    assert_eq!(get_the_cell(&g, s, Pos { x: 10, y: 20 }), CellValue::Blank);
    assert_eq!(get_the_cell(&g, s, Pos { x: 10, y: 21 }), CellValue::Blank);
    assert_eq!(get_the_cell(&g, s, Pos { x: 11, y: 20 }), text("b"));
    assert_eq!(
        g.sheet(s).bounds(),
        GridBounds::NonEmpty(Rect { min: Pos { x: 11, y: 20 }, max: Pos { x: 11, y: 21 } })
    );
    g.undo(None);
    assert_eq!(get_the_cell(&g, s, Pos { x: 10, y: 20 }), text("a"));
    assert_eq!(get_the_cell(&g, s, Pos { x: 10, y: 21 }), text("c"));

    // deleting where nothing is changes nothing and keeps nothing to undo
    let mut h = GridController::from_grid(Grid::with_first_sheet(s));
    let summary = h.delete_cell_values(s, Rect::single_pos(Pos { x: 0, y: 0 }), None);
    assert!(!summary.save);
    assert!(!h.has_undo());
}

#[test]
fn inverse_of_a_transaction_restores_the_grid() {
    let s = SheetId { id: 1 };
    let mut g = GridController::from_grid(Grid::with_first_sheet(s));
    g.set_cell_value(s, Pos { x: 0, y: 0 }, text("kept"), None);
    let before = g.grid().clone();
    let mut ops: Vec<Operation> = Vec::new();
    ops.extend(g.set_cell_value_operations(s, Pos { x: 0, y: 0 }, text("new")));
    ops.extend(g.set_cell_value_operations(s, Pos { x: 5, y: 5 }, text("more")));
    ops.extend(g.set_sheet_name_operations(s, "Named".to_string()));
    ops.extend(g.set_sheet_color_operations(s, Some("blue".to_string())));
    ops.extend(g.add_sheet_operations(SheetId { id: 2 }));
    ops.extend(g.delete_sheet_operations(s));
    g.transact_forward(ops, SheetId { id: 3 }, TransactionId { id: 4 }, None);
    assert_eq!(g.sheet_ids(), vec![SheetId { id: 2 }]);
    g.undo(None);
    assert_eq!(*g.grid(), before);
    g.redo(None);
    assert_eq!(g.sheet_ids(), vec![SheetId { id: 2 }]);
    g.undo(None);
    assert_eq!(*g.grid(), before);
}

#[test]
fn added_sheets_get_the_next_free_name() {
    let s = SheetId { id: 1 };
    let mut g = GridController::from_grid(Grid::with_first_sheet(s));
    g.add_sheet(None);
    g.add_sheet(None);
    let names: Vec<String> = g.grid().sheets().iter().map(|s| s.name().clone()).collect();
    assert_eq!(names, vec!["Sheet 1", "Sheet 2", "Sheet 3"]);
    let ids = g.sheet_ids();
    g.set_sheet_name(ids[0], "Sheet 4".to_string(), None);
    g.add_sheet(None);
    let names: Vec<String> = g.grid().sheets().iter().map(|s| s.name().clone()).collect();
    assert_eq!(names, vec!["Sheet 4", "Sheet 2", "Sheet 3", "Sheet 5"]);
    // the sheets stand in the order of their keys
    let orders: Vec<String> = g.grid().sheets().iter().map(|s| s.order().clone()).collect();
    assert_eq!(orders, vec!["n", "nn", "nnn", "nnnn"]);
    assert_eq!(g.grid().end_order(), "nnnnn");
    assert_eq!(g.grid().first_sheet_id(), Some(ids[0]));
    assert_eq!(g.grid().sheet_id_to_index(ids[2]), Some(2));
    assert_eq!(g.grid().sheet_id_to_index(SheetId { id: 99 }), None);
}

#[test]
fn moving_the_first_sheet_asks_for_a_thumbnail() {
    let mut g = GridController::new();
    g.add_sheet(None);
    let ids = g.sheet_ids();
    let summary = g.move_sheet(ids[0], None, None);
    assert!(summary.generate_thumbnail);
    assert!(summary.sheet_list_modified);
    // moving in front of a sheet that is not there changes nothing
    let summary = g.move_sheet(ids[0], Some(SheetId { id: 99 }), None);
    assert!(!summary.save);
    assert_eq!(g.sheet_ids(), vec![ids[1], ids[0]]);
    // moving the last sheet behind all keeps the first one
    let summary = g.move_sheet(ids[0], None, None);
    assert!(!summary.generate_thumbnail);
    assert!(summary.save);
}
