use quadratic_core::controller::engine::GridController;
use quadratic_core::grid::Grid;
use quadratic_core::ids::{SheetId, TransactionId};
use quadratic_core::operation::{Operation, Transaction};
use quadratic_core::position::Pos;
use quadratic_core::values::CellValue;

fn text(s: &str) -> CellValue {
    CellValue::Text(s.to_string())
}

/// A controller whose first sheet has the given id.
fn controller_with_sheet(sheet_id: SheetId) -> GridController {
    GridController::from_grid(Grid::with_first_sheet(sheet_id))
}

fn cell(g: &GridController, sheet_id: SheetId, x: i64, y: i64) -> Option<CellValue> {
    g.try_sheet_from_id(sheet_id).unwrap().get_cell_value(Pos { x, y }).cloned()
}

#[test]
fn test_multiplayer_hello_world() {
    let mut gc1 = GridController::new();
    let sheet_id = gc1.sheet_ids()[0];
    let summary = gc1.set_cell_value(sheet_id, Pos { x: 0, y: 0 }, text("Hello World"), None);
    assert_eq!(cell(&gc1, sheet_id, 0, 0), Some(text("Hello World")));

    let transaction_id = summary.transaction_id.unwrap();
    let operations: Vec<Operation> = summary.operations.unwrap();

    // received our own transaction back
    gc1.received_transaction(transaction_id, 1, operations.clone());

    assert_eq!(cell(&gc1, sheet_id, 0, 0), Some(text("Hello World")));
    assert_eq!(gc1.unsaved_len(), 0);

    let mut gc2 = controller_with_sheet(sheet_id);
    gc2.received_transaction(transaction_id, 1, operations);
    assert_eq!(cell(&gc2, sheet_id, 0, 0), Some(text("Hello World")));
}

#[test]
fn test_apply_multiplayer_before_unsaved_transaction() {
    let mut gc1 = GridController::new();
    let sheet_id = gc1.sheet_ids()[0];
    gc1.set_cell_value(sheet_id, Pos { x: 0, y: 0 }, text("Hello World from 1"), None);
    assert_eq!(cell(&gc1, sheet_id, 0, 0), Some(text("Hello World from 1")));

    // gc2's first sheet has the id of gc1's first sheet
    let mut gc2 = controller_with_sheet(sheet_id);
    let summary = gc2.set_cell_value(sheet_id, Pos { x: 0, y: 0 }, text("Hello World from 2"), None);
    assert_eq!(cell(&gc2, sheet_id, 0, 0), Some(text("Hello World from 2")));

    let transaction_id = summary.transaction_id.unwrap();
    let operations = summary.operations.unwrap();

    // gc1 should apply gc2's cell value to 0,0 before its unsaved transaction
    // and then reapply its unsaved transaction, overwriting 0,0
    gc1.received_transaction(transaction_id, 1, operations);
    assert_eq!(cell(&gc1, sheet_id, 0, 0), Some(text("Hello World from 1")));
}

#[test]
fn test_server_apply_transaction() {
    let mut client = GridController::new();
    let sheet_id = client.sheet_ids()[0];
    let summary = client.set_cell_value(sheet_id, Pos { x: 0, y: 0 }, text("Hello World"), None);
    assert_eq!(cell(&client, sheet_id, 0, 0), Some(text("Hello World")));
    let operations: Vec<Operation> = summary.operations.unwrap();

    let mut server = controller_with_sheet(sheet_id);
    server.server_apply_transaction(operations);
    assert_eq!(cell(&server, sheet_id, 0, 0), Some(text("Hello World")));
}

#[test]
fn test_handle_receipt_of_earlier_transactions() {
    // client is where the multiplayer transactions are applied from other
    let mut client = GridController::new();
    let sheet_id = client.sheet_ids()[0];
    client.set_cell_value(sheet_id, Pos { x: 0, y: 0 }, text("Client unsaved value"), None);

    // other is where the transaction are created
    let mut other = controller_with_sheet(sheet_id);
    let other_summary = other.set_cell_value(sheet_id, Pos { x: 0, y: 0 }, text("Other value"), None);
    let other_operations: Vec<Operation> = other_summary.operations.unwrap();

    let summary = client.received_transaction(TransactionId::new(), 1, other_operations);

    // we should generate the thumbnail as we overwrite the unsaved value again
    assert_eq!(summary.generate_thumbnail, true);

    // we should still have out unsaved transaction
    assert_eq!(client.unsaved_len(), 1);

    // our unsaved value overwrites the older multiplayer value
    assert_eq!(cell(&client, sheet_id, 0, 0), Some(text("Client unsaved value")));
}

#[test]
fn test_handle_receipt_of_out_of_order_transactions() {
    // client is where the multiplayer transactions are applied from other
    let mut client = GridController::new();
    let sheet_id = client.sheet_ids()[0];

    // other is where the transaction are created
    let mut other = controller_with_sheet(sheet_id);
    let out_of_order_1_summary =
        other.set_cell_value(sheet_id, Pos { x: 1, y: 1 }, text("This is sequence_num = 1"), None);
    let out_of_order_1_operations = out_of_order_1_summary.operations.unwrap();
    let out_of_order_2 =
        other.set_cell_value(sheet_id, Pos { x: 2, y: 2 }, text("This is sequence_num = 2"), None);
    let out_of_order_2_operations = out_of_order_2.operations.unwrap();

    // Send sequence_num = 2 first to client. Client stores this transaction in
    // out_of_order_transactions but does not apply it.
    client.received_transaction(TransactionId::new(), 2, out_of_order_2_operations);
    assert_eq!(cell(&client, sheet_id, 1, 1), None);
    assert_eq!(client.out_of_order_len(), 1);

    // We receive the correctly ordered transaction. Both are applied in the correct order.
    client.received_transaction(TransactionId::new(), 1, out_of_order_1_operations);
    assert_eq!(cell(&client, sheet_id, 1, 1), Some(text("This is sequence_num = 1")));
    assert_eq!(cell(&client, sheet_id, 2, 2), Some(text("This is sequence_num = 2")));
    assert_eq!(client.out_of_order_len(), 0);
}

#[test]
fn test_handle_receipt_of_earlier_transactions_and_out_of_order_transactions() {
    let mut client = GridController::new();
    let sheet_id = client.sheet_ids()[0];
    let client_summary =
        client.set_cell_value(sheet_id, Pos { x: 0, y: 0 }, text("Client unsaved value"), None);

    // other is where the transaction are created
    let mut other = controller_with_sheet(sheet_id);
    let out_of_order_1_summary =
        other.set_cell_value(sheet_id, Pos { x: 0, y: 0 }, text("This is sequence_num = 1"), None);
    let out_of_order_1_operations = out_of_order_1_summary.operations.unwrap();
    let out_of_order_2 =
        other.set_cell_value(sheet_id, Pos { x: 0, y: 0 }, text("This is sequence_num = 2"), None);
    let out_of_order_2_operations = out_of_order_2.operations.unwrap();

    // Send sequence_num = 2 first to client. Client stores this transaction in
    // out_of_order_transactions but does not apply it.
    // We should still see our unsaved transaction.
    client.received_transaction(TransactionId::new(), 2, out_of_order_2_operations);
    assert_eq!(cell(&client, sheet_id, 0, 0), Some(text("Client unsaved value")));
    assert_eq!(client.out_of_order_len(), 1);
    assert_eq!(client.unsaved_len(), 1);

    // We receive the correctly ordered transaction. Both are applied in the correct order.
    client.received_transaction(TransactionId::new(), 1, out_of_order_1_operations);
    assert_eq!(cell(&client, sheet_id, 0, 0), Some(text("Client unsaved value")));
    assert_eq!(client.out_of_order_len(), 0);

    // We receive our unsaved transaction back.
    client.received_transaction(
        client_summary.transaction_id.unwrap(),
        3,
        client_summary.operations.unwrap(),
    );
    assert_eq!(client.unsaved_len(), 0);
    assert_eq!(cell(&client, sheet_id, 0, 0), Some(text("Client unsaved value")));

    // We undo our old unsaved transaction and it will clear it (since we don't
    // update our undo stack w/server changes).
    client.undo(None);
    assert_eq!(cell(&client, sheet_id, 0, 0), None);
}

#[test]
fn test_send_request_transactions() {
    let mut client = GridController::new();
    let sheet_id = client.sheet_ids()[0];

    // other is where the transaction are created
    let mut other = controller_with_sheet(sheet_id);
    let other_1 =
        other.set_cell_value(sheet_id, Pos { x: 0, y: 0 }, text("This is sequence_num = 1"), None);
    let other_1_operations = other_1.operations.unwrap();
    let other_2 =
        other.set_cell_value(sheet_id, Pos { x: 1, y: 1 }, text("This is sequence_num = 2"), None);
    let other_2_operations = other_2.operations.unwrap();

    let client_summary = client.receive_sequence_num(2);

    // we send our last_sequence_num + 1 to the server so it can provide all later transactions
    assert_eq!(client.last_sequence_num(), 0);
    assert_eq!(client_summary.request_transactions, Some(1));

    client.received_transactions(&vec![
        Transaction {
            id: TransactionId::new(),
            sequence_num: Some(1),
            operations: other_1_operations,
            cursor: None,
        },
        Transaction {
            id: TransactionId::new(),
            sequence_num: Some(2),
            operations: other_2_operations,
            cursor: None,
        },
    ]);
    assert_eq!(client.last_sequence_num(), 2);

    assert_eq!(cell(&client, sheet_id, 0, 0), Some(text("This is sequence_num = 1")));
    assert_eq!(cell(&client, sheet_id, 1, 1), Some(text("This is sequence_num = 2")));
}

#[test]
fn local_echo_of_the_head() {
    let s = SheetId { id: 1 };
    let mut client = controller_with_sheet(s);
    let summary = client.set_cell_value(s, Pos { x: 0, y: 0 }, text("Hello"), None);
    let tid = summary.transaction_id.unwrap();
    let ops = summary.operations.unwrap();
    let echoed = client.received_transaction(tid, 1, ops);
    assert_eq!(client.unsaved_len(), 0);
    assert_eq!(cell(&client, s, 0, 0), Some(text("Hello")));
    assert_eq!(echoed.save, false);
    assert_eq!(echoed.operations, None);
    assert_eq!(client.last_sequence_num(), 1);
}

#[test]
fn remote_first_then_local_on_top() {
    let s = SheetId { id: 1 };
    let mut client = controller_with_sheet(s);
    client.set_cell_value(s, Pos { x: 0, y: 0 }, text("Client"), None);
    let other = controller_with_sheet(s);
    let ops = other.set_cell_value_operations(s, Pos { x: 0, y: 0 }, text("Other"));
    let summary = client.received_transaction(TransactionId { id: 77 }, 1, ops);
    assert_eq!(cell(&client, s, 0, 0), Some(text("Client")));
    assert_eq!(client.unsaved_len(), 1);
    assert_eq!(summary.generate_thumbnail, true);
    assert_eq!(summary.save, false);
    // undoing the local transaction shows what the other replica wrote
    client.undo(None);
    assert_eq!(cell(&client, s, 0, 0), None);
}

#[test]
fn rollback_uses_the_inverse_of_the_last_run() {
    let s = SheetId { id: 1 };
    let mut client = controller_with_sheet(s);
    client.set_cell_value(s, Pos { x: 0, y: 0 }, text("Client"), None);
    let other = controller_with_sheet(s);
    client.received_transaction(
        TransactionId { id: 10 },
        1,
        other.set_cell_value_operations(s, Pos { x: 0, y: 0 }, text("Other")),
    );
    // a second transaction deletes the sheet on the server; the local
    // transaction cannot be run on top and is left out of the grid
    client.received_transaction(TransactionId { id: 11 }, 2, other.delete_sheet_operations(s));
    assert_eq!(client.sheet_ids(), vec![]);
    assert_eq!(client.unsaved_len(), 1);
    assert_eq!(client.last_sequence_num(), 2);
}

#[test]
fn out_of_order_then_fill() {
    let s = SheetId { id: 1 };
    let mut client = controller_with_sheet(s);
    let other = controller_with_sheet(s);
    client.received_transaction(
        TransactionId { id: 2 },
        2,
        other.set_cell_value_operations(s, Pos { x: 2, y: 2 }, text("B")),
    );
    assert_eq!(cell(&client, s, 2, 2), None);
    assert_eq!(client.out_of_order_len(), 1);
    assert_eq!(client.last_sequence_num(), 0);
    client.received_transaction(
        TransactionId { id: 1 },
        1,
        other.set_cell_value_operations(s, Pos { x: 1, y: 1 }, text("A")),
    );
    assert_eq!(cell(&client, s, 1, 1), Some(text("A")));
    assert_eq!(cell(&client, s, 2, 2), Some(text("B")));
    assert_eq!(client.last_sequence_num(), 2);
    assert_eq!(client.out_of_order_len(), 0);
}

#[test]
fn out_of_order_list_is_kept_ascending_and_without_repeats() {
    let s = SheetId { id: 1 };
    let mut client = controller_with_sheet(s);
    let other = controller_with_sheet(s);
    let ops = |x: i64, v: &str| other.set_cell_value_operations(s, Pos { x, y: 0 }, text(v));
    client.received_transaction(TransactionId { id: 5 }, 5, ops(5, "five"));
    client.received_transaction(TransactionId { id: 3 }, 3, ops(3, "three"));
    client.received_transaction(TransactionId { id: 4 }, 4, ops(4, "four"));
    client.received_transaction(TransactionId { id: 33 }, 3, ops(3, "again"));
    assert_eq!(client.out_of_order_len(), 3);
    // a transaction at or behind the last sequence number is dropped
    client.received_transaction(TransactionId { id: 0 }, 0, ops(0, "zero"));
    assert_eq!(cell(&client, s, 0, 0), None);
    assert_eq!(client.last_sequence_num(), 0);
    client.received_transaction(TransactionId { id: 1 }, 1, ops(1, "one"));
    assert_eq!(client.last_sequence_num(), 1);
    assert_eq!(client.out_of_order_len(), 3);
    client.received_transaction(TransactionId { id: 2 }, 2, ops(2, "two"));
    assert_eq!(client.last_sequence_num(), 5);
    assert_eq!(client.out_of_order_len(), 0);
    assert_eq!(cell(&client, s, 3, 0), Some(text("three")));
    assert_eq!(cell(&client, s, 5, 0), Some(text("five")));
}

#[test]
fn echo_of_a_later_unsaved_transaction() {
    let s = SheetId { id: 1 };
    let mut client = controller_with_sheet(s);
    let first = client.set_cell_value(s, Pos { x: 0, y: 0 }, text("first"), None);
    let second = client.set_cell_value(s, Pos { x: 0, y: 0 }, text("second"), None);
    assert_eq!(client.unsaved_len(), 2);
    // the server placed the second transaction first
    client.received_transaction(second.transaction_id.unwrap(), 1, second.operations.unwrap());
    assert_eq!(client.unsaved_len(), 1);
    // the remaining unsaved transaction is run on top
    assert_eq!(cell(&client, s, 0, 0), Some(text("first")));
    client.received_transaction(first.transaction_id.unwrap(), 2, first.operations.unwrap());
    assert_eq!(client.unsaved_len(), 0);
    assert_eq!(cell(&client, s, 0, 0), Some(text("first")));
    assert_eq!(client.last_sequence_num(), 2);
}

#[test]
fn gap_request_throttle() {
    let s = SheetId { id: 1 };
    let mut client = controller_with_sheet(s);
    let summary = client.receive_sequence_num_at(5, 1_000_000);
    assert_eq!(summary.request_transactions, Some(1));
    // within a second: no request
    let summary = client.receive_sequence_num_at(7, 1_000_900);
    assert_eq!(summary.request_transactions, None);
    let summary = client.receive_sequence_num_at(7, 1_004_999);
    assert_eq!(summary.request_transactions, None);
    // after five seconds: again
    let summary = client.receive_sequence_num_at(7, 1_005_000);
    assert_eq!(summary.request_transactions, Some(1));
    // nothing is missing: no request
    let summary = client.receive_sequence_num_at(0, 2_000_000);
    assert_eq!(summary.request_transactions, None);
    // the throttle can be set
    client.set_gap_request_throttle_seconds(1);
    let summary = client.receive_sequence_num_at(7, 1_006_000);
    assert_eq!(summary.request_transactions, Some(1));
}

#[test]
fn remote_transaction_alone_asks_for_no_thumbnail() {
    let s = SheetId { id: 1 };
    let mut client = controller_with_sheet(s);
    let other = controller_with_sheet(s);
    let summary = client.received_transaction(
        TransactionId { id: 1 },
        1,
        other.set_cell_value_operations(s, Pos { x: 0, y: 0 }, text("Other")),
    );
    assert_eq!(summary.generate_thumbnail, false);
    assert_eq!(summary.cell_regions_modified.len(), 1);
    assert!(!client.has_undo());
}

#[test]
fn fresh_ids_are_version_four_uuids() {
    let a = SheetId::new();
    let b = TransactionId::new();
    assert_eq!((a.id >> 76) & 0xf, 4);
    assert_eq!((a.id >> 62) & 0x3, 2);
    assert_eq!((b.id >> 76) & 0xf, 4);
    assert_eq!((b.id >> 62) & 0x3, 2);
    assert_ne!(SheetId::new(), SheetId::new());
}

#[test]
fn last_sequence_num_never_goes_back() {
    let s = SheetId { id: 1 };
    let mut client = controller_with_sheet(s);
    let other = controller_with_sheet(s);
    let mut last = client.last_sequence_num();
    for seq in [3u64, 1, 1, 0, 2, 7, 2, 4, 5, 6, 3] {
        client.received_transaction(
            TransactionId { id: seq as u128 },
            seq,
            other.set_cell_value_operations(s, Pos { x: seq as i64, y: 0 }, text("v")),
        );
        assert!(client.last_sequence_num() >= last);
        last = client.last_sequence_num();
    }
    assert_eq!(last, 7);
    assert_eq!(client.out_of_order_len(), 0);
}

#[test]
fn unsaved_transactions_replay_to_the_visible_grid() {
    let s = SheetId { id: 1 };
    let mut client = controller_with_sheet(s);
    let first = client.set_cell_value(s, Pos { x: 0, y: 0 }, text("mine"), None);
    let second = client.set_sheet_name(s, "Mine".to_string(), None);
    let other = controller_with_sheet(s);
    let remote_1 = other.set_cell_value_operations(s, Pos { x: 0, y: 0 }, text("theirs"));
    let remote_2 = other.set_cell_value_operations(s, Pos { x: 1, y: 0 }, text("more"));
    client.received_transaction(TransactionId { id: 10 }, 1, remote_1.clone());
    client.received_transaction(TransactionId { id: 11 }, 2, remote_2.clone());
    assert_eq!(client.unsaved_len(), 2);

    // the acknowledged state with the unsaved transactions on top
    let mut replica = controller_with_sheet(s);
    replica.server_apply_transaction(remote_1);
    replica.server_apply_transaction(remote_2);
    replica.server_apply_transaction(first.operations.unwrap());
    replica.server_apply_transaction(second.operations.unwrap());
    assert_eq!(*client.grid(), *replica.grid());
    assert_eq!(cell(&client, s, 0, 0), Some(text("mine")));
    assert_eq!(cell(&client, s, 1, 0), Some(text("more")));
}
