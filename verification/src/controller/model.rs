//! Mathematical model of a grid controller: its state, what a local
//! transaction and a delivery from the server do to it, and what holds of
//! every state.

use vstd::prelude::*;
use crate::ids::{SheetId, TransactionId};
use crate::sheet::SheetView;
use crate::grid::grid_wf;
use crate::operation::{OpView, TransactionView, SummaryView, ops_wf};
use crate::apply::{Effect, apply_ops};

verus! {

/// A local transaction that the server has not acknowledged yet: the
/// operations that were sent, and the operations that undo them here.
pub ghost struct UnsavedView {
    pub forward: TransactionView,
    pub reverse: TransactionView,
}

/// Mathematical model of a grid controller.
pub ghost struct ControllerView {
    /// The grid the user sees.
    pub grid: Seq<SheetView>,
    /// Inverses of the local transactions that can be undone, oldest first.
    pub undo_stack: Seq<TransactionView>,
    /// Inverses of the undone transactions that can be redone, oldest first.
    pub redo_stack: Seq<TransactionView>,
    /// Local transactions awaiting acknowledgement, in the order they ran.
    pub unsaved: Seq<UnsavedView>,
    /// The highest sequence number applied without a gap before it.
    pub last_sequence_num: u64,
    /// Server transactions that came before their predecessors, ascending.
    pub out_of_order: Seq<TransactionView>,
    /// When transactions were last requested again, in milliseconds.
    pub last_request_time: Option<i64>,
    /// Least time between two such requests, in seconds.
    pub throttle_seconds: u32,
}

/// How a transaction is run.
#[derive(Debug, Clone, Copy, PartialEq, Eq, Structural)]
pub enum TransactionType {
    /// A user action: the inverse goes on the undo stack and the redo stack
    /// is cleared.
    User,
    /// An undo: the inverse goes on the redo stack.
    Undo,
    /// A redo: the inverse goes on the undo stack.
    Redo,
    /// A transaction of another replica, applied alone.
    Multiplayer,
    /// A transaction applied as part of a delivery, its summary merged into
    /// that of the delivery.
    MultiplayerKeepSummary,
}

/// What running a transaction does: the effect of its operations if all of
/// them can be applied, and nothing otherwise.
pub open spec fn run(g: Seq<SheetView>, ops: Seq<OpView>, replacement: Option<SheetId>) -> Effect {
    match apply_ops(g, ops, replacement) {
        Some(e) => e,
        None => Effect::none(g),
    }
}

/// Every unsaved transaction is undone exactly by its reverse operations:
/// going back from `g`, transaction by transaction, each reverse can be
/// applied, and running the forward operations on the grid that gives leads
/// to the grid and to the reverse operations again.
pub open spec fn chain(g: Seq<SheetView>, u: Seq<UnsavedView>) -> bool
    decreases u.len(),
{
    u.len() == 0 || {
        let t = u.last();
        let back = apply_ops(g, t.reverse.operations, None);
        &&& back is Some
        &&& run(back->Some_0.grid, t.forward.operations, None).grid == g
        &&& run(back->Some_0.grid, t.forward.operations, None).reverse == t.reverse.operations
        &&& chain(back->Some_0.grid, u.drop_last())
    }
}

/// A grid and the summary of how it was reached.
pub ghost struct Reached {
    pub grid: Seq<SheetView>,
    pub summary: SummaryView,
}

/// Rolls the unsaved transactions back, the newest first.
pub open spec fn rollback(g: Seq<SheetView>, u: Seq<UnsavedView>) -> Reached
    decreases u.len(),
{
    if u.len() == 0 {
        Reached { grid: g, summary: SummaryView::empty() }
    } else {
        let e = run(g, u.last().reverse.operations, None);
        let rest = rollback(e.grid, u.drop_last());
        Reached { grid: rest.grid, summary: e.summary.merge(rest.summary) }
    }
}

/// The grid, the unsaved transactions and the summary after a reapplication.
pub ghost struct Reapplied {
    pub grid: Seq<SheetView>,
    pub unsaved: Seq<UnsavedView>,
    pub summary: SummaryView,
}

/// Runs the forward operations of the unsaved transactions again on `g`, the
/// oldest first, and notes for each the reverse operations this run gave.
pub open spec fn reapply(g: Seq<SheetView>, u: Seq<UnsavedView>) -> Reapplied
    decreases u.len(),
{
    if u.len() == 0 {
        Reapplied { grid: g, unsaved: Seq::empty(), summary: SummaryView::empty() }
    } else {
        let before = reapply(g, u.drop_last());
        let t = u.last();
        let e = run(before.grid, t.forward.operations, None);
        Reapplied {
            grid: e.grid,
            unsaved: before.unsaved.push(
                UnsavedView {
                    forward: t.forward,
                    reverse: TransactionView { operations: e.reverse, ..t.reverse },
                },
            ),
            summary: before.summary.merge(e.summary),
        }
    }
}

/// The last state that the server has acknowledged: the grid with every
/// unsaved transaction rolled back.
pub open spec fn acknowledged(c: ControllerView) -> Seq<SheetView> {
    rollback(c.grid, c.unsaved).grid
}

/// The sequence number of a transaction that has one.
pub open spec fn seq_of(t: TransactionView) -> int {
    t.sequence_num->Some_0 as int
}

/// The out-of-order transactions have sequence numbers, strictly ascending,
/// and each leaves a gap behind `last`.
pub open spec fn out_of_order_wf(last: u64, ooo: Seq<TransactionView>) -> bool {
    &&& forall|i: int| 0 <= i < ooo.len() ==> (#[trigger] ooo[i]).sequence_num is Some
    &&& forall|i: int| 0 <= i < ooo.len() ==> seq_of(#[trigger] ooo[i]) > last + 1
    &&& forall|i: int, j: int|
        0 <= i < j < ooo.len() ==> seq_of(#[trigger] ooo[i]) < seq_of(#[trigger] ooo[j])
}

/// Every transaction of the list holds valid operations only.
pub open spec fn transactions_wf(ts: Seq<TransactionView>) -> bool {
    forall|i: int| 0 <= i < ts.len() ==> ops_wf((#[trigger] ts[i]).operations)
}

/// Every unsaved transaction holds valid operations only.
pub open spec fn unsaved_wf(u: Seq<UnsavedView>) -> bool {
    forall|i: int|
        0 <= i < u.len() ==> ops_wf((#[trigger] u[i]).forward.operations) && ops_wf(
            u[i].reverse.operations,
        )
}

impl ControllerView {
    /// What holds of every state of a controller.
    pub open spec fn wf(self) -> bool {
        &&& grid_wf(self.grid)
        &&& transactions_wf(self.undo_stack)
        &&& transactions_wf(self.redo_stack)
        &&& transactions_wf(self.out_of_order)
        &&& unsaved_wf(self.unsaved)
        &&& chain(self.grid, self.unsaved)
        &&& out_of_order_wf(self.last_sequence_num, self.out_of_order)
    }
}

/// The summary that a local transaction hands to the outer layer: that of
/// its effect, marked for saving, with the id and the forward operations to
/// send, and with the cursor to restore.
pub open spec fn local_summary(e: Effect, id: TransactionId, cursor: Option<Seq<char>>) -> SummaryView {
    SummaryView {
        save: true,
        transaction_id: Some(id),
        operations: Some(e.forward),
        cursor,
        ..e.summary
    }
}

/// A state and the summary of the step that led to it.
pub ghost struct Step {
    pub state: ControllerView,
    pub summary: SummaryView,
}

/// What a local transaction does: a user action, an undo or a redo that runs
/// `ops` under the id `id`.
///
/// `stack_cursor` is the cursor kept with the inverse, `summary_cursor` the
/// one handed out in the summary. The redo stack is cleared by every user
/// action. If the operations cannot be applied, or change nothing, no inverse
/// is kept and nothing is to be saved.
pub open spec fn local_step(
    c: ControllerView,
    kind: TransactionType,
    ops: Seq<OpView>,
    replacement: Option<SheetId>,
    id: TransactionId,
    stack_cursor: Option<Seq<char>>,
    summary_cursor: Option<Seq<char>>,
) -> Step {
    let e = run(c.grid, ops, replacement);
    let cleared = if kind == TransactionType::User {
        ControllerView { redo_stack: Seq::empty(), ..c }
    } else {
        c
    };
    if e.reverse.len() == 0 {
        Step {
            state: cleared,
            summary: SummaryView { cursor: summary_cursor, ..SummaryView::empty() },
        }
    } else {
        let inverse = TransactionView {
            id,
            sequence_num: None,
            operations: e.reverse,
            cursor: stack_cursor,
        };
        let forward = TransactionView {
            id,
            sequence_num: None,
            operations: e.forward,
            cursor: stack_cursor,
        };
        let pushed = if kind == TransactionType::Undo {
            ControllerView { redo_stack: cleared.redo_stack.push(inverse), ..cleared }
        } else {
            ControllerView { undo_stack: cleared.undo_stack.push(inverse), ..cleared }
        };
        Step {
            state: ControllerView {
                grid: e.grid,
                unsaved: c.unsaved.push(UnsavedView { forward, reverse: inverse }),
                ..pushed
            },
            summary: local_summary(e, id, summary_cursor),
        }
    }
}

/// What a user action that runs `ops` does.
pub open spec fn user_step(
    c: ControllerView,
    ops: Seq<OpView>,
    fresh: SheetId,
    id: TransactionId,
    cursor: Option<Seq<char>>,
) -> Step {
    local_step(c, TransactionType::User, ops, Some(fresh), id, cursor, None)
}

/// What an undo does; meaningful when there is something to undo. The
/// transaction on top of the undo stack is taken off and run; its inverse
/// goes on the redo stack with the cursor `cursor`, and the summary carries
/// the cursor of the transaction that was taken off.
pub open spec fn undo_step(c: ControllerView, id: TransactionId, cursor: Option<Seq<char>>) -> Step {
    let top = c.undo_stack.last();
    local_step(
        ControllerView { undo_stack: c.undo_stack.drop_last(), ..c },
        TransactionType::Undo,
        top.operations,
        None,
        id,
        cursor,
        top.cursor,
    )
}

/// What a redo does; meaningful when there is something to redo.
pub open spec fn redo_step(c: ControllerView, id: TransactionId, cursor: Option<Seq<char>>) -> Step {
    let top = c.redo_stack.last();
    local_step(
        ControllerView { redo_stack: c.redo_stack.drop_last(), ..c },
        TransactionType::Redo,
        top.operations,
        None,
        id,
        cursor,
        top.cursor,
    )
}

/// The index of the first unsaved transaction with the id `id`; the length of
/// the list if there is none.
pub open spec fn first_with_id(u: Seq<UnsavedView>, id: TransactionId) -> int
    decreases u.len(),
{
    if u.len() == 0 {
        0
    } else if u[0].forward.id == id {
        0
    } else {
        1 + first_with_id(u.skip(1), id)
    }
}

/// How many of the first out-of-order transactions carry the sequence numbers
/// `next`, `next + 1`, and so on without a gap.
pub open spec fn drain_count(next: int, ooo: Seq<TransactionView>) -> nat
    decreases ooo.len(),
{
    if ooo.len() > 0 && ooo[0].sequence_num is Some && seq_of(ooo[0]) == next {
        1 + drain_count(next + 1, ooo.skip(1))
    } else {
        0
    }
}

/// The operations of the first `k` out-of-order transactions, joined.
pub open spec fn drain_ops(ooo: Seq<TransactionView>, k: int) -> Seq<OpView>
    decreases k,
{
    if k <= 0 {
        Seq::empty()
    } else {
        drain_ops(ooo, k - 1) + ooo[k - 1].operations
    }
}

/// What draining the out-of-order transactions gives.
pub ghost struct Drained {
    pub grid: Seq<SheetView>,
    pub last_sequence_num: u64,
    pub out_of_order: Seq<TransactionView>,
    pub summary: SummaryView,
}

/// Drains the out-of-order transactions after the sequence number `seq` was
/// applied: those that follow `seq` without a gap leave the list, their
/// operations are run as one batch, and the last sequence number is that of
/// the last one that left, or `seq`.
pub open spec fn drained(g: Seq<SheetView>, seq: u64, ooo: Seq<TransactionView>) -> Drained {
    let k = drain_count(seq + 1, ooo) as int;
    let e = run(g, drain_ops(ooo, k), None);
    Drained {
        grid: e.grid,
        last_sequence_num: (seq + k) as u64,
        out_of_order: ooo.skip(k),
        summary: e.summary,
    }
}

/// How many of the first out-of-order transactions have a sequence number
/// below `seq`.
pub open spec fn count_below(ooo: Seq<TransactionView>, seq: int) -> int
    decreases ooo.len(),
{
    if ooo.len() > 0 && seq_of(ooo[0]) < seq {
        1 + count_below(ooo.skip(1), seq)
    } else {
        0
    }
}

/// The out-of-order transactions with `t` put in at the place its sequence
/// number gives; unchanged if one with that number is held already.
pub open spec fn out_of_order_insert(ooo: Seq<TransactionView>, t: TransactionView) -> Seq<TransactionView> {
    let p = count_below(ooo, seq_of(t));
    if p < ooo.len() && seq_of(ooo[p]) == seq_of(t) {
        ooo
    } else {
        ooo.insert(p, t)
    }
}

/// Rolls back `rolled`, runs the server's operations `remote`, drains the
/// out-of-order transactions, and runs `rest` again on top. The summary is
/// that of all four, merged in this order.
pub open spec fn rebase(
    c: ControllerView,
    rolled: Seq<UnsavedView>,
    rest: Seq<UnsavedView>,
    remote: Seq<OpView>,
    seq: u64,
) -> Step {
    let back = rollback(c.grid, rolled);
    let e = run(back.grid, remote, None);
    let d = drained(e.grid, seq, c.out_of_order);
    let r = reapply(d.grid, rest);
    Step {
        state: ControllerView {
            grid: r.grid,
            unsaved: r.unsaved,
            last_sequence_num: d.last_sequence_num,
            out_of_order: d.out_of_order,
            ..c
        },
        summary: back.summary.merge(e.summary).merge(d.summary).merge(r.summary),
    }
}

/// What the delivery of one server transaction does.
///
/// If it is the next in sequence: the echo of the first unsaved transaction
/// only takes that one off the list, unless an out-of-order transaction is
/// due next, in which case the rest is rolled back, the list is drained and
/// the rest is run again. The echo of a later unsaved transaction, or a
/// transaction of another replica, is applied under the unsaved ones: they
/// are rolled back, it is run, the list is drained, and they are run again
/// (without the echoed one). With nothing unsaved no thumbnail is asked for.
///
/// If it is ahead of the sequence it joins the out-of-order transactions; if
/// it is behind, it is dropped.
pub open spec fn deliver(c: ControllerView, id: TransactionId, seq: u64, ops: Seq<OpView>) -> Step {
    if seq == c.last_sequence_num + 1 {
        let i = first_with_id(c.unsaved, id);
        if i < c.unsaved.len() {
            if i == 0 {
                let rest = c.unsaved.skip(1);
                if c.out_of_order.len() > 0 && c.out_of_order[0].sequence_num is Some && seq_of(
                    c.out_of_order[0],
                ) == seq + 1 {
                    rebase(c, rest, rest, Seq::empty(), seq)
                } else {
                    Step {
                        state: ControllerView { unsaved: rest, last_sequence_num: seq, ..c },
                        summary: SummaryView::empty(),
                    }
                }
            } else {
                rebase(c, c.unsaved, c.unsaved.remove(i), ops, seq)
            }
        } else if c.unsaved.len() > 0 {
            rebase(c, c.unsaved, c.unsaved, ops, seq)
        } else {
            let s = rebase(c, Seq::empty(), Seq::empty(), ops, seq);
            Step {
                state: s.state,
                summary: SummaryView { generate_thumbnail: false, ..s.summary },
            }
        }
    } else if seq > c.last_sequence_num + 1 {
        Step {
            state: ControllerView {
                out_of_order: out_of_order_insert(
                    c.out_of_order,
                    TransactionView { id, sequence_num: Some(seq), operations: ops, cursor: None },
                ),
                ..c
            },
            summary: SummaryView::empty(),
        }
    } else {
        Step { state: c, summary: SummaryView::empty() }
    }
}

/// What the delivery of a list of server transactions does: one delivery
/// after the other, the summaries merged. Each must have a sequence number.
pub open spec fn deliver_all(c: ControllerView, ts: Seq<TransactionView>) -> Step
    decreases ts.len(),
{
    if ts.len() == 0 {
        Step { state: c, summary: SummaryView::empty() }
    } else {
        let before = deliver_all(c, ts.drop_last());
        let t = ts.last();
        let s = deliver(before.state, t.id, t.sequence_num->Some_0, t.operations);
        Step { state: s.state, summary: before.summary.merge(s.summary) }
    }
}

/// The summary of a delivery as it is handed out: nothing to save, no
/// operations to send.
pub open spec fn delivery_summary(s: SummaryView) -> SummaryView {
    SummaryView { save: false, operations: None, ..s }
}

/// What the server's notice of its latest sequence number `n` does at the
/// time `now` (in milliseconds): if `n` is not the last one applied here, and
/// no request was made yet or the last one is at least the throttle time
/// back, transactions are requested from the one after the last applied, and
/// the time is noted. Else nothing happens.
pub open spec fn sequence_notice(c: ControllerView, n: u64, now: i64) -> Step {
    if n != c.last_sequence_num && c.last_sequence_num < u64::MAX && (match c.last_request_time {
        None => true,
        Some(t) => now - t >= c.throttle_seconds * 1000,
    }) {
        Step {
            state: ControllerView { last_request_time: Some(now), ..c },
            summary: SummaryView {
                request_transactions: Some((c.last_sequence_num + 1) as u64),
                ..SummaryView::empty()
            },
        }
    } else {
        Step { state: c, summary: SummaryView::empty() }
    }
}

/// What a transaction applied on the server's behalf does: it is run under
/// the unsaved transactions, which are rolled back before and run again
/// after. Nothing else changes.
pub open spec fn server_apply(c: ControllerView, ops: Seq<OpView>) -> ControllerView {
    let back = rollback(c.grid, c.unsaved);
    let e = run(back.grid, ops, None);
    let r = reapply(e.grid, c.unsaved);
    ControllerView { grid: r.grid, unsaved: r.unsaved, ..c }
}

} // verus!
