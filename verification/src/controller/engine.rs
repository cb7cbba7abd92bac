//! The controller's state and the engine behind every entry point: local
//! transactions with their undo and redo stacks, and the deliveries of the
//! server's transactions with rollback, drain and reapplication.

use vstd::prelude::*;
use crate::ids::{SheetId, TransactionId};
use crate::sheet::{Sheet, SheetView, opt_view, duplicate_opt};
use crate::grid::{Grid, has_sheet, sheet_index, ids_of};
use crate::operation::{
    Operation, OpView, Transaction, TransactionView, TransactionSummary, ops_view, all_wf, ops_wf,
    lemma_all_wf, duplicate_ops, transactions_view, all_transactions_wf,
};
use crate::executor::{transact, Outcome};
use crate::operation::{lemma_merge_empty, lemma_merge_assoc};
use crate::controller::model::{
    ControllerView, UnsavedView, TransactionType, run, local_step, undo_step, redo_step, user_step,
    transactions_wf, unsaved_wf, out_of_order_wf, rollback, reapply, drained, drain_count,
    drain_ops, first_with_id, rebase, deliver, deliver_all, delivery_summary, sequence_notice,
    count_below, server_apply,
};
use crate::controller::local_laws::{lemma_local_step, lemma_run};
use crate::controller::replica_laws::{
    lemma_rebase, lemma_deliver, lemma_chain_skip, lemma_unsaved_wf_parts, lemma_first_with_id,
    lemma_server_apply,
};

verus! {

/// A local transaction that the server has not acknowledged yet.
#[derive(Debug, Clone, PartialEq, Eq)]
pub struct UnsavedTransaction {
    /// The transaction as it was sent to the server.
    pub forward: Transaction,
    /// The transaction that undoes it here.
    pub reverse: Transaction,
}

impl View for UnsavedTransaction {
    type V = UnsavedView;

    open spec fn view(&self) -> UnsavedView {
        UnsavedView { forward: self.forward@, reverse: self.reverse@ }
    }
}

impl UnsavedTransaction {
    /// Both transactions hold valid operations only.
    pub open spec fn wf(self) -> bool {
        self.forward.wf() && self.reverse.wf()
    }
}

/// The models of a list of unsaved transactions, one by one.
pub open spec fn unsaved_view(u: Seq<UnsavedTransaction>) -> Seq<UnsavedView> {
    Seq::new(u.len(), |i: int| u[i]@)
}

/// Every unsaved transaction of the list holds valid operations only.
pub open spec fn all_unsaved_wf(u: Seq<UnsavedTransaction>) -> bool {
    forall|i: int| 0 <= i < u.len() ==> (#[trigger] u[i]).wf()
}

/// Valid transactions have valid models.
pub proof fn lemma_transactions_wf(ts: Seq<Transaction>)
    requires
        all_transactions_wf(ts),
    ensures
        transactions_wf(transactions_view(ts)),
{
    assert forall|i: int| 0 <= i < ts.len() implies ops_wf(
        (#[trigger] transactions_view(ts)[i]).operations,
    ) by {
        lemma_all_wf(ts[i].operations@);
    }
}

/// Valid unsaved transactions have valid models.
pub proof fn lemma_unsaved_wf(u: Seq<UnsavedTransaction>)
    requires
        all_unsaved_wf(u),
    ensures
        unsaved_wf(unsaved_view(u)),
{
    assert forall|i: int| 0 <= i < u.len() implies ops_wf(
        (#[trigger] unsaved_view(u)[i]).forward.operations,
    ) && ops_wf(unsaved_view(u)[i].reverse.operations) by {
        lemma_all_wf(u[i].forward.operations@);
        lemma_all_wf(u[i].reverse.operations@);
    }
}

/// The state of one file on one replica: the grid, the undo and redo stacks,
/// and what is known of the server's sequence.
#[derive(Debug, Clone)]
pub struct GridController {
    grid: Grid,
    undo_stack: Vec<Transaction>,
    redo_stack: Vec<Transaction>,
    unsaved_transactions: Vec<UnsavedTransaction>,
    last_sequence_num: u64,
    out_of_order_transactions: Vec<Transaction>,
    last_need_request_transactions_time: Option<i64>,
    throttle_seconds: u32,
}

impl View for GridController {
    type V = ControllerView;

    closed spec fn view(&self) -> ControllerView {
        ControllerView {
            grid: self.grid@,
            undo_stack: transactions_view(self.undo_stack@),
            redo_stack: transactions_view(self.redo_stack@),
            unsaved: unsaved_view(self.unsaved_transactions@),
            last_sequence_num: self.last_sequence_num,
            out_of_order: transactions_view(self.out_of_order_transactions@),
            last_request_time: self.last_need_request_transactions_time,
            throttle_seconds: self.throttle_seconds,
        }
    }
}

impl GridController {
    /// The representation is sound and the model is a valid state.
    pub closed spec fn wf(self) -> bool {
        &&& self.grid.wf()
        &&& all_transactions_wf(self.undo_stack@)
        &&& all_transactions_wf(self.redo_stack@)
        &&& all_transactions_wf(self.out_of_order_transactions@)
        &&& all_unsaved_wf(self.unsaved_transactions@)
        &&& self@.wf()
    }

    /// A valid controller has a valid model.
    pub proof fn lemma_wf(self)
        requires
            self.wf(),
        ensures
            self@.wf(),
    {
    }

    /// The controller of a file that holds the given grid: nothing to undo,
    /// nothing unsaved, no transaction of the server seen, and five seconds
    /// between two requests for missing transactions.
    pub fn from_grid(grid: Grid) -> (c: GridController)
        requires
            grid.wf(),
        ensures
            c.wf(),
            c@ == (ControllerView {
                grid: grid@,
                undo_stack: Seq::empty(),
                redo_stack: Seq::empty(),
                unsaved: Seq::empty(),
                last_sequence_num: 0,
                out_of_order: Seq::empty(),
                last_request_time: None,
                throttle_seconds: 5,
            }),
    {
        let c = GridController {
            grid,
            undo_stack: Vec::new(),
            redo_stack: Vec::new(),
            unsaved_transactions: Vec::new(),
            last_sequence_num: 0,
            out_of_order_transactions: Vec::new(),
            last_need_request_transactions_time: None,
            throttle_seconds: 5,
        };
        proof {
            grid.lemma_wf();
            assert(c@.undo_stack =~= Seq::empty());
            assert(c@.redo_stack =~= Seq::empty());
            assert(c@.unsaved =~= Seq::empty());
            assert(c@.out_of_order =~= Seq::empty());
        }
        c
    }

    /// The controller of a new file: one empty sheet `Sheet 1` under a fresh
    /// random id.
    pub fn new() -> (c: GridController)
        ensures
            c.wf(),
            c@.grid.len() == 1,
            c@ == (ControllerView {
                grid: seq![
                    SheetView {
                        id: c@.grid[0].id,
                        name: "Sheet 1"@,
                        color: None,
                        order: seq!['n'],
                        cells: Map::empty(),
                    },
                ],
                undo_stack: Seq::empty(),
                redo_stack: Seq::empty(),
                unsaved: Seq::empty(),
                last_sequence_num: 0,
                out_of_order: Seq::empty(),
                last_request_time: None,
                throttle_seconds: 5,
            }),
    {
        Self::from_grid(Grid::new())
    }

    /// The grid.
    pub fn grid(&self) -> (g: &Grid)
        ensures
            g@ == self@.grid,
            self.wf() ==> g.wf(),
    {
        &self.grid
    }

    /// The ids of the sheets, in order.
    pub fn sheet_ids(&self) -> (r: Vec<SheetId>)
        ensures
            r@ == ids_of(self@.grid),
    {
        self.grid.sheet_ids()
    }

    /// The sheet with this id, if the grid holds one.
    pub fn try_sheet_from_id(&self, sheet_id: SheetId) -> (r: Option<&Sheet>)
        requires
            self.wf(),
        ensures
            r is Some <==> has_sheet(self@.grid, sheet_id),
            r is Some ==> r->Some_0.wf() && r->Some_0@ == self@.grid[sheet_index(
                self@.grid,
                sheet_id,
            )],
    {
        self.grid.try_sheet_from_id(sheet_id)
    }

    /// The sheet with this id, which the grid must hold.
    pub fn sheet(&self, sheet_id: SheetId) -> (r: &Sheet)
        requires
            self.wf(),
            has_sheet(self@.grid, sheet_id),
        ensures
            r.wf(),
            r@ == self@.grid[sheet_index(self@.grid, sheet_id)],
    {
        match self.grid.try_sheet_from_id(sheet_id) {
            Some(s) => s,
            None => {
                proof {
                    assert(false);
                }
                &self.grid.sheets()[0]
            },
        }
    }

    /// Whether there is a transaction to undo.
    pub fn has_undo(&self) -> (b: bool)
        ensures
            b == (self@.undo_stack.len() > 0),
    {
        self.undo_stack.len() > 0
    }

    /// Whether there is a transaction to redo.
    pub fn has_redo(&self) -> (b: bool)
        ensures
            b == (self@.redo_stack.len() > 0),
    {
        self.redo_stack.len() > 0
    }

    /// Number of local transactions that the server has not acknowledged.
    pub fn unsaved_len(&self) -> (n: usize)
        ensures
            n == self@.unsaved.len(),
    {
        self.unsaved_transactions.len()
    }

    /// Number of server transactions held back for want of a predecessor.
    pub fn out_of_order_len(&self) -> (n: usize)
        ensures
            n == self@.out_of_order.len(),
    {
        self.out_of_order_transactions.len()
    }

    /// The highest sequence number applied without a gap before it.
    pub fn last_sequence_num(&self) -> (n: u64)
        ensures
            n == self@.last_sequence_num,
    {
        self.last_sequence_num
    }

    /// Sets the least time between two requests for missing transactions.
    pub fn set_gap_request_throttle_seconds(&mut self, seconds: u32)
        requires
            old(self).wf(),
        ensures
            final(self).wf(),
            final(self)@ == (ControllerView { throttle_seconds: seconds, ..old(self)@ }),
    {
        self.throttle_seconds = seconds;
    }

    /// Runs a local transaction of the given kind; see [`local_step`].
    fn run_local(
        &mut self,
        kind: TransactionType,
        ops: Vec<Operation>,
        replacement: Option<SheetId>,
        id: TransactionId,
        stack_cursor: Option<String>,
        summary_cursor: Option<String>,
    ) -> (summary: TransactionSummary)
        requires
            old(self).wf(),
            all_wf(ops@),
            kind == TransactionType::User || kind == TransactionType::Undo || kind
                == TransactionType::Redo,
        ensures
            final(self).wf(),
            final(self)@ == local_step(
                old(self)@,
                kind,
                ops_view(ops@),
                replacement,
                id,
                opt_view(stack_cursor),
                opt_view(summary_cursor),
            ).state,
            summary@ == local_step(
                old(self)@,
                kind,
                ops_view(ops@),
                replacement,
                id,
                opt_view(stack_cursor),
                opt_view(summary_cursor),
            ).summary,
    {
        let ghost c0 = self@;
        let ghost ov = ops_view(ops@);
        let ghost want = local_step(
            c0,
            kind,
            ov,
            replacement,
            id,
            opt_view(stack_cursor),
            opt_view(summary_cursor),
        );
        proof {
            lemma_all_wf(ops@);
            lemma_local_step(
                c0,
                kind,
                ov,
                replacement,
                id,
                opt_view(stack_cursor),
                opt_view(summary_cursor),
            );
        }
        match kind {
            TransactionType::User => {
                self.redo_stack.clear();
                assert(transactions_view(self.redo_stack@) =~= Seq::<TransactionView>::empty());
            },
            _ => {},
        }
        let outcome: Outcome = transact(&mut self.grid, ops, replacement, true);
        let ghost e = run(c0.grid, ov, replacement);
        assert(outcome.agrees(e, true));
        let Outcome { forward, reverse, summary } = outcome;
        if reverse.len() == 0 {
            let mut s = TransactionSummary::new();
            s.cursor = summary_cursor;
            proof {
                assert(e.reverse.len() == 0);
                crate::controller::local_laws::lemma_run(c0.grid, ov, replacement);
                assert(self@ == want.state);
            }
            return s;
        }
        let inverse = Transaction {
            id,
            sequence_num: None,
            operations: duplicate_ops(&reverse),
            cursor: duplicate_opt(&stack_cursor),
        };
        let unsaved = UnsavedTransaction {
            forward: Transaction {
                id,
                sequence_num: None,
                operations: duplicate_ops(&forward),
                cursor: duplicate_opt(&stack_cursor),
            },
            reverse: Transaction {
                id,
                sequence_num: None,
                operations: reverse,
                cursor: stack_cursor,
            },
        };
        let ghost old_unsaved = self.unsaved_transactions@;
        let ghost old_undo = self.undo_stack@;
        let ghost old_redo = self.redo_stack@;
        match kind {
            TransactionType::Undo => {
                self.redo_stack.push(inverse);
            },
            _ => {
                self.undo_stack.push(inverse);
            },
        }
        self.unsaved_transactions.push(unsaved);
        let mut s = summary;
        s.save = true;
        s.transaction_id = Some(id);
        s.operations = Some(forward);
        s.cursor = summary_cursor;
        proof {
            assert(e.reverse.len() > 0);
            assert(unsaved_view(self.unsaved_transactions@) =~= unsaved_view(old_unsaved).push(
                unsaved@,
            ));
            assert(transactions_view(self.undo_stack@) =~= want.state.undo_stack);
            assert(transactions_view(self.redo_stack@) =~= want.state.redo_stack);
            assert(self@ == want.state);
            assert(s@ == want.summary);
        }
        s
    }

    /// Runs `ops` as a user action under the transaction id `id`.
    ///
    /// The operations are applied in order or, if one cannot be applied, not
    /// at all. The redo stack is cleared. Unless nothing changed, the inverse
    /// transaction goes on the undo stack, the transaction joins the unsaved
    /// ones, and the summary is marked for saving and carries `id` and the
    /// forward operations. `fresh` is the id of the sheet that is made if the
    /// last sheet is deleted.
    pub fn transact_forward(
        &mut self,
        ops: Vec<Operation>,
        fresh: SheetId,
        id: TransactionId,
        cursor: Option<String>,
    ) -> (summary: TransactionSummary)
        requires
            old(self).wf(),
            all_wf(ops@),
        ensures
            final(self).wf(),
            final(self)@ == user_step(old(self)@, ops_view(ops@), fresh, id, opt_view(cursor)).state,
            summary@ == user_step(old(self)@, ops_view(ops@), fresh, id, opt_view(cursor)).summary,
    {
        self.run_local(TransactionType::User, ops, Some(fresh), id, cursor, None)
    }

    /// Undoes the last transaction under the transaction id `id`: takes it
    /// off the undo stack, runs it, and puts its inverse on the redo stack
    /// with the cursor `cursor`. The summary carries the cursor of the
    /// transaction taken off. `None` if there is nothing to undo.
    pub fn undo_as(&mut self, id: TransactionId, cursor: Option<String>) -> (r: Option<
        TransactionSummary,
    >)
        requires
            old(self).wf(),
        ensures
            final(self).wf(),
            r is None <==> old(self)@.undo_stack.len() == 0,
            r is None ==> final(self)@ == old(self)@,
            r is Some ==> final(self)@ == undo_step(old(self)@, id, opt_view(cursor)).state
                && r->Some_0@ == undo_step(old(self)@, id, opt_view(cursor)).summary,
    {
        let ghost c0 = self@;
        let transaction: Transaction = match self.undo_stack.pop() {
            Some(t) => t,
            None => {
                return None;
            },
        };
        proof {
            assert(transactions_view(self.undo_stack@) =~= c0.undo_stack.drop_last());
            assert(transaction@ == c0.undo_stack.last());
            lemma_transactions_wf(self.undo_stack@);
        }
        let Transaction { id: _, sequence_num: _, operations, cursor: cursor_old } = transaction;
        Some(self.run_local(TransactionType::Undo, operations, None, id, cursor, cursor_old))
    }

    /// Redoes the last undone transaction under the transaction id `id`; the
    /// mirror image of [`GridController::undo_as`].
    pub fn redo_as(&mut self, id: TransactionId, cursor: Option<String>) -> (r: Option<
        TransactionSummary,
    >)
        requires
            old(self).wf(),
        ensures
            final(self).wf(),
            r is None <==> old(self)@.redo_stack.len() == 0,
            r is None ==> final(self)@ == old(self)@,
            r is Some ==> final(self)@ == redo_step(old(self)@, id, opt_view(cursor)).state
                && r->Some_0@ == redo_step(old(self)@, id, opt_view(cursor)).summary,
    {
        let ghost c0 = self@;
        let transaction: Transaction = match self.redo_stack.pop() {
            Some(t) => t,
            None => {
                return None;
            },
        };
        proof {
            assert(transactions_view(self.redo_stack@) =~= c0.redo_stack.drop_last());
            assert(transaction@ == c0.redo_stack.last());
            lemma_transactions_wf(self.redo_stack@);
        }
        let Transaction { id: _, sequence_num: _, operations, cursor: cursor_old } = transaction;
        Some(self.run_local(TransactionType::Redo, operations, None, id, cursor, cursor_old))
    }

    /// Undoes the last transaction under a fresh random transaction id; see
    /// [`GridController::undo_as`].
    pub fn undo(&mut self, cursor: Option<String>) -> (r: Option<TransactionSummary>)
        requires
            old(self).wf(),
        ensures
            final(self).wf(),
            r is None <==> old(self)@.undo_stack.len() == 0,
            r is None ==> final(self)@ == old(self)@,
            r is Some ==> exists|id: TransactionId|
                final(self)@ == (#[trigger] undo_step(old(self)@, id, opt_view(cursor))).state
                    && r->Some_0@ == undo_step(old(self)@, id, opt_view(cursor)).summary,
    {
        self.undo_as(TransactionId::new(), cursor)
    }

    /// Redoes the last undone transaction under a fresh random transaction
    /// id; see [`GridController::redo_as`].
    pub fn redo(&mut self, cursor: Option<String>) -> (r: Option<TransactionSummary>)
        requires
            old(self).wf(),
        ensures
            final(self).wf(),
            r is None <==> old(self)@.redo_stack.len() == 0,
            r is None ==> final(self)@ == old(self)@,
            r is Some ==> exists|id: TransactionId|
                final(self)@ == (#[trigger] redo_step(old(self)@, id, opt_view(cursor))).state
                    && r->Some_0@ == redo_step(old(self)@, id, opt_view(cursor)).summary,
    {
        self.redo_as(TransactionId::new(), cursor)
    }
}

/// Asks `chrono::Utc::now` for the time and hands back
/// `DateTime::timestamp_millis` of it: milliseconds since the Unix epoch.
/// Nothing is known of the result. (`Utc::now` gives up if the system clock
/// stands before 1970.)
#[verifier::external_body]
fn now_millis() -> (t: i64) {
    chrono::Utc::now().timestamp_millis()
}

/// Whether the transaction has a sequence number below `n`.
fn comes_before(t: &Transaction, n: u64) -> (r: bool)
    ensures
        r == (t.sequence_num is Some && t.sequence_num->Some_0 < n),
{
    match t.sequence_num {
        Some(x) => x < n,
        None => false,
    }
}

/// The elements in the opposite order.
fn reversed_unsaved(v: Vec<UnsavedTransaction>) -> (r: Vec<UnsavedTransaction>)
    ensures
        r@.len() == v@.len(),
        forall|t: int| 0 <= t < r@.len() ==> r@[t] == v@[v@.len() - 1 - t],
{
    let mut v = v;
    let ghost orig = v@;
    let mut out: Vec<UnsavedTransaction> = Vec::new();
    while v.len() > 0
        invariant
            v@ == orig.take(v.len() as int),
            v.len() <= orig.len(),
            out.len() == orig.len() - v.len(),
            forall|t: int| 0 <= t < out.len() ==> out@[t] == orig[orig.len() - 1 - t],
        decreases v.len(),
    {
        let ghost m = v.len() as int;
        match v.pop() {
            Some(x) => {
                assert(x == orig[m - 1]);
                out.push(x);
                assert(v@ =~= orig.take(m - 1));
            },
            None => {},
        }
    }
    out
}

impl GridController {
    /// Rolls back unsaved transactions to apply earlier transactions received
    /// from the server: runs the reverse operations of each, the newest first,
    /// and merges what they changed into `summary`.
    fn rollback_unsaved_transactions(
        grid: &mut Grid,
        unsaved: &Vec<UnsavedTransaction>,
        summary: &mut TransactionSummary,
    )
        requires
            old(grid).wf(),
            all_unsaved_wf(unsaved@),
        ensures
            final(grid).wf(),
            final(grid)@ == rollback(old(grid)@, unsaved_view(unsaved@)).grid,
            final(summary)@ == old(summary)@.merge(
                rollback(old(grid)@, unsaved_view(unsaved@)).summary,
            ),
    {
        let ghost g0 = grid@;
        let ghost s0 = summary@;
        let ghost u = unsaved_view(unsaved@);
        let mut i: usize = unsaved.len();
        proof {
            assert(u.take(i as int) =~= u);
            lemma_merge_empty(s0);
            lemma_merge_empty(rollback(g0, u).summary);
        }
        while i > 0
            invariant
                i <= unsaved.len(),
                u == unsaved_view(unsaved@),
                all_unsaved_wf(unsaved@),
                grid.wf(),
                rollback(g0, u).grid == rollback(grid@, u.take(i as int)).grid,
                s0.merge(rollback(g0, u).summary) == summary@.merge(
                    rollback(grid@, u.take(i as int)).summary,
                ),
            decreases i,
        {
            let ghost part = u.take(i as int);
            let ghost g = grid@;
            let ghost sm = summary@;
            proof {
                assert(part.last() == u[i - 1]);
                assert(part.drop_last() =~= u.take(i - 1));
            }
            let ops: Vec<Operation> = duplicate_ops(&unsaved[i - 1].reverse.operations);
            let o: Outcome = transact(grid, ops, None, false);
            summary.merge(o.summary);
            proof {
                let e = run(g, u[i - 1].reverse.operations, None);
                let rest = rollback(e.grid, u.take(i - 1));
                lemma_merge_assoc(sm, e.summary, rest.summary);
            }
            i -= 1;
        }
        proof {
            assert(u.take(0) =~= Seq::<UnsavedView>::empty());
            lemma_merge_empty(summary@);
        }
    }

    /// Reapplies the rolled-back unsaved transactions after adding earlier
    /// transactions: runs the forward operations of each again, the oldest
    /// first, keeps for each the reverse operations this run gave, and merges
    /// what they changed into `summary`.
    fn reapply_unsaved_transactions(
        grid: &mut Grid,
        unsaved: Vec<UnsavedTransaction>,
        summary: &mut TransactionSummary,
    ) -> (r: Vec<UnsavedTransaction>)
        requires
            old(grid).wf(),
            all_unsaved_wf(unsaved@),
        ensures
            final(grid).wf(),
            all_unsaved_wf(r@),
            final(grid)@ == reapply(old(grid)@, unsaved_view(unsaved@)).grid,
            unsaved_view(r@) == reapply(old(grid)@, unsaved_view(unsaved@)).unsaved,
            final(summary)@ == old(summary)@.merge(
                reapply(old(grid)@, unsaved_view(unsaved@)).summary,
            ),
    {
        let ghost g0 = grid@;
        let ghost s0 = summary@;
        let ghost u = unsaved_view(unsaved@);
        let n: usize = unsaved.len();
        let mut stack: Vec<UnsavedTransaction> = reversed_unsaved(unsaved);
        let mut out: Vec<UnsavedTransaction> = Vec::new();
        let mut i: usize = 0;
        proof {
            assert(u.take(0) =~= Seq::<UnsavedView>::empty());
            lemma_merge_empty(s0);
            assert(unsaved_view(out@) =~= Seq::<UnsavedView>::empty());
        }
        while i < n
            invariant
                i <= n,
                n == unsaved@.len(),
                u == unsaved_view(unsaved@),
                all_unsaved_wf(unsaved@),
                stack.len() == n - i,
                forall|t: int| 0 <= t < stack.len() ==> stack@[t] == unsaved@[n - 1 - t],
                grid.wf(),
                all_unsaved_wf(out@),
                grid@ == reapply(g0, u.take(i as int)).grid,
                unsaved_view(out@) == reapply(g0, u.take(i as int)).unsaved,
                summary@ == s0.merge(reapply(g0, u.take(i as int)).summary),
            decreases n - i,
        {
            let t: UnsavedTransaction = match stack.pop() {
                Some(t) => t,
                None => {
                    proof {
                        assert(false);
                    }
                    return out;
                },
            };
            assert(t == unsaved@[i as int]);
            let ghost part = u.take(i + 1);
            let ghost before = reapply(g0, u.take(i as int));
            let ghost old_out = out@;
            proof {
                assert(part.last() == u[i as int]);
                assert(part.drop_last() =~= u.take(i as int));
            }
            let ops: Vec<Operation> = duplicate_ops(&t.forward.operations);
            let o: Outcome = transact(grid, ops, None, false);
            let UnsavedTransaction { forward, reverse } = t;
            let Outcome { forward: _, reverse: undo, summary: changed } = o;
            let redone = UnsavedTransaction {
                forward,
                reverse: Transaction {
                    id: reverse.id,
                    sequence_num: reverse.sequence_num,
                    operations: undo,
                    cursor: reverse.cursor,
                },
            };
            out.push(redone);
            summary.merge(changed);
            proof {
                let e = run(before.grid, u[i as int].forward.operations, None);
                lemma_merge_assoc(s0, before.summary, e.summary);
                assert(unsaved_view(out@) =~= unsaved_view(old_out).push(redone@));
            }
            i += 1;
        }
        proof {
            assert(u.take(n as int) =~= u);
        }
        out
    }

    /// Checks the out-of-order transactions after the sequence number `seq`
    /// was applied: those next in sequence leave the list, and their
    /// operations are run as one batch. Hands back the last sequence number
    /// that is applied now.
    fn apply_out_of_order_transactions(
        grid: &mut Grid,
        out_of_order: &mut Vec<Transaction>,
        seq: u64,
        summary: &mut TransactionSummary,
    ) -> (last: u64)
        requires
            old(grid).wf(),
            all_transactions_wf(old(out_of_order)@),
        ensures
            final(grid).wf(),
            all_transactions_wf(final(out_of_order)@),
            final(grid)@ == drained(old(grid)@, seq, transactions_view(old(out_of_order)@)).grid,
            transactions_view(final(out_of_order)@) == drained(
                old(grid)@,
                seq,
                transactions_view(old(out_of_order)@),
            ).out_of_order,
            last == seq + drain_count(seq + 1, transactions_view(old(out_of_order)@)),
            final(summary)@ == old(summary)@.merge(
                drained(old(grid)@, seq, transactions_view(old(out_of_order)@)).summary,
            ),
    {
        let ghost g0 = grid@;
        let ghost all = transactions_view(out_of_order@);
        let ghost whole = out_of_order@;
        let mut last: u64 = seq;
        let mut operations: Vec<Operation> = Vec::new();
        let ghost mut k: int = 0;
        proof {
            assert(all.skip(0) =~= all);
            assert(ops_view(operations@) =~= drain_ops(all, 0));
        }
        loop
            invariant
                0 <= k <= all.len(),
                all == transactions_view(whole),
                all_transactions_wf(whole),
                out_of_order@ == whole.skip(k),
                last == seq + k,
                drain_count(seq + 1, all) == k + drain_count(last + 1, all.skip(k)),
                all_wf(operations@),
                ops_view(operations@) == drain_ops(all, k),
                grid@ == g0,
                grid.wf(),
                summary@ == old(summary)@,
            ensures
                0 <= k <= all.len(),
                drain_count(seq + 1, all) == k,
                last == seq + k,
                out_of_order@ == whole.skip(k),
                all_transactions_wf(whole),
                all == transactions_view(whole),
                all_wf(operations@),
                ops_view(operations@) == drain_ops(all, k),
                grid@ == g0,
                grid.wf(),
                summary@ == old(summary)@,
            decreases all.len() - k,
        {
            if out_of_order.len() == 0 {
                break ;
            }
            proof {
                assert(out_of_order@[0] == whole[k]);
                assert(all.skip(k)[0] == whole[k]@);
            }
            let next_in_sequence: bool = match out_of_order[0].sequence_num {
                Some(x) => last < u64::MAX && x == last + 1,
                None => false,
            };
            if !next_in_sequence {
                break ;
            }
            let t: Transaction = out_of_order.remove(0);
            let ghost before = operations@;
            let Transaction { id: _, sequence_num: _, operations: mut more, cursor: _ } = t;
            operations.append(&mut more);
            proof {
                assert(all.skip(k).skip(1) =~= all.skip(k + 1));
                assert(out_of_order@ =~= whole.skip(k + 1));
                assert(ops_view(operations@) =~= ops_view(before) + all[k].operations);
            }
            last = last + 1;
            proof {
                k = k + 1;
            }
        }
        let ghost left = out_of_order@;
        proof {
            assert(transactions_view(left) =~= all.skip(k));
            assert forall|i: int| 0 <= i < left.len() implies (#[trigger] left[i]).wf() by {
                assert(left[i] == whole[i + k]);
            }
        }
        let o: Outcome = transact(grid, operations, None, false);
        summary.merge(o.summary);
        last
    }

    /// Rolls the unsaved transactions back, runs `remote`, drains the
    /// out-of-order transactions and runs the unsaved transactions again,
    /// without the one at index `skip`; see [`rebase`].
    fn rebase_on(&mut self, skip: Option<usize>, remote: Vec<Operation>, seq: u64) -> (summary:
        TransactionSummary)
        requires
            old(self).wf(),
            all_wf(remote@),
            seq == old(self)@.last_sequence_num + 1,
            skip is Some ==> skip->Some_0 < old(self)@.unsaved.len(),
        ensures
            final(self).wf(),
            final(self)@ == rebase(
                old(self)@,
                old(self)@.unsaved,
                if skip is Some {
                    old(self)@.unsaved.remove(skip->Some_0 as int)
                } else {
                    old(self)@.unsaved
                },
                ops_view(remote@),
                seq,
            ).state,
            summary@ == rebase(
                old(self)@,
                old(self)@.unsaved,
                if skip is Some {
                    old(self)@.unsaved.remove(skip->Some_0 as int)
                } else {
                    old(self)@.unsaved
                },
                ops_view(remote@),
                seq,
            ).summary,
    {
        let ghost c0 = self@;
        let ghost rest = if skip is Some {
            c0.unsaved.remove(skip->Some_0 as int)
        } else {
            c0.unsaved
        };
        let ghost want = rebase(c0, c0.unsaved, rest, ops_view(remote@), seq);
        proof {
            lemma_all_wf(remote@);
            lemma_unsaved_wf(self.unsaved_transactions@);
            if skip is Some {
                lemma_unsaved_wf_parts(c0.unsaved, skip->Some_0 as int);
            }
            lemma_rebase(c0, c0.unsaved, rest, ops_view(remote@), seq);
        }
        let mut summary = TransactionSummary::new();
        Self::rollback_unsaved_transactions(
            &mut self.grid,
            &self.unsaved_transactions,
            &mut summary,
        );
        let mut unsaved: Vec<UnsavedTransaction> = Vec::new();
        std::mem::swap(&mut unsaved, &mut self.unsaved_transactions);
        match skip {
            Some(index) => {
                let ghost before = unsaved@;
                unsaved.remove(index);
                proof {
                    assert(unsaved_view(unsaved@) =~= rest);
                    assert forall|i: int| 0 <= i < unsaved@.len() implies (#[trigger] unsaved@[i]).wf() by {
                        if i < index {
                            assert(unsaved@[i] == before[i]);
                        } else {
                            assert(unsaved@[i] == before[i + 1]);
                        }
                    }
                }
            },
            None => {},
        }
        let o: Outcome = transact(&mut self.grid, remote, None, false);
        summary.merge(o.summary);
        let last: u64 = Self::apply_out_of_order_transactions(
            &mut self.grid,
            &mut self.out_of_order_transactions,
            seq,
            &mut summary,
        );
        self.last_sequence_num = last;
        self.unsaved_transactions = Self::reapply_unsaved_transactions(
            &mut self.grid,
            unsaved,
            &mut summary,
        );
        proof {
            lemma_merge_empty(rollback(c0.grid, c0.unsaved).summary);
            assert(self@ == want.state);
        }
        summary
    }

    /// The index of the first unsaved transaction with the id `id`.
    fn find_unsaved(&self, id: TransactionId) -> (r: Option<usize>)
        ensures
            r is Some <==> first_with_id(self@.unsaved, id) < self@.unsaved.len(),
            r is Some ==> r->Some_0 == first_with_id(self@.unsaved, id),
    {
        let ghost u = self@.unsaved;
        let mut i: usize = 0;
        proof {
            assert(u.skip(0) =~= u);
        }
        while i < self.unsaved_transactions.len()
            invariant
                i <= self.unsaved_transactions.len(),
                u == self@.unsaved,
                first_with_id(u, id) == i + first_with_id(u.skip(i as int), id),
            decreases self.unsaved_transactions.len() - i,
        {
            proof {
                assert(u.skip(i as int)[0] == u[i as int]);
                assert(u.skip(i as int).skip(1) =~= u.skip(i + 1));
            }
            if self.unsaved_transactions[i].forward.id == id {
                return Some(i);
            }
            i += 1;
        }
        None
    }

    /// Used by the client to ensure transactions are applied in order; what
    /// it does is what [`deliver`] says. Hands back the summary of all that
    /// was run.
    pub fn client_apply_transaction(
        &mut self,
        transaction_id: TransactionId,
        sequence_num: u64,
        operations: Vec<Operation>,
    ) -> (summary: TransactionSummary)
        requires
            old(self).wf(),
            all_wf(operations@),
        ensures
            final(self).wf(),
            final(self)@ == deliver(
                old(self)@,
                transaction_id,
                sequence_num,
                ops_view(operations@),
            ).state,
            summary@ == deliver(
                old(self)@,
                transaction_id,
                sequence_num,
                ops_view(operations@),
            ).summary,
            final(self)@.last_sequence_num >= old(self)@.last_sequence_num,
    {
        let ghost c0 = self@;
        let ghost ov = ops_view(operations@);
        proof {
            lemma_all_wf(operations@);
            lemma_deliver(c0, transaction_id, sequence_num, ov);
            lemma_first_with_id(c0.unsaved, transaction_id);
        }
        if self.last_sequence_num < u64::MAX && sequence_num == self.last_sequence_num + 1 {
            match self.find_unsaved(transaction_id) {
                Some(index) => {
                    if index == 0 {
                        let ghost before = self.unsaved_transactions@;
                        self.unsaved_transactions.remove(0);
                        proof {
                            assert(unsaved_view(self.unsaved_transactions@) =~= c0.unsaved.skip(1));
                            assert forall|i: int|
                                0 <= i < self.unsaved_transactions@.len() implies (
                            #[trigger] self.unsaved_transactions@[i]).wf() by {
                                assert(self.unsaved_transactions@[i] == before[i + 1]);
                            }
                            lemma_chain_skip(c0.grid, c0.unsaved);
                            lemma_unsaved_wf_parts(c0.unsaved, 0);
                        }
                        let due: bool = self.out_of_order_transactions.len() > 0 && match self.out_of_order_transactions[0].sequence_num {
                            Some(x) => sequence_num < u64::MAX && x == sequence_num + 1,
                            None => false,
                        };
                        if due {
                            let s = self.rebase_on(None, Vec::new(), sequence_num);
                            proof {
                                assert(ops_view(Seq::<Operation>::empty()) =~= Seq::<OpView>::empty());
                            }
                            s
                        } else {
                            self.last_sequence_num = sequence_num;
                            TransactionSummary::new()
                        }
                    } else {
                        self.rebase_on(Some(index), operations, sequence_num)
                    }
                },
                None => {
                    if self.unsaved_transactions.len() > 0 {
                        self.rebase_on(None, operations, sequence_num)
                    } else {
                        proof {
                            assert(c0.unsaved =~= Seq::<UnsavedView>::empty());
                        }
                        let mut s = self.rebase_on(None, operations, sequence_num);
                        s.generate_thumbnail = false;
                        s
                    }
                },
            }
        } else if sequence_num > self.last_sequence_num && sequence_num - self.last_sequence_num > 1 {
            let t = Transaction {
                id: transaction_id,
                sequence_num: Some(sequence_num),
                operations,
                cursor: None,
            };
            let ghost ooo = c0.out_of_order;
            let mut p: usize = 0;
            proof {
                assert(ooo.skip(0) =~= ooo);
                self.lemma_wf();
            }
            while p < self.out_of_order_transactions.len() && comes_before(
                &self.out_of_order_transactions[p],
                sequence_num,
            )
                invariant
                    p <= self.out_of_order_transactions.len(),
                    ooo == self@.out_of_order,
                    self@ == c0,
                    out_of_order_wf(c0.last_sequence_num, ooo),
                    count_below(ooo, sequence_num as int) == p + count_below(
                        ooo.skip(p as int),
                        sequence_num as int,
                    ),
                decreases self.out_of_order_transactions.len() - p,
            {
                proof {
                    assert(ooo.skip(p as int)[0] == ooo[p as int]);
                    assert(ooo.skip(p as int).skip(1) =~= ooo.skip(p + 1));
                }
                p += 1;
            }
            proof {
                if p < ooo.len() {
                    assert(ooo.skip(p as int)[0] == ooo[p as int]);
                    assert(ooo[p as int].sequence_num is Some);
                }
            }
            let held: bool = p < self.out_of_order_transactions.len() && match self.out_of_order_transactions[p].sequence_num {
                Some(x) => x == sequence_num,
                None => false,
            };
            if !held {
                let ghost before = self.out_of_order_transactions@;
                self.out_of_order_transactions.insert(p, t);
                proof {
                    assert(transactions_view(self.out_of_order_transactions@) =~= ooo.insert(
                        p as int,
                        t@,
                    ));
                    assert forall|i: int|
                        0 <= i < self.out_of_order_transactions@.len() implies (
                    #[trigger] self.out_of_order_transactions@[i]).wf() by {
                        if i < p {
                            assert(self.out_of_order_transactions@[i] == before[i]);
                        } else if i > p {
                            assert(self.out_of_order_transactions@[i] == before[i - 1]);
                        }
                    }
                }
            }
            TransactionSummary::new()
        } else {
            TransactionSummary::new()
        }
    }

    /// Takes in one transaction of the server and hands back the one summary
    /// of all that it led to, with nothing to save and no operations to send.
    pub fn received_transaction(
        &mut self,
        transaction_id: TransactionId,
        sequence_num: u64,
        operations: Vec<Operation>,
    ) -> (summary: TransactionSummary)
        requires
            old(self).wf(),
            all_wf(operations@),
        ensures
            final(self).wf(),
            final(self)@ == deliver(
                old(self)@,
                transaction_id,
                sequence_num,
                ops_view(operations@),
            ).state,
            summary@ == delivery_summary(
                deliver(old(self)@, transaction_id, sequence_num, ops_view(operations@)).summary,
            ),
            final(self)@.last_sequence_num >= old(self)@.last_sequence_num,
    {
        let mut summary = self.client_apply_transaction(transaction_id, sequence_num, operations);
        summary.operations = None;
        summary.save = false;
        summary
    }

    /// Takes in transactions of the server, one after the other, and hands
    /// back the one summary of all that they led to. Each must carry its
    /// sequence number.
    pub fn received_transactions(&mut self, transactions: &Vec<Transaction>) -> (summary:
        TransactionSummary)
        requires
            old(self).wf(),
            all_transactions_wf(transactions@),
            forall|i: int| 0 <= i < transactions@.len() ==> (#[trigger] transactions@[i]).sequence_num
                is Some,
        ensures
            final(self).wf(),
            final(self)@ == deliver_all(old(self)@, transactions_view(transactions@)).state,
            summary@ == delivery_summary(
                deliver_all(old(self)@, transactions_view(transactions@)).summary,
            ),
            final(self)@.last_sequence_num >= old(self)@.last_sequence_num,
    {
        let ghost c0 = self@;
        let ghost ts = transactions_view(transactions@);
        let mut summary = TransactionSummary::new();
        let mut i: usize = 0;
        proof {
            assert(ts.take(0) =~= Seq::<TransactionView>::empty());
        }
        while i < transactions.len()
            invariant
                i <= transactions.len(),
                ts == transactions_view(transactions@),
                all_transactions_wf(transactions@),
                forall|k: int|
                    0 <= k < transactions@.len() ==> (#[trigger] transactions@[k]).sequence_num
                        is Some,
                self.wf(),
                self@ == deliver_all(c0, ts.take(i as int)).state,
                summary@ == deliver_all(c0, ts.take(i as int)).summary,
                self@.last_sequence_num >= c0.last_sequence_num,
            decreases transactions.len() - i,
        {
            let t: &Transaction = &transactions[i];
            proof {
                assert(ts.take(i + 1).last() == ts[i as int]);
                assert(ts.take(i + 1).drop_last() =~= ts.take(i as int));
            }
            let seq: u64 = match t.sequence_num {
                Some(n) => n,
                None => {
                    proof {
                        assert(false);
                    }
                    0
                },
            };
            let one = self.client_apply_transaction(t.id, seq, duplicate_ops(&t.operations));
            summary.merge(one);
            i += 1;
        }
        proof {
            assert(ts.take(transactions@.len() as int) =~= ts);
        }
        summary.operations = None;
        summary.save = false;
        summary
    }

    /// Used by the server to apply transactions; since the server owns the
    /// sequence numbers there is no order to check. The operations are run
    /// under the unsaved transactions, if there are any: those are rolled
    /// back, the operations are run, and they are run again.
    pub fn server_apply_transaction(&mut self, operations: Vec<Operation>)
        requires
            old(self).wf(),
            all_wf(operations@),
        ensures
            final(self).wf(),
            final(self)@ == server_apply(old(self)@, ops_view(operations@)),
    {
        let ghost c0 = self@;
        proof {
            lemma_all_wf(operations@);
            lemma_unsaved_wf(self.unsaved_transactions@);
            lemma_server_apply(c0, ops_view(operations@));
        }
        let mut summary = TransactionSummary::new();
        Self::rollback_unsaved_transactions(
            &mut self.grid,
            &self.unsaved_transactions,
            &mut summary,
        );
        let mut unsaved: Vec<UnsavedTransaction> = Vec::new();
        std::mem::swap(&mut unsaved, &mut self.unsaved_transactions);
        let _ = transact(&mut self.grid, operations, None, false);
        self.unsaved_transactions = Self::reapply_unsaved_transactions(
            &mut self.grid,
            unsaved,
            &mut summary,
        );
    }

    /// Takes in the server's notice of its latest sequence number at the time
    /// `now`, in milliseconds; see [`sequence_notice`].
    pub fn receive_sequence_num_at(&mut self, sequence_num: u64, now: i64) -> (summary:
        TransactionSummary)
        requires
            old(self).wf(),
        ensures
            final(self).wf(),
            final(self)@ == sequence_notice(old(self)@, sequence_num, now).state,
            summary@ == sequence_notice(old(self)@, sequence_num, now).summary,
    {
        let mut summary = TransactionSummary::new();
        if sequence_num != self.last_sequence_num && self.last_sequence_num < u64::MAX {
            let due: bool = match self.last_need_request_transactions_time {
                None => true,
                Some(t) => {
                    let passed: i128 = now as i128 - t as i128;
                    let wait: i128 = self.throttle_seconds as i128 * 1000;
                    passed >= wait
                },
            };
            if due {
                self.last_need_request_transactions_time = Some(now);
                summary.request_transactions = Some(self.last_sequence_num + 1);
            }
        }
        summary
    }

    /// Takes in the server's notice of its latest sequence number, at the
    /// time the clock gives. A request for the missing transactions is made
    /// if the number is not the last one applied here and the last request is
    /// the throttle time back or more.
    pub fn receive_sequence_num(&mut self, sequence_num: u64) -> (summary: TransactionSummary)
        requires
            old(self).wf(),
        ensures
            final(self).wf(),
            exists|now: i64|
                final(self)@ == (#[trigger] sequence_notice(old(self)@, sequence_num, now)).state
                    && summary@ == sequence_notice(old(self)@, sequence_num, now).summary,
    {
        self.receive_sequence_num_at(sequence_num, now_millis())
    }
}

} // verus!
