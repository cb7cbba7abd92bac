//! Laws of the replication protocol: deliveries keep the state valid, the
//! sequence number never goes back, and the grid always is the acknowledged
//! state with the unsaved transactions run on top.

use vstd::prelude::*;
use crate::ids::{SheetId, TransactionId};
use crate::sheet::SheetView;
use crate::grid::grid_wf;
use crate::operation::{OpView, TransactionView, ops_wf};
use crate::apply::apply_ops;
use crate::controller::model::{
    ControllerView, UnsavedView, TransactionType, run, chain, rollback, reapply, acknowledged,
    seq_of, out_of_order_wf, transactions_wf, unsaved_wf, first_with_id, drain_count, drain_ops,
    drained, count_below, out_of_order_insert, rebase, deliver, deliver_all, local_step,
    sequence_notice, server_apply,
};
use crate::controller::local_laws::lemma_run;

verus! {

/// Rolling back valid transactions on a valid grid gives a valid grid.
pub proof fn lemma_rollback_wf(g: Seq<SheetView>, u: Seq<UnsavedView>)
    requires
        grid_wf(g),
        unsaved_wf(u),
    ensures
        grid_wf(rollback(g, u).grid),
    decreases u.len(),
{
    if u.len() > 0 {
        lemma_run(g, u.last().reverse.operations, None);
        assert(unsaved_wf(u.drop_last())) by {
            assert forall|i: int| 0 <= i < u.drop_last().len() implies ops_wf(
                (#[trigger] u.drop_last()[i]).forward.operations,
            ) && ops_wf(u.drop_last()[i].reverse.operations) by {
                assert(u.drop_last()[i] == u[i]);
            }
        }
        lemma_rollback_wf(run(g, u.last().reverse.operations, None).grid, u.drop_last());
    }
}

/// A list of valid transactions without its last is a list of valid
/// transactions.
pub proof fn lemma_unsaved_wf_drop_last(u: Seq<UnsavedView>)
    requires
        unsaved_wf(u),
        u.len() > 0,
    ensures
        unsaved_wf(u.drop_last()),
        ops_wf(u.last().forward.operations),
        ops_wf(u.last().reverse.operations),
{
    assert forall|i: int| 0 <= i < u.drop_last().len() implies ops_wf(
        (#[trigger] u.drop_last()[i]).forward.operations,
    ) && ops_wf(u.drop_last()[i].reverse.operations) by {
        assert(u.drop_last()[i] == u[i]);
    }
}

/// Running valid transactions again on a valid grid gives a valid grid and
/// unsaved transactions that are undone exactly by their new reverse
/// operations; what was sent to the server stays as it is.
pub proof fn lemma_reapply(g: Seq<SheetView>, u: Seq<UnsavedView>)
    requires
        grid_wf(g),
        unsaved_wf(u),
    ensures
        grid_wf(reapply(g, u).grid),
        unsaved_wf(reapply(g, u).unsaved),
        chain(reapply(g, u).grid, reapply(g, u).unsaved),
        reapply(g, u).unsaved.len() == u.len(),
        forall|i: int| 0 <= i < u.len() ==> (#[trigger] reapply(g, u).unsaved[i]).forward == u[i].forward,
        rollback(reapply(g, u).grid, reapply(g, u).unsaved).grid == g,
    decreases u.len(),
{
    if u.len() > 0 {
        lemma_unsaved_wf_drop_last(u);
        lemma_reapply(g, u.drop_last());
        let before = reapply(g, u.drop_last());
        let t = u.last();
        let r = reapply(g, u);
        lemma_run(before.grid, t.forward.operations, None);
        let e = run(before.grid, t.forward.operations, None);
        assert(r.unsaved.last().reverse.operations == e.reverse);
        assert(r.unsaved.drop_last() =~= before.unsaved);
        assert(unsaved_wf(r.unsaved)) by {
            assert forall|i: int| 0 <= i < r.unsaved.len() implies ops_wf(
                (#[trigger] r.unsaved[i]).forward.operations,
            ) && ops_wf(r.unsaved[i].reverse.operations) by {
                if i < before.unsaved.len() {
                    assert(r.unsaved[i] == before.unsaved[i]);
                }
            }
        }
        assert forall|i: int| 0 <= i < u.len() implies (#[trigger] r.unsaved[i]).forward
            == u[i].forward by {
            if i < u.len() - 1 {
                assert(r.unsaved[i] == before.unsaved[i]);
                assert(u.drop_last()[i] == u[i]);
            }
        }
        // the new reverse operations lead back to the grid before
        assert(apply_ops(e.grid, e.reverse, None) is Some);
        assert(run(e.grid, e.reverse, None).grid == before.grid);
    }
}

/// Unsaved preservation. In every valid state, the unsaved transactions run
/// in order on the acknowledged state give exactly the grid the user sees,
/// and the reverse operations that are kept.
pub proof fn lemma_unsaved_preserved(c: ControllerView)
    requires
        c.wf(),
    ensures
        reapply(acknowledged(c), c.unsaved).grid == c.grid,
        reapply(acknowledged(c), c.unsaved).unsaved == c.unsaved,
{
    lemma_chain_replays(c.grid, c.unsaved);
}

/// A chain of unsaved transactions, rolled back and run again, gives the
/// grid and the transactions it started from.
pub proof fn lemma_chain_replays(g: Seq<SheetView>, u: Seq<UnsavedView>)
    requires
        grid_wf(g),
        unsaved_wf(u),
        chain(g, u),
    ensures
        reapply(rollback(g, u).grid, u).grid == g,
        reapply(rollback(g, u).grid, u).unsaved == u,
    decreases u.len(),
{
    if u.len() == 0 {
        assert(reapply(g, u).unsaved =~= u);
    } else {
        let t = u.last();
        lemma_unsaved_wf_drop_last(u);
        lemma_run(g, t.reverse.operations, None);
        let back = run(g, t.reverse.operations, None);
        lemma_chain_replays(back.grid, u.drop_last());
        let base = rollback(g, u).grid;
        let before = reapply(base, u.drop_last());
        let e = run(before.grid, t.forward.operations, None);
        let again = reapply(base, u);
        assert(again.unsaved.last() == t);
        assert(again.unsaved =~= u);
    }
}

/// Taking the oldest transaction off a chain leaves a chain.
pub proof fn lemma_chain_skip(g: Seq<SheetView>, u: Seq<UnsavedView>)
    requires
        chain(g, u),
        u.len() > 0,
    ensures
        chain(g, u.skip(1)),
    decreases u.len(),
{
    if u.len() > 1 {
        let t = u.last();
        let back = apply_ops(g, t.reverse.operations, None)->Some_0;
        lemma_chain_skip(back.grid, u.drop_last());
        assert(u.skip(1).last() == t);
        assert(u.skip(1).drop_last() =~= u.drop_last().skip(1));
    }
}

/// What is drained: the first out-of-order transactions, as far as their
/// sequence numbers go on without a gap.
pub proof fn lemma_drain_count(next: int, ooo: Seq<TransactionView>)
    ensures
        drain_count(next, ooo) <= ooo.len(),
        forall|i: int|
            0 <= i < drain_count(next, ooo) ==> (#[trigger] ooo[i]).sequence_num is Some
                && seq_of(ooo[i]) == next + i,
        drain_count(next, ooo) < ooo.len() ==> !(ooo[drain_count(next, ooo) as int].sequence_num
            is Some && seq_of(ooo[drain_count(next, ooo) as int]) == next + drain_count(
            next,
            ooo,
        )),
    decreases ooo.len(),
{
    if ooo.len() > 0 && ooo[0].sequence_num is Some && seq_of(ooo[0]) == next {
        lemma_drain_count(next + 1, ooo.skip(1));
        let k = drain_count(next, ooo);
        assert forall|i: int| 0 <= i < k implies (#[trigger] ooo[i]).sequence_num is Some && seq_of(
            ooo[i],
        ) == next + i by {
            if i > 0 {
                assert(ooo[i] == ooo.skip(1)[i - 1]);
            }
        }
        if k < ooo.len() {
            assert(ooo[k as int] == ooo.skip(1)[k - 1]);
        }
    }
}

/// The joined operations of valid transactions are valid.
pub proof fn lemma_drain_ops_wf(ooo: Seq<TransactionView>, k: int)
    requires
        transactions_wf(ooo),
        0 <= k <= ooo.len(),
    ensures
        ops_wf(drain_ops(ooo, k)),
    decreases k,
{
    if k > 0 {
        lemma_drain_ops_wf(ooo, k - 1);
        let a = drain_ops(ooo, k - 1);
        let b = ooo[k - 1].operations;
        assert forall|i: int| 0 <= i < (a + b).len() implies (#[trigger] (a + b)[i]).wf() by {
            if i < a.len() {
                assert((a + b)[i] == a[i]);
            } else {
                assert((a + b)[i] == b[i - a.len()]);
            }
        }
    }
}

/// Draining keeps the grid valid, moves the sequence number forward, and
/// leaves out-of-order transactions that are still ahead of it by a gap.
pub proof fn lemma_drained(g: Seq<SheetView>, last: u64, seq: u64, ooo: Seq<TransactionView>)
    requires
        grid_wf(g),
        transactions_wf(ooo),
        out_of_order_wf(last, ooo),
        seq == last + 1,
    ensures
        grid_wf(drained(g, seq, ooo).grid),
        transactions_wf(drained(g, seq, ooo).out_of_order),
        out_of_order_wf(drained(g, seq, ooo).last_sequence_num, drained(g, seq, ooo).out_of_order),
        drained(g, seq, ooo).last_sequence_num == seq + drain_count(seq + 1, ooo),
        drained(g, seq, ooo).last_sequence_num >= seq,
{
    let k = drain_count(seq + 1, ooo) as int;
    lemma_drain_count(seq + 1, ooo);
    lemma_drain_ops_wf(ooo, k);
    lemma_run(g, drain_ops(ooo, k), None);
    let d = drained(g, seq, ooo);
    if k > 0 {
        assert(seq_of(ooo[k - 1]) == seq + 1 + (k - 1));
    }
    assert(d.last_sequence_num == seq + k);
    assert forall|i: int| 0 <= i < d.out_of_order.len() implies (
    #[trigger] d.out_of_order[i]).sequence_num is Some && seq_of(d.out_of_order[i]) > seq + k + 1
        && ops_wf(d.out_of_order[i].operations) by {
        assert(d.out_of_order[i] == ooo[i + k]);
        if i > 0 {
            assert(seq_of(ooo[k]) < seq_of(ooo[i + k]));
        }
        if k > 0 {
            assert(seq_of(ooo[k - 1]) < seq_of(ooo[k]));
        } else {
            assert(seq_of(ooo[0]) > last + 1);
        }
    }
    assert forall|i: int, j: int| 0 <= i < j < d.out_of_order.len() implies seq_of(
        #[trigger] d.out_of_order[i],
    ) < seq_of(#[trigger] d.out_of_order[j]) by {
        assert(d.out_of_order[i] == ooo[i + k]);
        assert(d.out_of_order[j] == ooo[j + k]);
    }
}

/// Where a transaction goes in: behind all with a smaller sequence number.
pub proof fn lemma_count_below(ooo: Seq<TransactionView>, seq: int)
    ensures
        0 <= count_below(ooo, seq) <= ooo.len(),
        forall|i: int| 0 <= i < count_below(ooo, seq) ==> seq_of(#[trigger] ooo[i]) < seq,
        count_below(ooo, seq) < ooo.len() ==> seq_of(ooo[count_below(ooo, seq)]) >= seq,
    decreases ooo.len(),
{
    if ooo.len() > 0 && seq_of(ooo[0]) < seq {
        lemma_count_below(ooo.skip(1), seq);
        let p = count_below(ooo, seq);
        assert forall|i: int| 0 <= i < p implies seq_of(#[trigger] ooo[i]) < seq by {
            if i > 0 {
                assert(ooo[i] == ooo.skip(1)[i - 1]);
            }
        }
        if p < ooo.len() {
            assert(ooo[p] == ooo.skip(1)[p - 1]);
        }
    }
}

/// Holding back a transaction that is ahead of the sequence by a gap keeps
/// the out-of-order transactions in order.
pub proof fn lemma_out_of_order_insert(last: u64, ooo: Seq<TransactionView>, t: TransactionView)
    requires
        out_of_order_wf(last, ooo),
        transactions_wf(ooo),
        t.sequence_num is Some,
        seq_of(t) > last + 1,
        ops_wf(t.operations),
    ensures
        out_of_order_wf(last, out_of_order_insert(ooo, t)),
        transactions_wf(out_of_order_insert(ooo, t)),
{
    let p = count_below(ooo, seq_of(t));
    lemma_count_below(ooo, seq_of(t));
    let r = out_of_order_insert(ooo, t);
    if !(p < ooo.len() && seq_of(ooo[p]) == seq_of(t)) {
        assert forall|i: int| 0 <= i < r.len() implies #[trigger] r[i] == (if i < p {
            ooo[i]
        } else if i == p {
            t
        } else {
            ooo[i - 1]
        }) by {}
        assert forall|i: int, j: int| 0 <= i < j < r.len() implies seq_of(#[trigger] r[i]) < seq_of(
            #[trigger] r[j],
        ) by {
            if j == p {
            } else if i == p {
                if j - 1 > p {
                    assert(seq_of(ooo[p]) < seq_of(ooo[j - 1]));
                }
            } else if i < p && j > p {
                assert(seq_of(ooo[i]) < seq_of(ooo[j - 1]));
            } else if i < p {
                assert(seq_of(ooo[i]) < seq_of(ooo[j]));
            } else {
                assert(seq_of(ooo[i - 1]) < seq_of(ooo[j - 1]));
            }
        }
    }
}

/// A rebase keeps the state valid, moves the sequence number to `seq` or
/// further, and turns the acknowledged state into the one before with the
/// server's operations and the drained batch run on it.
pub proof fn lemma_rebase(
    c: ControllerView,
    rolled: Seq<UnsavedView>,
    rest: Seq<UnsavedView>,
    remote: Seq<OpView>,
    seq: u64,
)
    requires
        c.wf(),
        unsaved_wf(rolled),
        unsaved_wf(rest),
        ops_wf(remote),
        seq == c.last_sequence_num + 1,
    ensures
        rebase(c, rolled, rest, remote, seq).state.wf(),
        rebase(c, rolled, rest, remote, seq).state.last_sequence_num >= seq,
        acknowledged(rebase(c, rolled, rest, remote, seq).state) == drained(
            run(rollback(c.grid, rolled).grid, remote, None).grid,
            seq,
            c.out_of_order,
        ).grid,
{
    lemma_rollback_wf(c.grid, rolled);
    let back = rollback(c.grid, rolled);
    lemma_run(back.grid, remote, None);
    let e = run(back.grid, remote, None);
    lemma_drained(e.grid, c.last_sequence_num, seq, c.out_of_order);
    let d = drained(e.grid, seq, c.out_of_order);
    lemma_reapply(d.grid, rest);
}

/// The skipped and shortened lists of valid transactions are valid.
pub proof fn lemma_unsaved_wf_parts(u: Seq<UnsavedView>, i: int)
    requires
        unsaved_wf(u),
        0 <= i < u.len(),
    ensures
        unsaved_wf(u.skip(1)),
        unsaved_wf(u.remove(i)),
{
    assert forall|k: int| 0 <= k < u.skip(1).len() implies ops_wf(
        (#[trigger] u.skip(1)[k]).forward.operations,
    ) && ops_wf(u.skip(1)[k].reverse.operations) by {
        assert(u.skip(1)[k] == u[k + 1]);
    }
    assert forall|k: int| 0 <= k < u.remove(i).len() implies ops_wf(
        (#[trigger] u.remove(i)[k]).forward.operations,
    ) && ops_wf(u.remove(i)[k].reverse.operations) by {
        if k < i {
            assert(u.remove(i)[k] == u[k]);
        } else {
            assert(u.remove(i)[k] == u[k + 1]);
        }
    }
}

/// The place of the first transaction with an id lies within the list or
/// just behind it.
pub proof fn lemma_first_with_id(u: Seq<UnsavedView>, id: TransactionId)
    ensures
        0 <= first_with_id(u, id) <= u.len(),
        first_with_id(u, id) < u.len() ==> u[first_with_id(u, id)].forward.id == id,
        forall|k: int| 0 <= k < first_with_id(u, id) ==> (#[trigger] u[k]).forward.id != id,
    decreases u.len(),
{
    if u.len() > 0 && u[0].forward.id != id {
        lemma_first_with_id(u.skip(1), id);
        let i = first_with_id(u, id);
        if i < u.len() {
            assert(u[i] == u.skip(1)[i - 1]);
        }
        assert forall|k: int| 0 <= k < i implies (#[trigger] u[k]).forward.id != id by {
            if k > 0 {
                assert(u[k] == u.skip(1)[k - 1]);
            }
        }
    }
}

/// Sequence monotonicity. A delivery of valid operations keeps the state
/// valid: in particular every out-of-order transaction stays ahead of the
/// last sequence number by a gap. And the last sequence number never goes
/// back.
pub proof fn lemma_deliver(c: ControllerView, id: TransactionId, seq: u64, ops: Seq<OpView>)
    requires
        c.wf(),
        ops_wf(ops),
    ensures
        deliver(c, id, seq, ops).state.wf(),
        deliver(c, id, seq, ops).state.last_sequence_num >= c.last_sequence_num,
{
    let i = first_with_id(c.unsaved, id);
    lemma_first_with_id(c.unsaved, id);
    if seq == c.last_sequence_num + 1 {
        if i < c.unsaved.len() {
            lemma_unsaved_wf_parts(c.unsaved, i);
            if i == 0 {
                let rest = c.unsaved.skip(1);
                if c.out_of_order.len() > 0 && c.out_of_order[0].sequence_num is Some && seq_of(
                    c.out_of_order[0],
                ) == seq + 1 {
                    lemma_rebase(c, rest, rest, Seq::empty(), seq);
                } else {
                    lemma_chain_skip(c.grid, c.unsaved);
                    let s = deliver(c, id, seq, ops).state;
                    assert forall|k: int| 0 <= k < s.out_of_order.len() implies seq_of(
                        #[trigger] s.out_of_order[k],
                    ) > seq + 1 by {
                        if k > 0 {
                            assert(seq_of(c.out_of_order[0]) < seq_of(c.out_of_order[k]));
                        }
                    }
                }
            } else {
                lemma_rebase(c, c.unsaved, c.unsaved.remove(i), ops, seq);
            }
        } else if c.unsaved.len() > 0 {
            lemma_rebase(c, c.unsaved, c.unsaved, ops, seq);
        } else {
            lemma_rebase(c, Seq::empty(), Seq::empty(), ops, seq);
        }
    } else if seq > c.last_sequence_num + 1 {
        lemma_out_of_order_insert(
            c.last_sequence_num,
            c.out_of_order,
            TransactionView { id, sequence_num: Some(seq), operations: ops, cursor: None },
        );
    }
}

/// In every valid state each out-of-order transaction has a sequence number
/// that strictly exceeds the last one applied, by two at least, and the
/// numbers ascend strictly.
pub proof fn lemma_out_of_order_ahead(c: ControllerView, i: int, j: int)
    requires
        c.wf(),
        0 <= i <= j < c.out_of_order.len(),
    ensures
        c.out_of_order[i].sequence_num is Some,
        seq_of(c.out_of_order[i]) > c.last_sequence_num + 1,
        i < j ==> seq_of(c.out_of_order[i]) < seq_of(c.out_of_order[j]),
{
}

/// A list of deliveries keeps the state valid and never moves the sequence
/// number back.
pub proof fn lemma_deliver_all(c: ControllerView, ts: Seq<TransactionView>)
    requires
        c.wf(),
        transactions_wf(ts),
    ensures
        deliver_all(c, ts).state.wf(),
        deliver_all(c, ts).state.last_sequence_num >= c.last_sequence_num,
    decreases ts.len(),
{
    if ts.len() > 0 {
        assert(transactions_wf(ts.drop_last())) by {
            assert forall|i: int| 0 <= i < ts.drop_last().len() implies ops_wf(
                (#[trigger] ts.drop_last()[i]).operations,
            ) by {
                assert(ts.drop_last()[i] == ts[i]);
            }
        }
        lemma_deliver_all(c, ts.drop_last());
        let before = deliver_all(c, ts.drop_last());
        let t = ts.last();
        lemma_deliver(before.state, t.id, t.sequence_num->Some_0, t.operations);
    }
}

/// A transaction delivered in sequence that is not the echo of the first
/// unsaved transaction changes the acknowledged state by exactly its
/// operations and those of the transactions that were waiting for it; the
/// unsaved transactions have no part in it.
pub proof fn lemma_delivery_acknowledged(c: ControllerView, id: TransactionId, seq: u64, ops: Seq<OpView>)
    requires
        c.wf(),
        ops_wf(ops),
        seq == c.last_sequence_num + 1,
        first_with_id(c.unsaved, id) != 0 || c.unsaved.len() == 0,
    ensures
        acknowledged(deliver(c, id, seq, ops).state) == drained(
            run(acknowledged(c), ops, None).grid,
            seq,
            c.out_of_order,
        ).grid,
{
    let i = first_with_id(c.unsaved, id);
    lemma_first_with_id(c.unsaved, id);
    if i < c.unsaved.len() {
        lemma_unsaved_wf_parts(c.unsaved, i);
        lemma_rebase(c, c.unsaved, c.unsaved.remove(i), ops, seq);
    } else if c.unsaved.len() > 0 {
        lemma_rebase(c, c.unsaved, c.unsaved, ops, seq);
    } else {
        lemma_rebase(c, Seq::empty(), Seq::empty(), ops, seq);
        assert(c.unsaved =~= Seq::<UnsavedView>::empty());
    }
}

/// Rolling back all but the oldest transaction of a chain leads to the grid
/// that the oldest one gave.
pub proof fn lemma_rollback_skip(g: Seq<SheetView>, u: Seq<UnsavedView>)
    requires
        grid_wf(g),
        unsaved_wf(u),
        chain(g, u),
        u.len() > 0,
    ensures
        rollback(g, u.skip(1)).grid == run(rollback(g, u).grid, u[0].forward.operations, None).grid,
    decreases u.len(),
{
    let t = u.last();
    lemma_unsaved_wf_drop_last(u);
    lemma_run(g, t.reverse.operations, None);
    let back = run(g, t.reverse.operations, None);
    if u.len() == 1 {
        assert(u.skip(1) =~= Seq::<UnsavedView>::empty());
        assert(u.drop_last() =~= Seq::<UnsavedView>::empty());
        assert(u[0] == t);
    } else {
        lemma_rollback_skip(back.grid, u.drop_last());
        assert(u.skip(1).last() == t);
        assert(u.skip(1).drop_last() =~= u.drop_last().skip(1));
        assert(u.drop_last()[0] == u[0]);
    }
}

/// The echo of the first unsaved transaction acknowledges it: the
/// acknowledged state changes by exactly the operations that were sent, and
/// by those of the transactions that were waiting for it.
pub proof fn lemma_echo_acknowledged(c: ControllerView, id: TransactionId, seq: u64, ops: Seq<OpView>)
    requires
        c.wf(),
        ops_wf(ops),
        seq == c.last_sequence_num + 1,
        c.unsaved.len() > 0,
        first_with_id(c.unsaved, id) == 0,
    ensures
        acknowledged(deliver(c, id, seq, ops).state) == drained(
            run(acknowledged(c), c.unsaved[0].forward.operations, None).grid,
            seq,
            c.out_of_order,
        ).grid,
{
    let rest = c.unsaved.skip(1);
    lemma_rollback_skip(c.grid, c.unsaved);
    lemma_unsaved_wf_parts(c.unsaved, 0);
    if c.out_of_order.len() > 0 && c.out_of_order[0].sequence_num is Some && seq_of(
        c.out_of_order[0],
    ) == seq + 1 {
        lemma_rebase(c, rest, rest, Seq::empty(), seq);
    } else {
        lemma_drain_count(seq + 1, c.out_of_order);
        let base = rollback(c.grid, rest).grid;
        assert(drain_ops(c.out_of_order, 0) =~= Seq::<OpView>::empty());
        assert(drained(base, seq, c.out_of_order).grid == base);
    }
}

/// A local transaction leaves the acknowledged state as it is.
pub proof fn lemma_local_keeps_acknowledged(
    c: ControllerView,
    kind: TransactionType,
    ops: Seq<OpView>,
    replacement: Option<SheetId>,
    id: TransactionId,
    stack_cursor: Option<Seq<char>>,
    summary_cursor: Option<Seq<char>>,
)
    requires
        c.wf(),
        ops_wf(ops),
    ensures
        acknowledged(local_step(c, kind, ops, replacement, id, stack_cursor, summary_cursor).state)
            == acknowledged(c),
{
    let s = local_step(c, kind, ops, replacement, id, stack_cursor, summary_cursor).state;
    let e = run(c.grid, ops, replacement);
    lemma_run(c.grid, ops, replacement);
    if e.reverse.len() > 0 {
        assert(s.unsaved.last().reverse.operations == e.reverse);
        assert(s.unsaved.drop_last() =~= c.unsaved);
        assert(run(e.grid, e.reverse, None).grid == c.grid);
    }
}

/// The server's notice of its sequence number changes neither the grid nor
/// the sequence.
pub proof fn lemma_sequence_notice(c: ControllerView, n: u64, now: i64)
    requires
        c.wf(),
    ensures
        sequence_notice(c, n, now).state.wf(),
        sequence_notice(c, n, now).state.last_sequence_num == c.last_sequence_num,
        sequence_notice(c, n, now).state.grid == c.grid,
{
}

/// A transaction applied on the server's behalf keeps the state valid and
/// changes the acknowledged state by exactly its operations.
pub proof fn lemma_server_apply(c: ControllerView, ops: Seq<OpView>)
    requires
        c.wf(),
        ops_wf(ops),
    ensures
        server_apply(c, ops).wf(),
        acknowledged(server_apply(c, ops)) == run(acknowledged(c), ops, None).grid,
        server_apply(c, ops).last_sequence_num == c.last_sequence_num,
{
    lemma_rollback_wf(c.grid, c.unsaved);
    let back = rollback(c.grid, c.unsaved);
    lemma_run(back.grid, ops, None);
    lemma_reapply(run(back.grid, ops, None).grid, c.unsaved);
}

} // verus!
