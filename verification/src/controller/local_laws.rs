//! Laws of local transactions: they keep the state valid, and undoing and
//! redoing are each other's inverse.

use vstd::prelude::*;
use crate::ids::{SheetId, TransactionId};
use crate::sheet::SheetView;
use crate::grid::grid_wf;
use crate::operation::{OpView, TransactionView, ops_wf};
use crate::apply::{Effect, apply_ops};
use crate::laws::{effect_sound, lemma_apply_ops_sound};
use crate::controller::model::{
    ControllerView, UnsavedView, TransactionType, run, chain, transactions_wf, unsaved_wf,
    local_step, undo_step, redo_step, user_step,
};

verus! {

/// Running valid operations on a valid grid gives a valid grid and valid
/// forward and reverse operations; the reverse operations lead back exactly,
/// and where there are none the grid has not changed.
pub proof fn lemma_run(g: Seq<SheetView>, ops: Seq<OpView>, replacement: Option<SheetId>)
    requires
        grid_wf(g),
        ops_wf(ops),
    ensures
        effect_sound(g, run(g, ops, replacement)),
        run(g, ops, replacement).reverse.len() == 0 ==> run(g, ops, replacement).grid == g,
{
    let e = run(g, ops, replacement);
    if apply_ops(g, ops, replacement) is Some {
        lemma_apply_ops_sound(g, ops, replacement);
    } else {
        assert(e == Effect::none(g));
    }
    if e.reverse.len() == 0 {
        assert(e.reverse =~= Seq::<OpView>::empty());
    }
}

/// A transaction that has just run is undone exactly by its reverse
/// operations: the chain of unsaved transactions goes on with it.
pub proof fn lemma_chain_push(
    g: Seq<SheetView>,
    u: Seq<UnsavedView>,
    ops: Seq<OpView>,
    replacement: Option<SheetId>,
    forward: TransactionView,
    reverse: TransactionView,
)
    requires
        grid_wf(g),
        ops_wf(ops),
        chain(g, u),
        forward.operations == run(g, ops, replacement).forward,
        reverse.operations == run(g, ops, replacement).reverse,
    ensures
        chain(run(g, ops, replacement).grid, u.push(UnsavedView { forward, reverse })),
{
    lemma_run(g, ops, replacement);
    let e = run(g, ops, replacement);
    let pushed = u.push(UnsavedView { forward, reverse });
    assert(pushed.last() == UnsavedView { forward, reverse });
    assert(pushed.drop_last() =~= u);
    let back = apply_ops(e.grid, e.reverse, None);
    assert(back is Some && back->Some_0.grid == g);
    assert(apply_ops(g, e.forward, None) is Some);
}

/// A local transaction with valid operations keeps the state valid, the grid
/// afterwards is the one that running the operations gives, and neither the
/// sequence number nor the out-of-order transactions change.
pub proof fn lemma_local_step(
    c: ControllerView,
    kind: TransactionType,
    ops: Seq<OpView>,
    replacement: Option<SheetId>,
    id: TransactionId,
    stack_cursor: Option<Seq<char>>,
    summary_cursor: Option<Seq<char>>,
)
    requires
        c.wf(),
        ops_wf(ops),
    ensures
        local_step(c, kind, ops, replacement, id, stack_cursor, summary_cursor).state.wf(),
        local_step(c, kind, ops, replacement, id, stack_cursor, summary_cursor).state.grid == run(
            c.grid,
            ops,
            replacement,
        ).grid,
        local_step(
            c,
            kind,
            ops,
            replacement,
            id,
            stack_cursor,
            summary_cursor,
        ).state.last_sequence_num == c.last_sequence_num,
        local_step(c, kind, ops, replacement, id, stack_cursor, summary_cursor).state.out_of_order
            == c.out_of_order,
{
    let s = local_step(c, kind, ops, replacement, id, stack_cursor, summary_cursor).state;
    let e = run(c.grid, ops, replacement);
    lemma_run(c.grid, ops, replacement);
    if e.reverse.len() > 0 {
        let inverse = TransactionView {
            id,
            sequence_num: None,
            operations: e.reverse,
            cursor: stack_cursor,
        };
        let forward = TransactionView {
            id,
            sequence_num: None,
            operations: e.forward,
            cursor: stack_cursor,
        };
        lemma_chain_push(c.grid, c.unsaved, ops, replacement, forward, inverse);
        assert(unsaved_wf(s.unsaved)) by {
            assert forall|i: int| 0 <= i < s.unsaved.len() implies ops_wf(
                (#[trigger] s.unsaved[i]).forward.operations,
            ) && ops_wf(s.unsaved[i].reverse.operations) by {
                if i < c.unsaved.len() {
                    assert(s.unsaved[i] == c.unsaved[i]);
                }
            }
        }
        assert(transactions_wf(s.undo_stack)) by {
            assert forall|i: int| 0 <= i < s.undo_stack.len() implies ops_wf(
                (#[trigger] s.undo_stack[i]).operations,
            ) by {
                if i < c.undo_stack.len() {
                    assert(s.undo_stack[i] == c.undo_stack[i]);
                }
            }
        }
        assert(transactions_wf(s.redo_stack)) by {
            assert forall|i: int| 0 <= i < s.redo_stack.len() implies ops_wf(
                (#[trigger] s.redo_stack[i]).operations,
            ) by {
                if i < c.redo_stack.len() {
                    assert(s.redo_stack[i] == c.redo_stack[i]);
                }
            }
        }
    }
}

/// What an undo does to the state: nothing where there is nothing to undo.
pub open spec fn undo_or_keep(c: ControllerView, id: TransactionId, cursor: Option<Seq<char>>) -> ControllerView {
    if c.undo_stack.len() == 0 {
        c
    } else {
        undo_step(c, id, cursor).state
    }
}

/// What a redo does to the state: nothing where there is nothing to redo.
pub open spec fn redo_or_keep(c: ControllerView, id: TransactionId, cursor: Option<Seq<char>>) -> ControllerView {
    if c.redo_stack.len() == 0 {
        c
    } else {
        redo_step(c, id, cursor).state
    }
}

/// The state after one undo for each of the ids, in order.
pub open spec fn undo_many(
    c: ControllerView,
    ids: Seq<TransactionId>,
    cursors: Seq<Option<Seq<char>>>,
) -> ControllerView
    decreases ids.len(),
{
    if ids.len() == 0 {
        c
    } else {
        undo_many(undo_or_keep(c, ids[0], cursors[0]), ids.skip(1), cursors.skip(1))
    }
}

/// The state after one redo for each of the ids, in order.
pub open spec fn redo_many(
    c: ControllerView,
    ids: Seq<TransactionId>,
    cursors: Seq<Option<Seq<char>>>,
) -> ControllerView
    decreases ids.len(),
{
    if ids.len() == 0 {
        c
    } else {
        redo_many(redo_or_keep(c, ids[0], cursors[0]), ids.skip(1), cursors.skip(1))
    }
}

/// Running the transactions of the redo stack, the top one first, leads from
/// `g` to `target`.
pub open spec fn redo_leads_to(g: Seq<SheetView>, redo: Seq<TransactionView>, target: Seq<SheetView>) -> bool
    decreases redo.len(),
{
    if redo.len() == 0 {
        g == target
    } else {
        redo_leads_to(run(g, redo.last().operations, None).grid, redo.drop_last(), target)
    }
}

/// An undo and a redo keep the state valid.
pub proof fn lemma_undo_redo_wf(c: ControllerView, id: TransactionId, cursor: Option<Seq<char>>)
    requires
        c.wf(),
    ensures
        undo_or_keep(c, id, cursor).wf(),
        redo_or_keep(c, id, cursor).wf(),
{
    if c.undo_stack.len() > 0 {
        let top = c.undo_stack.last();
        let popped = ControllerView { undo_stack: c.undo_stack.drop_last(), ..c };
        assert(transactions_wf(popped.undo_stack)) by {
            assert forall|i: int| 0 <= i < popped.undo_stack.len() implies ops_wf(
                (#[trigger] popped.undo_stack[i]).operations,
            ) by {
                assert(popped.undo_stack[i] == c.undo_stack[i]);
            }
        }
        lemma_local_step(popped, TransactionType::Undo, top.operations, None, id, cursor, top.cursor);
    }
    if c.redo_stack.len() > 0 {
        let top = c.redo_stack.last();
        let popped = ControllerView { redo_stack: c.redo_stack.drop_last(), ..c };
        assert(transactions_wf(popped.redo_stack)) by {
            assert forall|i: int| 0 <= i < popped.redo_stack.len() implies ops_wf(
                (#[trigger] popped.redo_stack[i]).operations,
            ) by {
                assert(popped.redo_stack[i] == c.redo_stack[i]);
            }
        }
        lemma_local_step(popped, TransactionType::Redo, top.operations, None, id, cursor, top.cursor);
    }
}

/// After an undo, the redo stack still leads to where it led before.
proof fn lemma_undo_keeps_target(
    c: ControllerView,
    id: TransactionId,
    cursor: Option<Seq<char>>,
    target: Seq<SheetView>,
)
    requires
        c.wf(),
        redo_leads_to(c.grid, c.redo_stack, target),
    ensures
        redo_leads_to(
            undo_or_keep(c, id, cursor).grid,
            undo_or_keep(c, id, cursor).redo_stack,
            target,
        ),
        undo_or_keep(c, id, cursor).redo_stack.len() <= c.redo_stack.len() + 1,
{
    if c.undo_stack.len() > 0 {
        let top = c.undo_stack.last();
        let popped = ControllerView { undo_stack: c.undo_stack.drop_last(), ..c };
        let s = undo_or_keep(c, id, cursor);
        let e = run(c.grid, top.operations, None);
        assert(ops_wf(top.operations));
        lemma_run(c.grid, top.operations, None);
        if e.reverse.len() > 0 {
            assert(s.redo_stack.last().operations == e.reverse);
            assert(s.redo_stack.drop_last() =~= c.redo_stack);
            assert(run(e.grid, e.reverse, None).grid == c.grid);
        }
    }
}

/// As many redos as the redo stack is high, or more, lead to its target.
proof fn lemma_redo_reaches_target(
    c: ControllerView,
    ids: Seq<TransactionId>,
    cursors: Seq<Option<Seq<char>>>,
    target: Seq<SheetView>,
)
    requires
        c.wf(),
        redo_leads_to(c.grid, c.redo_stack, target),
        c.redo_stack.len() <= ids.len(),
    ensures
        redo_many(c, ids, cursors).grid == target,
    decreases ids.len(),
{
    if ids.len() > 0 {
        let s = redo_or_keep(c, ids[0], cursors[0]);
        lemma_undo_redo_wf(c, ids[0], cursors[0]);
        if c.redo_stack.len() > 0 {
            let top = c.redo_stack.last();
            let popped = ControllerView { redo_stack: c.redo_stack.drop_last(), ..c };
            assert(transactions_wf(popped.redo_stack)) by {
                assert forall|i: int| 0 <= i < popped.redo_stack.len() implies ops_wf(
                    (#[trigger] popped.redo_stack[i]).operations,
                ) by {
                    assert(popped.redo_stack[i] == c.redo_stack[i]);
                }
            }
            lemma_local_step(
                popped,
                TransactionType::Redo,
                top.operations,
                None,
                ids[0],
                cursors[0],
                top.cursor,
            );
            assert(s.redo_stack == c.redo_stack.drop_last());
        }
        lemma_redo_reaches_target(s, ids.skip(1), cursors.skip(1), target);
    }
}

proof fn lemma_undo_many(
    c: ControllerView,
    ids: Seq<TransactionId>,
    cursors: Seq<Option<Seq<char>>>,
    target: Seq<SheetView>,
)
    requires
        c.wf(),
        redo_leads_to(c.grid, c.redo_stack, target),
    ensures
        undo_many(c, ids, cursors).wf(),
        redo_leads_to(undo_many(c, ids, cursors).grid, undo_many(c, ids, cursors).redo_stack, target),
        undo_many(c, ids, cursors).redo_stack.len() <= c.redo_stack.len() + ids.len(),
    decreases ids.len(),
{
    if ids.len() > 0 {
        lemma_undo_redo_wf(c, ids[0], cursors[0]);
        lemma_undo_keeps_target(c, ids[0], cursors[0], target);
        lemma_undo_many(undo_or_keep(c, ids[0], cursors[0]), ids.skip(1), cursors.skip(1), target);
    }
}

/// Undo/redo duality. In a valid state with nothing to redo, as every user
/// action leaves it, any number of undos followed by as many redos gives
/// exactly the grid from before; whatever ids and cursors the steps carry.
pub proof fn lemma_undo_redo_duality(
    c: ControllerView,
    undo_ids: Seq<TransactionId>,
    undo_cursors: Seq<Option<Seq<char>>>,
    redo_ids: Seq<TransactionId>,
    redo_cursors: Seq<Option<Seq<char>>>,
)
    requires
        c.wf(),
        c.redo_stack.len() == 0,
        undo_ids.len() == redo_ids.len(),
    ensures
        redo_many(undo_many(c, undo_ids, undo_cursors), redo_ids, redo_cursors).grid == c.grid,
{
    lemma_undo_many(c, undo_ids, undo_cursors, c.grid);
    lemma_redo_reaches_target(undo_many(c, undo_ids, undo_cursors), redo_ids, redo_cursors, c.grid);
}

/// Undo/redo duality after a user action. After any user action on a valid
/// state, any number of undos followed by as many redos gives exactly the
/// grid that the action left.
pub proof fn lemma_undo_redo_after_user_action(
    c: ControllerView,
    ops: Seq<OpView>,
    fresh: SheetId,
    id: TransactionId,
    cursor: Option<Seq<char>>,
    undo_ids: Seq<TransactionId>,
    undo_cursors: Seq<Option<Seq<char>>>,
    redo_ids: Seq<TransactionId>,
    redo_cursors: Seq<Option<Seq<char>>>,
)
    requires
        c.wf(),
        ops_wf(ops),
        undo_ids.len() == redo_ids.len(),
    ensures
        redo_many(
            undo_many(user_step(c, ops, fresh, id, cursor).state, undo_ids, undo_cursors),
            redo_ids,
            redo_cursors,
        ).grid == user_step(c, ops, fresh, id, cursor).state.grid,
{
    lemma_local_step(c, TransactionType::User, ops, Some(fresh), id, cursor, None);
    lemma_undo_redo_duality(
        user_step(c, ops, fresh, id, cursor).state,
        undo_ids,
        undo_cursors,
        redo_ids,
        redo_cursors,
    );
}

/// Every user action leaves nothing to redo.
pub proof fn lemma_user_step_clears_redo(
    c: ControllerView,
    ops: Seq<OpView>,
    fresh: SheetId,
    id: TransactionId,
    cursor: Option<Seq<char>>,
)
    ensures
        user_step(c, ops, fresh, id, cursor).state.redo_stack.len() == 0,
{
}

/// Name uniqueness. In every valid state the sheets have pairwise different
/// names, and pairwise different ids.
pub proof fn lemma_names_unique(c: ControllerView, i: int, j: int)
    requires
        c.wf(),
        0 <= i < c.grid.len(),
        0 <= j < c.grid.len(),
        i != j,
    ensures
        c.grid[i].name != c.grid[j].name,
        c.grid[i].id != c.grid[j].id,
{
}

} // verus!
