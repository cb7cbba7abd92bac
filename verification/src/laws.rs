//! Laws of applying operations: every effect can be undone exactly, and its
//! forward operations give the same effect again.

use vstd::prelude::*;
use vstd::arithmetic::div_mod::{lemma_fundamental_div_mod, lemma_mod_pos_bound};
use crate::position::Pos;
use crate::ids::{SheetId, RegionView};
use crate::values::{ArrayView, CellValueView};
use crate::sheet::{SheetView, read_cell, write_cell};
use crate::grid::{
    has_sheet, sheet_index, has_name, name_taken_by_other, grid_add, grid_wf, insert_pos,
    lemma_grid_add, lemma_grid_remove, lemma_sheet_index, lemma_update_keeps_wf,
};
use crate::operation::{OpView, ops_wf, lemma_merge_empty, lemma_merge_assoc};
use crate::apply::{
    Effect, region_pos, write_cells, displaced, apply_op, apply_ops, apply_set_cells,
    apply_add_sheet, apply_delete_sheet, apply_reorder_sheet, apply_set_sheet_name,
    apply_set_sheet_color, replacement_sheet,
};

verus! {

/// No stored value is `Blank`.
pub open spec fn no_blank(cells: Map<Pos, CellValueView>) -> bool {
    forall|p: Pos| cells.contains_key(p) ==> cells[p] != CellValueView::Blank
}

/// Whether `p` is one of the first `k` cells of the region.
pub open spec fn among_first(region: RegionView, k: int, p: Pos) -> bool {
    exists|j: int| 0 <= j < k && #[trigger] region_pos(region, j) == p
}

/// Row and column of the `k`-th cell of a grid `w` wide and `h` high.
pub proof fn lemma_row_major(k: int, w: int, h: int)
    requires
        w > 0,
        h >= 0,
        0 <= k < w * h,
    ensures
        0 <= k % w < w,
        0 <= k / w < h,
        k == w * (k / w) + k % w,
{
    lemma_fundamental_div_mod(k, w);
    lemma_mod_pos_bound(k, w);
    let q = k / w;
    assert(0 <= q < h) by (nonlinear_arith)
        requires
            w > 0,
            0 <= k < w * h,
            k == w * q + k % w,
            0 <= k % w < w,
    ;
}

/// Different cells of a valid region lie at different positions.
pub proof fn lemma_region_pos_distinct(region: RegionView, a: int, b: int)
    requires
        region.wf(),
        0 <= a < region.len(),
        0 <= b < region.len(),
        a != b,
    ensures
        region_pos(region, a) != region_pos(region, b),
{
    let w = region.columns.len() as int;
    let h = region.rows.len() as int;
    assert(w > 0) by (nonlinear_arith)
        requires
            0 <= a < w * h,
            w >= 0,
            h >= 0,
    ;
    lemma_row_major(a, w, h);
    lemma_row_major(b, w, h);
    if region_pos(region, a) == region_pos(region, b) {
        assert(region.columns[a % w] == region.columns[b % w]);
        assert(region.rows[a / w] == region.rows[b / w]);
        assert(a % w == b % w);
        assert(a / w == b / w);
    }
}

/// What writing the first `k` values of a valid region does: each of the
/// first `k` cells reads as its value, every other cell is as before, and no
/// `Blank` is stored if none was.
pub proof fn lemma_write_cells(
    cells: Map<Pos, CellValueView>,
    region: RegionView,
    values: Seq<CellValueView>,
    k: int,
)
    requires
        region.wf(),
        0 <= k <= region.len(),
        k <= values.len(),
    ensures
        forall|j: int|
            0 <= j < k ==> read_cell(
                write_cells(cells, region, values, k),
                #[trigger] region_pos(region, j),
            ) == values[j],
        forall|p: Pos|
            !among_first(region, k, p) ==> (#[trigger] write_cells(
                cells,
                region,
                values,
                k,
            ).contains_key(p)) == cells.contains_key(p),
        forall|p: Pos|
            !among_first(region, k, p) && cells.contains_key(p) ==> #[trigger] write_cells(
                cells,
                region,
                values,
                k,
            )[p] == cells[p],
        no_blank(cells) ==> no_blank(write_cells(cells, region, values, k)),
    decreases k,
{
    if k > 0 {
        lemma_write_cells(cells, region, values, k - 1);
        let prev = write_cells(cells, region, values, k - 1);
        let cur = write_cells(cells, region, values, k);
        let pk = region_pos(region, k - 1);
        assert(cur == write_cell(prev, pk, values[k - 1]));
        assert forall|j: int| 0 <= j < k implies read_cell(cur, #[trigger] region_pos(region, j))
            == values[j] by {
            if j < k - 1 {
                lemma_region_pos_distinct(region, j, k - 1);
            }
        }
        assert forall|p: Pos| !among_first(region, k, p) implies (#[trigger] cur.contains_key(p))
            == cells.contains_key(p) by {
            assert(region_pos(region, k - 1) != p);
            assert(!among_first(region, k - 1, p)) by {
                if among_first(region, k - 1, p) {
                    let j = choose|j: int| 0 <= j < k - 1 && #[trigger] region_pos(region, j) == p;
                    assert(0 <= j < k && region_pos(region, j) == p);
                }
            }
        }
        assert forall|p: Pos| !among_first(region, k, p) && cells.contains_key(p) implies #[trigger] cur[p]
            == cells[p] by {
            assert(region_pos(region, k - 1) != p);
            assert(!among_first(region, k - 1, p)) by {
                if among_first(region, k - 1, p) {
                    let j = choose|j: int| 0 <= j < k - 1 && #[trigger] region_pos(region, j) == p;
                    assert(0 <= j < k && region_pos(region, j) == p);
                }
            }
        }
    }
}

/// Each write to a valid region displaces what the cell held at the start.
pub proof fn lemma_displaced(
    cells: Map<Pos, CellValueView>,
    region: RegionView,
    values: Seq<CellValueView>,
    n: int,
)
    requires
        region.wf(),
        0 <= n <= region.len(),
        n <= values.len(),
    ensures
        displaced(cells, region, values, n).len() == n,
        forall|j: int|
            0 <= j < n ==> #[trigger] displaced(cells, region, values, n)[j] == read_cell(
                cells,
                region_pos(region, j),
            ),
{
    assert forall|j: int| 0 <= j < n implies #[trigger] displaced(cells, region, values, n)[j]
        == read_cell(cells, region_pos(region, j)) by {
        lemma_write_cells(cells, region, values, j);
        let p = region_pos(region, j);
        assert(!among_first(region, j, p)) by {
            if among_first(region, j, p) {
                let i = choose|i: int| 0 <= i < j && #[trigger] region_pos(region, i) == p;
                lemma_region_pos_distinct(region, i, j);
            }
        }
        let w = write_cells(cells, region, values, j);
        assert(w.contains_key(p) == cells.contains_key(p));
    }
}

/// Writing back what was displaced gives the cells from before.
pub proof fn lemma_write_cells_undone(
    cells: Map<Pos, CellValueView>,
    region: RegionView,
    values: Seq<CellValueView>,
)
    requires
        region.wf(),
        values.len() == region.len(),
        no_blank(cells),
    ensures
        write_cells(
            write_cells(cells, region, values, region.len() as int),
            region,
            displaced(cells, region, values, region.len() as int),
            region.len() as int,
        ) == cells,
{
    let n = region.len() as int;
    let c1 = write_cells(cells, region, values, n);
    let d = displaced(cells, region, values, n);
    let c2 = write_cells(c1, region, d, n);
    lemma_write_cells(cells, region, values, n);
    lemma_displaced(cells, region, values, n);
    lemma_write_cells(c1, region, d, n);
    assert forall|p: Pos| c2.contains_key(p) == cells.contains_key(p) && (cells.contains_key(p)
        ==> c2[p] == cells[p]) by {
        if among_first(region, n, p) {
            let j = choose|j: int| 0 <= j < n && #[trigger] region_pos(region, j) == p;
            assert(read_cell(c2, region_pos(region, j)) == d[j]);
            assert(d[j] == read_cell(cells, region_pos(region, j)));
        } else {
            assert(c2.contains_key(p) == c1.contains_key(p));
            assert(c1.contains_key(p) == cells.contains_key(p));
            if cells.contains_key(p) {
                assert(c2[p] == c1[p]);
                assert(c1[p] == cells[p]);
            }
        }
    }
    assert(c2 =~= cells);
}

/// An effect followed by nothing, or nothing followed by an effect, is that
/// effect.
pub proof fn lemma_followed_by_none(e: Effect)
    ensures
        e.followed_by(Effect::none(e.grid)) == e,
        forall|g: Seq<SheetView>| #[trigger] Effect::none(g).followed_by(e) == e,
{
    lemma_merge_empty(e.summary);
    let a = e.followed_by(Effect::none(e.grid));
    assert(a.forward =~= e.forward);
    assert(a.reverse =~= e.reverse);
    assert forall|g: Seq<SheetView>| #[trigger] Effect::none(g).followed_by(e) == e by {
        let b = Effect::none(g).followed_by(e);
        assert(b.forward =~= e.forward);
        assert(b.reverse =~= e.reverse);
    }
}

/// Following is associative.
pub proof fn lemma_followed_by_assoc(a: Effect, b: Effect, c: Effect)
    ensures
        a.followed_by(b).followed_by(c) == a.followed_by(b.followed_by(c)),
{
    lemma_merge_assoc(a.summary, b.summary, c.summary);
    let l = a.followed_by(b).followed_by(c);
    let r = a.followed_by(b.followed_by(c));
    assert(l.forward =~= r.forward);
    assert(l.reverse =~= r.reverse);
}

/// Applying a list of one operation is applying that operation.
pub proof fn lemma_apply_one(g: Seq<SheetView>, op: OpView, replacement: Option<SheetId>)
    ensures
        apply_ops(g, seq![op], replacement) == apply_op(g, op, replacement),
{
    let ops = seq![op];
    assert(ops.skip(1) =~= Seq::<OpView>::empty());
    assert(ops[0] == op);
    match apply_op(g, op, replacement) {
        Some(e) => {
            lemma_followed_by_none(e);
            assert(apply_ops(e.grid, ops.skip(1), replacement) == Some(Effect::none(e.grid)));
        },
        None => {},
    }
}

/// Applying two lists one after the other is applying them joined.
pub proof fn lemma_apply_ops_concat(
    g: Seq<SheetView>,
    a: Seq<OpView>,
    b: Seq<OpView>,
    replacement: Option<SheetId>,
)
    ensures
        apply_ops(g, a + b, replacement) == match apply_ops(g, a, replacement) {
            None => None,
            Some(ea) => match apply_ops(ea.grid, b, replacement) {
                None => None,
                Some(eb) => Some(ea.followed_by(eb)),
            },
        },
    decreases a.len(),
{
    if a.len() == 0 {
        assert(a + b =~= b);
        match apply_ops(g, b, replacement) {
            Some(eb) => {
                lemma_followed_by_none(eb);
            },
            None => {},
        }
    } else {
        assert((a + b)[0] == a[0]);
        assert((a + b).skip(1) =~= a.skip(1) + b);
        match apply_op(g, a[0], replacement) {
            None => {},
            Some(first) => {
                lemma_apply_ops_concat(first.grid, a.skip(1), b, replacement);
                match apply_ops(first.grid, a.skip(1), replacement) {
                    None => {},
                    Some(rest) => {
                        match apply_ops(rest.grid, b, replacement) {
                            None => {},
                            Some(eb) => {
                                lemma_followed_by_assoc(first, rest, eb);
                            },
                        }
                    },
                }
            },
        }
    }
}

/// An effect on `g` is sound: the grid it gives is valid, its operations are
/// valid, its reverse operations give `g` again, and its forward operations
/// give the same grid and the same reverse operations on any replica.
pub open spec fn effect_sound(g: Seq<SheetView>, e: Effect) -> bool {
    &&& grid_wf(e.grid)
    &&& ops_wf(e.forward)
    &&& ops_wf(e.reverse)
    &&& apply_ops(e.grid, e.reverse, None) is Some
    &&& apply_ops(e.grid, e.reverse, None)->Some_0.grid == g
    &&& apply_ops(g, e.forward, None) is Some
    &&& apply_ops(g, e.forward, None)->Some_0.grid == e.grid
    &&& apply_ops(g, e.forward, None)->Some_0.reverse == e.reverse
    &&& apply_ops(g, e.forward, None)->Some_0.forward == e.forward
}

/// Applying a list of two operations is applying one after the other.
pub proof fn lemma_apply_two(g: Seq<SheetView>, a: OpView, b: OpView, replacement: Option<SheetId>)
    ensures
        apply_ops(g, seq![a, b], replacement) == match apply_op(g, a, replacement) {
            None => None,
            Some(ea) => match apply_op(ea.grid, b, replacement) {
                None => None,
                Some(eb) => Some(ea.followed_by(eb)),
            },
        },
{
    assert(seq![a, b] =~= seq![a] + seq![b]);
    lemma_apply_ops_concat(g, seq![a], seq![b], replacement);
    lemma_apply_one(g, a, replacement);
    match apply_op(g, a, replacement) {
        Some(ea) => {
            lemma_apply_one(ea.grid, b, replacement);
        },
        None => {},
    }
}

proof fn lemma_set_cells_sound(g: Seq<SheetView>, region: RegionView, values: ArrayView)
    requires
        grid_wf(g),
        region.wf(),
        values.wf(),
        apply_set_cells(g, region, values) is Some,
    ensures
        effect_sound(g, apply_set_cells(g, region, values)->Some_0),
{
    let e = apply_set_cells(g, region, values)->Some_0;
    let op = OpView::SetCells { region, values };
    if region.is_empty() {
        assert(e == Effect::none(g));
    } else {
        let i = sheet_index(g, region.sheet);
        let n = region.len() as int;
        let w = region.columns.len();
        let h = region.rows.len();
        assert(region.size().w == w && region.size().h == h);
        assert(values.values.len() == n);
        lemma_write_cells(g[i].cells, region, values.values, n);
        lemma_displaced(g[i].cells, region, values.values, n);
        lemma_write_cells_undone(g[i].cells, region, values.values);
        lemma_update_keeps_wf(g, e.grid, i);
        lemma_sheet_index(e.grid, i);
        let back = e.reverse[0];
        assert(e.reverse =~= seq![back]);
        assert(e.forward =~= seq![op]);
        lemma_apply_one(e.grid, back, None);
        lemma_apply_one(g, op, None);
        let r = apply_set_cells(e.grid, region, back->SetCells_values)->Some_0;
        assert(r.grid =~= g);
    }
}

proof fn lemma_add_sheet_sound(g: Seq<SheetView>, sheet: SheetView)
    requires
        grid_wf(g),
        sheet.wf(),
        apply_add_sheet(g, sheet) is Some,
    ensures
        effect_sound(g, apply_add_sheet(g, sheet)->Some_0),
{
    let e = apply_add_sheet(g, sheet)->Some_0;
    lemma_grid_add(g, sheet);
    let back = OpView::DeleteSheet { sheet_id: sheet.id };
    assert(e.reverse =~= seq![back]);
    lemma_apply_one(e.grid, back, None);
    lemma_apply_one(g, OpView::AddSheet { sheet }, None);
}

proof fn lemma_delete_sheet_sound(
    g: Seq<SheetView>,
    sheet_id: SheetId,
    replacement: Option<SheetId>,
)
    requires
        grid_wf(g),
        apply_delete_sheet(g, sheet_id, replacement) is Some,
    ensures
        effect_sound(g, apply_delete_sheet(g, sheet_id, replacement)->Some_0),
{
    let e = apply_delete_sheet(g, sheet_id, replacement)->Some_0;
    let i = sheet_index(g, sheet_id);
    let rest = g.remove(i);
    lemma_grid_remove(g, i);
    let del = OpView::DeleteSheet { sheet_id };
    let put_back = OpView::AddSheet { sheet: g[i] };
    if replacement is Some && rest.len() == 0 {
        let fresh = replacement->Some_0;
        let repl = replacement_sheet(fresh);
        let add_new = OpView::AddSheet { sheet: repl };
        let del_new = OpView::DeleteSheet { sheet_id: fresh };
        let one = seq![repl];
        assert(e.grid == one);
        assert(rest =~= Seq::<SheetView>::empty());
        assert(g =~= seq![g[0]]);
        assert(grid_wf(one));
        // forward, replayed by a replica
        lemma_apply_two(g, del, add_new, None);
        let d1 = apply_delete_sheet(g, sheet_id, None)->Some_0;
        assert(d1.grid == rest);
        assert(!has_sheet(rest, fresh));
        assert(!has_name(rest, repl.name));
        lemma_grid_add(rest, repl);
        assert(grid_add(rest, repl) =~= one);
        let a1 = apply_add_sheet(rest, repl)->Some_0;
        assert(d1.followed_by(a1).reverse =~= e.reverse);
        assert(d1.followed_by(a1).forward =~= e.forward);
        // reverse
        lemma_apply_two(one, del_new, put_back, None);
        assert(one[0].id == fresh);
        assert(has_sheet(one, fresh));
        lemma_sheet_index(one, 0);
        assert(one.remove(0) =~= rest);
        lemma_grid_add(rest, g[i]);
    } else {
        assert(e.reverse =~= seq![put_back]);
        lemma_apply_one(e.grid, put_back, None);
        lemma_apply_one(g, del, None);
        lemma_grid_add(rest, g[i]);
    }
}

proof fn lemma_reorder_sheet_sound(g: Seq<SheetView>, target: SheetId, order: Seq<char>)
    requires
        grid_wf(g),
        apply_reorder_sheet(g, target, order) is Some,
    ensures
        effect_sound(g, apply_reorder_sheet(g, target, order)->Some_0),
{
    let e = apply_reorder_sheet(g, target, order)->Some_0;
    let i = sheet_index(g, target);
    let rest = g.remove(i);
    let moved = SheetView { order, ..g[i] };
    lemma_grid_remove(g, i);
    lemma_grid_add(rest, moved);
    let p = insert_pos(rest, moved);
    let back = OpView::ReorderSheet { target, order: g[i].order };
    assert(e.reverse =~= seq![back]);
    lemma_apply_one(e.grid, back, None);
    lemma_apply_one(g, OpView::ReorderSheet { target, order }, None);
    assert(e.grid[p] == moved);
    assert((SheetView { order: g[i].order, ..moved }) == g[i]);
}

proof fn lemma_set_sheet_name_sound(g: Seq<SheetView>, sheet_id: SheetId, name: Seq<char>)
    requires
        grid_wf(g),
        apply_set_sheet_name(g, sheet_id, name) is Some,
    ensures
        effect_sound(g, apply_set_sheet_name(g, sheet_id, name)->Some_0),
{
    let e = apply_set_sheet_name(g, sheet_id, name)->Some_0;
    let i = sheet_index(g, sheet_id);
    let h = e.grid;
    assert forall|a: int, b: int| 0 <= a < h.len() && 0 <= b < h.len() && a != b implies (
    #[trigger] h[a]).name != (#[trigger] h[b]).name && h[a].id != h[b].id by {
        assert(g[a].id != g[b].id && g[a].name != g[b].name);
        if a == i {
            assert(g[b].name != name);
        }
        if b == i {
            assert(g[a].name != name);
        }
    }
    assert forall|a: int, b: int| 0 <= a < b < h.len() implies crate::grid::sheet_before(
        #[trigger] h[a],
        #[trigger] h[b],
    ) by {
        assert(crate::grid::sheet_before(g[a], g[b]));
    }
    assert forall|a: int| 0 <= a < h.len() implies (#[trigger] h[a]).wf() by {
        assert(g[a].wf());
    }
    assert(grid_wf(h));
    lemma_sheet_index(h, i);
    assert(!name_taken_by_other(h, i, g[i].name)) by {
        if name_taken_by_other(h, i, g[i].name) {
            let j = choose|j: int| 0 <= j < h.len() && j != i && (#[trigger] h[j]).name == g[i].name;
            assert(g[j].name != g[i].name);
        }
    }
    let back = OpView::SetSheetName { sheet_id, name: g[i].name };
    assert(e.reverse =~= seq![back]);
    lemma_apply_one(h, back, None);
    lemma_apply_one(g, OpView::SetSheetName { sheet_id, name }, None);
    let r = apply_set_sheet_name(h, sheet_id, g[i].name)->Some_0;
    assert(r.grid =~= g);
}

proof fn lemma_set_sheet_color_sound(
    g: Seq<SheetView>,
    sheet_id: SheetId,
    color: Option<Seq<char>>,
)
    requires
        grid_wf(g),
        apply_set_sheet_color(g, sheet_id, color) is Some,
    ensures
        effect_sound(g, apply_set_sheet_color(g, sheet_id, color)->Some_0),
{
    let e = apply_set_sheet_color(g, sheet_id, color)->Some_0;
    let i = sheet_index(g, sheet_id);
    lemma_update_keeps_wf(g, e.grid, i);
    lemma_sheet_index(e.grid, i);
    let back = OpView::SetSheetColor { sheet_id, color: g[i].color };
    assert(e.reverse =~= seq![back]);
    lemma_apply_one(e.grid, back, None);
    lemma_apply_one(g, OpView::SetSheetColor { sheet_id, color }, None);
    let r = apply_set_sheet_color(e.grid, sheet_id, g[i].color)->Some_0;
    assert(r.grid =~= g);
}

/// Every operation that can be applied to a valid grid has a sound effect.
pub proof fn lemma_apply_op_sound(g: Seq<SheetView>, op: OpView, replacement: Option<SheetId>)
    requires
        grid_wf(g),
        op.wf(),
        apply_op(g, op, replacement) is Some,
    ensures
        effect_sound(g, apply_op(g, op, replacement)->Some_0),
{
    match op {
        OpView::SetCells { region, values } => lemma_set_cells_sound(g, region, values),
        OpView::AddSheet { sheet } => lemma_add_sheet_sound(g, sheet),
        OpView::DeleteSheet { sheet_id } => lemma_delete_sheet_sound(g, sheet_id, replacement),
        OpView::ReorderSheet { target, order } => lemma_reorder_sheet_sound(g, target, order),
        OpView::SetSheetName { sheet_id, name } => lemma_set_sheet_name_sound(g, sheet_id, name),
        OpView::SetSheetColor { sheet_id, color } => lemma_set_sheet_color_sound(
            g,
            sheet_id,
            color,
        ),
    }
}

/// Inverse round trip. A transaction that can be applied to a valid grid has
/// a sound effect: applying its reverse operations to the grid it gave gives
/// the grid from before, exactly; and its forward operations, applied by a
/// replica to the grid from before, give the same grid and the same reverse
/// operations.
pub proof fn lemma_apply_ops_sound(
    g: Seq<SheetView>,
    ops: Seq<OpView>,
    replacement: Option<SheetId>,
)
    requires
        grid_wf(g),
        ops_wf(ops),
        apply_ops(g, ops, replacement) is Some,
    ensures
        effect_sound(g, apply_ops(g, ops, replacement)->Some_0),
    decreases ops.len(),
{
    let e = apply_ops(g, ops, replacement)->Some_0;
    if ops.len() == 0 {
        assert(e == Effect::none(g));
    } else {
        let first = apply_op(g, ops[0], replacement)->Some_0;
        let rest = apply_ops(first.grid, ops.skip(1), replacement)->Some_0;
        lemma_apply_op_sound(g, ops[0], replacement);
        assert(ops_wf(ops.skip(1))) by {
            assert forall|i: int| 0 <= i < ops.skip(1).len() implies (#[trigger] ops.skip(1)[i]).wf() by {
                assert(ops.skip(1)[i] == ops[i + 1]);
            }
        }
        lemma_apply_ops_sound(first.grid, ops.skip(1), replacement);
        assert(e == first.followed_by(rest));
        // reverse: undo the rest, then the first
        lemma_apply_ops_concat(rest.grid, rest.reverse, first.reverse, None);
        // forward: replay the first, then the rest
        lemma_apply_ops_concat(g, first.forward, rest.forward, None);
        let f1 = apply_ops(g, first.forward, None)->Some_0;
        let r1 = apply_ops(first.grid, rest.forward, None)->Some_0;
        assert(f1.followed_by(r1).reverse == rest.reverse + first.reverse);
        assert(f1.followed_by(r1).forward == first.forward + rest.forward);
    }
}

} // verus!
