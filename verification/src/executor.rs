//! The transaction executor: applies operations to a grid, one by one, and
//! hands back the operations that undo them and the summary of the change.

use vstd::prelude::*;
use vstd::arithmetic::div_mod::lemma_fundamental_div_mod_converse;
use crate::position::{Pos, Rect};
use crate::ids::{SheetId, RegionRef};
use crate::values::{Array, ArraySize, CellValue, values_view};
use crate::sheet::{Sheet, SheetView};
use crate::grid::{Grid, name_taken_by_other};
use crate::operation::{
    Operation, OpView, TransactionSummary, SummaryView, ops_view, all_wf, lemma_all_wf,
};
use crate::apply::{
    Effect, region_pos, write_cells, displaced, runs, region_xs, region_ys, region_rects,
    apply_set_cells, apply_add_sheet, apply_delete_sheet, apply_reorder_sheet,
    apply_set_sheet_name, apply_set_sheet_color, apply_op, apply_ops, replacement_sheet,
};
use crate::laws::{lemma_apply_ops_concat, lemma_apply_one, lemma_apply_ops_sound};

verus! {

/// What the executor hands back for operations it applied.
#[derive(Debug, Clone, PartialEq, Eq)]
pub struct Outcome {
    /// The operations to send to other replicas; empty unless asked for.
    pub forward: Vec<Operation>,
    /// The operations that undo what was applied, the inverse of the last
    /// operation first.
    pub reverse: Vec<Operation>,
    /// What changed.
    pub summary: TransactionSummary,
}

impl Outcome {
    /// The outcome holds what the effect `e` says; the forward operations only
    /// where `record` asked for them.
    pub open spec fn agrees(self, e: Effect, record: bool) -> bool {
        &&& all_wf(self.reverse@)
        &&& all_wf(self.forward@)
        &&& ops_view(self.reverse@) == e.reverse
        &&& ops_view(self.forward@) == if record {
            e.forward
        } else {
            Seq::empty()
        }
        &&& self.summary@ == e.summary
    }

    /// The outcome of applying nothing.
    pub fn nothing() -> (o: Outcome)
        ensures
            forall|g: Seq<SheetView>, record: bool| #[trigger] o.agrees(Effect::none(g), record),
            o.forward@.len() == 0,
            o.reverse@.len() == 0,
            o.summary@ == SummaryView::empty(),
    {
        let o = Outcome {
            forward: Vec::new(),
            reverse: Vec::new(),
            summary: TransactionSummary::new(),
        };
        assert(ops_view(o.forward@) =~= Seq::<OpView>::empty());
        assert(ops_view(o.reverse@) =~= Seq::<OpView>::empty());
        o
    }
}

/// Takes the value at index `k` out of `v`, leaving `Blank` in its place.
fn take_value(v: &mut Vec<CellValue>, k: usize) -> (r: CellValue)
    requires
        k < old(v).len(),
    ensures
        r == old(v)@[k as int],
        final(v)@.len() == old(v)@.len(),
        forall|t: int| 0 <= t < old(v)@.len() && t != k ==> final(v)@[t] == old(v)@[t],
{
    v.push(CellValue::Blank);
    v.swap_remove(k)
}

/// The column coordinates of a region, in list order.
fn column_xs(region: &RegionRef) -> (r: Vec<i64>)
    ensures
        r@ == region_xs(region@),
{
    let mut out: Vec<i64> = Vec::new();
    let mut i: usize = 0;
    while i < region.columns.len()
        invariant
            i <= region.columns.len(),
            out.len() == i,
            forall|k: int| 0 <= k < i ==> out@[k] == region.columns@[k].id,
        decreases region.columns.len() - i,
    {
        out.push(region.columns[i].id);
        i += 1;
    }
    assert(out@ =~= region_xs(region@));
    out
}

/// The row coordinates of a region, in list order.
fn row_ys(region: &RegionRef) -> (r: Vec<i64>)
    ensures
        r@ == region_ys(region@),
{
    let mut out: Vec<i64> = Vec::new();
    let mut i: usize = 0;
    while i < region.rows.len()
        invariant
            i <= region.rows.len(),
            out.len() == i,
            forall|k: int| 0 <= k < i ==> out@[k] == region.rows@[k].id,
        decreases region.rows.len() - i,
    {
        out.push(region.rows[i].id);
        i += 1;
    }
    assert(out@ =~= region_ys(region@));
    out
}

/// The maximal runs of consecutive numbers in `v`.
fn runs_of(v: &Vec<i64>) -> (r: Vec<(i64, i64)>)
    ensures
        r@ == runs(v@),
{
    let mut out: Vec<(i64, i64)> = Vec::new();
    let mut i: usize = 0;
    while i < v.len()
        invariant
            i <= v.len(),
            out@ == runs(v@.take(i as int)),
        decreases v.len() - i,
    {
        let x: i64 = v[i];
        let n: usize = out.len();
        proof {
            assert(v@.take(i + 1).drop_last() =~= v@.take(i as int));
            assert(v@.take(i + 1).last() == x);
        }
        if n > 0 && out[n - 1].1 < i64::MAX && out[n - 1].1 + 1 == x {
            let last: (i64, i64) = out[n - 1];
            out.pop();
            out.push((last.0, x));
        } else {
            out.push((x, x));
        }
        i += 1;
    }
    assert(v@.take(v.len() as int) =~= v@);
    out
}

/// The rectangles that a region covers; see [`region_rects`].
pub fn rects_of_region(region: &RegionRef) -> (r: Vec<(SheetId, Rect)>)
    ensures
        r@ == region_rects(region@),
{
    let xr: Vec<(i64, i64)> = runs_of(&column_xs(region));
    let yr: Vec<(i64, i64)> = runs_of(&row_ys(region));
    let mut out: Vec<(SheetId, Rect)> = Vec::new();
    let nx: usize = xr.len();
    let ny: usize = yr.len();
    let ghost want = region_rects(region@);
    let mut a: usize = 0;
    while a < nx
        invariant
            a <= nx,
            nx == xr.len(),
            ny == yr.len(),
            xr@ == runs(region_xs(region@)),
            yr@ == runs(region_ys(region@)),
            want == region_rects(region@),
            out.len() == a * ny,
            forall|k: int| 0 <= k < out.len() ==> out@[k] == want[k],
        decreases nx - a,
    {
        let mut b: usize = 0;
        while b < ny
            invariant
                b <= ny,
                a < nx,
                nx == xr.len(),
                ny == yr.len(),
                xr@ == runs(region_xs(region@)),
                yr@ == runs(region_ys(region@)),
                want == region_rects(region@),
                out.len() == a * ny + b,
                forall|k: int| 0 <= k < out.len() ==> out@[k] == want[k],
            decreases ny - b,
        {
            proof {
                let k = a * ny + b;
                lemma_fundamental_div_mod_converse(k as int, ny as int, a as int, b as int);
                assert(k < nx * ny) by (nonlinear_arith)
                    requires
                        k == a * ny + b,
                        0 <= a < nx,
                        0 <= b < ny,
                ;
            }
            out.push(
                (
                    region.sheet,
                    Rect {
                        min: Pos { x: xr[a].0, y: yr[b].0 },
                        max: Pos { x: xr[a].1, y: yr[b].1 },
                    },
                ),
            );
            b += 1;
        }
        proof {
            assert((a + 1) * ny == a * ny + ny) by (nonlinear_arith);
        }
        a += 1;
    }
    assert(out@ =~= want);
    out
}

/// Whether `a` is the id `b`.
fn is_id(a: Option<SheetId>, b: SheetId) -> (r: bool)
    ensures
        r == (a == Some(b)),
{
    match a {
        Some(x) => x == b,
        None => false,
    }
}

/// Applies `SetCells { region, values }`.
///
/// A region without cells changes nothing. Else the sheet must exist and the
/// array must have the size of the region; the values are written row by row
/// and the inverse holds what each write displaced.
pub fn execute_set_cells(grid: &mut Grid, region: RegionRef, values: Array, record: bool) -> (r:
    Option<Outcome>)
    requires
        old(grid).wf(),
        region.wf(),
        values.wf(),
    ensures
        final(grid).wf(),
        r is Some <==> apply_set_cells(old(grid)@, region@, values@) is Some,
        r is Some ==> final(grid)@ == apply_set_cells(old(grid)@, region@, values@)->Some_0.grid
            && r->Some_0.agrees(apply_set_cells(old(grid)@, region@, values@)->Some_0, record),
        r is None ==> final(grid)@ == old(grid)@,
{
    let size: ArraySize = match region.size() {
        Some(s) => s,
        None => {
            return Some(Outcome::nothing());
        },
    };
    let index: usize = match grid.sheet_id_to_index(region.sheet) {
        Some(i) => i,
        None => {
            return None;
        },
    };
    if values.size() != size {
        return None;
    }
    let ghost g0 = grid@;
    let ghost c0 = g0[index as int].cells;
    let ghost vv = values@.values;
    let ghost rv = region@;
    let ghost e = apply_set_cells(g0, rv, values@)->Some_0;
    let mut forward: Vec<Operation> = Vec::new();
    if record {
        forward.push(
            Operation::SetCells { region: region.duplicate(), values: values.duplicate() },
        );
    }
    let thumbnail: bool = is_id(grid.first_sheet_id(), region.sheet);
    let rects: Vec<(SheetId, Rect)> = rects_of_region(&region);
    let mut vals: Vec<CellValue> = values.into_cell_values_vec();
    let mut old_values: Vec<CellValue> = Vec::new();
    let w: usize = region.columns.len();
    let h: usize = region.rows.len();
    let n: usize = vals.len();
    proof {
        grid.lemma_wf();
        assert(n == w * h);
        assert(write_cells(c0, rv, vv, 0) == c0);
        assert(g0 =~= g0.update(index as int, SheetView { cells: c0, ..g0[index as int] }));
    }
    let mut k: usize = 0;
    let mut j: usize = 0;
    while j < h
        invariant
            j <= h,
            k == j * w,
            w == region.columns.len(),
            h == region.rows.len(),
            w > 0,
            n == w * h,
            n == vals.len(),
            rv == region@,
            grid.wf(),
            index < g0.len(),
            grid@ == g0.update(
                index as int,
                SheetView { cells: write_cells(c0, rv, vv, k as int), ..g0[index as int] },
            ),
            old_values.len() == k,
            forall|t: int|
                0 <= t < k ==> (#[trigger] old_values@[t])@ == displaced(c0, rv, vv, n as int)[t],
            vv.len() == n,
            forall|t: int| k <= t < n ==> (#[trigger] vals@[t])@ == vv[t],
        decreases h - j,
    {
        let mut i: usize = 0;
        while i < w
            invariant
                i <= w,
                j < h,
                k == j * w + i,
                w == region.columns.len(),
                h == region.rows.len(),
                w > 0,
                n == w * h,
                n == vals.len(),
                rv == region@,
                grid.wf(),
                index < g0.len(),
                grid@ == g0.update(
                    index as int,
                    SheetView { cells: write_cells(c0, rv, vv, k as int), ..g0[index as int] },
                ),
                old_values.len() == k,
                forall|t: int|
                    0 <= t < k ==> (#[trigger] old_values@[t])@ == displaced(
                        c0,
                        rv,
                        vv,
                        n as int,
                    )[t],
                vv.len() == n,
                forall|t: int| k <= t < n ==> (#[trigger] vals@[t])@ == vv[t],
            decreases w - i,
        {
            proof {
                lemma_fundamental_div_mod_converse(k as int, w as int, j as int, i as int);
                assert(k < w * h) by (nonlinear_arith)
                    requires
                        k == j * w + i,
                        0 <= i < w,
                        0 <= j < h,
                ;
            }
            let pos: Pos = Pos { x: region.columns[i].id, y: region.rows[j].id };
            assert(pos == region_pos(rv, k as int));
            let ghost before = grid@;
            let value: CellValue = take_value(&mut vals, k);
            let previous: CellValue = grid.set_cell_value_at(index, pos, value);
            old_values.push(previous);
            proof {
                assert(grid@ =~= g0.update(
                    index as int,
                    SheetView { cells: write_cells(c0, rv, vv, k + 1), ..g0[index as int] },
                ));
            }
            i += 1;
            k += 1;
        }
        proof {
            assert((j + 1) * w == j * w + w) by (nonlinear_arith);
        }
        j += 1;
    }
    proof {
        assert(k == n) by (nonlinear_arith)
            requires
                k == j * w,
                j == h,
                n == w * h,
        ;
        assert(values_view(old_values@) =~= displaced(c0, rv, vv, n as int));
        assert(rv.len() == n) by (nonlinear_arith)
            requires
                rv.len() == rv.columns.len() * rv.rows.len(),
                rv.columns.len() == w,
                rv.rows.len() == h,
                n == w * h,
        ;
    }
    let old_array: Array = match Array::from_row_major(size, old_values) {
        Some(a) => a,
        None => {
            proof {
                assert(false);
            }
            return None;
        },
    };
    let mut reverse: Vec<Operation> = Vec::new();
    reverse.push(Operation::SetCells { region, values: old_array });
    let mut summary = TransactionSummary::new();
    summary.cell_regions_modified = rects;
    summary.generate_thumbnail = thumbnail;
    let o = Outcome { forward, reverse, summary };
    proof {
        assert(ops_view(o.reverse@) =~= e.reverse);
        if record {
            assert(ops_view(o.forward@) =~= e.forward);
        } else {
            assert(ops_view(o.forward@) =~= Seq::<OpView>::empty());
        }
        assert(o.summary@ == e.summary);
    }
    Some(o)
}

/// Whether `a` and `b` are the same.
fn same_first(a: Option<SheetId>, b: Option<SheetId>) -> (r: bool)
    ensures
        r == (a == b),
{
    match (a, b) {
        (Some(x), Some(y)) => x == y,
        (None, None) => true,
        _ => false,
    }
}

/// Applies `AddSheet { sheet }`: puts the sheet into the grid, unless the grid
/// holds a sheet with its id or its name.
pub fn execute_add_sheet(grid: &mut Grid, sheet: Sheet, record: bool) -> (r: Option<Outcome>)
    requires
        old(grid).wf(),
        sheet.wf(),
    ensures
        final(grid).wf(),
        r is Some <==> apply_add_sheet(old(grid)@, sheet@) is Some,
        r is Some ==> final(grid)@ == apply_add_sheet(old(grid)@, sheet@)->Some_0.grid
            && r->Some_0.agrees(apply_add_sheet(old(grid)@, sheet@)->Some_0, record),
        r is None ==> final(grid)@ == old(grid)@,
{
    let ghost e = apply_add_sheet(grid@, sheet@)->Some_0;
    let sheet_id: SheetId = sheet.id();
    let mut forward: Vec<Operation> = Vec::new();
    if record {
        forward.push(Operation::AddSheet { sheet: sheet.duplicate() });
    }
    match grid.add_sheet(sheet) {
        Ok(()) => {
            let mut reverse: Vec<Operation> = Vec::new();
            reverse.push(Operation::DeleteSheet { sheet_id });
            let mut summary = TransactionSummary::new();
            summary.sheet_list_modified = true;
            summary.html.push(sheet_id);
            let o = Outcome { forward, reverse, summary };
            proof {
                assert(o.summary.html@ =~= seq![sheet_id]);
                assert(o.summary.html@[0] == sheet_id);
                assert(o.summary@.html =~= set![sheet_id]);
                assert(ops_view(o.reverse@) =~= e.reverse);
                if record {
                    assert(ops_view(o.forward@) =~= e.forward);
                } else {
                    assert(ops_view(o.forward@) =~= Seq::<OpView>::empty());
                }
            }
            Some(o)
        },
        Err(_) => None,
    }
}

/// Applies `DeleteSheet { sheet_id }`: takes the sheet out of the grid. Where
/// a user deletes the last sheet (`replacement` is `Some`), a new sheet
/// `Sheet 1` with the id it holds is put in its place, and both the forward and the reverse operations say
/// so, so that undoing gives exactly the grid from before.
pub fn execute_delete_sheet(
    grid: &mut Grid,
    sheet_id: SheetId,
    replacement: Option<SheetId>,
    record: bool,
) -> (r: Option<Outcome>)
    requires
        old(grid).wf(),
    ensures
        final(grid).wf(),
        r is Some <==> apply_delete_sheet(old(grid)@, sheet_id, replacement) is Some,
        r is Some ==> final(grid)@ == apply_delete_sheet(
            old(grid)@,
            sheet_id,
            replacement,
        )->Some_0.grid && r->Some_0.agrees(
            apply_delete_sheet(old(grid)@, sheet_id, replacement)->Some_0,
            record,
        ),
        r is None ==> final(grid)@ == old(grid)@,
{
    let ghost e = apply_delete_sheet(grid@, sheet_id, replacement)->Some_0;
    let deleted: Sheet = match grid.remove_sheet(sheet_id) {
        Some(sheet) => sheet,
        None => {
            return None;
        },
    };
    let mut forward: Vec<Operation> = Vec::new();
    let mut reverse: Vec<Operation> = Vec::new();
    if record {
        forward.push(Operation::DeleteSheet { sheet_id });
    }
    let last_gone: bool = grid.len() == 0;
    match replacement {
        Some(fresh) => {
            if last_gone {
                let order: String = grid.end_order();
                let new_first_sheet: Sheet = Sheet::new(fresh, "Sheet 1".to_owned(), order);
                assert(new_first_sheet@ == replacement_sheet(fresh));
                if record {
                    forward.push(Operation::AddSheet { sheet: new_first_sheet.duplicate() });
                }
                let added = grid.add_sheet(new_first_sheet);
                proof {
                    assert(added is Ok);
                    assert(grid@ =~= seq![replacement_sheet(fresh)]);
                }
                reverse.push(Operation::DeleteSheet { sheet_id: fresh });
            }
        },
        None => {},
    }
    reverse.push(Operation::AddSheet { sheet: deleted });
    let mut summary = TransactionSummary::new();
    summary.sheet_list_modified = true;
    let o = Outcome { forward, reverse, summary };
    proof {
        assert(ops_view(o.reverse@) =~= e.reverse);
        if record {
            assert(ops_view(o.forward@) =~= e.forward);
        } else {
            assert(ops_view(o.forward@) =~= Seq::<OpView>::empty());
        }
    }
    Some(o)
}

/// Applies `ReorderSheet { target, order }`: gives the sheet the order key and
/// moves it to the place that key gives. The thumbnail is due if another
/// sheet is first afterwards.
pub fn execute_reorder_sheet(grid: &mut Grid, target: SheetId, order: String, record: bool) -> (r:
    Option<Outcome>)
    requires
        old(grid).wf(),
    ensures
        final(grid).wf(),
        r is Some <==> apply_reorder_sheet(old(grid)@, target, order@) is Some,
        r is Some ==> final(grid)@ == apply_reorder_sheet(old(grid)@, target, order@)->Some_0.grid
            && r->Some_0.agrees(apply_reorder_sheet(old(grid)@, target, order@)->Some_0, record),
        r is None ==> final(grid)@ == old(grid)@,
{
    let ghost e = apply_reorder_sheet(grid@, target, order@)->Some_0;
    let old_first: Option<SheetId> = grid.first_sheet_id();
    let mut forward: Vec<Operation> = Vec::new();
    if record {
        forward.push(Operation::ReorderSheet { target, order: order.clone() });
    }
    let previous_order: String = match grid.move_sheet(target, order) {
        Some(previous) => previous,
        None => {
            return None;
        },
    };
    let mut summary = TransactionSummary::new();
    summary.sheet_list_modified = true;
    if !same_first(old_first, grid.first_sheet_id()) {
        summary.generate_thumbnail = true;
    }
    let mut reverse: Vec<Operation> = Vec::new();
    reverse.push(Operation::ReorderSheet { target, order: previous_order });
    let o = Outcome { forward, reverse, summary };
    proof {
        assert(ops_view(o.reverse@) =~= e.reverse);
        if record {
            assert(ops_view(o.forward@) =~= e.forward);
        } else {
            assert(ops_view(o.forward@) =~= Seq::<OpView>::empty());
        }
    }
    Some(o)
}

/// Applies `SetSheetName { sheet_id, name }`: renames the sheet, unless
/// another sheet has that name.
pub fn execute_set_sheet_name(grid: &mut Grid, sheet_id: SheetId, name: String, record: bool) -> (r:
    Option<Outcome>)
    requires
        old(grid).wf(),
    ensures
        final(grid).wf(),
        r is Some <==> apply_set_sheet_name(old(grid)@, sheet_id, name@) is Some,
        r is Some ==> final(grid)@ == apply_set_sheet_name(old(grid)@, sheet_id, name@)->Some_0.grid
            && r->Some_0.agrees(apply_set_sheet_name(old(grid)@, sheet_id, name@)->Some_0, record),
        r is None ==> final(grid)@ == old(grid)@,
{
    let ghost g0 = grid@;
    let ghost e = apply_set_sheet_name(g0, sheet_id, name@)->Some_0;
    let index: usize = match grid.sheet_id_to_index(sheet_id) {
        Some(i) => i,
        None => {
            return None;
        },
    };
    proof {
        grid.lemma_wf();
    }
    match grid.sheet_name_to_index(&name) {
        Some(other) => {
            if other != index {
                assert(name_taken_by_other(g0, index as int, name@));
                return None;
            }
            proof {
                if name_taken_by_other(g0, index as int, name@) {
                    let j = choose|j: int|
                        0 <= j < g0.len() && j != index && (#[trigger] g0[j]).name == name@;
                    assert(g0[j].name != g0[index as int].name);
                }
            }
        },
        None => {
            proof {
                if name_taken_by_other(g0, index as int, name@) {
                    let j = choose|j: int|
                        0 <= j < g0.len() && j != index && (#[trigger] g0[j]).name == name@;
                    assert(crate::grid::has_name(g0, name@));
                }
            }
        },
    }
    let mut forward: Vec<Operation> = Vec::new();
    if record {
        forward.push(Operation::SetSheetName { sheet_id, name: name.clone() });
    }
    let old_name: String = grid.rename_sheet_at(index, name);
    let mut summary = TransactionSummary::new();
    summary.sheet_list_modified = true;
    let mut reverse: Vec<Operation> = Vec::new();
    reverse.push(Operation::SetSheetName { sheet_id, name: old_name });
    let o = Outcome { forward, reverse, summary };
    proof {
        assert(ops_view(o.reverse@) =~= e.reverse);
        if record {
            assert(ops_view(o.forward@) =~= e.forward);
        } else {
            assert(ops_view(o.forward@) =~= Seq::<OpView>::empty());
        }
    }
    Some(o)
}

/// Applies `SetSheetColor { sheet_id, color }`: gives the sheet the colour.
pub fn execute_set_sheet_color(
    grid: &mut Grid,
    sheet_id: SheetId,
    color: Option<String>,
    record: bool,
) -> (r: Option<Outcome>)
    requires
        old(grid).wf(),
    ensures
        final(grid).wf(),
        r is Some <==> apply_set_sheet_color(old(grid)@, sheet_id, crate::sheet::opt_view(color))
            is Some,
        r is Some ==> final(grid)@ == apply_set_sheet_color(
            old(grid)@,
            sheet_id,
            crate::sheet::opt_view(color),
        )->Some_0.grid && r->Some_0.agrees(
            apply_set_sheet_color(old(grid)@, sheet_id, crate::sheet::opt_view(color))->Some_0,
            record,
        ),
        r is None ==> final(grid)@ == old(grid)@,
{
    let ghost e = apply_set_sheet_color(grid@, sheet_id, crate::sheet::opt_view(color))->Some_0;
    let index: usize = match grid.sheet_id_to_index(sheet_id) {
        Some(i) => i,
        None => {
            return None;
        },
    };
    let mut forward: Vec<Operation> = Vec::new();
    if record {
        forward.push(
            Operation::SetSheetColor { sheet_id, color: crate::sheet::duplicate_opt(&color) },
        );
    }
    let old_color: Option<String> = grid.recolor_sheet_at(index, color);
    let mut summary = TransactionSummary::new();
    summary.sheet_list_modified = true;
    let mut reverse: Vec<Operation> = Vec::new();
    reverse.push(Operation::SetSheetColor { sheet_id, color: old_color });
    let o = Outcome { forward, reverse, summary };
    proof {
        assert(ops_view(o.reverse@) =~= e.reverse);
        if record {
            assert(ops_view(o.forward@) =~= e.forward);
        } else {
            assert(ops_view(o.forward@) =~= Seq::<OpView>::empty());
        }
    }
    Some(o)
}

/// Applies one operation to the grid, or leaves the grid as it is and hands
/// back `None` if the operation cannot be applied; see [`apply_op`].
pub fn execute_operation(grid: &mut Grid, op: Operation, replacement: Option<SheetId>, record: bool) -> (r:
    Option<Outcome>)
    requires
        old(grid).wf(),
        op.wf(),
    ensures
        final(grid).wf(),
        r is Some <==> apply_op(old(grid)@, op@, replacement) is Some,
        r is Some ==> final(grid)@ == apply_op(old(grid)@, op@, replacement)->Some_0.grid
            && r->Some_0.agrees(apply_op(old(grid)@, op@, replacement)->Some_0, record),
        r is None ==> final(grid)@ == old(grid)@,
{
    match op {
        Operation::SetCells { region, values } => execute_set_cells(grid, region, values, record),
        Operation::AddSheet { sheet } => execute_add_sheet(grid, sheet, record),
        Operation::DeleteSheet { sheet_id } => execute_delete_sheet(
            grid,
            sheet_id,
            replacement,
            record,
        ),
        Operation::ReorderSheet { target, order } => execute_reorder_sheet(
            grid,
            target,
            order,
            record,
        ),
        Operation::SetSheetName { sheet_id, name } => execute_set_sheet_name(
            grid,
            sheet_id,
            name,
            record,
        ),
        Operation::SetSheetColor { sheet_id, color } => execute_set_sheet_color(
            grid,
            sheet_id,
            color,
            record,
        ),
    }
}

/// Puts `items` in front of `acc`, in their order.
fn prepend(acc: &mut Vec<Operation>, items: Vec<Operation>)
    ensures
        final(acc)@ == items@ + old(acc)@,
{
    let mut items = items;
    let ghost orig = items@;
    while items.len() > 0
        invariant
            items@ == orig.take(items.len() as int),
            items.len() <= orig.len(),
            acc@ == orig.skip(items.len() as int) + old(acc)@,
        decreases items.len(),
    {
        let ghost before = acc@;
        let ghost m = items.len() as int;
        let x: Operation = match items.pop() {
            Some(x) => x,
            None => {
                proof {
                    assert(false);
                }
                return ;
            },
        };
        acc.insert(0, x);
        proof {
            assert(x == orig[m - 1]);
            assert(items@ =~= orig.take(m - 1));
            assert(acc@ =~= orig.skip(m - 1) + old(acc)@);
        }
    }
    assert(orig.skip(0) =~= orig);
}

/// Whether `v` holds `id`.
fn holds(v: &Vec<SheetId>, id: SheetId) -> (r: bool)
    ensures
        r == v@.contains(id),
{
    let mut i: usize = 0;
    while i < v.len()
        invariant
            i <= v.len(),
            forall|k: int| 0 <= k < i ==> v@[k] != id,
        decreases v.len() - i,
    {
        if v[i] == id {
            return true;
        }
        i += 1;
    }
    false
}

/// The operations in the opposite order.
fn reversed(v: Vec<Operation>) -> (r: Vec<Operation>)
    ensures
        r@.len() == v@.len(),
        forall|t: int| 0 <= t < r@.len() ==> r@[t] == v@[v@.len() - 1 - t],
{
    let mut v = v;
    let ghost orig = v@;
    let mut out: Vec<Operation> = Vec::new();
    while v.len() > 0
        invariant
            v@ == orig.take(v.len() as int),
            v.len() <= orig.len(),
            out.len() == orig.len() - v.len(),
            forall|t: int| 0 <= t < out.len() ==> out@[t] == orig[orig.len() - 1 - t],
        decreases v.len(),
    {
        let ghost m = v.len() as int;
        match v.pop() {
            Some(x) => {
                assert(x == orig[m - 1]);
                out.push(x);
                assert(v@ =~= orig.take(m - 1));
            },
            None => {},
        }
    }
    out
}

/// What [`apply_all`] hands back where an operation could not be applied:
/// the number of operations applied before it, and the operations that undo
/// those.
struct Stopped {
    applied: usize,
    undo: Vec<Operation>,
}

/// Applies the operations in order until one cannot be applied. Hands back
/// the outcome and the sheets whose cells were written, or where it stopped.
fn apply_all(grid: &mut Grid, ops: Vec<Operation>, replacement: Option<SheetId>, record: bool) -> (r:
    Result<(Outcome, Vec<SheetId>), Stopped>)
    requires
        old(grid).wf(),
        all_wf(ops@),
    ensures
        final(grid).wf(),
        r is Ok <==> apply_ops(old(grid)@, ops_view(ops@), replacement) is Some,
        r is Ok ==> final(grid)@ == apply_ops(old(grid)@, ops_view(ops@), replacement)->Some_0.grid
            && r->Ok_0.0.agrees(
            apply_ops(old(grid)@, ops_view(ops@), replacement)->Some_0,
            record,
        ),
        r is Err ==> {
            let k = r->Err_0.applied as int;
            let before = apply_ops(old(grid)@, ops_view(ops@).take(k), replacement);
            &&& 0 <= k < ops@.len()
            &&& before is Some
            &&& final(grid)@ == before->Some_0.grid
            &&& all_wf(r->Err_0.undo@)
            &&& ops_view(r->Err_0.undo@) == before->Some_0.reverse
        },
{
    let ghost g0 = grid@;
    let ghost all = ops_view(ops@);
    let n: usize = ops.len();
    let mut stack: Vec<Operation> = reversed(ops);
    let mut forward: Vec<Operation> = Vec::new();
    let mut reverse: Vec<Operation> = Vec::new();
    let mut summary: TransactionSummary = TransactionSummary::new();
    let mut dirty: Vec<SheetId> = Vec::new();
    let ghost mut acc: Effect = Effect::none(g0);
    let mut i: usize = 0;
    proof {
        assert(all.take(0) =~= Seq::<OpView>::empty());
        assert(ops_view(forward@) =~= Seq::<OpView>::empty());
        assert(ops_view(reverse@) =~= Seq::<OpView>::empty());
    }
    while i < n
        invariant
            i <= n,
            n == ops@.len(),
            all == ops_view(ops@),
            g0 == old(grid)@,
            all_wf(ops@),
            stack.len() == n - i,
            forall|t: int| 0 <= t < stack.len() ==> stack@[t] == ops@[n - 1 - t],
            grid.wf(),
            apply_ops(g0, all.take(i as int), replacement) == Some(acc),
            grid@ == acc.grid,
            all_wf(reverse@),
            all_wf(forward@),
            ops_view(reverse@) == acc.reverse,
            ops_view(forward@) == if record {
                acc.forward
            } else {
                Seq::<OpView>::empty()
            },
            summary@ == acc.summary,
        decreases n - i,
    {
        let op: Operation = match stack.pop() {
            Some(op) => op,
            None => {
                proof {
                    assert(false);
                }
                return Err(Stopped { applied: i, undo: reverse });
            },
        };
        assert(op == ops@[i as int]);
        proof {
            let pre = all.take(i as int);
            assert(all.take(i + 1) =~= pre + seq![op@]);
            lemma_apply_ops_concat(g0, pre, seq![op@], replacement);
            lemma_apply_one(acc.grid, op@, replacement);
        }
        match op.sheet_with_changed_bounds() {
            Some(id) => {
                if !holds(&dirty, id) {
                    dirty.push(id);
                }
            },
            None => {},
        }
        match execute_operation(grid, op, replacement, record) {
            Some(o) => {
                let ghost step = apply_op(acc.grid, op@, replacement)->Some_0;
                let ghost old_forward = forward@;
                let ghost old_reverse = reverse@;
                let Outcome { forward: mut f, reverse: r, summary: s } = o;
                forward.append(&mut f);
                prepend(&mut reverse, r);
                summary.merge(s);
                proof {
                    acc = acc.followed_by(step);
                    assert(ops_view(reverse@) =~= ops_view(r@) + ops_view(old_reverse));
                    assert(ops_view(forward@) =~= ops_view(old_forward) + ops_view(o.forward@));
                    assert(ops_view(forward@) =~= if record {
                        acc.forward
                    } else {
                        Seq::<OpView>::empty()
                    });
                }
            },
            None => {
                proof {
                    let pre = all.take(i + 1);
                    assert(all =~= pre + all.skip(i + 1));
                    lemma_apply_ops_concat(g0, pre, all.skip(i + 1), replacement);
                }
                return Err(Stopped { applied: i, undo: reverse });
            },
        }
        i += 1;
    }
    proof {
        assert(all.take(n as int) =~= all);
    }
    Ok((Outcome { forward, reverse, summary }, dirty))
}

/// Runs a transaction: applies the operations in order, or, if one of them
/// cannot be applied, none of them.
///
/// Where all can be applied, the grid is that of [`apply_ops`], and the
/// outcome holds the reverse operations, the summary and, if `record` is set,
/// the forward operations. Where one cannot, what was applied before it is
/// unwound with the reverse operations gathered so far, the grid is exactly
/// as it was, and the outcome is that of applying nothing.
///
/// `replacement` is `Some` where a user action runs the transaction, and holds
/// the id of the sheet that is made if the user deletes the last sheet.
pub fn transact(grid: &mut Grid, ops: Vec<Operation>, replacement: Option<SheetId>, record: bool) -> (o:
    Outcome)
    requires
        old(grid).wf(),
        all_wf(ops@),
    ensures
        final(grid).wf(),
        apply_ops(old(grid)@, ops_view(ops@), replacement) is Some ==> final(grid)@ == apply_ops(
            old(grid)@,
            ops_view(ops@),
            replacement,
        )->Some_0.grid && o.agrees(
            apply_ops(old(grid)@, ops_view(ops@), replacement)->Some_0,
            record,
        ),
        apply_ops(old(grid)@, ops_view(ops@), replacement) is None ==> final(grid)@ == old(grid)@
            && o.agrees(Effect::none(old(grid)@), record),
{
    let ghost g0 = grid@;
    let ghost all = ops_view(ops@);
    proof {
        grid.lemma_wf();
        lemma_all_wf(ops@);
    }
    match apply_all(grid, ops, replacement, record) {
        Ok((outcome, dirty)) => {
            let mut i: usize = 0;
            while i < dirty.len()
                invariant
                    i <= dirty.len(),
                    grid.wf(),
                    grid@ == apply_ops(g0, all, replacement)->Some_0.grid,
                decreases dirty.len() - i,
            {
                match grid.sheet_id_to_index(dirty[i]) {
                    Some(index) => {
                        proof {
                            grid.lemma_wf_but_bounds_at(index as int);
                        }
                        grid.recalculate_bounds_at(index);
                    },
                    None => {},
                }
                i += 1;
            }
            outcome
        },
        Err(stopped) => {
            let Stopped { applied, undo } = stopped;
            proof {
                let pre = all.take(applied as int);
                assert(crate::operation::ops_wf(pre)) by {
                    assert forall|t: int| 0 <= t < pre.len() implies (#[trigger] pre[t]).wf() by {
                        assert(pre[t] == all[t]);
                    }
                }
                lemma_apply_ops_sound(g0, pre, replacement);
            }
            match apply_all(grid, undo, None, false) {
                Ok(_) => {},
                Err(_) => {
                    proof {
                        assert(false);
                    }
                },
            }
            Outcome::nothing()
        },
    }
}

} // verus!
