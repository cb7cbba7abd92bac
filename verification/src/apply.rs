//! What applying operations to a grid means: the grid that results, the
//! operations that undo it, and the summary of what changed.

use vstd::prelude::*;
use crate::position::{Pos, Rect};
use crate::ids::{SheetId, RegionView};
use crate::values::{ArrayView, CellValueView};
use crate::sheet::{SheetView, read_cell, write_cell};
use crate::grid::{has_sheet, sheet_index, has_name, name_taken_by_other, grid_add, first_id};
use crate::operation::{OpView, SummaryView};

verus! {

/// What applying operations did.
pub ghost struct Effect {
    /// The grid afterwards.
    pub grid: Seq<SheetView>,
    /// The operations that, applied to the grid before, give this grid again
    /// on any replica.
    pub forward: Seq<OpView>,
    /// The operations that, applied in this order to the grid afterwards, give
    /// the grid before: the inverse of the last operation comes first.
    pub reverse: Seq<OpView>,
    /// What the renderer must refresh.
    pub summary: SummaryView,
}

impl Effect {
    /// The effect of doing nothing to `g`.
    pub open spec fn none(g: Seq<SheetView>) -> Effect {
        Effect { grid: g, forward: Seq::empty(), reverse: Seq::empty(), summary: SummaryView::empty() }
    }

    /// This effect followed by `next`.
    pub open spec fn followed_by(self, next: Effect) -> Effect {
        Effect {
            grid: next.grid,
            forward: self.forward + next.forward,
            reverse: next.reverse + self.reverse,
            summary: self.summary.merge(next.summary),
        }
    }
}

/// The position of the `k`-th cell of the region, in row-major order.
pub open spec fn region_pos(region: RegionView, k: int) -> Pos {
    region.cell(k).spec_pos()
}

/// The cells after the first `k` values were written to the first `k` cells of
/// the region, in row-major order.
pub open spec fn write_cells(
    cells: Map<Pos, CellValueView>,
    region: RegionView,
    values: Seq<CellValueView>,
    k: int,
) -> Map<Pos, CellValueView>
    decreases k,
{
    if k <= 0 {
        cells
    } else {
        write_cell(write_cells(cells, region, values, k - 1), region_pos(region, k - 1), values[k - 1])
    }
}

/// What each of the first `n` writes displaced: the value its cell held at the
/// moment of the write, `Blank` where it held none.
pub open spec fn displaced(
    cells: Map<Pos, CellValueView>,
    region: RegionView,
    values: Seq<CellValueView>,
    n: int,
) -> Seq<CellValueView> {
    Seq::new(
        n as nat,
        |j: int| read_cell(write_cells(cells, region, values, j), region_pos(region, j)),
    )
}

/// The maximal runs of consecutive numbers in `v`, each as its first and last
/// number: a number goes on the run before it if it is one more than that
/// run's last.
pub open spec fn runs(v: Seq<i64>) -> Seq<(i64, i64)>
    decreases v.len(),
{
    if v.len() == 0 {
        Seq::empty()
    } else {
        let r = runs(v.drop_last());
        if r.len() > 0 && r.last().1 + 1 == v.last() {
            r.drop_last().push((r.last().0, v.last()))
        } else {
            r.push((v.last(), v.last()))
        }
    }
}

/// The column coordinates of a region, in list order.
pub open spec fn region_xs(region: RegionView) -> Seq<i64> {
    Seq::new(region.columns.len(), |i: int| region.columns[i].id)
}

/// The row coordinates of a region, in list order.
pub open spec fn region_ys(region: RegionView) -> Seq<i64> {
    Seq::new(region.rows.len(), |i: int| region.rows[i].id)
}

/// The rectangles that a region covers: one for each run of columns and each
/// run of rows, the runs of columns outside.
pub open spec fn region_rects(region: RegionView) -> Seq<(SheetId, Rect)> {
    let xr = runs(region_xs(region));
    let yr = runs(region_ys(region));
    Seq::new(
        xr.len() * yr.len(),
        |k: int|
            (
                region.sheet,
                Rect {
                    min: Pos { x: xr[k / (yr.len() as int)].0, y: yr[k % (yr.len() as int)].0 },
                    max: Pos { x: xr[k / (yr.len() as int)].1, y: yr[k % (yr.len() as int)].1 },
                },
            ),
    )
}

/// The sheet made in place of the last sheet when a user deletes it.
pub open spec fn replacement_sheet(fresh: SheetId) -> SheetView {
    SheetView { id: fresh, name: "Sheet 1"@, color: None, order: seq!['n'], cells: Map::empty() }
}

/// The effect of `SetCells { region, values }` on `g`.
///
/// A region without cells changes nothing. Else the sheet must exist and the
/// array must have the region's size; each value is written to its cell and
/// the inverse writes back what was displaced.
pub open spec fn apply_set_cells(g: Seq<SheetView>, region: RegionView, values: ArrayView) -> Option<
    Effect,
> {
    if region.is_empty() {
        Some(Effect::none(g))
    } else if !has_sheet(g, region.sheet) || values.size != region.size() {
        None
    } else {
        let i = sheet_index(g, region.sheet);
        let n = region.len() as int;
        let sheet = SheetView {
            cells: write_cells(g[i].cells, region, values.values, n),
            ..g[i]
        };
        Some(
            Effect {
                grid: g.update(i, sheet),
                forward: seq![OpView::SetCells { region, values }],
                reverse: seq![
                    OpView::SetCells {
                        region,
                        values: ArrayView {
                            size: region.size(),
                            values: displaced(g[i].cells, region, values.values, n),
                        },
                    },
                ],
                summary: SummaryView {
                    cell_regions_modified: region_rects(region),
                    generate_thumbnail: first_id(g) == Some(region.sheet),
                    ..SummaryView::empty()
                },
            },
        )
    }
}

/// The effect of `AddSheet { sheet }` on `g`: none if the grid holds a sheet
/// with that id or that name.
pub open spec fn apply_add_sheet(g: Seq<SheetView>, sheet: SheetView) -> Option<Effect> {
    if has_sheet(g, sheet.id) || has_name(g, sheet.name) {
        None
    } else {
        Some(
            Effect {
                grid: grid_add(g, sheet),
                forward: seq![OpView::AddSheet { sheet }],
                reverse: seq![OpView::DeleteSheet { sheet_id: sheet.id }],
                summary: SummaryView {
                    sheet_list_modified: true,
                    html: set![sheet.id],
                    ..SummaryView::empty()
                },
            },
        )
    }
}

/// The effect of `DeleteSheet { sheet_id }` on `g`: none if the grid holds no
/// such sheet. Where a user deletes the last sheet (`replacement` is `Some`),
/// a new sheet `Sheet 1` with the id it holds takes its place.
pub open spec fn apply_delete_sheet(
    g: Seq<SheetView>,
    sheet_id: SheetId,
    replacement: Option<SheetId>,
) -> Option<Effect> {
    if !has_sheet(g, sheet_id) {
        None
    } else {
        let i = sheet_index(g, sheet_id);
        let rest = g.remove(i);
        let summary = SummaryView { sheet_list_modified: true, ..SummaryView::empty() };
        if replacement is Some && rest.len() == 0 {
            let fresh = replacement->Some_0;
            Some(
                Effect {
                    grid: seq![replacement_sheet(fresh)],
                    forward: seq![
                        OpView::DeleteSheet { sheet_id },
                        OpView::AddSheet { sheet: replacement_sheet(fresh) },
                    ],
                    reverse: seq![
                        OpView::DeleteSheet { sheet_id: fresh },
                        OpView::AddSheet { sheet: g[i] },
                    ],
                    summary,
                },
            )
        } else {
            Some(
                Effect {
                    grid: rest,
                    forward: seq![OpView::DeleteSheet { sheet_id }],
                    reverse: seq![OpView::AddSheet { sheet: g[i] }],
                    summary,
                },
            )
        }
    }
}

/// The effect of `ReorderSheet { target, order }` on `g`: none if the grid
/// holds no such sheet.
pub open spec fn apply_reorder_sheet(g: Seq<SheetView>, target: SheetId, order: Seq<char>) -> Option<
    Effect,
> {
    if !has_sheet(g, target) {
        None
    } else {
        let i = sheet_index(g, target);
        let after = grid_add(g.remove(i), SheetView { order, ..g[i] });
        Some(
            Effect {
                grid: after,
                forward: seq![OpView::ReorderSheet { target, order }],
                reverse: seq![OpView::ReorderSheet { target, order: g[i].order }],
                summary: SummaryView {
                    sheet_list_modified: true,
                    generate_thumbnail: first_id(g) != first_id(after),
                    ..SummaryView::empty()
                },
            },
        )
    }
}

/// The effect of `SetSheetName { sheet_id, name }` on `g`: none if the grid
/// holds no such sheet, or if another sheet has that name.
pub open spec fn apply_set_sheet_name(g: Seq<SheetView>, sheet_id: SheetId, name: Seq<char>) -> Option<
    Effect,
> {
    if !has_sheet(g, sheet_id) || name_taken_by_other(g, sheet_index(g, sheet_id), name) {
        None
    } else {
        let i = sheet_index(g, sheet_id);
        Some(
            Effect {
                grid: g.update(i, SheetView { name, ..g[i] }),
                forward: seq![OpView::SetSheetName { sheet_id, name }],
                reverse: seq![OpView::SetSheetName { sheet_id, name: g[i].name }],
                summary: SummaryView { sheet_list_modified: true, ..SummaryView::empty() },
            },
        )
    }
}

/// The effect of `SetSheetColor { sheet_id, color }` on `g`: none if the grid
/// holds no such sheet.
pub open spec fn apply_set_sheet_color(
    g: Seq<SheetView>,
    sheet_id: SheetId,
    color: Option<Seq<char>>,
) -> Option<Effect> {
    if !has_sheet(g, sheet_id) {
        None
    } else {
        let i = sheet_index(g, sheet_id);
        Some(
            Effect {
                grid: g.update(i, SheetView { color, ..g[i] }),
                forward: seq![OpView::SetSheetColor { sheet_id, color }],
                reverse: seq![OpView::SetSheetColor { sheet_id, color: g[i].color }],
                summary: SummaryView { sheet_list_modified: true, ..SummaryView::empty() },
            },
        )
    }
}

/// The effect of one operation on `g`, or `None` if it cannot be applied.
/// `replacement` is `Some` where a user action runs the operation, and holds
/// the id for the sheet made in place of a deleted last sheet.
pub open spec fn apply_op(g: Seq<SheetView>, op: OpView, replacement: Option<SheetId>) -> Option<
    Effect,
> {
    match op {
        OpView::SetCells { region, values } => apply_set_cells(g, region, values),
        OpView::AddSheet { sheet } => apply_add_sheet(g, sheet),
        OpView::DeleteSheet { sheet_id } => apply_delete_sheet(g, sheet_id, replacement),
        OpView::ReorderSheet { target, order } => apply_reorder_sheet(g, target, order),
        OpView::SetSheetName { sheet_id, name } => apply_set_sheet_name(g, sheet_id, name),
        OpView::SetSheetColor { sheet_id, color } => apply_set_sheet_color(g, sheet_id, color),
    }
}

/// The effect of the operations applied one after the other, or `None` if one
/// of them cannot be applied to the grid it meets.
pub open spec fn apply_ops(g: Seq<SheetView>, ops: Seq<OpView>, replacement: Option<SheetId>) -> Option<
    Effect,
>
    decreases ops.len(),
{
    if ops.len() == 0 {
        Some(Effect::none(g))
    } else {
        match apply_op(g, ops[0], replacement) {
            None => None,
            Some(first) => match apply_ops(first.grid, ops.skip(1), replacement) {
                None => None,
                Some(rest) => Some(first.followed_by(rest)),
            },
        }
    }
}

} // verus!
