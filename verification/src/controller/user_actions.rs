//! User actions: each turns an intent into operations and runs them as one
//! transaction.

use vstd::prelude::*;
use vstd::string::*;
use crate::position::{Pos, Rect};
use crate::ids::{SheetId, TransactionId, ColumnId, RowId, CellRef, RegionRef, RegionView};
use crate::values::{Array, ArraySize, ArrayView, CellValue, CellValueView};
use crate::sheet::{Sheet, SheetView, opt_view};
use crate::grid::{
    Grid, grid_wf, has_sheet, sheet_index, has_name, spec_end_order, ids_of, grid_add,
    sheet_before, lemma_grid_remove, lemma_insert_pos_is, lemma_end_order,
};
use crate::order::{
    spec_key_between, lemma_key_between, lemma_key_lt_transitive, lemma_key_lt_asymmetric,
    lemma_key_lt_irreflexive, key_between, key_after,
};
use crate::operation::{Operation, OpView, TransactionSummary, SummaryView, ops_view, all_wf};
use crate::apply::apply_reorder_sheet;
use crate::text::{decimal, decimal_string, lemma_decimal_injective};
use crate::controller::model::{ControllerView, Step, user_step};
use crate::controller::engine::GridController;

verus! {

/// A user action that runs `ops` led from `before` to `after` with `summary`,
/// under some fresh sheet id and some transaction id.
pub open spec fn user_action(
    before: ControllerView,
    ops: Seq<OpView>,
    cursor: Option<Seq<char>>,
    after: ControllerView,
    summary: SummaryView,
) -> bool {
    exists|fresh: SheetId, id: TransactionId| #[trigger]
        user_step(before, ops, fresh, id, cursor) == (Step { state: after, summary })
}

/// The region of the single cell at `pos` of the sheet `sheet_id`.
pub open spec fn cell_region(sheet_id: SheetId, pos: Pos) -> RegionView {
    RegionView {
        sheet: sheet_id,
        columns: seq![ColumnId { id: pos.x }],
        rows: seq![RowId { id: pos.y }],
    }
}

/// The region of the rectangle `rect` of the sheet `sheet_id`: its columns
/// from left to right and its rows from top to bottom. Without cells where
/// the rectangle is empty or a side is longer than a `u32` can say.
pub open spec fn rect_region(sheet_id: SheetId, rect: Rect) -> RegionView {
    if 1 <= rect.spec_width() <= u32::MAX && 1 <= rect.spec_height() <= u32::MAX {
        RegionView {
            sheet: sheet_id,
            columns: Seq::new(
                rect.spec_width() as nat,
                |i: int| ColumnId { id: (rect.min.x + i) as i64 },
            ),
            rows: Seq::new(rect.spec_height() as nat, |i: int| RowId { id: (rect.min.y + i) as i64 }),
        }
    } else {
        RegionView { sheet: sheet_id, columns: Seq::empty(), rows: Seq::empty() }
    }
}

/// The columns from `lo` to `hi` in which the sheet holds a value, from left
/// to right.
pub open spec fn existing_columns(sheet: SheetView, lo: int, hi: int) -> Seq<ColumnId>
    decreases hi - lo + 1,
{
    if hi < lo {
        Seq::empty()
    } else if sheet.has_column(hi) {
        existing_columns(sheet, lo, hi - 1).push(ColumnId { id: hi as i64 })
    } else {
        existing_columns(sheet, lo, hi - 1)
    }
}

/// The rows from `lo` to `hi` in which the sheet holds a value, from top to
/// bottom.
pub open spec fn existing_rows(sheet: SheetView, lo: int, hi: int) -> Seq<RowId>
    decreases hi - lo + 1,
{
    if hi < lo {
        Seq::empty()
    } else if sheet.has_row(hi) {
        existing_rows(sheet, lo, hi - 1).push(RowId { id: hi as i64 })
    } else {
        existing_rows(sheet, lo, hi - 1)
    }
}

/// The part of the rectangle `rect` of the sheet `sheet_id` that holds
/// values: the columns and the rows of the rectangle in which the sheet holds
/// a value. Without cells where the grid holds no such sheet, or where the
/// rectangle is empty or a side is longer than a `u32` can say.
pub open spec fn existing_rect_region(g: Seq<SheetView>, sheet_id: SheetId, rect: Rect) -> RegionView {
    if has_sheet(g, sheet_id) && 1 <= rect.spec_width() <= u32::MAX && 1 <= rect.spec_height()
        <= u32::MAX {
        RegionView {
            sheet: sheet_id,
            columns: existing_columns(g[sheet_index(g, sheet_id)], rect.min.x as int, rect.max.x as int),
            rows: existing_rows(g[sheet_index(g, sheet_id)], rect.min.y as int, rect.max.y as int),
        }
    } else {
        RegionView { sheet: sheet_id, columns: Seq::empty(), rows: Seq::empty() }
    }
}

proof fn lemma_existing_columns(sheet: SheetView, lo: int, hi: int)
    requires
        i64::MIN <= lo,
        hi <= i64::MAX,
    ensures
        existing_columns(sheet, lo, hi).len() <= if hi < lo { 0 } else { hi - lo + 1 },
        forall|k: int|
            0 <= k < existing_columns(sheet, lo, hi).len() ==> lo <= (#[trigger] existing_columns(
                sheet,
                lo,
                hi,
            )[k]).id <= hi,
        existing_columns(sheet, lo, hi).no_duplicates(),
    decreases hi - lo + 1,
{
    if hi >= lo {
        lemma_existing_columns(sheet, lo, hi - 1);
    }
}

proof fn lemma_existing_rows(sheet: SheetView, lo: int, hi: int)
    requires
        i64::MIN <= lo,
        hi <= i64::MAX,
    ensures
        existing_rows(sheet, lo, hi).len() <= if hi < lo { 0 } else { hi - lo + 1 },
        forall|k: int|
            0 <= k < existing_rows(sheet, lo, hi).len() ==> lo <= (#[trigger] existing_rows(
                sheet,
                lo,
                hi,
            )[k]).id <= hi,
        existing_rows(sheet, lo, hi).no_duplicates(),
    decreases hi - lo + 1,
{
    if hi >= lo {
        lemma_existing_rows(sheet, lo, hi - 1);
    }
}

/// The operations of deleting the values of a region: a `SetCells` of blank
/// values, or nothing where the region has no cells (or more than fit in
/// memory).
pub open spec fn delete_values_ops(region: RegionView) -> Seq<OpView> {
    if region.is_empty() || region.size().spec_len() > usize::MAX {
        Seq::empty()
    } else {
        seq![
            OpView::SetCells {
                region,
                values: ArrayView {
                    size: region.size(),
                    values: Seq::new(region.size().spec_len(), |i: int| CellValueView::Blank),
                },
            },
        ]
    }
}

/// The order key that moves the sheet `sheet_id` in front of `to_before`, or
/// behind all sheets if `to_before` is `None`. There is none if the grid does
/// not hold the sheet, if it does not hold `to_before` as another sheet, or
/// if no key lies between that sheet's key and the key before it.
pub open spec fn move_order(g: Seq<SheetView>, sheet_id: SheetId, to_before: Option<SheetId>) -> Option<
    Seq<char>,
> {
    if !has_sheet(g, sheet_id) {
        None
    } else {
        let rest = g.remove(sheet_index(g, sheet_id));
        match to_before {
            None => Some(spec_end_order(rest)),
            Some(b) => {
                if !has_sheet(rest, b) {
                    None
                } else {
                    let j = sheet_index(rest, b);
                    let lo = if j == 0 {
                        Seq::<char>::empty()
                    } else {
                        rest[j - 1].order
                    };
                    spec_key_between(lo, rest[j].order)
                }
            },
        }
    }
}

/// Where the moved sheet comes to stand among the other sheets.
pub open spec fn move_target(g: Seq<SheetView>, sheet_id: SheetId, to_before: Option<SheetId>) -> int {
    let rest = g.remove(sheet_index(g, sheet_id));
    match to_before {
        None => rest.len() as int,
        Some(b) => sheet_index(rest, b),
    }
}

/// The operations of moving a sheet: a `ReorderSheet` with the key that
/// [`move_order`] gives, or nothing where it gives none.
pub open spec fn move_sheet_ops(g: Seq<SheetView>, sheet_id: SheetId, to_before: Option<SheetId>) -> Seq<
    OpView,
> {
    match move_order(g, sheet_id, to_before) {
        Some(order) => seq![OpView::ReorderSheet { target: sheet_id, order }],
        None => Seq::empty(),
    }
}

/// Moving a sheet puts it where it was asked to go: with the key that
/// [`move_order`] gives, the sheet stands directly in front of `to_before`,
/// or behind all others, and the other sheets keep their order.
pub proof fn lemma_move_sheet(g: Seq<SheetView>, sheet_id: SheetId, to_before: Option<SheetId>)
    requires
        grid_wf(g),
        move_order(g, sheet_id, to_before) is Some,
    ensures
        apply_reorder_sheet(g, sheet_id, move_order(g, sheet_id, to_before)->Some_0) is Some,
        ids_of(
            apply_reorder_sheet(g, sheet_id, move_order(g, sheet_id, to_before)->Some_0)->Some_0.grid,
        ) == ids_of(g.remove(sheet_index(g, sheet_id))).insert(
            move_target(g, sheet_id, to_before),
            sheet_id,
        ),
{
    let i = sheet_index(g, sheet_id);
    let rest = g.remove(i);
    let order = move_order(g, sheet_id, to_before)->Some_0;
    let moved = SheetView { order, ..g[i] };
    let target = move_target(g, sheet_id, to_before);
    lemma_grid_remove(g, i);
    match to_before {
        None => {
            lemma_end_order(rest);
            assert forall|k: int| 0 <= k < rest.len() implies sheet_before(#[trigger] rest[k], moved) by {}
        },
        Some(b) => {
            let j = sheet_index(rest, b);
            let lo = if j == 0 {
                Seq::<char>::empty()
            } else {
                rest[j - 1].order
            };
            let hi = rest[j].order;
            if j > 0 {
                assert(sheet_before(rest[j - 1], rest[j]));
                if lo == hi {
                    assert(hi.take(lo.len() as int) =~= lo);
                }
            } else {
                assert(hi.take(0) =~= lo);
            }
            lemma_key_between(lo, hi);
            assert forall|k: int| 0 <= k < j implies sheet_before(#[trigger] rest[k], moved) by {
                if k < j - 1 {
                    assert(sheet_before(rest[k], rest[j - 1]));
                    if rest[k].order != lo {
                        lemma_key_lt_transitive(rest[k].order, lo, order);
                    }
                }
            }
            lemma_key_lt_asymmetric(order, hi);
            lemma_key_lt_irreflexive(order);
        },
    }
    lemma_insert_pos_is(rest, moved, target);
    let after = grid_add(rest, moved);
    assert(ids_of(after) =~= ids_of(rest).insert(target, sheet_id));
}

/// The name `Sheet` followed by a blank and the number `k`.
pub open spec fn numbered_name(k: nat) -> Seq<char> {
    "Sheet "@ + decimal(k)
}

/// The first of the names `Sheet k`, `Sheet k+1`, ... that the grid does not
/// hold, trying `tries` numbers after `k` at most.
pub open spec fn unused_name_from(g: Seq<SheetView>, k: nat, tries: nat) -> Seq<char>
    decreases tries,
{
    if tries == 0 || !has_name(g, numbered_name(k)) {
        numbered_name(k)
    } else {
        unused_name_from(g, k + 1, (tries - 1) as nat)
    }
}

/// The name of a sheet that is added: `Sheet` and the number of sheets plus
/// one, or the next number that gives a name not yet held.
pub open spec fn new_sheet_name(g: Seq<SheetView>) -> Seq<char> {
    unused_name_from(g, g.len() + 1, g.len())
}

/// Different numbers give different names.
pub proof fn lemma_numbered_name_injective(a: nat, b: nat)
    requires
        numbered_name(a) == numbered_name(b),
    ensures
        a == b,
{
    let prefix = "Sheet "@;
    assert(numbered_name(a).skip(prefix.len() as int) =~= decimal(a));
    assert(numbered_name(b).skip(prefix.len() as int) =~= decimal(b));
    lemma_decimal_injective(a, b);
}

/// Of more numbers than there are sheets, one gives a name that no sheet has.
proof fn lemma_some_name_is_free(g: Seq<SheetView>, candidates: Set<nat>)
    requires
        candidates.finite(),
        candidates.len() > g.len(),
    ensures
        exists|k: nat| candidates.contains(k) && !has_name(g, #[trigger] numbered_name(k)),
    decreases g.len(),
{
    if g.len() == 0 {
        let k = candidates.choose();
        assert(candidates.len() > 0);
        assert(candidates.contains(k));
        assert(!has_name(g, numbered_name(k)));
    } else {
        let rest = g.drop_last();
        let taken = g.last().name;
        let smaller = if exists|k: nat| candidates.contains(k) && #[trigger] numbered_name(k) == taken {
            let k0 = choose|k: nat| candidates.contains(k) && #[trigger] numbered_name(k) == taken;
            candidates.remove(k0)
        } else {
            candidates
        };
        lemma_some_name_is_free(rest, smaller);
        let k = choose|k: nat| smaller.contains(k) && !has_name(rest, #[trigger] numbered_name(k));
        assert(numbered_name(k) != taken) by {
            if numbered_name(k) == taken {
                let k0 = choose|k: nat|
                    candidates.contains(k) && #[trigger] numbered_name(k) == taken;
                lemma_numbered_name_injective(k, k0);
            }
        }
        assert(!has_name(g, numbered_name(k))) by {
            if has_name(g, numbered_name(k)) {
                let i = choose|i: int| 0 <= i < g.len() && (#[trigger] g[i]).name == numbered_name(k);
                if i < g.len() - 1 {
                    assert(rest[i].name == numbered_name(k));
                }
            }
        }
        assert(candidates.contains(k));
    }
}

/// What the search for an unused name gives: a name with a number from `k`
/// on, before which every number gave a name that is taken; and unless the
/// search gave up after `tries` numbers, the name is not taken.
proof fn lemma_unused_name_from(g: Seq<SheetView>, k: nat, tries: nat)
    ensures
        exists|j: nat|
            j <= tries && unused_name_from(g, k, tries) == #[trigger] numbered_name(k + j) && (j
                < tries ==> !has_name(g, numbered_name(k + j))) && (forall|i: nat|
                i < j ==> has_name(g, #[trigger] numbered_name(k + i))),
    decreases tries,
{
    if tries == 0 || !has_name(g, numbered_name(k)) {
        assert(unused_name_from(g, k, tries) == numbered_name(k + 0));
    } else {
        lemma_unused_name_from(g, k + 1, (tries - 1) as nat);
        let j1 = choose|j: nat|
            j <= tries - 1 && unused_name_from(g, k + 1, (tries - 1) as nat) == #[trigger] numbered_name(
                k + 1 + j,
            ) && (j < tries - 1 ==> !has_name(g, numbered_name(k + 1 + j))) && (forall|i: nat|
                i < j ==> has_name(g, #[trigger] numbered_name(k + 1 + i)));
        let j = j1 + 1;
        assert(numbered_name(k + j) == numbered_name(k + 1 + j1));
        assert forall|i: nat| i < j implies has_name(g, #[trigger] numbered_name(k + i)) by {
            if i > 0 {
                assert(numbered_name(k + i) == numbered_name(k + 1 + (i - 1) as nat));
            }
        }
    }
}

/// The name given to a sheet that is added is a name that no sheet has.
pub proof fn lemma_new_sheet_name_is_free(g: Seq<SheetView>)
    ensures
        !has_name(g, new_sheet_name(g)),
{
    let n = g.len();
    let k = n + 1;
    lemma_unused_name_from(g, k, n);
    let j = choose|j: nat|
        j <= n && unused_name_from(g, k, n) == #[trigger] numbered_name(k + j) && (j < n
            ==> !has_name(g, numbered_name(k + j))) && (forall|i: nat|
            i < j ==> has_name(g, #[trigger] numbered_name(k + i)));
    if j == n {
        // the numbers k, ..., k + n give more names than there are sheets
        let candidates = Set::new(|c: nat| k <= c <= k + n);
        assert(candidates.finite() && candidates.len() == n + 1) by {
            lemma_nat_range(k, n + 1);
            assert(candidates =~= nat_range(k, n + 1));
        }
        lemma_some_name_is_free(g, candidates);
        let free = choose|c: nat| candidates.contains(c) && !has_name(g, #[trigger] numbered_name(c));
        if free < k + n {
            let i = (free - k) as nat;
            assert(numbered_name(k + i) == numbered_name(free));
            assert(has_name(g, numbered_name(k + i)));
        }
    }
}

/// The `count` numbers from `start` on.
spec fn nat_range(start: nat, count: nat) -> Set<nat>
    decreases count,
{
    if count == 0 {
        Set::empty()
    } else {
        nat_range(start, (count - 1) as nat).insert((start + count - 1) as nat)
    }
}

proof fn lemma_nat_range(start: nat, count: nat)
    ensures
        nat_range(start, count).finite(),
        nat_range(start, count).len() == count,
        forall|c: nat| nat_range(start, count).contains(c) <==> start <= c < start + count,
    decreases count,
{
    if count > 0 {
        lemma_nat_range(start, (count - 1) as nat);
    }
}

/// Adding a sheet adds a sheet: the operation that
/// [`GridController::add_sheet`] makes can be applied to every valid grid
/// that does not hold the id yet.
pub proof fn lemma_add_sheet_applies(g: Seq<SheetView>, id: SheetId)
    requires
        !has_sheet(g, id),
    ensures
        crate::apply::apply_add_sheet(g, new_sheet(g, id)) is Some,
        crate::apply::apply_add_sheet(g, new_sheet(g, id))->Some_0.grid.len() == g.len() + 1,
{
    lemma_new_sheet_name_is_free(g);
    crate::grid::lemma_insert_pos(g, new_sheet(g, id));
}

/// The sheet that [`GridController::add_sheet`] adds under the id `id`.
pub open spec fn new_sheet(g: Seq<SheetView>, id: SheetId) -> SheetView {
    SheetView {
        id,
        name: new_sheet_name(g),
        color: None,
        order: spec_end_order(g),
        cells: Map::empty(),
    }
}

/// The copy of the sheet `sheet_id` under the id `id`; meaningful when the
/// grid holds the sheet. The name is that of the sheet followed by ` Copy`;
/// the order key lies between the sheet and the next one where there is such
/// a key.
pub open spec fn sheet_copy(g: Seq<SheetView>, sheet_id: SheetId, id: SheetId) -> SheetView {
    let i = sheet_index(g, sheet_id);
    let order = if i + 1 < g.len() {
        match spec_key_between(g[i].order, g[i + 1].order) {
            Some(k) => k,
            None => g[i].order,
        }
    } else {
        g[i].order + seq!['n']
    };
    SheetView { id, name: g[i].name + " Copy"@, order, ..g[i] }
}

/// The operations of duplicating a sheet: an `AddSheet` of its copy, or
/// nothing if the grid does not hold the sheet.
pub open spec fn duplicate_sheet_ops(g: Seq<SheetView>, sheet_id: SheetId, id: SheetId) -> Seq<OpView> {
    if has_sheet(g, sheet_id) {
        seq![OpView::AddSheet { sheet: sheet_copy(g, sheet_id, id) }]
    } else {
        Seq::empty()
    }
}

/// The durable ids of `count` columns from `start` on.
fn column_ids(start: i64, count: u32) -> (r: Vec<ColumnId>)
    requires
        start + count - 1 <= i64::MAX,
    ensures
        r@ == Seq::new(count as nat, |i: int| ColumnId { id: (start + i) as i64 }),
{
    let mut out: Vec<ColumnId> = Vec::new();
    let mut i: u32 = 0;
    while i < count
        invariant
            i <= count,
            start + count - 1 <= i64::MAX,
            out.len() == i,
            forall|k: int| 0 <= k < i ==> out@[k] == (ColumnId { id: (start + k) as i64 }),
        decreases count - i,
    {
        let x: i128 = start as i128 + i as i128;
        out.push(ColumnId { id: x as i64 });
        i += 1;
    }
    assert(out@ =~= Seq::new(count as nat, |i: int| ColumnId { id: (start + i) as i64 }));
    out
}

/// The durable ids of `count` rows from `start` on.
fn row_ids(start: i64, count: u32) -> (r: Vec<RowId>)
    requires
        start + count - 1 <= i64::MAX,
    ensures
        r@ == Seq::new(count as nat, |i: int| RowId { id: (start + i) as i64 }),
{
    let mut out: Vec<RowId> = Vec::new();
    let mut i: u32 = 0;
    while i < count
        invariant
            i <= count,
            start + count - 1 <= i64::MAX,
            out.len() == i,
            forall|k: int| 0 <= k < i ==> out@[k] == (RowId { id: (start + k) as i64 }),
        decreases count - i,
    {
        let y: i128 = start as i128 + i as i128;
        out.push(RowId { id: y as i64 });
        i += 1;
    }
    assert(out@ =~= Seq::new(count as nat, |i: int| RowId { id: (start + i) as i64 }));
    out
}

impl GridController {
    /// Returns the region of a rectangle of a sheet: the durable ids of its
    /// columns and rows; see [`rect_region`].
    pub fn region(&self, sheet_id: SheetId, rect: Rect) -> (r: RegionRef)
        ensures
            r.wf(),
            r@ == rect_region(sheet_id, rect),
    {
        match (rect.checked_width(), rect.checked_height()) {
            (Some(w), Some(h)) => {
                let columns = column_ids(rect.min.x, w);
                let rows = row_ids(rect.min.y, h);
                let r = RegionRef { sheet: sheet_id, columns, rows };
                proof {
                    assert forall|i: int, j: int|
                        0 <= i < r.columns@.len() && 0 <= j < r.columns@.len() && i
                            != j implies r.columns@[i] != r.columns@[j] by {}
                    assert forall|i: int, j: int|
                        0 <= i < r.rows@.len() && 0 <= j < r.rows@.len() && i != j implies r.rows@[i]
                        != r.rows@[j] by {}
                }
                r
            },
            _ => RegionRef { sheet: sheet_id, columns: Vec::new(), rows: Vec::new() },
        }
    }

    /// Returns the region of a rectangle of a sheet, leaving out the columns
    /// and rows which hold no value; see [`existing_rect_region`].
    pub fn existing_region(&self, sheet_id: SheetId, rect: Rect) -> (r: RegionRef)
        requires
            self.wf(),
        ensures
            r.wf(),
            r@ == existing_rect_region(self@.grid, sheet_id, rect),
    {
        let empty = RegionRef { sheet: sheet_id, columns: Vec::new(), rows: Vec::new() };
        let sheet: &Sheet = match self.try_sheet_from_id(sheet_id) {
            Some(s) => s,
            None => {
                return empty;
            },
        };
        if rect.checked_width().is_none() || rect.checked_height().is_none() {
            return empty;
        }
        let ghost sv = sheet@;
        let mut columns: Vec<ColumnId> = Vec::new();
        let mut x: i64 = rect.min.x;
        loop
            invariant_except_break
                columns@ == existing_columns(sv, rect.min.x as int, x - 1),
            invariant
                rect.min.x <= x <= rect.max.x,
                sheet.wf(),
                sv == sheet@,
            ensures
                columns@ == existing_columns(sv, rect.min.x as int, rect.max.x as int),
            decreases rect.max.x - x,
        {
            if sheet.has_column(x) {
                columns.push(ColumnId { id: x });
            }
            if x == rect.max.x {
                break ;
            }
            x += 1;
        }
        let mut rows: Vec<RowId> = Vec::new();
        let mut y: i64 = rect.min.y;
        loop
            invariant_except_break
                rows@ == existing_rows(sv, rect.min.y as int, y - 1),
            invariant
                rect.min.y <= y <= rect.max.y,
                sheet.wf(),
                sv == sheet@,
            ensures
                rows@ == existing_rows(sv, rect.min.y as int, rect.max.y as int),
            decreases rect.max.y - y,
        {
            if sheet.has_row(y) {
                rows.push(RowId { id: y });
            }
            if y == rect.max.y {
                break ;
            }
            y += 1;
        }
        proof {
            lemma_existing_columns(sv, rect.min.x as int, rect.max.x as int);
            lemma_existing_rows(sv, rect.min.y as int, rect.max.y as int);
        }
        RegionRef { sheet: sheet_id, columns, rows }
    }

    /// The operations that give a sheet another name.
    pub fn set_sheet_name_operations(&self, sheet_id: SheetId, name: String) -> (ops: Vec<
        Operation,
    >)
        ensures
            all_wf(ops@),
            ops_view(ops@) == seq![OpView::SetSheetName { sheet_id, name: name@ }],
    {
        let mut ops: Vec<Operation> = Vec::new();
        ops.push(Operation::SetSheetName { sheet_id, name });
        assert(ops_view(ops@) =~= seq![OpView::SetSheetName { sheet_id, name: name@ }]);
        ops
    }

    /// The operations that give a sheet a colour, or none.
    pub fn set_sheet_color_operations(&self, sheet_id: SheetId, color: Option<String>) -> (ops:
        Vec<Operation>)
        ensures
            all_wf(ops@),
            ops_view(ops@) == seq![OpView::SetSheetColor { sheet_id, color: opt_view(color) }],
    {
        let mut ops: Vec<Operation> = Vec::new();
        ops.push(Operation::SetSheetColor { sheet_id, color });
        assert(ops_view(ops@) =~= seq![
            OpView::SetSheetColor { sheet_id, color: opt_view(color) },
        ]);
        ops
    }

    /// The operations that write one value to one cell.
    pub fn set_cell_value_operations(&self, sheet_id: SheetId, pos: Pos, value: CellValue) -> (ops:
        Vec<Operation>)
        ensures
            all_wf(ops@),
            ops_view(ops@) == seq![
                OpView::SetCells {
                    region: cell_region(sheet_id, pos),
                    values: ArrayView { size: ArraySize { w: 1, h: 1 }, values: seq![value@] },
                },
            ],
    {
        let cell_ref = CellRef {
            sheet: sheet_id,
            column: ColumnId { id: pos.x },
            row: RowId { id: pos.y },
        };
        let region = RegionRef::from_cell_ref(cell_ref);
        let values = Array::from_value(value);
        let mut ops: Vec<Operation> = Vec::new();
        ops.push(Operation::SetCells { region, values });
        assert(ops_view(ops@) =~= seq![
            OpView::SetCells {
                region: cell_region(sheet_id, pos),
                values: ArrayView { size: ArraySize { w: 1, h: 1 }, values: seq![value@] },
            },
        ]);
        ops
    }

    /// The operations that write an array of values into the rectangle that
    /// begins at `start_pos`: nothing where the rectangle would reach beyond
    /// the last column or row.
    pub fn set_cells_operations(&self, sheet_id: SheetId, start_pos: Pos, values: Array) -> (ops:
        Vec<Operation>)
        requires
            values.wf(),
        ensures
            all_wf(ops@),
            ops_view(ops@) == if start_pos.x + values@.size.w - 1 <= i64::MAX && start_pos.y
                + values@.size.h - 1 <= i64::MAX {
                seq![
                    OpView::SetCells {
                        region: rect_region(
                            sheet_id,
                            Rect {
                                min: start_pos,
                                max: Pos {
                                    x: (start_pos.x + values@.size.w - 1) as i64,
                                    y: (start_pos.y + values@.size.h - 1) as i64,
                                },
                            },
                        ),
                        values: values@,
                    },
                ]
            } else {
                Seq::<OpView>::empty()
            },
    {
        let mut ops: Vec<Operation> = Vec::new();
        let end_x: i128 = start_pos.x as i128 + values.width() as i128 - 1;
        let end_y: i128 = start_pos.y as i128 + values.height() as i128 - 1;
        if end_x > i64::MAX as i128 || end_y > i64::MAX as i128 {
            assert(ops_view(ops@) =~= Seq::<OpView>::empty());
            return ops;
        }
        let rect = Rect { min: start_pos, max: Pos { x: end_x as i64, y: end_y as i64 } };
        let region = self.region(sheet_id, rect);
        ops.push(Operation::SetCells { region, values });
        assert(ops_view(ops@) =~= seq![
            OpView::SetCells { region: rect_region(sheet_id, rect), values: values@ },
        ]);
        ops
    }

    /// The operations that clear the cells of a rectangle: blank values
    /// written to the columns and rows of it that hold a value.
    pub fn delete_cell_values_operations(&self, sheet_id: SheetId, rect: Rect) -> (ops: Vec<
        Operation,
    >)
        requires
            self.wf(),
        ensures
            all_wf(ops@),
            ops_view(ops@) == delete_values_ops(existing_rect_region(self@.grid, sheet_id, rect)),
    {
        let region = self.existing_region(sheet_id, rect);
        let mut ops: Vec<Operation> = Vec::new();
        match region.size() {
            Some(size) => {
                if size.len() > usize::MAX as u64 {
                    assert(ops_view(ops@) =~= Seq::<OpView>::empty());
                } else {
                    let values = Array::new_empty(size);
                    proof {
                        assert(values@.values =~= Seq::new(
                            size.spec_len(),
                            |i: int| CellValueView::Blank,
                        ));
                    }
                    ops.push(Operation::SetCells { region, values });
                    assert(ops_view(ops@) =~= delete_values_ops(
                        existing_rect_region(self@.grid, sheet_id, rect),
                    ));
                }
            },
            None => {
                assert(ops_view(ops@) =~= Seq::<OpView>::empty());
            },
        }
        ops
    }

    /// The operations that add an empty sheet under the id `id` behind all
    /// sheets; see [`new_sheet`].
    pub fn add_sheet_operations(&self, id: SheetId) -> (ops: Vec<Operation>)
        requires
            self.wf(),
        ensures
            all_wf(ops@),
            ops_view(ops@) == seq![OpView::AddSheet { sheet: new_sheet(self@.grid, id) }],
    {
        let grid: &Grid = self.grid();
        let n: usize = grid.len();
        let mut k: u128 = n as u128 + 1;
        let mut tries: usize = n;
        let mut name: String = "Sheet ".to_owned();
        name.append(decimal_string(k).as_str());
        while tries > 0 && grid.sheet_name_to_index(&name).is_some()
            invariant
                grid@ == self@.grid,
                k + tries <= 2 * n + 1,
                n == grid@.len(),
                name@ == numbered_name(k as nat),
                new_sheet_name(grid@) == unused_name_from(grid@, k as nat, tries as nat),
            decreases tries,
        {
            k = k + 1;
            tries = tries - 1;
            name = "Sheet ".to_owned();
            name.append(decimal_string(k).as_str());
        }
        let sheet = Sheet::new(id, name, grid.end_order());
        let mut ops: Vec<Operation> = Vec::new();
        ops.push(Operation::AddSheet { sheet });
        assert(ops_view(ops@) =~= seq![OpView::AddSheet { sheet: new_sheet(self@.grid, id) }]);
        ops
    }

    /// The operations that delete a sheet.
    pub fn delete_sheet_operations(&self, sheet_id: SheetId) -> (ops: Vec<Operation>)
        ensures
            all_wf(ops@),
            ops_view(ops@) == seq![OpView::DeleteSheet { sheet_id }],
    {
        let mut ops: Vec<Operation> = Vec::new();
        ops.push(Operation::DeleteSheet { sheet_id });
        assert(ops_view(ops@) =~= seq![OpView::DeleteSheet { sheet_id }]);
        ops
    }

    /// The operations that move a sheet in front of `to_before`, or behind
    /// all sheets; see [`move_sheet_ops`] and [`lemma_move_sheet`].
    pub fn move_sheet_operations(&self, sheet_id: SheetId, to_before: Option<SheetId>) -> (ops:
        Vec<Operation>)
        requires
            self.wf(),
        ensures
            all_wf(ops@),
            ops_view(ops@) == move_sheet_ops(self@.grid, sheet_id, to_before),
    {
        let grid: &Grid = self.grid();
        let ghost g = grid@;
        let mut ops: Vec<Operation> = Vec::new();
        proof {
            grid.lemma_wf();
        }
        let at: usize = match grid.sheet_id_to_index(sheet_id) {
            Some(i) => i,
            None => {
                assert(ops_view(ops@) =~= Seq::<OpView>::empty());
                return ops;
            },
        };
        let ghost rest = g.remove(at as int);
        proof {
            lemma_grid_remove(g, at as int);
        }
        let sheets: &Vec<Sheet> = grid.sheets();
        let n: usize = sheets.len();
        let order: Option<String> = match to_before {
            None => {
                // the key behind the last of the other sheets
                if n == 1 {
                    assert(rest =~= Seq::<SheetView>::empty());
                    Some(crate::order::first_key())
                } else {
                    let last: usize = if at == n - 1 {
                        n - 2
                    } else {
                        n - 1
                    };
                    assert(rest.last() == g[last as int]);
                    Some(key_after(sheets[last].order()))
                }
            },
            Some(b) => {
                match grid.sheet_id_to_index(b) {
                    None => {
                        proof {
                            if has_sheet(rest, b) {
                                let j = sheet_index(rest, b);
                                assert(rest[j] == g[if j < at { j } else { j + 1 }]);
                            }
                        }
                        None
                    },
                    Some(bi) => {
                        if bi == at {
                            None
                        } else {
                            let ghost j: int = if bi < at {
                                bi as int
                            } else {
                                bi - 1
                            };
                            proof {
                                assert(rest[j] == g[bi as int]);
                                assert(has_sheet(rest, b));
                                crate::grid::lemma_sheet_index(rest, j);
                            }
                            // the sheet in front of `b` among the other sheets
                            let before: Option<usize> = if bi == 0 {
                                None
                            } else if bi - 1 != at {
                                Some(bi - 1)
                            } else if bi >= 2 {
                                Some(bi - 2)
                            } else {
                                None
                            };
                            match before {
                                Some(p) => {
                                    assert(rest[j - 1] == g[p as int]);
                                    key_between(sheets[p].order(), sheets[bi].order())
                                },
                                None => {
                                    assert(j == 0);
                                    let lo: String = String::new();
                                    assert(lo@ =~= Seq::<char>::empty());
                                    key_between(&lo, sheets[bi].order())
                                },
                            }
                        }
                    },
                }
            },
        };
        match order {
            Some(order) => {
                ops.push(Operation::ReorderSheet { target: sheet_id, order });
                assert(ops_view(ops@) =~= move_sheet_ops(g, sheet_id, to_before));
            },
            None => {
                assert(ops_view(ops@) =~= Seq::<OpView>::empty());
            },
        }
        ops
    }

    /// The operations that add a copy of a sheet under the id `id`; see
    /// [`duplicate_sheet_ops`].
    pub fn duplicate_sheet_operations(&self, sheet_id: SheetId, id: SheetId) -> (ops: Vec<
        Operation,
    >)
        requires
            self.wf(),
        ensures
            all_wf(ops@),
            ops_view(ops@) == duplicate_sheet_ops(self@.grid, sheet_id, id),
    {
        let grid: &Grid = self.grid();
        let ghost g = grid@;
        let mut ops: Vec<Operation> = Vec::new();
        let at: usize = match grid.sheet_id_to_index(sheet_id) {
            Some(i) => i,
            None => {
                assert(ops_view(ops@) =~= Seq::<OpView>::empty());
                return ops;
            },
        };
        let sheets: &Vec<Sheet> = grid.sheets();
        let source: &Sheet = &sheets[at];
        let order: String = if at < sheets.len() - 1 {
            match key_between(source.order(), sheets[at + 1].order()) {
                Some(k) => k,
                None => source.order().clone(),
            }
        } else {
            key_after(source.order())
        };
        let mut name: String = source.name().clone();
        name.append(" Copy");
        let mut new_sheet: Sheet = source.duplicate();
        new_sheet.set_id(id);
        new_sheet.set_name(name);
        new_sheet.set_order(order);
        ops.push(Operation::AddSheet { sheet: new_sheet });
        assert(ops_view(ops@) =~= duplicate_sheet_ops(g, sheet_id, id));
        ops
    }

    /// Gives a sheet another name. Nothing changes if the grid does not hold
    /// the sheet or if another sheet has the name.
    pub fn set_sheet_name(&mut self, sheet_id: SheetId, name: String, cursor: Option<String>) -> (summary:
        TransactionSummary)
        requires
            old(self).wf(),
        ensures
            final(self).wf(),
            user_action(
                old(self)@,
                seq![OpView::SetSheetName { sheet_id, name: name@ }],
                opt_view(cursor),
                final(self)@,
                summary@,
            ),
    {
        let ops = self.set_sheet_name_operations(sheet_id, name);
        self.transact_forward(ops, SheetId::new(), TransactionId::new(), cursor)
    }

    /// Gives a sheet a colour, or none. Nothing changes if the grid does not
    /// hold the sheet.
    pub fn set_sheet_color(
        &mut self,
        sheet_id: SheetId,
        color: Option<String>,
        cursor: Option<String>,
    ) -> (summary: TransactionSummary)
        requires
            old(self).wf(),
        ensures
            final(self).wf(),
            user_action(
                old(self)@,
                seq![OpView::SetSheetColor { sheet_id, color: opt_view(color) }],
                opt_view(cursor),
                final(self)@,
                summary@,
            ),
    {
        let ops = self.set_sheet_color_operations(sheet_id, color);
        self.transact_forward(ops, SheetId::new(), TransactionId::new(), cursor)
    }

    /// Writes one value to one cell. Nothing changes if the grid does not
    /// hold the sheet.
    pub fn set_cell_value(
        &mut self,
        sheet_id: SheetId,
        pos: Pos,
        value: CellValue,
        cursor: Option<String>,
    ) -> (summary: TransactionSummary)
        requires
            old(self).wf(),
        ensures
            final(self).wf(),
            user_action(
                old(self)@,
                seq![
                    OpView::SetCells {
                        region: cell_region(sheet_id, pos),
                        values: ArrayView { size: ArraySize { w: 1, h: 1 }, values: seq![value@] },
                    },
                ],
                opt_view(cursor),
                final(self)@,
                summary@,
            ),
    {
        let ops = self.set_cell_value_operations(sheet_id, pos, value);
        self.transact_forward(ops, SheetId::new(), TransactionId::new(), cursor)
    }

    /// Writes an array of values into the rectangle that begins at
    /// `start_pos`; see [`GridController::set_cells_operations`].
    pub fn set_cells(
        &mut self,
        sheet_id: SheetId,
        start_pos: Pos,
        values: Array,
        cursor: Option<String>,
    ) -> (summary: TransactionSummary)
        requires
            old(self).wf(),
            values.wf(),
        ensures
            final(self).wf(),
            user_action(
                old(self)@,
                if start_pos.x + values@.size.w - 1 <= i64::MAX && start_pos.y + values@.size.h - 1
                    <= i64::MAX {
                    seq![
                        OpView::SetCells {
                            region: rect_region(
                                sheet_id,
                                Rect {
                                    min: start_pos,
                                    max: Pos {
                                        x: (start_pos.x + values@.size.w - 1) as i64,
                                        y: (start_pos.y + values@.size.h - 1) as i64,
                                    },
                                },
                            ),
                            values: values@,
                        },
                    ]
                } else {
                    Seq::<OpView>::empty()
                },
                opt_view(cursor),
                final(self)@,
                summary@,
            ),
    {
        let ops = self.set_cells_operations(sheet_id, start_pos, values);
        self.transact_forward(ops, SheetId::new(), TransactionId::new(), cursor)
    }

    /// Clears the cells of a rectangle; see
    /// [`GridController::delete_cell_values_operations`].
    pub fn delete_cell_values(&mut self, sheet_id: SheetId, rect: Rect, cursor: Option<String>) -> (summary:
        TransactionSummary)
        requires
            old(self).wf(),
        ensures
            final(self).wf(),
            user_action(
                old(self)@,
                delete_values_ops(existing_rect_region(old(self)@.grid, sheet_id, rect)),
                opt_view(cursor),
                final(self)@,
                summary@,
            ),
    {
        let ops = self.delete_cell_values_operations(sheet_id, rect);
        self.transact_forward(ops, SheetId::new(), TransactionId::new(), cursor)
    }

    /// Adds an empty sheet behind all sheets, under a fresh random id; see
    /// [`new_sheet`].
    pub fn add_sheet(&mut self, cursor: Option<String>) -> (summary: TransactionSummary)
        requires
            old(self).wf(),
        ensures
            final(self).wf(),
            exists|id: SheetId|
                user_action(
                    old(self)@,
                    seq![OpView::AddSheet { sheet: #[trigger] new_sheet(old(self)@.grid, id) }],
                    opt_view(cursor),
                    final(self)@,
                    summary@,
                ),
    {
        let id = SheetId::new();
        let ops = self.add_sheet_operations(id);
        let ghost ov = seq![OpView::AddSheet { sheet: new_sheet(self@.grid, id) }];
        let summary = self.transact_forward(ops, SheetId::new(), TransactionId::new(), cursor);
        assert(user_action(old(self)@, ov, opt_view(cursor), self@, summary@));
        summary
    }

    /// Deletes a sheet. If it was the last one, a new sheet `Sheet 1` takes
    /// its place. Nothing changes if the grid does not hold the sheet.
    pub fn delete_sheet(&mut self, sheet_id: SheetId, cursor: Option<String>) -> (summary:
        TransactionSummary)
        requires
            old(self).wf(),
        ensures
            final(self).wf(),
            user_action(
                old(self)@,
                seq![OpView::DeleteSheet { sheet_id }],
                opt_view(cursor),
                final(self)@,
                summary@,
            ),
    {
        let ops = self.delete_sheet_operations(sheet_id);
        self.transact_forward(ops, SheetId::new(), TransactionId::new(), cursor)
    }

    /// Moves a sheet in front of `to_before`, or behind all sheets; see
    /// [`move_sheet_ops`] and [`lemma_move_sheet`].
    pub fn move_sheet(
        &mut self,
        sheet_id: SheetId,
        to_before: Option<SheetId>,
        cursor: Option<String>,
    ) -> (summary: TransactionSummary)
        requires
            old(self).wf(),
        ensures
            final(self).wf(),
            user_action(
                old(self)@,
                move_sheet_ops(old(self)@.grid, sheet_id, to_before),
                opt_view(cursor),
                final(self)@,
                summary@,
            ),
    {
        let ops = self.move_sheet_operations(sheet_id, to_before);
        self.transact_forward(ops, SheetId::new(), TransactionId::new(), cursor)
    }

    /// Adds a copy of a sheet under a fresh random id, named like the sheet
    /// with ` Copy` behind; see [`duplicate_sheet_ops`].
    pub fn duplicate_sheet(&mut self, sheet_id: SheetId, cursor: Option<String>) -> (summary:
        TransactionSummary)
        requires
            old(self).wf(),
        ensures
            final(self).wf(),
            exists|id: SheetId|
                user_action(
                    old(self)@,
                    #[trigger] duplicate_sheet_ops(old(self)@.grid, sheet_id, id),
                    opt_view(cursor),
                    final(self)@,
                    summary@,
                ),
    {
        let id = SheetId::new();
        let ops = self.duplicate_sheet_operations(sheet_id, id);
        let ghost ov = duplicate_sheet_ops(self@.grid, sheet_id, id);
        let summary = self.transact_forward(ops, SheetId::new(), TransactionId::new(), cursor);
        assert(user_action(old(self)@, ov, opt_view(cursor), self@, summary@));
        summary
    }
}

} // verus!
