//! One sheet: its metadata, its cells, and the rectangle the cells span.

use vstd::prelude::*;
use crate::position::{Pos, Rect};
use crate::ids::{SheetId, ColumnId, RowId, CellRef};
use crate::values::{CellValue, CellValueView};

verus! {

/// The rectangle spanned by the cells of a sheet that hold a value.
#[derive(Debug, Clone, Copy, PartialEq, Eq, Structural)]
pub enum GridBounds {
    /// The sheet holds no value.
    Empty,
    /// The smallest rectangle that holds every value.
    NonEmpty(Rect),
}

/// What the cell at `pos` reads as: its value, or `Blank` if none is stored.
pub open spec fn read_cell(cells: Map<Pos, CellValueView>, pos: Pos) -> CellValueView {
    if cells.contains_key(pos) {
        cells[pos]
    } else {
        CellValueView::Blank
    }
}

/// The cells after `value` is written at `pos`: writing `Blank` removes the
/// cell, so that no stored value is ever `Blank`.
pub open spec fn write_cell(cells: Map<Pos, CellValueView>, pos: Pos, value: CellValueView) -> Map<
    Pos,
    CellValueView,
> {
    if value == CellValueView::Blank {
        cells.remove(pos)
    } else {
        cells.insert(pos, value)
    }
}

/// `b` is the bounding rectangle of the cells: `Empty` exactly if there is no
/// cell; else every cell lies inside it and each of its four sides touches one.
pub open spec fn bounds_match(cells: Map<Pos, CellValueView>, b: GridBounds) -> bool {
    match b {
        GridBounds::Empty => forall|p: Pos| !cells.contains_key(p),
        GridBounds::NonEmpty(r) => {
            &&& forall|p: Pos| cells.contains_key(p) ==> r.spec_contains(p)
            &&& exists|p: Pos| #[trigger] cells.contains_key(p) && p.x == r.min.x
            &&& exists|p: Pos| #[trigger] cells.contains_key(p) && p.x == r.max.x
            &&& exists|p: Pos| #[trigger] cells.contains_key(p) && p.y == r.min.y
            &&& exists|p: Pos| #[trigger] cells.contains_key(p) && p.y == r.max.y
        },
    }
}

/// Mathematical model of a [`Sheet`]. The cells map positions to the values
/// stored there; a position that is no key reads as `Blank`.
pub ghost struct SheetView {
    pub id: SheetId,
    pub name: Seq<char>,
    pub color: Option<Seq<char>>,
    pub order: Seq<char>,
    pub cells: Map<Pos, CellValueView>,
}

impl SheetView {
    /// No stored value is `Blank`.
    pub open spec fn wf(self) -> bool {
        forall|p: Pos| self.cells.contains_key(p) ==> self.cells[p] != CellValueView::Blank
    }

    /// Whether some cell of column `x` holds a value.
    pub open spec fn has_column(self, x: int) -> bool {
        exists|p: Pos| #[trigger] self.cells.contains_key(p) && p.x == x
    }

    /// Whether some cell of row `y` holds a value.
    pub open spec fn has_row(self, y: int) -> bool {
        exists|p: Pos| #[trigger] self.cells.contains_key(p) && p.y == y
    }
}

/// The model of an optional string.
pub open spec fn opt_view(s: Option<String>) -> Option<Seq<char>> {
    match s {
        Some(t) => Some(t@),
        None => None,
    }
}

/// Copies an optional string.
pub fn duplicate_opt(s: &Option<String>) -> (r: Option<String>)
    ensures
        opt_view(r) == opt_view(*s),
{
    match s {
        Some(t) => Some(t.clone()),
        None => None,
    }
}

/// One stored cell.
#[derive(Debug, Clone, PartialEq, Eq)]
struct CellEntry {
    pos: Pos,
    value: CellValue,
}

/// A named, ordered page of cells with a stable id.
#[derive(Debug, Clone, PartialEq, Eq)]
pub struct Sheet {
    id: SheetId,
    name: String,
    color: Option<String>,
    order: String,
    cells: Vec<CellEntry>,
    bounds: GridBounds,
}

/// The map that a list of stored cells stands for.
spec fn cells_map(cells: Seq<CellEntry>) -> Map<Pos, CellValueView> {
    Map::new(
        |p: Pos| exists|i: int| 0 <= i < cells.len() && #[trigger] cells[i].pos == p,
        |p: Pos|
            cells[choose|i: int| 0 <= i < cells.len() && #[trigger] cells[i].pos == p].value@,
    )
}

/// No position is stored twice and no stored value is `Blank`.
spec fn cells_wf(cells: Seq<CellEntry>) -> bool {
    &&& forall|i: int, j: int|
        0 <= i < cells.len() && 0 <= j < cells.len() && i != j ==> #[trigger] cells[i].pos
            != #[trigger] cells[j].pos
    &&& forall|i: int| 0 <= i < cells.len() ==> (#[trigger] cells[i]).value@ != CellValueView::Blank
}

proof fn lemma_cells_map_index(cells: Seq<CellEntry>, i: int)
    requires
        cells_wf(cells),
        0 <= i < cells.len(),
    ensures
        cells_map(cells).contains_key(cells[i].pos),
        cells_map(cells)[cells[i].pos] == cells[i].value@,
{
    let p = cells[i].pos;
    let k = choose|k: int| 0 <= k < cells.len() && #[trigger] cells[k].pos == p;
    assert(k == i);
}

/// Position `a` stands before position `b`: by column, and by row within a
/// column.
spec fn pos_lt(a: Pos, b: Pos) -> bool {
    a.x < b.x || (a.x == b.x && a.y < b.y)
}

/// The stored cells stand in ascending order of their positions, so that
/// sheets with the same cells are stored alike.
spec fn cells_sorted(cells: Seq<CellEntry>) -> bool {
    forall|i: int, j: int|
        0 <= i < j < cells.len() ==> pos_lt(#[trigger] cells[i].pos, #[trigger] cells[j].pos)
}

proof fn lemma_cells_map_insert(cells: Seq<CellEntry>, at: int, e: CellEntry)
    requires
        cells_wf(cells),
        0 <= at <= cells.len(),
        !cells_map(cells).contains_key(e.pos),
        e.value@ != CellValueView::Blank,
    ensures
        cells_wf(cells.insert(at, e)),
        cells_map(cells.insert(at, e)) == cells_map(cells).insert(e.pos, e.value@),
{
    let after = cells.insert(at, e);
    assert forall|i: int| 0 <= i < after.len() implies #[trigger] after[i] == (if i < at {
        cells[i]
    } else if i == at {
        e
    } else {
        cells[i - 1]
    }) by {}
    assert forall|i: int, j: int|
        0 <= i < after.len() && 0 <= j < after.len() && i != j implies #[trigger] after[i].pos
        != #[trigger] after[j].pos by {
        let i0 = if i < at { i } else { i - 1 };
        let j0 = if j < at { j } else { j - 1 };
        if i != at && j != at {
            assert(cells[i0].pos != cells[j0].pos);
        } else if i == at {
            assert(cells[j0].pos == after[j].pos);
        } else {
            assert(cells[i0].pos == after[i].pos);
        }
    }
    assert forall|i: int| 0 <= i < after.len() implies (#[trigger] after[i]).value@
        != CellValueView::Blank by {
        if i != at {
            let i0 = if i < at { i } else { i - 1 };
            assert(after[i] == cells[i0]);
        }
    }
    assert(cells_wf(after));
    assert forall|p: Pos| #[trigger]
        cells_map(after).contains_key(p) == cells_map(cells).insert(
            e.pos,
            e.value@,
        ).contains_key(p) by {
        if cells_map(cells).contains_key(p) {
            let i = choose|i: int| 0 <= i < cells.len() && #[trigger] cells[i].pos == p;
            let i1 = if i < at { i } else { i + 1 };
            assert(after[i1].pos == p);
        }
        if p == e.pos {
            assert(after[at].pos == p);
        }
        if cells_map(after).contains_key(p) {
            let i = choose|i: int| 0 <= i < after.len() && #[trigger] after[i].pos == p;
            if i != at {
                let i0 = if i < at { i } else { i - 1 };
                assert(cells[i0].pos == p);
            }
        }
    }
    assert forall|p: Pos| cells_map(after).contains_key(p) implies #[trigger] cells_map(after)[p]
        == cells_map(cells).insert(e.pos, e.value@)[p] by {
        let i = choose|i: int| 0 <= i < after.len() && #[trigger] after[i].pos == p;
        lemma_cells_map_index(after, i);
        if i != at {
            let i0 = if i < at { i } else { i - 1 };
            assert(cells[i0].pos == p);
            lemma_cells_map_index(cells, i0);
        }
    }
    assert(cells_map(after) =~= cells_map(cells).insert(e.pos, e.value@));
}

proof fn lemma_cells_map_remove(cells: Seq<CellEntry>, i: int)
    requires
        cells_wf(cells),
        0 <= i < cells.len(),
    ensures
        cells_wf(cells.remove(i)),
        cells_map(cells.remove(i)) == cells_map(cells).remove(cells[i].pos),
{
    let after = cells.remove(i);
    assert forall|a: int| 0 <= a < after.len() implies #[trigger] after[a] == cells[if a < i {
        a
    } else {
        a + 1
    }] by {}
    assert forall|a: int, b: int|
        0 <= a < after.len() && 0 <= b < after.len() && a != b implies #[trigger] after[a].pos
        != #[trigger] after[b].pos by {
        let a2 = if a < i { a } else { a + 1 };
        let b2 = if b < i { b } else { b + 1 };
        assert(after[a] == cells[a2]);
        assert(after[b] == cells[b2]);
    }
    assert forall|a: int| 0 <= a < after.len() implies (#[trigger] after[a]).value@
        != CellValueView::Blank by {
        let a2 = if a < i { a } else { a + 1 };
        assert(after[a] == cells[a2]);
    }
    assert(cells_wf(after));
    let target = cells_map(cells).remove(cells[i].pos);
    assert forall|p: Pos| #[trigger] cells_map(after).contains_key(p) == target.contains_key(
        p,
    ) by {
        if cells_map(after).contains_key(p) {
            let a = choose|a: int| 0 <= a < after.len() && #[trigger] after[a].pos == p;
            let a2 = if a < i { a } else { a + 1 };
            assert(after[a] == cells[a2]);
            assert(cells[a2].pos == p);
        }
        if target.contains_key(p) {
            let k = choose|k: int| 0 <= k < cells.len() && #[trigger] cells[k].pos == p;
            assert(k != i);
            let a = if k < i { k } else { k - 1 };
            assert(after[a] == cells[k]);
            assert(after[a].pos == p);
        }
    }
    assert forall|p: Pos| cells_map(after).contains_key(p) implies #[trigger] cells_map(after)[p]
        == target[p] by {
        let a = choose|a: int| 0 <= a < after.len() && #[trigger] after[a].pos == p;
        let a2 = if a < i { a } else { a + 1 };
        assert(after[a] == cells[a2]);
        lemma_cells_map_index(after, a);
        lemma_cells_map_index(cells, a2);
    }
    assert(cells_map(after) =~= target);
}

/// Taking a cell out leaves the cells in order.
proof fn lemma_sorted_remove(cells: Seq<CellEntry>, at: int)
    requires
        cells_sorted(cells),
        0 <= at < cells.len(),
    ensures
        cells_sorted(cells.remove(at)),
{
    let after = cells.remove(at);
    assert forall|i: int, j: int| 0 <= i < j < after.len() implies pos_lt(
        #[trigger] after[i].pos,
        #[trigger] after[j].pos,
    ) by {
        let i0 = if i < at { i } else { i + 1 };
        let j0 = if j < at { j } else { j + 1 };
        assert(after[i] == cells[i0]);
        assert(after[j] == cells[j0]);
        assert(pos_lt(cells[i0].pos, cells[j0].pos));
    }
}

/// Putting a cell in behind all that stand before it and before all others
/// leaves the cells in order.
proof fn lemma_sorted_insert(cells: Seq<CellEntry>, at: int, e: CellEntry)
    requires
        cells_sorted(cells),
        0 <= at <= cells.len(),
        forall|k: int| 0 <= k < at ==> pos_lt((#[trigger] cells[k]).pos, e.pos),
        forall|k: int| at <= k < cells.len() ==> !pos_lt((#[trigger] cells[k]).pos, e.pos),
        forall|k: int| 0 <= k < cells.len() ==> (#[trigger] cells[k]).pos != e.pos,
    ensures
        cells_sorted(cells.insert(at, e)),
{
    let after = cells.insert(at, e);
    assert forall|i: int, j: int| 0 <= i < j < after.len() implies pos_lt(
        #[trigger] after[i].pos,
        #[trigger] after[j].pos,
    ) by {
        let i0 = if i < at { i } else { i - 1 };
        let j0 = if j < at { j } else { j - 1 };
        if i == at {
            assert(after[j] == cells[j0]);
            assert(!pos_lt(cells[j0].pos, e.pos));
            assert(cells[j0].pos != e.pos);
        } else if j == at {
            assert(after[i] == cells[i0]);
        } else {
            assert(after[i] == cells[i0]);
            assert(after[j] == cells[j0]);
            assert(pos_lt(cells[i0].pos, cells[j0].pos));
        }
    }
}

/// Cells have one bounding rectangle only.
proof fn lemma_bounds_unique(m: Map<Pos, CellValueView>, a: GridBounds, b: GridBounds)
    requires
        bounds_match(m, a),
        bounds_match(m, b),
    ensures
        a == b,
{
    match (a, b) {
        (GridBounds::NonEmpty(r), GridBounds::NonEmpty(q)) => {
            let r1 = choose|p: Pos| #[trigger] m.contains_key(p) && p.x == r.min.x;
            let r2 = choose|p: Pos| #[trigger] m.contains_key(p) && p.x == r.max.x;
            let r3 = choose|p: Pos| #[trigger] m.contains_key(p) && p.y == r.min.y;
            let r4 = choose|p: Pos| #[trigger] m.contains_key(p) && p.y == r.max.y;
            let q1 = choose|p: Pos| #[trigger] m.contains_key(p) && p.x == q.min.x;
            let q2 = choose|p: Pos| #[trigger] m.contains_key(p) && p.x == q.max.x;
            let q3 = choose|p: Pos| #[trigger] m.contains_key(p) && p.y == q.min.y;
            let q4 = choose|p: Pos| #[trigger] m.contains_key(p) && p.y == q.max.y;
            assert(q.spec_contains(r1) && q.spec_contains(r2) && q.spec_contains(r3)
                && q.spec_contains(r4));
            assert(r.spec_contains(q1) && r.spec_contains(q2) && r.spec_contains(q3)
                && r.spec_contains(q4));
        },
        (GridBounds::NonEmpty(r), GridBounds::Empty) => {
            let r1 = choose|p: Pos| #[trigger] m.contains_key(p) && p.x == r.min.x;
            assert(m.contains_key(r1));
        },
        (GridBounds::Empty, GridBounds::NonEmpty(q)) => {
            let q1 = choose|p: Pos| #[trigger] m.contains_key(p) && p.x == q.min.x;
            assert(m.contains_key(q1));
        },
        _ => {},
    }
}

/// Bounds that fit some cells fit any cells at the same positions.
proof fn lemma_bounds_same_cells(m0: Map<Pos, CellValueView>, m1: Map<Pos, CellValueView>, b: GridBounds)
    requires
        bounds_match(m0, b),
        forall|p: Pos| m1.contains_key(p) == m0.contains_key(p),
    ensures
        bounds_match(m1, b),
{
    match b {
        GridBounds::Empty => {},
        GridBounds::NonEmpty(r) => {
            let left = choose|p: Pos| #[trigger] m0.contains_key(p) && p.x == r.min.x;
            let right = choose|p: Pos| #[trigger] m0.contains_key(p) && p.x == r.max.x;
            let top = choose|p: Pos| #[trigger] m0.contains_key(p) && p.y == r.min.y;
            let bottom = choose|p: Pos| #[trigger] m0.contains_key(p) && p.y == r.max.y;
            assert(m1.contains_key(left) && m1.contains_key(right) && m1.contains_key(top)
                && m1.contains_key(bottom));
            assert forall|p: Pos| m1.contains_key(p) implies r.spec_contains(p) by {
                assert(m0.contains_key(p));
            }
        },
    }
}

/// Bounds that fit some cells, extended to a position, fit the cells with one
/// more at that position.
proof fn lemma_bounds_grown(
    m0: Map<Pos, CellValueView>,
    pos: Pos,
    value: CellValueView,
    b: GridBounds,
    grown: GridBounds,
)
    requires
        bounds_match(m0, b),
        grown == match b {
            GridBounds::Empty => GridBounds::NonEmpty(Rect { min: pos, max: pos }),
            GridBounds::NonEmpty(r) => GridBounds::NonEmpty(
                Rect {
                    min: Pos {
                        x: if r.min.x <= pos.x { r.min.x } else { pos.x },
                        y: if r.min.y <= pos.y { r.min.y } else { pos.y },
                    },
                    max: Pos {
                        x: if r.max.x >= pos.x { r.max.x } else { pos.x },
                        y: if r.max.y >= pos.y { r.max.y } else { pos.y },
                    },
                },
            ),
        },
    ensures
        bounds_match(m0.insert(pos, value), grown),
{
    let m1 = m0.insert(pos, value);
    let r2 = grown->NonEmpty_0;
    assert(m1.contains_key(pos));
    match b {
        GridBounds::Empty => {
            assert forall|p: Pos| m1.contains_key(p) implies r2.spec_contains(p) by {
                if p != pos {
                    assert(m0.contains_key(p));
                }
            }
        },
        GridBounds::NonEmpty(r) => {
            let left = choose|p: Pos| #[trigger] m0.contains_key(p) && p.x == r.min.x;
            let right = choose|p: Pos| #[trigger] m0.contains_key(p) && p.x == r.max.x;
            let top = choose|p: Pos| #[trigger] m0.contains_key(p) && p.y == r.min.y;
            let bottom = choose|p: Pos| #[trigger] m0.contains_key(p) && p.y == r.max.y;
            assert(m1.contains_key(left) && m1.contains_key(right) && m1.contains_key(top)
                && m1.contains_key(bottom));
            let new_left = if pos.x < r.min.x { pos } else { left };
            let new_right = if pos.x > r.max.x { pos } else { right };
            let new_top = if pos.y < r.min.y { pos } else { top };
            let new_bottom = if pos.y > r.max.y { pos } else { bottom };
            assert(m1.contains_key(new_left) && new_left.x == r2.min.x);
            assert(m1.contains_key(new_right) && new_right.x == r2.max.x);
            assert(m1.contains_key(new_top) && new_top.y == r2.min.y);
            assert(m1.contains_key(new_bottom) && new_bottom.y == r2.max.y);
            assert forall|p: Pos| m1.contains_key(p) implies r2.spec_contains(p) by {
                if p != pos {
                    assert(m0.contains_key(p));
                    assert(r.spec_contains(p));
                }
            }
        },
    }
}

/// What a list of stored cells holds: the positions and the models of the
/// values, in the order of the list.
spec fn entries_of(cells: Seq<CellEntry>) -> Seq<(Pos, CellValueView)> {
    Seq::new(cells.len(), |i: int| (cells[i].pos, cells[i].value@))
}

/// Valid lists of stored cells that stand for the same map hold the same
/// cells in the same order.
proof fn lemma_entries_alike(a: Seq<CellEntry>, b: Seq<CellEntry>)
    requires
        cells_wf(a),
        cells_sorted(a),
        cells_wf(b),
        cells_sorted(b),
        cells_map(a) == cells_map(b),
    ensures
        entries_of(a) == entries_of(b),
    decreases a.len(),
{
    if a.len() == 0 {
        if b.len() > 0 {
            lemma_cells_map_index(b, 0);
        }
        assert(entries_of(a) =~= entries_of(b));
    } else {
        let la = a.len() - 1;
        lemma_cells_map_index(a, la);
        let kb = choose|k: int| 0 <= k < b.len() && #[trigger] b[k].pos == a[la].pos;
        let lb = b.len() - 1;
        lemma_cells_map_index(b, lb);
        let ka = choose|k: int| 0 <= k < a.len() && #[trigger] a[k].pos == b[lb].pos;
        if kb < lb {
            assert(pos_lt(b[kb].pos, b[lb].pos));
            if ka < la {
                assert(pos_lt(a[ka].pos, a[la].pos));
            }
        }
        assert(kb == lb);
        lemma_cells_map_index(b, kb);
        lemma_cells_map_remove(a, la);
        lemma_cells_map_remove(b, lb);
        lemma_sorted_remove(a, la);
        lemma_sorted_remove(b, lb);
        assert(a.remove(la) =~= a.drop_last());
        assert(b.remove(lb) =~= b.drop_last());
        lemma_entries_alike(a.drop_last(), b.drop_last());
        let ea = entries_of(a);
        let eb = entries_of(b);
        assert(entries_of(a.drop_last()).len() == a.len() - 1);
        assert(entries_of(b.drop_last()).len() == b.len() - 1);
        assert forall|i: int| 0 <= i < ea.len() implies ea[i] == eb[i] by {
            if i < la {
                assert(entries_of(a.drop_last())[i] == ea[i]);
                assert(entries_of(b.drop_last())[i] == eb[i]);
            }
        }
        assert(ea =~= eb);
    }
}

impl View for Sheet {
    type V = SheetView;

    closed spec fn view(&self) -> SheetView {
        SheetView {
            id: self.id,
            name: self.name@,
            color: opt_view(self.color),
            order: self.order@,
            cells: cells_map(self.cells@),
        }
    }
}

impl Sheet {
    /// The representation is sound: no position is stored twice, no stored
    /// value is `Blank`, and the cached bounds are those of the cells.
    pub closed spec fn wf(self) -> bool {
        &&& cells_wf(self.cells@)
        &&& cells_sorted(self.cells@)
        &&& bounds_match(cells_map(self.cells@), self.bounds)
    }

    /// The cells are stored soundly: no position is stored twice, no stored
    /// value is `Blank`, and the cells stand in ascending order. Nothing is
    /// said of the cached bounds, which may be out of date.
    pub closed spec fn cells_sound(self) -> bool {
        &&& cells_wf(self.cells@)
        &&& cells_sorted(self.cells@)
    }

    /// The cached bounds.
    pub closed spec fn spec_bounds(self) -> GridBounds {
        self.bounds
    }

    /// The cells as they are stored: position and value, in storage order.
    pub closed spec fn stored(self) -> Seq<(Pos, CellValueView)> {
        entries_of(self.cells@)
    }

    /// Valid sheets with the same model are stored alike: they hold the same
    /// cells in the same order and have the same cached bounds.
    pub proof fn lemma_stored_alike(self, other: Sheet)
        requires
            self.wf(),
            other.wf(),
            self@ == other@,
        ensures
            self.stored() == other.stored(),
            self.spec_bounds() == other.spec_bounds(),
    {
        lemma_entries_alike(self.cells@, other.cells@);
        lemma_bounds_unique(cells_map(self.cells@), self.bounds, other.bounds);
    }

    /// A valid sheet has a valid model, and its cached bounds fit its cells.
    pub proof fn lemma_wf(self)
        requires
            self.wf(),
        ensures
            self@.wf(),
            self.cells_sound(),
            bounds_match(self@.cells, self.spec_bounds()),
    {
        self.lemma_cells_sound();
    }

    /// A sheet with sound cells has a valid model, and it is a valid sheet
    /// exactly if its cached bounds are those of its cells.
    pub proof fn lemma_cells_sound(self)
        requires
            self.cells_sound(),
        ensures
            self@.wf(),
            self.wf() <==> bounds_match(self@.cells, self.spec_bounds()),
    {
        assert forall|p: Pos| self@.cells.contains_key(p) implies self@.cells[p]
            != CellValueView::Blank by {
            let i = choose|i: int| 0 <= i < self.cells@.len() && #[trigger] self.cells@[i].pos == p;
            lemma_cells_map_index(self.cells@, i);
        }
    }

    /// A sheet without cells and without a colour.
    pub fn new(id: SheetId, name: String, order: String) -> (s: Sheet)
        ensures
            s.wf(),
            s@ == (SheetView {
                id,
                name: name@,
                color: None,
                order: order@,
                cells: Map::empty(),
            }),
    {
        let s = Sheet {
            id,
            name,
            color: None,
            order,
            cells: Vec::new(),
            bounds: GridBounds::Empty,
        };
        assert(s@.cells =~= Map::empty());
        s
    }

    /// The sheet's id.
    pub fn id(&self) -> (r: SheetId)
        ensures
            r == self@.id,
    {
        self.id
    }

    /// The sheet's name.
    pub fn name(&self) -> (r: &String)
        ensures
            r@ == self@.name,
    {
        &self.name
    }

    /// The sheet's colour, if it has one.
    pub fn color(&self) -> (r: &Option<String>)
        ensures
            opt_view(*r) == self@.color,
    {
        &self.color
    }

    /// The sheet's order key.
    pub fn order(&self) -> (r: &String)
        ensures
            r@ == self@.order,
    {
        &self.order
    }

    /// Gives the sheet another id; everything else stays.
    pub fn set_id(&mut self, id: SheetId)
        ensures
            old(self).wf() ==> final(self).wf(),
            final(self)@ == (SheetView { id, ..old(self)@ }),
    {
        self.id = id;
    }

    /// Replaces the name and hands back the one it had.
    pub fn set_name(&mut self, name: String) -> (previous: String)
        ensures
            old(self).wf() ==> final(self).wf(),
            final(self)@ == (SheetView { name: name@, ..old(self)@ }),
            previous@ == old(self)@.name,
    {
        let mut n = name;
        std::mem::swap(&mut self.name, &mut n);
        n
    }

    /// Replaces the colour and hands back the one it had.
    pub fn set_color(&mut self, color: Option<String>) -> (previous: Option<String>)
        ensures
            old(self).wf() ==> final(self).wf(),
            final(self)@ == (SheetView { color: opt_view(color), ..old(self)@ }),
            opt_view(previous) == old(self)@.color,
    {
        let mut c = color;
        std::mem::swap(&mut self.color, &mut c);
        c
    }

    /// Replaces the order key and hands back the one it had.
    pub fn set_order(&mut self, order: String) -> (previous: String)
        ensures
            old(self).wf() ==> final(self).wf(),
            final(self)@ == (SheetView { order: order@, ..old(self)@ }),
            previous@ == old(self)@.order,
    {
        let mut o = order;
        std::mem::swap(&mut self.order, &mut o);
        o
    }

    /// Whether position `a` stands before position `b`.
    fn before(a: Pos, b: Pos) -> (r: bool)
        ensures
            r == pos_lt(a, b),
    {
        a.x < b.x || (a.x == b.x && a.y < b.y)
    }

    /// The index at which the cell at `pos` is stored, or would be: that of
    /// the first stored cell that does not stand before `pos`, found by
    /// halving the range in which it lies.
    fn locate(&self, pos: Pos) -> (at: usize)
        requires
            cells_wf(self.cells@),
            cells_sorted(self.cells@),
        ensures
            at <= self.cells@.len(),
            forall|k: int| 0 <= k < at ==> pos_lt((#[trigger] self.cells@[k]).pos, pos),
            forall|k: int|
                at <= k < self.cells@.len() ==> !pos_lt((#[trigger] self.cells@[k]).pos, pos),
            cells_map(self.cells@).contains_key(pos) <==> at < self.cells@.len()
                && self.cells@[at as int].pos == pos,
    {
        let mut lo: usize = 0;
        let mut hi: usize = self.cells.len();
        while lo < hi
            invariant
                lo <= hi <= self.cells.len(),
                cells_sorted(self.cells@),
                forall|k: int| 0 <= k < lo ==> pos_lt((#[trigger] self.cells@[k]).pos, pos),
                forall|k: int|
                    hi <= k < self.cells@.len() ==> !pos_lt((#[trigger] self.cells@[k]).pos, pos),
            decreases hi - lo,
        {
            let mid: usize = lo + (hi - lo) / 2;
            if Self::before(self.cells[mid].pos, pos) {
                proof {
                    assert forall|k: int| 0 <= k < mid + 1 implies pos_lt(
                        (#[trigger] self.cells@[k]).pos,
                        pos,
                    ) by {
                        if k < mid {
                            assert(pos_lt(self.cells@[k].pos, self.cells@[mid as int].pos));
                        }
                    }
                }
                lo = mid + 1;
            } else {
                proof {
                    assert forall|k: int| mid <= k < self.cells@.len() implies !pos_lt(
                        (#[trigger] self.cells@[k]).pos,
                        pos,
                    ) by {
                        if k > mid {
                            assert(pos_lt(self.cells@[mid as int].pos, self.cells@[k].pos));
                        }
                    }
                }
                hi = mid;
            }
        }
        proof {
            if cells_map(self.cells@).contains_key(pos) {
                let k = choose|k: int| 0 <= k < self.cells@.len() && #[trigger] self.cells@[k].pos
                    == pos;
                if k > lo {
                    assert(pos_lt(self.cells@[lo as int].pos, self.cells@[k].pos));
                }
                assert(k == lo);
            }
        }
        lo
    }

    /// The value stored at `pos`; `None` where the cell reads as `Blank`.
    pub fn get_cell_value(&self, pos: Pos) -> (r: Option<&CellValue>)
        requires
            self.wf(),
        ensures
            r is Some <==> self@.cells.contains_key(pos),
            r is Some ==> r->Some_0@ == self@.cells[pos],
    {
        let at: usize = self.locate(pos);
        if at < self.cells.len() && self.cells[at].pos == pos {
            proof {
                lemma_cells_map_index(self.cells@, at as int);
            }
            Some(&self.cells[at].value)
        } else {
            None
        }
    }

    /// Recomputes the cached bounds from the cells in a single pass.
    ///
    /// Whatever the cache held, afterwards it holds the bounding rectangle of
    /// the cells: `Empty` if the sheet holds no value, else the smallest
    /// rectangle that holds every value. The cells and everything else stay as
    /// they are, so a sheet whose cells are sound is a valid sheet afterwards.
    pub fn recalculate_bounds(&mut self)
        requires
            old(self).cells_sound(),
        ensures
            final(self).wf(),
            final(self)@ == old(self)@,
            final(self).stored() == old(self).stored(),
            bounds_match(old(self)@.cells, final(self).spec_bounds()),
    {
        let n: usize = self.cells.len();
        if n == 0 {
            self.bounds = GridBounds::Empty;
            return ;
        }
        let first: Pos = self.cells[0].pos;
        let mut r: Rect = Rect { min: first, max: first };
        let ghost mut ix_min: int = 0;
        let ghost mut ix_max: int = 0;
        let ghost mut iy_min: int = 0;
        let ghost mut iy_max: int = 0;
        let mut i: usize = 1;
        while i < n
            invariant
                1 <= i <= n,
                n == self.cells.len(),
                forall|k: int| 0 <= k < i ==> r.spec_contains((#[trigger] self.cells@[k]).pos),
                0 <= ix_min < i && self.cells@[ix_min].pos.x == r.min.x,
                0 <= ix_max < i && self.cells@[ix_max].pos.x == r.max.x,
                0 <= iy_min < i && self.cells@[iy_min].pos.y == r.min.y,
                0 <= iy_max < i && self.cells@[iy_max].pos.y == r.max.y,
            decreases n - i,
        {
            let p: Pos = self.cells[i].pos;
            if p.x < r.min.x {
                r.min.x = p.x;
                proof {
                    ix_min = i as int;
                }
            }
            if p.x > r.max.x {
                r.max.x = p.x;
                proof {
                    ix_max = i as int;
                }
            }
            if p.y < r.min.y {
                r.min.y = p.y;
                proof {
                    iy_min = i as int;
                }
            }
            if p.y > r.max.y {
                r.max.y = p.y;
                proof {
                    iy_max = i as int;
                }
            }
            i += 1;
        }
        self.bounds = GridBounds::NonEmpty(r);
        proof {
            let m = cells_map(self.cells@);
            assert forall|p: Pos| m.contains_key(p) implies r.spec_contains(p) by {
                let k = choose|k: int| 0 <= k < self.cells@.len() && #[trigger] self.cells@[k].pos
                    == p;
                assert(r.spec_contains(self.cells@[k].pos));
            }
            lemma_cells_map_index(self.cells@, ix_min);
            lemma_cells_map_index(self.cells@, ix_max);
            lemma_cells_map_index(self.cells@, iy_min);
            lemma_cells_map_index(self.cells@, iy_max);
            assert(m.contains_key(self.cells@[ix_min].pos));
            assert(m.contains_key(self.cells@[ix_max].pos));
            assert(m.contains_key(self.cells@[iy_min].pos));
            assert(m.contains_key(self.cells@[iy_max].pos));
        }
    }

    /// Writes `value` at `pos` and hands back what the cell held (`Blank` if
    /// nothing was stored). Writing `Blank` clears the cell.
    pub fn set_cell_value(&mut self, pos: Pos, value: CellValue) -> (previous: CellValue)
        requires
            old(self).wf(),
        ensures
            final(self).wf(),
            final(self)@ == (SheetView {
                cells: write_cell(old(self)@.cells, pos, value@),
                ..old(self)@
            }),
            previous@ == read_cell(old(self)@.cells, pos),
    {
        let at: usize = self.locate(pos);
        let found: bool = at < self.cells.len() && self.cells[at].pos == pos;
        let blank: bool = value.is_blank();
        let ghost before = self.cells@;
        let ghost m0 = cells_map(before);
        if found {
            proof {
                lemma_cells_map_index(before, at as int);
                lemma_cells_map_remove(before, at as int);
                lemma_sorted_remove(before, at as int);
            }
            let entry: CellEntry = self.cells.remove(at);
            if blank {
                self.recalculate_bounds();
            } else {
                proof {
                    lemma_cells_map_insert(self.cells@, at as int, CellEntry { pos, value });
                    assert(m0.remove(pos).insert(pos, value@) =~= m0.insert(pos, value@));
                }
                self.cells.insert(at, CellEntry { pos, value });
                proof {
                    assert(self.cells@ =~= before.update(at as int, CellEntry { pos, value }));
                    assert forall|i: int, j: int| 0 <= i < j < self.cells@.len() implies pos_lt(
                        #[trigger] self.cells@[i].pos,
                        #[trigger] self.cells@[j].pos,
                    ) by {
                        assert(self.cells@[i].pos == before[i].pos);
                        assert(self.cells@[j].pos == before[j].pos);
                    }
                    lemma_bounds_same_cells(m0, cells_map(self.cells@), self.bounds);
                }
            }
            entry.value
        } else {
            if blank {
                assert(m0.remove(pos) =~= m0);
            } else {
                proof {
                    lemma_cells_map_insert(before, at as int, CellEntry { pos, value });
                    lemma_sorted_insert(before, at as int, CellEntry { pos, value });
                }
                self.cells.insert(at, CellEntry { pos, value });
                let grown: GridBounds = match self.bounds {
                    GridBounds::Empty => GridBounds::NonEmpty(Rect { min: pos, max: pos }),
                    GridBounds::NonEmpty(r) => {
                        let mut r2: Rect = r;
                        r2.extend_to(pos);
                        GridBounds::NonEmpty(r2)
                    },
                };
                proof {
                    lemma_bounds_grown(m0, pos, value@, self.bounds, grown);
                }
                self.bounds = grown;
            }
            CellValue::Blank
        }
    }

    /// The stored cells: each position that holds a value, once, with a copy
    /// of the value, in ascending order of column and, within a column, of
    /// row.
    pub fn cell_entries(&self) -> (r: Vec<(Pos, CellValue)>)
        requires
            self.wf(),
        ensures
            r@.len() == self.stored().len(),
            forall|i: int|
                0 <= i < r@.len() ==> (#[trigger] r@[i]).0 == self.stored()[i].0 && r@[i].1@
                    == self.stored()[i].1,
            forall|i: int|
                0 <= i < r@.len() ==> self@.cells.contains_key((#[trigger] r@[i]).0)
                    && self@.cells[r@[i].0] == r@[i].1@,
            forall|p: Pos|
                self@.cells.contains_key(p) ==> exists|i: int|
                    0 <= i < r@.len() && (#[trigger] r@[i]).0 == p,
            forall|i: int, j: int|
                0 <= i < r@.len() && 0 <= j < r@.len() && i != j ==> (#[trigger] r@[i]).0 != (
                #[trigger] r@[j]).0,
    {
        let mut out: Vec<(Pos, CellValue)> = Vec::new();
        let mut i: usize = 0;
        while i < self.cells.len()
            invariant
                i <= self.cells.len(),
                out.len() == i,
                forall|k: int|
                    0 <= k < i ==> (#[trigger] out@[k]).0 == self.cells@[k].pos && out@[k].1@
                        == self.cells@[k].value@,
            decreases self.cells.len() - i,
        {
            out.push((self.cells[i].pos, self.cells[i].value.duplicate()));
            i += 1;
        }
        proof {
            assert forall|k: int| 0 <= k < out@.len() implies self@.cells.contains_key(
                (#[trigger] out@[k]).0,
            ) && self@.cells[out@[k].0] == out@[k].1@ by {
                lemma_cells_map_index(self.cells@, k);
            }
            assert forall|p: Pos| self@.cells.contains_key(p) implies exists|k: int|
                0 <= k < out@.len() && (#[trigger] out@[k]).0 == p by {
                let k = choose|k: int| 0 <= k < self.cells@.len() && #[trigger] self.cells@[k].pos
                    == p;
                assert(out@[k].0 == p);
            }
        }
        out
    }

    /// The rectangle the stored values span.
    pub fn bounds(&self) -> (b: GridBounds)
        requires
            self.wf(),
        ensures
            bounds_match(self@.cells, b),
            b == self.spec_bounds(),
    {
        self.bounds
    }

    /// The durable reference to the cell at `pos` of this sheet.
    pub fn cell_ref(&self, pos: Pos) -> (r: CellRef)
        ensures
            r == (CellRef {
                sheet: self@.id,
                column: ColumnId { id: pos.x },
                row: RowId { id: pos.y },
            }),
    {
        CellRef { sheet: self.id, column: ColumnId { id: pos.x }, row: RowId { id: pos.y } }
    }

    /// The position that `cell_ref` names in this sheet; `None` if the
    /// reference belongs to another sheet.
    pub fn cell_ref_to_pos(&self, cell_ref: CellRef) -> (r: Option<Pos>)
        ensures
            r is Some <==> cell_ref.sheet == self@.id,
            r is Some ==> r->Some_0 == cell_ref.spec_pos(),
    {
        if cell_ref.sheet == self.id {
            Some(Pos { x: cell_ref.column.id, y: cell_ref.row.id })
        } else {
            None
        }
    }

    /// Whether some cell of column `x` holds a value.
    pub fn has_column(&self, x: i64) -> (b: bool)
        requires
            self.wf(),
        ensures
            b == self@.has_column(x as int),
    {
        let mut i: usize = 0;
        while i < self.cells.len()
            invariant
                i <= self.cells.len(),
                cells_wf(self.cells@),
                forall|k: int| 0 <= k < i ==> (#[trigger] self.cells@[k]).pos.x != x,
            decreases self.cells.len() - i,
        {
            if self.cells[i].pos.x == x {
                proof {
                    lemma_cells_map_index(self.cells@, i as int);
                    assert(self@.cells.contains_key(self.cells@[i as int].pos));
                }
                return true;
            }
            i += 1;
        }
        proof {
            if self@.has_column(x as int) {
                let p = choose|p: Pos| #[trigger] self@.cells.contains_key(p) && p.x == x;
                let k = choose|k: int| 0 <= k < self.cells@.len() && #[trigger] self.cells@[k].pos
                    == p;
                assert(self.cells@[k].pos.x == x);
            }
        }
        false
    }

    /// Whether some cell of row `y` holds a value.
    pub fn has_row(&self, y: i64) -> (b: bool)
        requires
            self.wf(),
        ensures
            b == self@.has_row(y as int),
    {
        let mut i: usize = 0;
        while i < self.cells.len()
            invariant
                i <= self.cells.len(),
                cells_wf(self.cells@),
                forall|k: int| 0 <= k < i ==> (#[trigger] self.cells@[k]).pos.y != y,
            decreases self.cells.len() - i,
        {
            if self.cells[i].pos.y == y {
                proof {
                    lemma_cells_map_index(self.cells@, i as int);
                    assert(self@.cells.contains_key(self.cells@[i as int].pos));
                }
                return true;
            }
            i += 1;
        }
        proof {
            if self@.has_row(y as int) {
                let p = choose|p: Pos| #[trigger] self@.cells.contains_key(p) && p.y == y;
                let k = choose|k: int| 0 <= k < self.cells@.len() && #[trigger] self.cells@[k].pos
                    == p;
                assert(self.cells@[k].pos.y == y);
            }
        }
        false
    }

    /// A copy with the same model.
    pub fn duplicate(&self) -> (r: Sheet)
        requires
            self.wf(),
        ensures
            r.wf(),
            r@ == self@,
    {
        let mut cells: Vec<CellEntry> = Vec::new();
        let mut i: usize = 0;
        while i < self.cells.len()
            invariant
                i <= self.cells.len(),
                cells.len() == i,
                forall|k: int|
                    0 <= k < i ==> (#[trigger] cells@[k]).pos == self.cells@[k].pos
                        && cells@[k].value@ == self.cells@[k].value@,
            decreases self.cells.len() - i,
        {
            cells.push(CellEntry { pos: self.cells[i].pos, value: self.cells[i].value.duplicate() });
            i += 1;
        }
        let r = Sheet {
            id: self.id,
            name: self.name.clone(),
            color: duplicate_opt(&self.color),
            order: self.order.clone(),
            cells,
            bounds: self.bounds,
        };
        proof {
            let a = self.cells@;
            let b = r.cells@;
            assert(cells_wf(b)) by {
                assert forall|i: int, j: int|
                    0 <= i < b.len() && 0 <= j < b.len() && i != j implies #[trigger] b[i].pos
                    != #[trigger] b[j].pos by {
                    assert(b[i].pos == a[i].pos && b[j].pos == a[j].pos);
                }
                assert forall|i: int| 0 <= i < b.len() implies (#[trigger] b[i]).value@
                    != CellValueView::Blank by {
                    assert(b[i].value@ == a[i].value@);
                }
            }
            assert forall|p: Pos| #[trigger] cells_map(b).contains_key(p) == cells_map(
                a,
            ).contains_key(p) by {
                if cells_map(b).contains_key(p) {
                    let k = choose|k: int| 0 <= k < b.len() && #[trigger] b[k].pos == p;
                    assert(a[k].pos == p);
                }
                if cells_map(a).contains_key(p) {
                    let k = choose|k: int| 0 <= k < a.len() && #[trigger] a[k].pos == p;
                    assert(b[k].pos == p);
                }
            }
            assert forall|p: Pos| cells_map(b).contains_key(p) implies #[trigger] cells_map(b)[p]
                == cells_map(a)[p] by {
                let k = choose|k: int| 0 <= k < b.len() && #[trigger] b[k].pos == p;
                assert(a[k].pos == p);
                lemma_cells_map_index(a, k);
                lemma_cells_map_index(b, k);
            }
            assert(cells_map(b) =~= cells_map(a));
        }
        r
    }
}

} // verus!
