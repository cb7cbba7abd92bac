//! The grid: the sheets of one file, kept in the order their keys give.

use vstd::prelude::*;
use crate::position::Pos;
use crate::ids::SheetId;
use crate::values::CellValue;
use crate::order::{
    key_lt, lemma_key_lt_total, lemma_key_lt_transitive, lemma_key_lt_asymmetric,
    lemma_key_lt_irreflexive, lemma_key_lt_extended, order_lt, first_key, key_after,
};
use crate::sheet::{Sheet, SheetView, GridBounds, bounds_match, opt_view, write_cell, read_cell};

verus! {

/// Sheet `a` stands before sheet `b`: by order key, and by id where the keys
/// are the same.
pub open spec fn sheet_before(a: SheetView, b: SheetView) -> bool {
    key_lt(a.order, b.order) || (a.order == b.order && a.id.id < b.id.id)
}

/// Whether the grid holds a sheet with this id.
pub open spec fn has_sheet(g: Seq<SheetView>, id: SheetId) -> bool {
    exists|i: int| 0 <= i < g.len() && (#[trigger] g[i]).id == id
}

/// The index of the sheet with this id; meaningful when there is one.
pub open spec fn sheet_index(g: Seq<SheetView>, id: SheetId) -> int {
    choose|i: int| 0 <= i < g.len() && (#[trigger] g[i]).id == id
}

/// Whether the grid holds a sheet with this name.
pub open spec fn has_name(g: Seq<SheetView>, name: Seq<char>) -> bool {
    exists|i: int| 0 <= i < g.len() && (#[trigger] g[i]).name == name
}

/// Whether a sheet other than the one at index `i` has this name.
pub open spec fn name_taken_by_other(g: Seq<SheetView>, i: int, name: Seq<char>) -> bool {
    exists|j: int| 0 <= j < g.len() && j != i && (#[trigger] g[j]).name == name
}

/// The number of leading sheets that stand before `s`: where `s` goes in.
pub open spec fn insert_pos(g: Seq<SheetView>, s: SheetView) -> int
    decreases g.len(),
{
    if g.len() == 0 {
        0
    } else if sheet_before(g[0], s) {
        1 + insert_pos(g.skip(1), s)
    } else {
        0
    }
}

/// The grid with `s` put in at its place.
pub open spec fn grid_add(g: Seq<SheetView>, s: SheetView) -> Seq<SheetView> {
    g.insert(insert_pos(g, s), s)
}

/// The id of the first sheet, if there is a sheet.
pub open spec fn first_id(g: Seq<SheetView>) -> Option<SheetId> {
    if g.len() == 0 {
        None
    } else {
        Some(g[0].id)
    }
}

/// An order key behind every sheet of the grid: the last key followed by `n`,
/// or `n` alone for a grid without sheets.
pub open spec fn spec_end_order(g: Seq<SheetView>) -> Seq<char> {
    if g.len() == 0 {
        seq!['n']
    } else {
        g.last().order + seq!['n']
    }
}

/// The ids of the sheets, in order.
pub open spec fn ids_of(g: Seq<SheetView>) -> Seq<SheetId> {
    Seq::new(g.len(), |i: int| g[i].id)
}

/// What holds of every grid: each sheet is valid, no id and no name occurs
/// twice, and the sheets stand in ascending order.
pub open spec fn grid_wf(g: Seq<SheetView>) -> bool {
    &&& forall|i: int| 0 <= i < g.len() ==> (#[trigger] g[i]).wf()
    &&& forall|i: int, j: int|
        0 <= i < g.len() && 0 <= j < g.len() && i != j ==> (#[trigger] g[i]).id != (
        #[trigger] g[j]).id
    &&& forall|i: int, j: int|
        0 <= i < g.len() && 0 <= j < g.len() && i != j ==> (#[trigger] g[i]).name != (
        #[trigger] g[j]).name
    &&& forall|i: int, j: int|
        0 <= i < j < g.len() ==> sheet_before(#[trigger] g[i], #[trigger] g[j])
}

/// `sheet_before` is transitive.
pub proof fn lemma_sheet_before_transitive(a: SheetView, b: SheetView, c: SheetView)
    requires
        sheet_before(a, b),
        sheet_before(b, c),
    ensures
        sheet_before(a, c),
{
    if key_lt(a.order, b.order) && key_lt(b.order, c.order) {
        lemma_key_lt_transitive(a.order, b.order, c.order);
    }
}

/// Of two sheets with different ids, one stands before the other, never both.
pub proof fn lemma_sheet_before_total(a: SheetView, b: SheetView)
    requires
        a.id != b.id,
    ensures
        sheet_before(a, b) != sheet_before(b, a),
{
    lemma_key_lt_total(a.order, b.order);
    if key_lt(a.order, b.order) {
        lemma_key_lt_asymmetric(a.order, b.order);
        lemma_key_lt_irreflexive(a.order);
    }
    if key_lt(b.order, a.order) {
        lemma_key_lt_asymmetric(b.order, a.order);
        lemma_key_lt_irreflexive(a.order);
    }
    lemma_key_lt_irreflexive(a.order);
}

/// Where a sheet goes in: behind all that stand before it, and, in an
/// ordered grid, before all that do not.
pub proof fn lemma_insert_pos(g: Seq<SheetView>, s: SheetView)
    ensures
        0 <= insert_pos(g, s) <= g.len(),
        forall|k: int| 0 <= k < insert_pos(g, s) ==> sheet_before(#[trigger] g[k], s),
        insert_pos(g, s) < g.len() ==> !sheet_before(g[insert_pos(g, s)], s),
    decreases g.len(),
{
    if g.len() > 0 && sheet_before(g[0], s) {
        lemma_insert_pos(g.skip(1), s);
        assert forall|k: int| 0 <= k < insert_pos(g, s) implies sheet_before(
            #[trigger] g[k],
            s,
        ) by {
            if k > 0 {
                assert(g[k] == g.skip(1)[k - 1]);
            }
        }
        if insert_pos(g, s) < g.len() {
            assert(g[insert_pos(g, s)] == g.skip(1)[insert_pos(g.skip(1), s)]);
        }
    }
}

/// The place is the only index with all before it standing before `s` and
/// the sheet at it not.
pub proof fn lemma_insert_pos_is(g: Seq<SheetView>, s: SheetView, i: int)
    requires
        0 <= i <= g.len(),
        forall|k: int| 0 <= k < i ==> sheet_before(#[trigger] g[k], s),
        i < g.len() ==> !sheet_before(g[i], s),
    ensures
        insert_pos(g, s) == i,
    decreases g.len(),
{
    if g.len() > 0 && i > 0 {
        assert(sheet_before(g[0], s));
        assert forall|k: int| 0 <= k < i - 1 implies sheet_before(
            #[trigger] g.skip(1)[k],
            s,
        ) by {
            assert(g.skip(1)[k] == g[k + 1]);
        }
        if i - 1 < g.skip(1).len() {
            assert(g.skip(1)[i - 1] == g[i]);
        }
        lemma_insert_pos_is(g.skip(1), s, i - 1);
    }
}

/// Adding a valid sheet with a new id and a new name keeps the grid valid,
/// and the sheet can be found again under its id.
pub proof fn lemma_grid_add(g: Seq<SheetView>, s: SheetView)
    requires
        grid_wf(g),
        s.wf(),
        !has_sheet(g, s.id),
        !has_name(g, s.name),
    ensures
        grid_wf(grid_add(g, s)),
        has_sheet(grid_add(g, s), s.id),
        sheet_index(grid_add(g, s), s.id) == insert_pos(g, s),
        grid_add(g, s).remove(insert_pos(g, s)) == g,
{
    let p = insert_pos(g, s);
    let h = grid_add(g, s);
    lemma_insert_pos(g, s);
    assert forall|k: int| 0 <= k < g.len() implies (#[trigger] g[k]).id != s.id && g[k].name
        != s.name by {}
    assert forall|k: int| p <= k < g.len() implies sheet_before(s, #[trigger] g[k]) by {
        lemma_sheet_before_total(g[k], s);
        if k > p {
            assert(sheet_before(g[p], g[k]));
            if sheet_before(g[k], s) {
                lemma_sheet_before_transitive(g[p], g[k], s);
            }
        }
    }
    assert forall|i: int| 0 <= i < h.len() implies #[trigger] h[i] == (if i < p {
        g[i]
    } else if i == p {
        s
    } else {
        g[i - 1]
    }) by {}
    assert forall|i: int, j: int| 0 <= i < j < h.len() implies sheet_before(
        #[trigger] h[i],
        #[trigger] h[j],
    ) by {
        if i < p && j > p {
            assert(sheet_before(g[i], g[j - 1]));
        } else if i < p && j < p {
            assert(sheet_before(g[i], g[j]));
        } else if i > p {
            assert(sheet_before(g[i - 1], g[j - 1]));
        }
    }
    assert forall|i: int, j: int| 0 <= i < h.len() && 0 <= j < h.len() && i != j implies (
    #[trigger] h[i]).id != (#[trigger] h[j]).id && h[i].name != h[j].name by {
        let i0 = if i < p { i } else { i - 1 };
        let j0 = if j < p { j } else { j - 1 };
        if i != p && j != p {
            assert(g[i0].id != g[j0].id && g[i0].name != g[j0].name);
        } else if i == p {
            assert(g[j0].id != s.id);
        } else {
            assert(g[i0].id != s.id);
        }
    }
    assert(h[p].id == s.id);
    assert(sheet_index(h, s.id) == p);
    assert(h.remove(p) =~= g);
}

/// Taking a sheet out keeps the grid valid, and the sheet goes back in where
/// it stood.
pub proof fn lemma_grid_remove(g: Seq<SheetView>, i: int)
    requires
        grid_wf(g),
        0 <= i < g.len(),
    ensures
        grid_wf(g.remove(i)),
        !has_sheet(g.remove(i), g[i].id),
        !has_name(g.remove(i), g[i].name),
        insert_pos(g.remove(i), g[i]) == i,
        grid_add(g.remove(i), g[i]) == g,
        sheet_index(g, g[i].id) == i,
{
    let h = g.remove(i);
    assert forall|k: int| 0 <= k < h.len() implies #[trigger] h[k] == g[if k < i {
        k
    } else {
        k + 1
    }] by {}
    assert forall|a: int, b: int| 0 <= a < b < h.len() implies sheet_before(
        #[trigger] h[a],
        #[trigger] h[b],
    ) by {
        let a0 = if a < i { a } else { a + 1 };
        let b0 = if b < i { b } else { b + 1 };
        assert(sheet_before(g[a0], g[b0]));
    }
    assert forall|a: int, b: int| 0 <= a < h.len() && 0 <= b < h.len() && a != b implies (
    #[trigger] h[a]).id != (#[trigger] h[b]).id && h[a].name != h[b].name by {
        let a0 = if a < i { a } else { a + 1 };
        let b0 = if b < i { b } else { b + 1 };
        assert(g[a0].id != g[b0].id && g[a0].name != g[b0].name);
    }
    assert forall|k: int| 0 <= k < h.len() implies (#[trigger] h[k]).wf() && h[k].id != g[i].id
        && h[k].name != g[i].name by {
        let k0 = if k < i { k } else { k + 1 };
        assert(g[k0].wf() && g[k0].id != g[i].id && g[k0].name != g[i].name);
    }
    assert forall|k: int| 0 <= k < i implies sheet_before(#[trigger] h[k], g[i]) by {
        assert(sheet_before(g[k], g[i]));
    }
    if i < h.len() {
        assert(sheet_before(g[i], g[i + 1]));
        lemma_sheet_before_total(g[i], g[i + 1]);
    }
    lemma_insert_pos_is(h, g[i], i);
    assert(h.insert(i, g[i]) =~= g);
}

/// In a valid grid the sheet with a given id stands at one index only.
pub proof fn lemma_sheet_index(g: Seq<SheetView>, i: int)
    requires
        grid_wf(g),
        0 <= i < g.len(),
    ensures
        has_sheet(g, g[i].id),
        sheet_index(g, g[i].id) == i,
{
}

/// The key behind the last sheet sorts after every key of the grid.
pub proof fn lemma_end_order(g: Seq<SheetView>)
    requires
        grid_wf(g),
    ensures
        forall|i: int|
            0 <= i < g.len() ==> key_lt((#[trigger] g[i]).order, spec_end_order(g)),
{
    if g.len() > 0 {
        let last = g.last();
        lemma_key_lt_extended(last.order, seq!['n']);
        assert forall|i: int| 0 <= i < g.len() implies key_lt(
            (#[trigger] g[i]).order,
            spec_end_order(g),
        ) by {
            if i < g.len() - 1 {
                assert(sheet_before(g[i], g[g.len() - 1]));
                if g[i].order != last.order {
                    lemma_key_lt_transitive(g[i].order, last.order, spec_end_order(g));
                }
            }
        }
    }
}

/// The sheets of one file. Every sheet has its own id and its own name, and
/// the sheets stand in the order of their keys.
#[derive(Debug, Clone, PartialEq, Eq)]
pub struct Grid {
    sheets: Vec<Sheet>,
}

impl View for Grid {
    type V = Seq<SheetView>;

    closed spec fn view(&self) -> Seq<SheetView> {
        Seq::new(self.sheets@.len(), |i: int| self.sheets@[i]@)
    }
}

impl Grid {
    /// Every sheet is sound and the model is a valid grid.
    pub closed spec fn wf(self) -> bool {
        &&& forall|i: int| 0 <= i < self.sheets@.len() ==> (#[trigger] self.sheets@[i]).wf()
        &&& grid_wf(self@)
    }

    /// A valid grid has a valid model.
    pub proof fn lemma_wf(self)
        requires
            self.wf(),
        ensures
            grid_wf(self@),
    {
    }

    /// The grid is valid but, it may be, for the cached bounds of the sheet at
    /// `index`: its cells are sound, and every other sheet is valid.
    pub closed spec fn wf_but_bounds_at(self, index: int) -> bool {
        &&& 0 <= index < self.sheets@.len()
        &&& forall|i: int|
            0 <= i < self.sheets@.len() && i != index ==> (#[trigger] self.sheets@[i]).wf()
        &&& self.sheets@[index].cells_sound()
        &&& grid_wf(self@)
    }

    /// The cached bounds of the sheet at `index`.
    pub closed spec fn bounds_at(self, index: int) -> GridBounds {
        self.sheets@[index].spec_bounds()
    }

    /// A valid grid is valid but for the bounds of any of its sheets, and the
    /// cached bounds of each sheet are those of its cells.
    pub proof fn lemma_wf_but_bounds_at(self, index: int)
        requires
            self.wf(),
            0 <= index < self@.len(),
        ensures
            self.wf_but_bounds_at(index),
            bounds_match(self@[index].cells, self.bounds_at(index)),
    {
        self.sheets@[index].lemma_wf();
    }

    /// A grid without sheets.
    pub fn empty() -> (g: Grid)
        ensures
            g.wf(),
            g@ == Seq::<SheetView>::empty(),
    {
        let g = Grid { sheets: Vec::new() };
        assert(g@ =~= Seq::<SheetView>::empty());
        g
    }

    /// A grid with one empty sheet named `Sheet 1` under the given id.
    pub fn with_first_sheet(id: SheetId) -> (g: Grid)
        ensures
            g.wf(),
            g@ == seq![
                SheetView {
                    id,
                    name: "Sheet 1"@,
                    color: None,
                    order: seq!['n'],
                    cells: Map::empty(),
                },
            ],
    {
        let sheet = Sheet::new(id, "Sheet 1".to_owned(), first_key());
        let mut sheets: Vec<Sheet> = Vec::new();
        proof {
            sheet.lemma_wf();
        }
        sheets.push(sheet);
        let g = Grid { sheets };
        assert(g@ =~= seq![sheet@]);
        g
    }

    /// A grid with one empty sheet named `Sheet 1` under a fresh random id.
    pub fn new() -> (g: Grid)
        ensures
            g.wf(),
            g@.len() == 1,
            g@ == seq![
                SheetView {
                    id: g@[0].id,
                    name: "Sheet 1"@,
                    color: None,
                    order: seq!['n'],
                    cells: Map::empty(),
                },
            ],
    {
        Grid::with_first_sheet(SheetId::new())
    }

    /// The sheets, in order.
    pub fn sheets(&self) -> (r: &Vec<Sheet>)
        ensures
            r@.len() == self@.len(),
            forall|i: int| 0 <= i < r@.len() ==> (#[trigger] r@[i])@ == self@[i],
            self.wf() ==> forall|i: int| 0 <= i < r@.len() ==> (#[trigger] r@[i]).wf(),
    {
        &self.sheets
    }

    /// Number of sheets.
    pub fn len(&self) -> (n: usize)
        ensures
            n == self@.len(),
    {
        self.sheets.len()
    }

    /// The ids of the sheets, in order.
    pub fn sheet_ids(&self) -> (r: Vec<SheetId>)
        ensures
            r@ == ids_of(self@),
    {
        let mut out: Vec<SheetId> = Vec::new();
        let mut i: usize = 0;
        while i < self.sheets.len()
            invariant
                i <= self.sheets.len(),
                out.len() == i,
                forall|k: int| 0 <= k < i ==> out@[k] == self@[k].id,
            decreases self.sheets.len() - i,
        {
            out.push(self.sheets[i].id());
            i += 1;
        }
        assert(out@ =~= ids_of(self@));
        out
    }

    /// The index of the sheet with this id, if the grid holds one.
    pub fn sheet_id_to_index(&self, id: SheetId) -> (r: Option<usize>)
        ensures
            r is Some <==> has_sheet(self@, id),
            r is Some ==> r->Some_0 < self@.len() && self@[r->Some_0 as int].id == id,
            r is Some && self.wf() ==> r->Some_0 == sheet_index(self@, id),
    {
        let mut i: usize = 0;
        while i < self.sheets.len()
            invariant
                i <= self.sheets.len(),
                forall|k: int| 0 <= k < i ==> (#[trigger] self@[k]).id != id,
            decreases self.sheets.len() - i,
        {
            if self.sheets[i].id() == id {
                assert(self@[i as int].id == id);
                return Some(i);
            }
            i += 1;
        }
        None
    }

    /// The index of the sheet with this name, if the grid holds one.
    pub fn sheet_name_to_index(&self, name: &String) -> (r: Option<usize>)
        ensures
            r is Some <==> has_name(self@, name@),
            r is Some ==> r->Some_0 < self@.len() && self@[r->Some_0 as int].name == name@,
    {
        let mut i: usize = 0;
        while i < self.sheets.len()
            invariant
                i <= self.sheets.len(),
                forall|k: int| 0 <= k < i ==> (#[trigger] self@[k]).name != name@,
            decreases self.sheets.len() - i,
        {
            if *self.sheets[i].name() == *name {
                assert(self@[i as int].name == name@);
                return Some(i);
            }
            i += 1;
        }
        None
    }

    /// The sheet with this id, if the grid holds one.
    pub fn try_sheet_from_id(&self, id: SheetId) -> (r: Option<&Sheet>)
        ensures
            r is Some <==> has_sheet(self@, id),
            r is Some ==> r->Some_0@.id == id,
            r is Some && self.wf() ==> r->Some_0@ == self@[sheet_index(self@, id)]
                && r->Some_0.wf(),
    {
        match self.sheet_id_to_index(id) {
            Some(i) => Some(&self.sheets[i]),
            None => None,
        }
    }

    /// The id of the first sheet, if there is a sheet.
    pub fn first_sheet_id(&self) -> (r: Option<SheetId>)
        ensures
            r == first_id(self@),
    {
        if self.sheets.len() == 0 {
            None
        } else {
            Some(self.sheets[0].id())
        }
    }

    /// An order key that sorts behind every sheet of the grid.
    pub fn end_order(&self) -> (r: String)
        ensures
            r@ == spec_end_order(self@),
    {
        let n: usize = self.sheets.len();
        if n == 0 {
            first_key()
        } else {
            assert(self@.last() == self@[n - 1]);
            key_after(self.sheets[n - 1].order())
        }
    }

    /// Whether `a` stands before `b`.
    fn before(a: &Sheet, b: &Sheet) -> (r: bool)
        ensures
            r == sheet_before(a@, b@),
    {
        if order_lt(a.order(), b.order()) {
            true
        } else if *a.order() == *b.order() {
            a.id().id < b.id().id
        } else {
            false
        }
    }

    /// Puts the sheet in at its place; gives it back unchanged if the grid
    /// already holds a sheet with its id or with its name.
    pub fn add_sheet(&mut self, sheet: Sheet) -> (r: Result<(), Sheet>)
        requires
            old(self).wf(),
            sheet.wf(),
        ensures
            final(self).wf(),
            r is Ok <==> !has_sheet(old(self)@, sheet@.id) && !has_name(old(self)@, sheet@.name),
            r is Ok ==> final(self)@ == grid_add(old(self)@, sheet@),
            r is Err ==> final(self)@ == old(self)@ && r->Err_0@ == sheet@ && r->Err_0.wf(),
    {
        if self.sheet_id_to_index(sheet.id()).is_some() {
            return Err(sheet);
        }
        if self.sheet_name_to_index(sheet.name()).is_some() {
            return Err(sheet);
        }
        let mut i: usize = 0;
        while i < self.sheets.len() && Self::before(&self.sheets[i], &sheet)
            invariant
                i <= self.sheets.len(),
                forall|k: int| 0 <= k < i ==> sheet_before(#[trigger] self@[k], sheet@),
            decreases self.sheets.len() - i,
        {
            i += 1;
        }
        proof {
            sheet.lemma_wf();
            lemma_insert_pos_is(self@, sheet@, i as int);
            lemma_grid_add(self@, sheet@);
        }
        let ghost before = self@;
        self.sheets.insert(i, sheet);
        assert(self@ =~= grid_add(before, sheet@));
        Ok(())
    }

    /// Takes the sheet with this id out of the grid, if the grid holds one.
    pub fn remove_sheet(&mut self, id: SheetId) -> (r: Option<Sheet>)
        requires
            old(self).wf(),
        ensures
            final(self).wf(),
            r is Some <==> has_sheet(old(self)@, id),
            r is Some ==> r->Some_0.wf() && r->Some_0@ == old(self)@[sheet_index(old(self)@, id)]
                && final(self)@ == old(self)@.remove(sheet_index(old(self)@, id)),
            r is None ==> final(self)@ == old(self)@,
    {
        match self.sheet_id_to_index(id) {
            Some(i) => {
                proof {
                    lemma_grid_remove(self@, i as int);
                }
                let ghost before = self@;
                let sheet = self.sheets.remove(i);
                assert(self@ =~= before.remove(i as int));
                Some(sheet)
            },
            None => None,
        }
    }

    /// Gives the sheet at `index` the name `name` and hands back its old name.
    pub fn rename_sheet_at(&mut self, index: usize, name: String) -> (previous: String)
        requires
            old(self).wf(),
            index < old(self)@.len(),
            !name_taken_by_other(old(self)@, index as int, name@),
        ensures
            final(self).wf(),
            final(self)@ == old(self)@.update(
                index as int,
                SheetView { name: name@, ..old(self)@[index as int] },
            ),
            previous@ == old(self)@[index as int].name,
    {
        let ghost before = self@;
        let previous = self.sheets[index].set_name(name);
        proof {
            let after = self@;
            assert(after =~= before.update(
                index as int,
                SheetView { name: name@, ..before[index as int] },
            ));
            assert forall|i: int, j: int|
                0 <= i < after.len() && 0 <= j < after.len() && i != j implies (
            #[trigger] after[i]).name != (#[trigger] after[j]).name by {
                if i != index && j != index {
                    assert(before[i].name != before[j].name);
                } else if i == index {
                    assert(before[j].name != name@);
                } else {
                    assert(before[i].name != name@);
                }
            }
            assert forall|i: int, j: int| 0 <= i < j < after.len() implies sheet_before(
                #[trigger] after[i],
                #[trigger] after[j],
            ) by {
                assert(sheet_before(before[i], before[j]));
            }
            assert forall|i: int, j: int|
                0 <= i < after.len() && 0 <= j < after.len() && i != j implies (
            #[trigger] after[i]).id != (#[trigger] after[j]).id by {
                assert(before[i].id != before[j].id);
            }
            assert forall|i: int| 0 <= i < after.len() implies (#[trigger] after[i]).wf() by {
                assert(before[i].wf());
            }
        }
        previous
    }

    /// Gives the sheet at `index` the colour `color` and hands back its old one.
    pub fn recolor_sheet_at(&mut self, index: usize, color: Option<String>) -> (previous: Option<
        String,
    >)
        requires
            old(self).wf(),
            index < old(self)@.len(),
        ensures
            final(self).wf(),
            final(self)@ == old(self)@.update(
                index as int,
                SheetView { color: opt_view(color), ..old(self)@[index as int] },
            ),
            opt_view(previous) == old(self)@[index as int].color,
    {
        let ghost before = self@;
        let previous = self.sheets[index].set_color(color);
        proof {
            let after = self@;
            assert(after =~= before.update(
                index as int,
                SheetView { color: opt_view(color), ..before[index as int] },
            ));
            lemma_update_keeps_wf(before, after, index as int);
        }
        previous
    }

    /// Writes `value` at `pos` of the sheet at `index` and hands back what the
    /// cell held.
    pub fn set_cell_value_at(&mut self, index: usize, pos: Pos, value: CellValue) -> (previous:
        CellValue)
        requires
            old(self).wf(),
            index < old(self)@.len(),
        ensures
            final(self).wf(),
            final(self)@ == old(self)@.update(
                index as int,
                SheetView {
                    cells: write_cell(old(self)@[index as int].cells, pos, value@),
                    ..old(self)@[index as int]
                },
            ),
            previous@ == read_cell(old(self)@[index as int].cells, pos),
    {
        let ghost before = self@;
        let previous = self.sheets[index].set_cell_value(pos, value);
        proof {
            self.sheets@[index as int].lemma_wf();
            let after = self@;
            assert(after =~= before.update(
                index as int,
                SheetView {
                    cells: write_cell(before[index as int].cells, pos, value@),
                    ..before[index as int]
                },
            ));
            lemma_update_keeps_wf(before, after, index as int);
        }
        previous
    }

    /// Recomputes the cached bounds of the sheet at `index` from its cells.
    ///
    /// Whatever that cache held, afterwards it holds the bounding rectangle of
    /// the cells of the sheet, and the grid is valid. No sheet changes in
    /// anything else.
    pub fn recalculate_bounds_at(&mut self, index: usize)
        requires
            index < old(self)@.len(),
            old(self).wf_but_bounds_at(index as int),
        ensures
            final(self).wf(),
            final(self)@ == old(self)@,
            bounds_match(old(self)@[index as int].cells, final(self).bounds_at(index as int)),
            forall|i: int|
                0 <= i < old(self)@.len() && i != index ==> final(self).bounds_at(i) == old(
                    self,
                ).bounds_at(i),
    {
        let ghost before = self@;
        self.sheets[index].recalculate_bounds();
        assert(self@ =~= before);
    }

    /// Gives the sheet with this id another order key, moves it to the place
    /// the key gives, and hands back the key it had. Nothing happens if the
    /// grid holds no such sheet.
    pub fn move_sheet(&mut self, id: SheetId, order: String) -> (previous: Option<String>)
        requires
            old(self).wf(),
        ensures
            final(self).wf(),
            previous is Some <==> has_sheet(old(self)@, id),
            previous is Some ==> previous->Some_0@ == old(self)@[sheet_index(old(self)@, id)].order
                && final(self)@ == grid_add(
                old(self)@.remove(sheet_index(old(self)@, id)),
                SheetView { order: order@, ..old(self)@[sheet_index(old(self)@, id)] },
            ),
            previous is None ==> final(self)@ == old(self)@,
    {
        match self.remove_sheet(id) {
            Some(sheet) => {
                let mut sheet = sheet;
                let ghost removed = sheet@;
                let previous = sheet.set_order(order);
                proof {
                    lemma_grid_remove(old(self)@, sheet_index(old(self)@, id));
                    sheet.lemma_wf();
                    assert(sheet@.wf());
                }
                let r = self.add_sheet(sheet);
                assert(r is Ok);
                Some(previous)
            },
            None => None,
        }
    }

    /// A copy with the same model.
    pub fn duplicate(&self) -> (r: Grid)
        requires
            self.wf(),
        ensures
            r.wf(),
            r@ == self@,
    {
        let mut sheets: Vec<Sheet> = Vec::new();
        let mut i: usize = 0;
        while i < self.sheets.len()
            invariant
                i <= self.sheets.len(),
                self.wf(),
                sheets.len() == i,
                forall|k: int| 0 <= k < i ==> (#[trigger] sheets@[k]).wf() && sheets@[k]@ == self@[k],
            decreases self.sheets.len() - i,
        {
            sheets.push(self.sheets[i].duplicate());
            i += 1;
        }
        let r = Grid { sheets };
        assert(r@ =~= self@);
        r
    }
}

/// Changing what a sheet holds, but not its id, name or order key, keeps the
/// grid valid.
pub proof fn lemma_update_keeps_wf(before: Seq<SheetView>, after: Seq<SheetView>, index: int)
    requires
        grid_wf(before),
        0 <= index < before.len(),
        after.len() == before.len(),
        forall|i: int| 0 <= i < before.len() && i != index ==> after[i] == before[i],
        after[index].id == before[index].id,
        after[index].name == before[index].name,
        after[index].order == before[index].order,
        after[index].wf(),
    ensures
        grid_wf(after),
{
    assert forall|i: int, j: int| 0 <= i < after.len() && 0 <= j < after.len() && i != j implies (
    #[trigger] after[i]).name != (#[trigger] after[j]).name && after[i].id != after[j].id by {
        assert(before[i].name != before[j].name && before[i].id != before[j].id);
    }
    assert forall|i: int, j: int| 0 <= i < j < after.len() implies sheet_before(
        #[trigger] after[i],
        #[trigger] after[j],
    ) by {
        assert(sheet_before(before[i], before[j]));
    }
    assert forall|i: int| 0 <= i < after.len() implies (#[trigger] after[i]).wf() by {
        assert(before[i].wf());
    }
}

} // verus!
