//! Operations, transactions, and the summary of what a transaction changed.

use vstd::prelude::*;
use crate::position::{Pos, Rect};
use crate::ids::{SheetId, TransactionId, RegionRef, RegionView};
use crate::values::{Array, ArrayView};
use crate::sheet::{Sheet, SheetView, opt_view, duplicate_opt};

verus! {

/// What kind of user action a transaction stands for.
#[derive(Debug, Clone, Copy, PartialEq, Eq, Structural)]
pub enum TransactionName {
    Unknown,
    ResizeColumn,
    ResizeRow,
    Autocomplete,
    SetBorders,
    SetCells,
    SetFormats,
    CutClipboard,
    PasteClipboard,
    SetCode,
    RunCode,
    Import,
    SetSheetMetadata,
    SheetAdd,
    SheetDelete,
    DuplicateSheet,
}

/// One atomic, invertible change to a grid.
#[derive(Debug, Clone, PartialEq, Eq)]
pub enum Operation {
    /// Writes `values`, row by row, into the cells of `region`.
    SetCells { region: RegionRef, values: Array },
    /// Puts `sheet` into the grid.
    AddSheet { sheet: Sheet },
    /// Takes the sheet out of the grid.
    DeleteSheet { sheet_id: SheetId },
    /// Gives the sheet `target` the order key `order`.
    ReorderSheet { target: SheetId, order: String },
    /// Renames the sheet.
    SetSheetName { sheet_id: SheetId, name: String },
    /// Gives the sheet a colour, or none.
    SetSheetColor { sheet_id: SheetId, color: Option<String> },
}

/// Mathematical model of an [`Operation`].
pub ghost enum OpView {
    SetCells { region: RegionView, values: ArrayView },
    AddSheet { sheet: SheetView },
    DeleteSheet { sheet_id: SheetId },
    ReorderSheet { target: SheetId, order: Seq<char> },
    SetSheetName { sheet_id: SheetId, name: Seq<char> },
    SetSheetColor { sheet_id: SheetId, color: Option<Seq<char>> },
}

impl OpView {
    /// The parts of the operation are valid: a region names no column and no
    /// row twice, an array has one value per element, a sheet stores no
    /// `Blank`.
    pub open spec fn wf(self) -> bool {
        match self {
            OpView::SetCells { region, values } => region.wf() && values.wf(),
            OpView::AddSheet { sheet } => sheet.wf(),
            _ => true,
        }
    }
}

/// Every operation of the list is valid.
pub open spec fn ops_wf(ops: Seq<OpView>) -> bool {
    forall|i: int| 0 <= i < ops.len() ==> (#[trigger] ops[i]).wf()
}

impl View for Operation {
    type V = OpView;

    open spec fn view(&self) -> OpView {
        match self {
            Operation::SetCells { region, values } => OpView::SetCells {
                region: region@,
                values: values@,
            },
            Operation::AddSheet { sheet } => OpView::AddSheet { sheet: sheet@ },
            Operation::DeleteSheet { sheet_id } => OpView::DeleteSheet { sheet_id: *sheet_id },
            Operation::ReorderSheet { target, order } => OpView::ReorderSheet {
                target: *target,
                order: order@,
            },
            Operation::SetSheetName { sheet_id, name } => OpView::SetSheetName {
                sheet_id: *sheet_id,
                name: name@,
            },
            Operation::SetSheetColor { sheet_id, color } => OpView::SetSheetColor {
                sheet_id: *sheet_id,
                color: opt_view(*color),
            },
        }
    }
}

impl Operation {
    /// The parts of the operation are valid; see [`OpView::wf`].
    pub open spec fn wf(self) -> bool {
        match self {
            Operation::SetCells { region, values } => region.wf() && values.wf(),
            Operation::AddSheet { sheet } => sheet.wf(),
            _ => true,
        }
    }

    /// A valid operation has a valid model.
    pub proof fn lemma_wf(self)
        requires
            self.wf(),
        ensures
            self@.wf(),
    {
        match self {
            Operation::AddSheet { sheet } => {
                sheet.lemma_wf();
            },
            _ => {},
        }
    }

    /// The sheet whose bounds the operation may change: that of a `SetCells`.
    pub fn sheet_with_changed_bounds(&self) -> (r: Option<SheetId>)
        ensures
            r == match self@ {
                OpView::SetCells { region, .. } => Some(region.sheet),
                _ => None,
            },
    {
        match self {
            Operation::SetCells { region, .. } => Some(region.sheet),
            Operation::AddSheet { .. } => None,
            Operation::DeleteSheet { .. } => None,
            Operation::SetSheetColor { .. } => None,
            Operation::SetSheetName { .. } => None,
            Operation::ReorderSheet { .. } => None,
        }
    }

    /// A copy with the same model.
    pub fn duplicate(&self) -> (r: Operation)
        requires
            self.wf(),
        ensures
            r.wf(),
            r@ == self@,
    {
        match self {
            Operation::SetCells { region, values } => Operation::SetCells {
                region: region.duplicate(),
                values: values.duplicate(),
            },
            Operation::AddSheet { sheet } => Operation::AddSheet { sheet: sheet.duplicate() },
            Operation::DeleteSheet { sheet_id } => Operation::DeleteSheet { sheet_id: *sheet_id },
            Operation::ReorderSheet { target, order } => Operation::ReorderSheet {
                target: *target,
                order: order.clone(),
            },
            Operation::SetSheetName { sheet_id, name } => Operation::SetSheetName {
                sheet_id: *sheet_id,
                name: name.clone(),
            },
            Operation::SetSheetColor { sheet_id, color } => Operation::SetSheetColor {
                sheet_id: *sheet_id,
                color: duplicate_opt(color),
            },
        }
    }
}

/// The models of a list of operations, one by one.
pub open spec fn ops_view(ops: Seq<Operation>) -> Seq<OpView> {
    Seq::new(ops.len(), |i: int| ops[i]@)
}

/// Every operation of the list is valid.
pub open spec fn all_wf(ops: Seq<Operation>) -> bool {
    forall|i: int| 0 <= i < ops.len() ==> (#[trigger] ops[i]).wf()
}

/// Valid operations have valid models.
pub proof fn lemma_all_wf(ops: Seq<Operation>)
    requires
        all_wf(ops),
    ensures
        ops_wf(ops_view(ops)),
{
    assert forall|i: int| 0 <= i < ops.len() implies (#[trigger] ops_view(ops)[i]).wf() by {
        ops[i].lemma_wf();
    }
}

/// Copies a list of operations, keeping every model.
pub fn duplicate_ops(ops: &Vec<Operation>) -> (r: Vec<Operation>)
    requires
        all_wf(ops@),
    ensures
        all_wf(r@),
        ops_view(r@) == ops_view(ops@),
{
    let mut out: Vec<Operation> = Vec::new();
    let mut i: usize = 0;
    while i < ops.len()
        invariant
            i <= ops.len(),
            all_wf(ops@),
            out.len() == i,
            forall|k: int| 0 <= k < i ==> (#[trigger] out@[k]).wf() && out@[k]@ == ops@[k]@,
        decreases ops.len() - i,
    {
        out.push(ops[i].duplicate());
        i += 1;
    }
    assert(ops_view(out@) =~= ops_view(ops@));
    out
}

/// Ordered batch of operations with an id and, once the server has placed it,
/// a sequence number.
#[derive(Debug, Clone, PartialEq, Eq)]
pub struct Transaction {
    pub id: TransactionId,
    pub sequence_num: Option<u64>,
    pub operations: Vec<Operation>,
    pub cursor: Option<String>,
}

/// Mathematical model of a [`Transaction`].
pub ghost struct TransactionView {
    pub id: TransactionId,
    pub sequence_num: Option<u64>,
    pub operations: Seq<OpView>,
    pub cursor: Option<Seq<char>>,
}

impl View for Transaction {
    type V = TransactionView;

    open spec fn view(&self) -> TransactionView {
        TransactionView {
            id: self.id,
            sequence_num: self.sequence_num,
            operations: ops_view(self.operations@),
            cursor: opt_view(self.cursor),
        }
    }
}

impl Transaction {
    /// Every operation is valid.
    pub open spec fn wf(self) -> bool {
        all_wf(self.operations@)
    }

    /// A copy with the same model.
    pub fn duplicate(&self) -> (r: Transaction)
        requires
            self.wf(),
        ensures
            r.wf(),
            r@ == self@,
    {
        Transaction {
            id: self.id,
            sequence_num: self.sequence_num,
            operations: duplicate_ops(&self.operations),
            cursor: duplicate_opt(&self.cursor),
        }
    }
}

/// The models of a list of transactions, one by one.
pub open spec fn transactions_view(ts: Seq<Transaction>) -> Seq<TransactionView> {
    Seq::new(ts.len(), |i: int| ts[i]@)
}

/// Every transaction of the list holds valid operations only.
pub open spec fn all_transactions_wf(ts: Seq<Transaction>) -> bool {
    forall|i: int| 0 <= i < ts.len() ==> (#[trigger] ts[i]).wf()
}

/// Mathematical model of a [`TransactionSummary`].
pub ghost struct SummaryView {
    pub cell_regions_modified: Seq<(SheetId, Rect)>,
    pub fill_sheets_modified: Seq<SheetId>,
    pub border_sheets_modified: Seq<SheetId>,
    pub code_cells_modified: Seq<(SheetId, Pos)>,
    pub sheet_list_modified: bool,
    pub generate_thumbnail: bool,
    pub html: Set<SheetId>,
    pub save: bool,
    pub transaction_id: Option<TransactionId>,
    pub operations: Option<Seq<OpView>>,
    pub request_transactions: Option<u64>,
    pub cursor: Option<Seq<char>>,
}

impl SummaryView {
    /// The summary of a transaction that changed nothing.
    pub open spec fn empty() -> SummaryView {
        SummaryView {
            cell_regions_modified: Seq::empty(),
            fill_sheets_modified: Seq::empty(),
            border_sheets_modified: Seq::empty(),
            code_cells_modified: Seq::empty(),
            sheet_list_modified: false,
            generate_thumbnail: false,
            html: Set::empty(),
            save: false,
            transaction_id: None,
            operations: None,
            request_transactions: None,
            cursor: None,
        }
    }

    /// The summary of `self` followed by `other`: lists are joined, sets are
    /// united, flags are or-ed, and of two optional values the later one wins.
    pub open spec fn merge(self, other: SummaryView) -> SummaryView {
        SummaryView {
            cell_regions_modified: self.cell_regions_modified + other.cell_regions_modified,
            fill_sheets_modified: self.fill_sheets_modified + other.fill_sheets_modified,
            border_sheets_modified: self.border_sheets_modified + other.border_sheets_modified,
            code_cells_modified: self.code_cells_modified + other.code_cells_modified,
            sheet_list_modified: self.sheet_list_modified || other.sheet_list_modified,
            generate_thumbnail: self.generate_thumbnail || other.generate_thumbnail,
            html: self.html.union(other.html),
            save: self.save || other.save,
            transaction_id: if other.transaction_id is Some {
                other.transaction_id
            } else {
                self.transaction_id
            },
            operations: if other.operations is Some {
                other.operations
            } else {
                self.operations
            },
            request_transactions: if other.request_transactions is Some {
                other.request_transactions
            } else {
                self.request_transactions
            },
            cursor: if other.cursor is Some {
                other.cursor
            } else {
                self.cursor
            },
        }
    }
}

/// Merging with the empty summary changes nothing.
pub proof fn lemma_merge_empty(s: SummaryView)
    ensures
        s.merge(SummaryView::empty()) == s,
        SummaryView::empty().merge(s) == s,
{
    let a = s.merge(SummaryView::empty());
    assert(a.cell_regions_modified =~= s.cell_regions_modified);
    assert(a.fill_sheets_modified =~= s.fill_sheets_modified);
    assert(a.border_sheets_modified =~= s.border_sheets_modified);
    assert(a.code_cells_modified =~= s.code_cells_modified);
    assert(a.html =~= s.html);
    let b = SummaryView::empty().merge(s);
    assert(b.cell_regions_modified =~= s.cell_regions_modified);
    assert(b.fill_sheets_modified =~= s.fill_sheets_modified);
    assert(b.border_sheets_modified =~= s.border_sheets_modified);
    assert(b.code_cells_modified =~= s.code_cells_modified);
    assert(b.html =~= s.html);
}

/// Merging summaries is associative.
pub proof fn lemma_merge_assoc(a: SummaryView, b: SummaryView, c: SummaryView)
    ensures
        a.merge(b).merge(c) == a.merge(b.merge(c)),
{
    let l = a.merge(b).merge(c);
    let r = a.merge(b.merge(c));
    assert(l.cell_regions_modified =~= r.cell_regions_modified);
    assert(l.fill_sheets_modified =~= r.fill_sheets_modified);
    assert(l.border_sheets_modified =~= r.border_sheets_modified);
    assert(l.code_cells_modified =~= r.code_cells_modified);
    assert(l.html =~= r.html);
}

/// What one or more transactions changed, for the renderer and the transport.
#[derive(Debug, Clone, PartialEq, Eq)]
pub struct TransactionSummary {
    /// Cell regions modified.
    pub cell_regions_modified: Vec<(SheetId, Rect)>,
    /// Sheets where any fills have been modified.
    pub fill_sheets_modified: Vec<SheetId>,
    /// Sheets where any borders have been modified.
    pub border_sheets_modified: Vec<SheetId>,
    /// Locations of code cells that were modified. They may no longer exist.
    pub code_cells_modified: Vec<(SheetId, Pos)>,
    /// Sheet metadata or order was modified.
    pub sheet_list_modified: bool,
    /// The thumbnail of the file should be drawn again.
    pub generate_thumbnail: bool,
    /// Sheets whose HTML output must be refreshed; a set, held without repeats
    /// by [`TransactionSummary::merge`].
    pub html: Vec<SheetId>,
    /// The transaction should be sent to the server.
    pub save: bool,
    /// Id of the transaction to send.
    pub transaction_id: Option<TransactionId>,
    /// Forward operations of the transaction to send.
    pub operations: Option<Vec<Operation>>,
    /// Sequence number from which the server should send transactions again.
    pub request_transactions: Option<u64>,
    /// Cursor location to restore.
    pub cursor: Option<String>,
}

/// The model of an optional list of operations.
pub open spec fn opt_ops_view(ops: Option<Vec<Operation>>) -> Option<Seq<OpView>> {
    match ops {
        Some(v) => Some(ops_view(v@)),
        None => None,
    }
}

impl View for TransactionSummary {
    type V = SummaryView;

    open spec fn view(&self) -> SummaryView {
        SummaryView {
            cell_regions_modified: self.cell_regions_modified@,
            fill_sheets_modified: self.fill_sheets_modified@,
            border_sheets_modified: self.border_sheets_modified@,
            code_cells_modified: self.code_cells_modified@,
            sheet_list_modified: self.sheet_list_modified,
            generate_thumbnail: self.generate_thumbnail,
            html: self.html@.to_set(),
            save: self.save,
            transaction_id: self.transaction_id,
            operations: opt_ops_view(self.operations),
            request_transactions: self.request_transactions,
            cursor: opt_view(self.cursor),
        }
    }
}

/// Appends the elements of `b` to `a`.
fn append_copy<T: Copy>(a: &mut Vec<T>, b: &Vec<T>)
    ensures
        final(a)@ == old(a)@ + b@,
{
    let mut i: usize = 0;
    while i < b.len()
        invariant
            i <= b.len(),
            a@ == old(a)@ + b@.take(i as int),
        decreases b.len() - i,
    {
        a.push(b[i]);
        assert(b@.take(i + 1) =~= b@.take(i as int).push(b@[i as int]));
        i += 1;
    }
    assert(b@.take(b.len() as int) =~= b@);
}

/// Whether `v` holds `id`.
fn holds_id(v: &Vec<SheetId>, id: SheetId) -> (r: bool)
    ensures
        r == v@.contains(id),
{
    let mut i: usize = 0;
    while i < v.len()
        invariant
            i <= v.len(),
            forall|k: int| 0 <= k < i ==> v@[k] != id,
        decreases v.len() - i,
    {
        if v[i] == id {
            return true;
        }
        i += 1;
    }
    false
}

/// Adds to `a` the ids of `b` that it does not hold yet.
fn unite_ids(a: &mut Vec<SheetId>, b: &Vec<SheetId>)
    ensures
        final(a)@.to_set() == old(a)@.to_set().union(b@.to_set()),
        old(a)@.no_duplicates() ==> final(a)@.no_duplicates(),
{
    let mut i: usize = 0;
    while i < b.len()
        invariant
            i <= b.len(),
            a@.to_set() == old(a)@.to_set().union(b@.take(i as int).to_set()),
            old(a)@.no_duplicates() ==> a@.no_duplicates(),
        decreases b.len() - i,
    {
        let ghost before = a@;
        let id: SheetId = b[i];
        if !holds_id(a, id) {
            a.push(id);
        }
        proof {
            assert(b@.take(i + 1) =~= b@.take(i as int).push(id));
            assert(a@.to_set() =~= before.to_set().insert(id)) by {
                assert forall|x: SheetId| a@.to_set().contains(x) == before.to_set().insert(
                    id,
                ).contains(x) by {
                    if a@.contains(x) {
                        let k = choose|k: int| 0 <= k < a@.len() && a@[k] == x;
                        if k < before.len() {
                            assert(before[k] == x);
                        }
                    }
                    if before.contains(x) {
                        let k = choose|k: int| 0 <= k < before.len() && before[k] == x;
                        assert(a@[k] == x);
                    }
                    if x == id && !before.contains(id) {
                        assert(a@[before.len() as int] == id);
                    }
                }
            }
            assert(b@.take(i + 1).to_set() =~= b@.take(i as int).to_set().insert(id)) by {
                let t1 = b@.take(i + 1);
                let t0 = b@.take(i as int);
                assert forall|x: SheetId| t1.to_set().contains(x) == t0.to_set().insert(
                    id,
                ).contains(x) by {
                    if t1.contains(x) {
                        let k = choose|k: int| 0 <= k < t1.len() && t1[k] == x;
                        if k < t0.len() {
                            assert(t0[k] == x);
                        }
                    }
                    if t0.contains(x) {
                        let k = choose|k: int| 0 <= k < t0.len() && t0[k] == x;
                        assert(t1[k] == x);
                    }
                    if x == id {
                        assert(t1[i as int] == id);
                    }
                }
            }
            assert(a@.to_set() =~= old(a)@.to_set().union(b@.take(i + 1).to_set()));
        }
        i += 1;
    }
    assert(b@.take(b.len() as int) =~= b@);
}

impl TransactionSummary {
    /// The summary of a transaction that changed nothing.
    pub fn new() -> (s: TransactionSummary)
        ensures
            s@ == SummaryView::empty(),
            s.html@.len() == 0,
    {
        let s = TransactionSummary {
            cell_regions_modified: Vec::new(),
            fill_sheets_modified: Vec::new(),
            border_sheets_modified: Vec::new(),
            code_cells_modified: Vec::new(),
            sheet_list_modified: false,
            generate_thumbnail: false,
            html: Vec::new(),
            save: false,
            transaction_id: None,
            operations: None,
            request_transactions: None,
            cursor: None,
        };
        assert(s@.html =~= Set::<SheetId>::empty());
        s
    }

    /// Takes `other` into this summary: region lists are joined without
    /// looking for repeats, sets are united, flags are or-ed, and an optional
    /// value of `other` replaces the one held.
    pub fn merge(&mut self, other: TransactionSummary)
        ensures
            final(self)@ == old(self)@.merge(other@),
    {
        append_copy(&mut self.cell_regions_modified, &other.cell_regions_modified);
        append_copy(&mut self.fill_sheets_modified, &other.fill_sheets_modified);
        append_copy(&mut self.border_sheets_modified, &other.border_sheets_modified);
        append_copy(&mut self.code_cells_modified, &other.code_cells_modified);
        self.sheet_list_modified = self.sheet_list_modified || other.sheet_list_modified;
        self.generate_thumbnail = self.generate_thumbnail || other.generate_thumbnail;
        unite_ids(&mut self.html, &other.html);
        self.save = self.save || other.save;
        if other.transaction_id.is_some() {
            self.transaction_id = other.transaction_id;
        }
        if other.operations.is_some() {
            self.operations = other.operations;
        }
        if other.request_transactions.is_some() {
            self.request_transactions = other.request_transactions;
        }
        if other.cursor.is_some() {
            self.cursor = other.cursor;
        }
    }
}

impl Default for TransactionSummary {
    fn default() -> (s: TransactionSummary)
        ensures
            s@ == SummaryView::empty(),
    {
        TransactionSummary::new()
    }
}

} // verus!
