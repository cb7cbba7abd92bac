//! Stable identifiers: sheets, columns, rows, and the durable cell and region
//! references built from them.

use vstd::prelude::*;
use crate::position::Pos;
use crate::values::ArraySize;

verus! {

/// Identifier of a sheet: the 128 bits of a UUID.
#[derive(Debug, Clone, Copy, PartialEq, Eq, Hash, PartialOrd, Ord, Structural)]
pub struct SheetId {
    pub id: u128,
}

/// Identifier of a transaction: the 128 bits of a UUID.
#[derive(Debug, Clone, Copy, PartialEq, Eq, Hash, PartialOrd, Ord, Structural)]
pub struct TransactionId {
    pub id: u128,
}

/// Asks `uuid::Uuid::new_v4` for a random UUID and hands back its 128 bits
/// (`Uuid::as_u128`). Nothing is proved of it; the contract says what `new_v4`
/// fixes in every UUID it makes: the version digit is 4 and the variant bits
/// are `10`.
#[verifier::external_body]
fn random_uuid_bits() -> (r: u128)
    ensures
        is_random_uuid(r),
{
    uuid::Uuid::new_v4().as_u128()
}

/// Whether the 128 bits are those of a UUID of version 4: the version digit
/// is 4 and the variant bits are `10`.
pub open spec fn is_random_uuid(bits: u128) -> bool {
    bits & 0xf000_c000_0000_0000_0000 == 0x4000_8000_0000_0000_0000
}

impl SheetId {
    /// A sheet id made from a fresh random UUID. Which one is not known; two
    /// calls may, with negligible probability, give the same id.
    pub fn new() -> (r: SheetId)
        ensures
            is_random_uuid(r.id),
    {
        SheetId { id: random_uuid_bits() }
    }
}

impl TransactionId {
    /// A transaction id made from a fresh random UUID.
    pub fn new() -> (r: TransactionId)
        ensures
            is_random_uuid(r.id),
    {
        TransactionId { id: random_uuid_bits() }
    }
}

/// Durable identifier of a column. A column keeps its id for as long as its
/// sheet lives; in this engine the id of the column at `x` holds `x`.
#[derive(Debug, Clone, Copy, PartialEq, Eq, Hash, PartialOrd, Ord, Structural)]
pub struct ColumnId {
    pub id: i64,
}

/// Durable identifier of a row; the id of the row at `y` holds `y`.
#[derive(Debug, Clone, Copy, PartialEq, Eq, Hash, PartialOrd, Ord, Structural)]
pub struct RowId {
    pub id: i64,
}

/// Durable reference to one cell.
#[derive(Debug, Clone, Copy, PartialEq, Eq, Hash, Structural)]
pub struct CellRef {
    pub sheet: SheetId,
    pub column: ColumnId,
    pub row: RowId,
}

impl CellRef {
    /// The logical position the reference names.
    pub open spec fn spec_pos(self) -> Pos {
        Pos { x: self.column.id, y: self.row.id }
    }
}

/// Mathematical model of a [`RegionRef`].
pub ghost struct RegionView {
    pub sheet: SheetId,
    pub columns: Seq<ColumnId>,
    pub rows: Seq<RowId>,
}

impl RegionView {
    /// No column id and no row id occurs twice, and each list is short enough
    /// for its length to be a side of an array.
    pub open spec fn wf(self) -> bool {
        &&& self.columns.no_duplicates()
        &&& self.rows.no_duplicates()
        &&& self.columns.len() <= u32::MAX
        &&& self.rows.len() <= u32::MAX
    }

    /// Whether the region names no cell.
    pub open spec fn is_empty(self) -> bool {
        self.columns.len() == 0 || self.rows.len() == 0
    }

    /// Number of cells: columns times rows.
    pub open spec fn len(self) -> nat {
        self.columns.len() * self.rows.len()
    }

    /// The size of the region; meaningful when it is not empty.
    pub open spec fn size(self) -> ArraySize {
        ArraySize { w: self.columns.len() as u32, h: self.rows.len() as u32 }
    }

    /// The position of the cell in column `i` of the list, row `j` of the list.
    pub open spec fn pos(self, i: int, j: int) -> Pos {
        Pos { x: self.columns[i].id, y: self.rows[j].id }
    }

    /// The `k`-th cell in row-major order: rows outside, columns inside.
    pub open spec fn cell(self, k: int) -> CellRef {
        CellRef {
            sheet: self.sheet,
            column: self.columns[k % (self.columns.len() as int)],
            row: self.rows[k / (self.columns.len() as int)],
        }
    }

    /// Whether the region names the cell at `p`.
    pub open spec fn covers(self, p: Pos) -> bool {
        self.columns.contains(ColumnId { id: p.x }) && self.rows.contains(RowId { id: p.y })
    }
}

/// Durable rectangular address: the cartesian product of a list of columns
/// and a list of rows of one sheet.
#[derive(Debug, Clone, PartialEq, Eq)]
pub struct RegionRef {
    pub sheet: SheetId,
    pub columns: Vec<ColumnId>,
    pub rows: Vec<RowId>,
}

impl View for RegionRef {
    type V = RegionView;

    open spec fn view(&self) -> RegionView {
        RegionView { sheet: self.sheet, columns: self.columns@, rows: self.rows@ }
    }
}

impl RegionRef {
    /// See [`RegionView::wf`].
    pub open spec fn wf(self) -> bool {
        self@.wf()
    }

    /// The region that holds exactly the cell `cell_ref`.
    pub fn from_cell_ref(cell_ref: CellRef) -> (r: RegionRef)
        ensures
            r.wf(),
            r@ == (RegionView {
                sheet: cell_ref.sheet,
                columns: seq![cell_ref.column],
                rows: seq![cell_ref.row],
            }),
    {
        let mut columns: Vec<ColumnId> = Vec::new();
        columns.push(cell_ref.column);
        let mut rows: Vec<RowId> = Vec::new();
        rows.push(cell_ref.row);
        assert(columns@ =~= seq![cell_ref.column]);
        assert(rows@ =~= seq![cell_ref.row]);
        RegionRef { sheet: cell_ref.sheet, columns, rows }
    }

    /// Whether the region is valid: no column id and no row id occurs twice,
    /// and neither list is longer than a `u32` can say.
    pub fn is_valid(&self) -> (r: bool)
        ensures
            r == self.wf(),
    {
        if self.columns.len() > u32::MAX as usize || self.rows.len() > u32::MAX as usize {
            return false;
        }
        let mut i: usize = 0;
        while i < self.columns.len()
            invariant
                i <= self.columns.len(),
                forall|a: int, b: int| 0 <= a < b < i ==> self.columns@[a] != self.columns@[b],
            decreases self.columns.len() - i,
        {
            let mut j: usize = 0;
            while j < i
                invariant
                    j <= i,
                    i < self.columns.len(),
                    forall|a: int| 0 <= a < j ==> self.columns@[a] != self.columns@[i as int],
                decreases i - j,
            {
                if self.columns[j] == self.columns[i] {
                    return false;
                }
                j += 1;
            }
            i += 1;
        }
        let mut i: usize = 0;
        while i < self.rows.len()
            invariant
                i <= self.rows.len(),
                self.columns@.no_duplicates(),
                forall|a: int, b: int| 0 <= a < b < i ==> self.rows@[a] != self.rows@[b],
            decreases self.rows.len() - i,
        {
            let mut j: usize = 0;
            while j < i
                invariant
                    j <= i,
                    i < self.rows.len(),
                    forall|a: int| 0 <= a < j ==> self.rows@[a] != self.rows@[i as int],
                decreases i - j,
            {
                if self.rows[j] == self.rows[i] {
                    return false;
                }
                j += 1;
            }
            i += 1;
        }
        true
    }

    /// The size of the region: `Some` only when both lists are non-empty (and
    /// each length fits a `u32`).
    pub fn size(&self) -> (r: Option<ArraySize>)
        ensures
            r is Some <==> !self@.is_empty() && self.columns.len() <= u32::MAX && self.rows.len()
                <= u32::MAX,
            r is Some ==> r->Some_0 == self@.size() && r->Some_0.wf(),
    {
        let w: usize = self.columns.len();
        let h: usize = self.rows.len();
        if w == 0 || h == 0 || w > u32::MAX as usize || h > u32::MAX as usize {
            None
        } else {
            Some(ArraySize { w: w as u32, h: h as u32 })
        }
    }

    /// The cells of the region in row-major order: every column of the first
    /// row, then every column of the second, and so on.
    pub fn cell_refs(&self) -> (r: Vec<CellRef>)
        ensures
            r.len() == self@.len(),
            forall|i: int, j: int|
                0 <= i < self.columns.len() && 0 <= j < self.rows.len() ==> #[trigger] r@[j
                    * self.columns.len() + i] == (CellRef {
                    sheet: self.sheet,
                    column: self.columns@[i],
                    row: self.rows@[j],
                }),
    {
        let mut out: Vec<CellRef> = Vec::new();
        let w: usize = self.columns.len();
        let h: usize = self.rows.len();
        let mut j: usize = 0;
        while j < h
            invariant
                j <= h,
                w == self.columns.len(),
                h == self.rows.len(),
                out.len() == j * w,
                forall|a: int, b: int|
                    0 <= a < w && 0 <= b < j ==> #[trigger] out@[b * w + a] == (CellRef {
                        sheet: self.sheet,
                        column: self.columns@[a],
                        row: self.rows@[b],
                    }),
            decreases h - j,
        {
            let mut i: usize = 0;
            while i < w
                invariant
                    i <= w,
                    j < h,
                    w == self.columns.len(),
                    h == self.rows.len(),
                    out.len() == j * w + i,
                    forall|a: int, b: int|
                        0 <= a < w && 0 <= b < j ==> #[trigger] out@[b * w + a] == (CellRef {
                            sheet: self.sheet,
                            column: self.columns@[a],
                            row: self.rows@[b],
                        }),
                    forall|a: int|
                        0 <= a < i ==> #[trigger] out@[j * w + a] == (CellRef {
                            sheet: self.sheet,
                            column: self.columns@[a],
                            row: self.rows@[j as int],
                        }),
                decreases w - i,
            {
                let ghost before = out@;
                out.push(CellRef { sheet: self.sheet, column: self.columns[i], row: self.rows[j] });
                proof {
                    assert forall|a: int, b: int| 0 <= a < w && 0 <= b < j implies #[trigger] out@[b
                        * w + a] == (CellRef {
                        sheet: self.sheet,
                        column: self.columns@[a],
                        row: self.rows@[b],
                    }) by {
                        lemma_row_major_index(a, b, w as int, j as int);
                        assert(before[b * w + a] == out@[b * w + a]);
                    }
                }
                i += 1;
            }
            proof {
                assert((j + 1) * w == j * w + w) by (nonlinear_arith);
                assert forall|a: int, b: int| 0 <= a < w && 0 <= b < j + 1 implies #[trigger] out@[b
                    * w + a] == (CellRef {
                    sheet: self.sheet,
                    column: self.columns@[a],
                    row: self.rows@[b],
                }) by {
                    if b == j {
                    }
                }
            }
            j += 1;
        }
        assert(h * w == w * h) by (nonlinear_arith);
        out
    }

    /// A copy with the same model.
    pub fn duplicate(&self) -> (r: RegionRef)
        ensures
            r@ == self@,
    {
        let mut columns: Vec<ColumnId> = Vec::new();
        let mut i: usize = 0;
        while i < self.columns.len()
            invariant
                i <= self.columns.len(),
                columns@ == self.columns@.take(i as int),
            decreases self.columns.len() - i,
        {
            columns.push(self.columns[i]);
            i += 1;
        }
        let mut rows: Vec<RowId> = Vec::new();
        let mut j: usize = 0;
        while j < self.rows.len()
            invariant
                j <= self.rows.len(),
                rows@ == self.rows@.take(j as int),
            decreases self.rows.len() - j,
        {
            rows.push(self.rows[j]);
            j += 1;
        }
        assert(columns@ =~= self.columns@);
        assert(rows@ =~= self.rows@);
        RegionRef { sheet: self.sheet, columns, rows }
    }
}

/// In a grid `w` wide, cell `(a, b)` with `b < j` lies before index `j * w`.
pub proof fn lemma_row_major_index(a: int, b: int, w: int, j: int)
    requires
        0 <= a < w,
        0 <= b < j,
    ensures
        0 <= b * w + a < j * w,
{
    assert(b * w + a < j * w) by (nonlinear_arith)
        requires
            0 <= a < w,
            0 <= b < j,
    ;
    assert(0 <= b * w) by (nonlinear_arith)
        requires
            0 <= w,
            0 <= b,
    ;
}

} // verus!
