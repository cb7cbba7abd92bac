//! Cell values and dense row-major arrays of them.

use vstd::prelude::*;
use crate::code::{CodeCellValue, CodeCellValueView};

verus! {

/// Fixed-point decimal number: `unscaled * 10^(-scale)`.
#[derive(Debug, Clone, Copy, PartialEq, Eq, Hash, Structural)]
pub struct Decimal {
    pub unscaled: i64,
    pub scale: u32,
}

/// A point in time, in whole seconds since the Unix epoch.
#[derive(Debug, Clone, Copy, PartialEq, Eq, Hash, Structural)]
pub struct Instant {
    pub seconds: i64,
}

/// A length of time: calendar months plus whole seconds.
#[derive(Debug, Clone, Copy, PartialEq, Eq, Hash, Structural)]
pub struct Duration {
    pub months: i32,
    pub seconds: i64,
}

/// One of the two directions of an array.
#[derive(Debug, Clone, Copy, PartialEq, Eq, Hash, Structural)]
pub enum Axis {
    /// Across the columns.
    X,
    /// Down the rows.
    Y,
}

/// An error that formula evaluation left in a cell.
#[derive(Debug, Clone, PartialEq, Eq)]
pub enum FormulaError {
    /// The cell's formula reads the cell itself.
    CircularReference,
    /// Two arrays that should be combined differ in length along an axis, and
    /// neither length is one.
    ArrayAxisMismatch { axis: Axis, expected: u32, got: u32 },
    /// Evaluation failed; the text says why.
    Evaluation(String),
}

/// Mathematical model of a [`FormulaError`].
pub ghost enum FormulaErrorView {
    CircularReference,
    ArrayAxisMismatch { axis: Axis, expected: u32, got: u32 },
    Evaluation(Seq<char>),
}

impl View for FormulaError {
    type V = FormulaErrorView;

    open spec fn view(&self) -> FormulaErrorView {
        match self {
            FormulaError::CircularReference => FormulaErrorView::CircularReference,
            FormulaError::ArrayAxisMismatch { axis, expected, got } => {
                FormulaErrorView::ArrayAxisMismatch { axis: *axis, expected: *expected, got: *got }
            },
            FormulaError::Evaluation(s) => FormulaErrorView::Evaluation(s@),
        }
    }
}

impl FormulaError {
    /// A copy with the same model.
    pub fn duplicate(&self) -> (r: FormulaError)
        ensures
            r@ == self@,
    {
        match self {
            FormulaError::CircularReference => FormulaError::CircularReference,
            FormulaError::ArrayAxisMismatch { axis, expected, got } => {
                FormulaError::ArrayAxisMismatch { axis: *axis, expected: *expected, got: *got }
            },
            FormulaError::Evaluation(s) => FormulaError::Evaluation(s.clone()),
        }
    }
}

/// A plain value: what a formula or a code run computes for one cell.
#[derive(Debug, Clone, PartialEq, Eq)]
pub enum BasicValue {
    /// Nothing.
    Blank,
    Text(String),
    Number(Decimal),
    Logical(bool),
    Instant(Instant),
    Duration(Duration),
    Error(FormulaError),
}

/// Mathematical model of a [`BasicValue`].
pub ghost enum BasicValueView {
    Blank,
    Text(Seq<char>),
    Number(Decimal),
    Logical(bool),
    Instant(Instant),
    Duration(Duration),
    Error(FormulaErrorView),
}

impl View for BasicValue {
    type V = BasicValueView;

    open spec fn view(&self) -> BasicValueView {
        match self {
            BasicValue::Blank => BasicValueView::Blank,
            BasicValue::Text(s) => BasicValueView::Text(s@),
            BasicValue::Number(d) => BasicValueView::Number(*d),
            BasicValue::Logical(b) => BasicValueView::Logical(*b),
            BasicValue::Instant(i) => BasicValueView::Instant(*i),
            BasicValue::Duration(d) => BasicValueView::Duration(*d),
            BasicValue::Error(e) => BasicValueView::Error(e@),
        }
    }
}

impl BasicValueView {
    /// The same value as the contents of a cell.
    pub open spec fn as_cell_value(self) -> CellValueView {
        match self {
            BasicValueView::Blank => CellValueView::Blank,
            BasicValueView::Text(s) => CellValueView::Text(s),
            BasicValueView::Number(d) => CellValueView::Number(d),
            BasicValueView::Logical(b) => CellValueView::Logical(b),
            BasicValueView::Instant(i) => CellValueView::Instant(i),
            BasicValueView::Duration(d) => CellValueView::Duration(d),
            BasicValueView::Error(e) => CellValueView::Error(e),
        }
    }
}

impl BasicValue {
    /// A copy with the same model.
    pub fn duplicate(&self) -> (r: BasicValue)
        ensures
            r@ == self@,
    {
        match self {
            BasicValue::Blank => BasicValue::Blank,
            BasicValue::Text(s) => BasicValue::Text(s.clone()),
            BasicValue::Number(d) => BasicValue::Number(*d),
            BasicValue::Logical(b) => BasicValue::Logical(*b),
            BasicValue::Instant(i) => BasicValue::Instant(*i),
            BasicValue::Duration(d) => BasicValue::Duration(*d),
            BasicValue::Error(e) => BasicValue::Error(e.duplicate()),
        }
    }

    /// The same value as the contents of a cell.
    pub fn into_cell_value(self) -> (r: CellValue)
        ensures
            r@ == self@.as_cell_value(),
    {
        match self {
            BasicValue::Blank => CellValue::Blank,
            BasicValue::Text(s) => CellValue::Text(s),
            BasicValue::Number(d) => CellValue::Number(d),
            BasicValue::Logical(b) => CellValue::Logical(b),
            BasicValue::Instant(i) => CellValue::Instant(i),
            BasicValue::Duration(d) => CellValue::Duration(d),
            BasicValue::Error(e) => CellValue::Error(e),
        }
    }
}

/// The contents of one cell.
#[derive(Debug, Clone, PartialEq, Eq)]
pub enum CellValue {
    /// Nothing: what an absent cell reads as.
    Blank,
    Text(String),
    Number(Decimal),
    Logical(bool),
    Instant(Instant),
    Duration(Duration),
    Error(FormulaError),
    /// A code cell: its source and, once it has run, its output.
    Code(CodeCellValue),
}

/// Mathematical model of a [`CellValue`].
pub ghost enum CellValueView {
    Blank,
    Text(Seq<char>),
    Number(Decimal),
    Logical(bool),
    Instant(Instant),
    Duration(Duration),
    Error(FormulaErrorView),
    Code(CodeCellValueView),
}

impl View for CellValue {
    type V = CellValueView;

    open spec fn view(&self) -> CellValueView {
        match self {
            CellValue::Blank => CellValueView::Blank,
            CellValue::Text(s) => CellValueView::Text(s@),
            CellValue::Number(d) => CellValueView::Number(*d),
            CellValue::Logical(b) => CellValueView::Logical(*b),
            CellValue::Instant(i) => CellValueView::Instant(*i),
            CellValue::Duration(d) => CellValueView::Duration(*d),
            CellValue::Error(e) => CellValueView::Error(e@),
            CellValue::Code(c) => CellValueView::Code(c@),
        }
    }
}

impl CellValueView {
    /// The plain value that a formula reads from the cell: the value itself,
    /// and for a code cell what its output shows in the cell, or blank if it
    /// has no output.
    pub open spec fn as_basic_value(self) -> BasicValueView {
        match self {
            CellValueView::Blank => BasicValueView::Blank,
            CellValueView::Text(s) => BasicValueView::Text(s),
            CellValueView::Number(d) => BasicValueView::Number(d),
            CellValueView::Logical(b) => BasicValueView::Logical(b),
            CellValueView::Instant(i) => BasicValueView::Instant(i),
            CellValueView::Duration(d) => BasicValueView::Duration(d),
            CellValueView::Error(e) => BasicValueView::Error(e),
            CellValueView::Code(c) => c.first_output(),
        }
    }
}

impl CellValue {
    /// The output of a code cell is well formed.
    pub open spec fn wf(self) -> bool {
        match self {
            CellValue::Code(c) => c.wf(),
            _ => true,
        }
    }

    /// The plain value that a formula reads from the cell; see
    /// [`CellValueView::as_basic_value`].
    pub fn into_basic_value(self) -> (r: BasicValue)
        requires
            self.wf(),
        ensures
            r@ == self@.as_basic_value(),
    {
        match self {
            CellValue::Blank => BasicValue::Blank,
            CellValue::Text(s) => BasicValue::Text(s),
            CellValue::Number(d) => BasicValue::Number(d),
            CellValue::Logical(b) => BasicValue::Logical(b),
            CellValue::Instant(i) => BasicValue::Instant(i),
            CellValue::Duration(d) => BasicValue::Duration(d),
            CellValue::Error(e) => BasicValue::Error(e),
            CellValue::Code(c) => c.first_output(),
        }
    }

    /// A copy with the same model.
    pub fn duplicate(&self) -> (r: CellValue)
        ensures
            r@ == self@,
    {
        match self {
            CellValue::Blank => CellValue::Blank,
            CellValue::Text(s) => CellValue::Text(s.clone()),
            CellValue::Number(d) => CellValue::Number(*d),
            CellValue::Logical(b) => CellValue::Logical(*b),
            CellValue::Instant(i) => CellValue::Instant(*i),
            CellValue::Duration(d) => CellValue::Duration(*d),
            CellValue::Error(e) => CellValue::Error(e.duplicate()),
            CellValue::Code(c) => CellValue::Code(c.duplicate()),
        }
    }

    /// Whether the value is `Blank`.
    pub fn is_blank(&self) -> (b: bool)
        ensures
            b == (self@ == CellValueView::Blank),
    {
        match self {
            CellValue::Blank => true,
            _ => false,
        }
    }

    /// The text cell holding `s`.
    pub fn text(s: &str) -> (r: CellValue)
        ensures
            r@ == CellValueView::Text(s@),
    {
        CellValue::Text(s.to_owned())
    }
}

/// The models of a sequence of cell values, element by element.
pub open spec fn values_view(s: Seq<CellValue>) -> Seq<CellValueView> {
    Seq::new(s.len(), |i: int| s[i]@)
}

/// Copies a vector of cell values, keeping every model.
pub fn duplicate_values(values: &Vec<CellValue>) -> (r: Vec<CellValue>)
    ensures
        values_view(r@) == values_view(values@),
{
    let mut out: Vec<CellValue> = Vec::new();
    let mut i: usize = 0;
    while i < values.len()
        invariant
            i <= values.len(),
            out.len() == i,
            forall|k: int| 0 <= k < i ==> out@[k]@ == values@[k]@,
        decreases values.len() - i,
    {
        out.push(values[i].duplicate());
        i += 1;
    }
    assert(values_view(out@) =~= values_view(values@));
    out
}

/// Width and height of an array; neither is zero.
#[derive(Debug, Clone, Copy, PartialEq, Eq, Hash, Structural)]
pub struct ArraySize {
    pub w: u32,
    pub h: u32,
}

impl ArraySize {
    /// Neither side is zero.
    pub open spec fn wf(self) -> bool {
        self.w > 0 && self.h > 0
    }

    /// Number of elements: `w * h`.
    pub open spec fn spec_len(self) -> nat {
        (self.w * self.h) as nat
    }

    /// The size `w` by `h`, or `None` if either is zero.
    pub fn new(w: u32, h: u32) -> (r: Option<ArraySize>)
        ensures
            r is Some <==> w > 0 && h > 0,
            r is Some ==> r->Some_0 == (ArraySize { w, h }),
    {
        if w > 0 && h > 0 {
            Some(ArraySize { w, h })
        } else {
            None
        }
    }

    /// The size of a single cell.
    pub fn one_by_one() -> (r: ArraySize)
        ensures
            r == (ArraySize { w: 1, h: 1 }),
    {
        ArraySize { w: 1, h: 1 }
    }

    /// Number of elements in the array.
    pub fn len(self) -> (n: u64)
        ensures
            n == self.spec_len(),
    {
        assert(self.w * self.h <= 0xffff_ffff * 0xffff_ffff) by (nonlinear_arith)
            requires
                0 <= self.w <= 0xffff_ffff,
                0 <= self.h <= 0xffff_ffff,
        ;
        (self.w as u64) * (self.h as u64)
    }
}

/// Mathematical model of an [`Array`]: its size and its values, row by row.
pub ghost struct ArrayView {
    pub size: ArraySize,
    pub values: Seq<CellValueView>,
}

impl ArrayView {
    /// The size is valid and there is one value per element.
    pub open spec fn wf(self) -> bool {
        self.size.wf() && self.values.len() == self.size.spec_len()
    }

    /// The value at column `x`, row `y`.
    pub open spec fn at(self, x: int, y: int) -> CellValueView {
        self.values[y * self.size.w + x]
    }
}

/// Dense 2-D buffer of cell values in row-major order.
#[derive(Debug, Clone, PartialEq, Eq)]
pub struct Array {
    size: ArraySize,
    values: Vec<CellValue>,
}

impl View for Array {
    type V = ArrayView;

    closed spec fn view(&self) -> ArrayView {
        ArrayView { size: self.size, values: values_view(self.values@) }
    }
}

impl Array {
    /// The array holds exactly `w * h` values and neither side is zero.
    pub open spec fn wf(self) -> bool {
        self@.wf()
    }

    /// An array of the given size in which every value is `Blank`.
    pub fn new_empty(size: ArraySize) -> (a: Array)
        requires
            size.wf(),
            size.spec_len() <= usize::MAX,
        ensures
            a.wf(),
            a@.size == size,
            forall|i: int| 0 <= i < size.spec_len() ==> a@.values[i] == CellValueView::Blank,
    {
        let n: u64 = size.len();
        let mut values: Vec<CellValue> = Vec::new();
        let mut i: u64 = 0;
        while i < n
            invariant
                i <= n,
                values.len() == i,
                forall|k: int| 0 <= k < i ==> values@[k]@ == CellValueView::Blank,
            decreases n - i,
        {
            values.push(CellValue::Blank);
            i += 1;
        }
        Array { size, values }
    }

    /// The array of the given size over `values`, taken row by row; `None`
    /// unless the size is valid and there is exactly one value per element.
    pub fn from_row_major(size: ArraySize, values: Vec<CellValue>) -> (r: Option<Array>)
        ensures
            r is Some <==> size.wf() && values.len() == size.spec_len(),
            r is Some ==> r->Some_0@ == (ArrayView { size, values: values_view(values@) }),
            r is Some ==> r->Some_0.wf(),
    {
        if size.w == 0 || size.h == 0 {
            return None;
        }
        let n: u64 = size.len();
        if values.len() as u64 != n {
            return None;
        }
        Some(Array { size, values })
    }

    /// The one-by-one array that holds `value`.
    pub fn from_value(value: CellValue) -> (a: Array)
        ensures
            a.wf(),
            a@ == (ArrayView { size: ArraySize { w: 1, h: 1 }, values: seq![value@] }),
    {
        let mut values: Vec<CellValue> = Vec::new();
        values.push(value);
        let a = Array { size: ArraySize { w: 1, h: 1 }, values };
        assert(a@.values =~= seq![value@]);
        a
    }

    /// Number of columns.
    pub fn width(&self) -> (w: u32)
        ensures
            w == self@.size.w,
    {
        self.size.w
    }

    /// Number of rows.
    pub fn height(&self) -> (h: u32)
        ensures
            h == self@.size.h,
    {
        self.size.h
    }

    /// Width and height.
    pub fn size(&self) -> (s: ArraySize)
        ensures
            s == self@.size,
    {
        self.size
    }

    /// The value at column `x`, row `y`, or `None` outside the array.
    pub fn get(&self, x: u32, y: u32) -> (r: Option<&CellValue>)
        requires
            self.wf(),
        ensures
            r is Some <==> x < self@.size.w && y < self@.size.h,
            r is Some ==> r->Some_0@ == self@.at(x as int, y as int),
    {
        if x < self.size.w && y < self.size.h {
            let w: u64 = self.size.w as u64;
            let xx: u64 = x as u64;
            let yy: u64 = y as u64;
            assert(0 <= yy * w && yy * w + xx < self.size.w * self.size.h && yy * w + xx == y
                * self.size.w + x) by (nonlinear_arith)
                requires
                    0 <= x < self.size.w,
                    0 <= y < self.size.h,
                    w == self.size.w,
                    xx == x,
                    yy == y,
            ;
            let n: usize = self.values.len();
            assert(n == self.size.w * self.size.h);
            let i: u64 = yy * w + xx;
            Some(&self.values[i as usize])
        } else {
            None
        }
    }

    /// The values, row by row.
    pub fn cell_values(&self) -> (v: &Vec<CellValue>)
        ensures
            values_view(v@) == self@.values,
    {
        &self.values
    }

    /// The values, row by row.
    pub fn into_cell_values_vec(self) -> (v: Vec<CellValue>)
        ensures
            values_view(v@) == self@.values,
    {
        self.values
    }

    /// A copy with the same model.
    pub fn duplicate(&self) -> (r: Array)
        ensures
            r@ == self@,
    {
        Array { size: self.size, values: duplicate_values(&self.values) }
    }
}

} // verus!
