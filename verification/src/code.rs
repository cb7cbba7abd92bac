//! Code cells: the source of a cell that is computed, and the output of its
//! last run.

use vstd::prelude::*;
use crate::ids::CellRef;
use crate::values::{
    ArraySize, BasicValue, BasicValueView, CellValue, CellValueView, FormulaError,
    FormulaErrorView,
};
use crate::sheet::{opt_view, duplicate_opt};

verus! {

/// The language a code cell is written in.
#[derive(Debug, Clone, Copy, PartialEq, Eq, Hash, Structural)]
pub enum CodeCellLanguage {
    Python,
    Formula,
    JavaScript,
    Sql,
}

/// Mathematical model of an [`OutputArray`].
pub ghost struct OutputArrayView {
    pub size: ArraySize,
    pub values: Seq<BasicValueView>,
}

impl OutputArrayView {
    /// The size is valid and there is one value per element.
    pub open spec fn wf(self) -> bool {
        self.size.wf() && self.values.len() == self.size.spec_len()
    }
}

/// The array that a code run computed: plain values, row by row.
#[derive(Debug, Clone, PartialEq, Eq)]
pub struct OutputArray {
    size: ArraySize,
    values: Vec<BasicValue>,
}

/// The models of a sequence of plain values, element by element.
pub open spec fn basic_values_view(s: Seq<BasicValue>) -> Seq<BasicValueView> {
    Seq::new(s.len(), |i: int| s[i]@)
}

impl View for OutputArray {
    type V = OutputArrayView;

    closed spec fn view(&self) -> OutputArrayView {
        OutputArrayView { size: self.size, values: basic_values_view(self.values@) }
    }
}

impl OutputArray {
    /// The array holds exactly `w * h` values and neither side is zero.
    pub open spec fn wf(self) -> bool {
        self@.wf()
    }

    /// The array of the given size over `values`, taken row by row; `None`
    /// unless the size is valid and there is exactly one value per element.
    pub fn from_row_major(size: ArraySize, values: Vec<BasicValue>) -> (r: Option<OutputArray>)
        ensures
            r is Some <==> size.wf() && values.len() == size.spec_len(),
            r is Some ==> r->Some_0@ == (OutputArrayView {
                size,
                values: basic_values_view(values@),
            }) && r->Some_0.wf(),
    {
        if size.w == 0 || size.h == 0 {
            return None;
        }
        let n: u64 = size.len();
        if values.len() as u64 != n {
            return None;
        }
        Some(OutputArray { size, values })
    }

    /// Width and height.
    pub fn size(&self) -> (s: ArraySize)
        ensures
            s == self@.size,
    {
        self.size
    }

    /// The values, row by row.
    pub fn values(&self) -> (v: &Vec<BasicValue>)
        ensures
            basic_values_view(v@) == self@.values,
    {
        &self.values
    }

    /// The value at column `x`, row `y`, or `None` outside the array.
    pub fn get(&self, x: u32, y: u32) -> (r: Option<&BasicValue>)
        requires
            self.wf(),
        ensures
            r is Some <==> x < self@.size.w && y < self@.size.h,
            r is Some ==> r->Some_0@ == self@.values[y * self@.size.w + x],
    {
        if x < self.size.w && y < self.size.h {
            let w: u64 = self.size.w as u64;
            let xx: u64 = x as u64;
            let yy: u64 = y as u64;
            assert(0 <= yy * w && yy * w + xx < self.size.w * self.size.h && yy * w + xx == y
                * self.size.w + x) by (nonlinear_arith)
                requires
                    0 <= x < self.size.w,
                    0 <= y < self.size.h,
                    w == self.size.w,
                    xx == x,
                    yy == y,
            ;
            let n: usize = self.values.len();
            assert(n == self.size.w * self.size.h);
            let i: u64 = yy * w + xx;
            Some(&self.values[i as usize])
        } else {
            None
        }
    }

    /// A copy with the same model.
    pub fn duplicate(&self) -> (r: OutputArray)
        ensures
            r@ == self@,
    {
        let mut out: Vec<BasicValue> = Vec::new();
        let mut i: usize = 0;
        while i < self.values.len()
            invariant
                i <= self.values.len(),
                out.len() == i,
                forall|k: int| 0 <= k < i ==> out@[k]@ == self.values@[k]@,
            decreases self.values.len() - i,
        {
            out.push(self.values[i].duplicate());
            i += 1;
        }
        assert(basic_values_view(out@) =~= basic_values_view(self.values@));
        OutputArray { size: self.size, values: out }
    }
}

/// What a code run computed: one value or an array of values.
#[derive(Debug, Clone, PartialEq, Eq)]
pub enum Value {
    Single(BasicValue),
    Array(OutputArray),
}

/// Mathematical model of a [`Value`].
pub ghost enum ValueView {
    Single(BasicValueView),
    Array(OutputArrayView),
}

impl View for Value {
    type V = ValueView;

    open spec fn view(&self) -> ValueView {
        match self {
            Value::Single(v) => ValueView::Single(v@),
            Value::Array(a) => ValueView::Array(a@),
        }
    }
}

impl Value {
    /// An array value holds one value per element.
    pub open spec fn wf(self) -> bool {
        match self {
            Value::Single(_) => true,
            Value::Array(a) => a.wf(),
        }
    }

    /// A copy with the same model.
    pub fn duplicate(&self) -> (r: Value)
        ensures
            r@ == self@,
    {
        match self {
            Value::Single(v) => Value::Single(v.duplicate()),
            Value::Array(a) => Value::Array(a.duplicate()),
        }
    }
}

impl ValueView {
    /// An array value holds one value per element.
    pub open spec fn wf(self) -> bool {
        match self {
            ValueView::Single(_) => true,
            ValueView::Array(a) => a.wf(),
        }
    }

    /// What the cell at column `x`, row `y` of the output shows: a single
    /// value shows in every cell, an array shows its element, and nothing is
    /// shown outside the array.
    pub open spec fn cell(self, x: int, y: int) -> Option<CellValueView> {
        match self {
            ValueView::Single(v) => Some(v.as_cell_value()),
            ValueView::Array(a) => if 0 <= x < a.size.w && 0 <= y < a.size.h {
                Some(a.values[y * a.size.w + x].as_cell_value())
            } else {
                None
            },
        }
    }

    /// The size of the output: that of an array, one by one for a single
    /// value.
    pub open spec fn size(self) -> ArraySize {
        match self {
            ValueView::Single(_) => ArraySize { w: 1, h: 1 },
            ValueView::Array(a) => a.size,
        }
    }
}

/// How a code run ended.
#[derive(Debug, Clone, PartialEq, Eq)]
pub enum CodeCellRunResult {
    /// The run succeeded: its value, and the cells it read.
    Success { output_value: Value, cells_accessed: Vec<CellRef> },
    /// The run failed.
    Failure { error: FormulaError },
}

/// Mathematical model of a [`CodeCellRunResult`].
pub ghost enum CodeCellRunResultView {
    Success { output_value: ValueView, cells_accessed: Seq<CellRef> },
    Failure { error: FormulaErrorView },
}

impl View for CodeCellRunResult {
    type V = CodeCellRunResultView;

    open spec fn view(&self) -> CodeCellRunResultView {
        match self {
            CodeCellRunResult::Success { output_value, cells_accessed } => CodeCellRunResultView::Success {
                output_value: output_value@,
                cells_accessed: cells_accessed@,
            },
            CodeCellRunResult::Failure { error } => CodeCellRunResultView::Failure { error: error@ },
        }
    }
}

impl CodeCellRunResultView {
    /// The value of a run that succeeded.
    pub open spec fn output_value(self) -> Option<ValueView> {
        match self {
            CodeCellRunResultView::Success { output_value, .. } => Some(output_value),
            CodeCellRunResultView::Failure { .. } => None,
        }
    }
}

impl CodeCellRunResult {
    /// The value of the run is well formed, if there is one.
    pub open spec fn wf(self) -> bool {
        match self {
            CodeCellRunResult::Success { output_value, .. } => output_value.wf(),
            CodeCellRunResult::Failure { .. } => true,
        }
    }

    /// Returns the value (single cell or array) outputted by the code run if
    /// it succeeded, or `None` if it failed.
    pub fn output_value(&self) -> (r: Option<&Value>)
        ensures
            r is Some <==> self@ is Success,
            r is Some ==> *r->Some_0 == self->Success_output_value,
            r is Some ==> r->Some_0@ == self@->Success_output_value,
    {
        match self {
            CodeCellRunResult::Success { output_value, .. } => Some(output_value),
            CodeCellRunResult::Failure { .. } => None,
        }
    }

    /// Returns whether the code cell run succeeded.
    pub fn is_ok(&self) -> (b: bool)
        ensures
            b == (self@ is Success),
    {
        match self {
            CodeCellRunResult::Success { .. } => true,
            CodeCellRunResult::Failure { .. } => false,
        }
    }

    /// A copy with the same model.
    pub fn duplicate(&self) -> (r: CodeCellRunResult)
        ensures
            r@ == self@,
    {
        match self {
            CodeCellRunResult::Success { output_value, cells_accessed } => {
                let mut cells: Vec<CellRef> = Vec::new();
                let mut i: usize = 0;
                while i < cells_accessed.len()
                    invariant
                        i <= cells_accessed.len(),
                        cells@ == cells_accessed@.take(i as int),
                    decreases cells_accessed.len() - i,
                {
                    cells.push(cells_accessed[i]);
                    i += 1;
                }
                assert(cells@ =~= cells_accessed@);
                CodeCellRunResult::Success { output_value: output_value.duplicate(), cells_accessed: cells }
            },
            CodeCellRunResult::Failure { error } => CodeCellRunResult::Failure { error: error.duplicate() },
        }
    }
}

/// The output of the last run of a code cell.
#[derive(Debug, Clone, PartialEq, Eq)]
pub struct CodeCellRunOutput {
    pub std_out: Option<String>,
    pub std_err: Option<String>,
    pub result: CodeCellRunResult,
}

/// Mathematical model of a [`CodeCellRunOutput`].
pub ghost struct CodeCellRunOutputView {
    pub std_out: Option<Seq<char>>,
    pub std_err: Option<Seq<char>>,
    pub result: CodeCellRunResultView,
}

impl View for CodeCellRunOutput {
    type V = CodeCellRunOutputView;

    open spec fn view(&self) -> CodeCellRunOutputView {
        CodeCellRunOutputView {
            std_out: opt_view(self.std_out),
            std_err: opt_view(self.std_err),
            result: self.result@,
        }
    }
}

impl CodeCellRunOutput {
    /// Returns the value (single cell or array) outputted by the code run if
    /// it succeeded, or `None` if it failed.
    pub fn output_value(&self) -> (r: Option<&Value>)
        ensures
            r is Some <==> self@.result is Success,
            r is Some ==> *r->Some_0 == self.result->Success_output_value,
            r is Some ==> r->Some_0@ == self@.result->Success_output_value,
    {
        self.result.output_value()
    }

    /// A copy with the same model.
    pub fn duplicate(&self) -> (r: CodeCellRunOutput)
        ensures
            r@ == self@,
    {
        CodeCellRunOutput {
            std_out: duplicate_opt(&self.std_out),
            std_err: duplicate_opt(&self.std_err),
            result: self.result.duplicate(),
        }
    }
}

/// A code cell: its language, its source, when it was last changed, and the
/// output of its last run, if it has run.
#[derive(Debug, Clone, PartialEq, Eq)]
pub struct CodeCellValue {
    pub language: CodeCellLanguage,
    pub code_string: String,
    pub formatted_code_string: Option<String>,
    pub last_modified: String,
    pub output: Option<CodeCellRunOutput>,
}

/// Mathematical model of a [`CodeCellValue`].
pub ghost struct CodeCellValueView {
    pub language: CodeCellLanguage,
    pub code_string: Seq<char>,
    pub formatted_code_string: Option<Seq<char>>,
    pub last_modified: Seq<char>,
    pub output: Option<CodeCellRunOutputView>,
}

impl CodeCellValueView {
    /// The value of the last run, if the cell has run and the run succeeded.
    pub open spec fn output_value(self) -> Option<ValueView> {
        match self.output {
            Some(out) => out.result.output_value(),
            None => None,
        }
    }
}

impl CodeCellValueView {
    /// What the output shows in the code cell itself: the single value or the
    /// first value of the array, blank if there is no output.
    pub open spec fn first_output(self) -> BasicValueView {
        match self.output_value() {
            Some(ValueView::Single(v)) => v,
            Some(ValueView::Array(a)) => a.values[0],
            None => BasicValueView::Blank,
        }
    }
}

impl View for CodeCellValue {
    type V = CodeCellValueView;

    open spec fn view(&self) -> CodeCellValueView {
        CodeCellValueView {
            language: self.language,
            code_string: self.code_string@,
            formatted_code_string: opt_view(self.formatted_code_string),
            last_modified: self.last_modified@,
            output: match self.output {
                Some(out) => Some(out@),
                None => None,
            },
        }
    }
}

impl CodeCellValue {
    /// The value of the last run is well formed, if there is one.
    pub open spec fn wf(self) -> bool {
        match self.output {
            Some(out) => out.result.wf(),
            None => true,
        }
    }

    /// What the cell at column `x`, row `y` of the output shows: `None` if the
    /// cell has not run or the run failed, or outside the array it computed.
    pub fn get_output_value(&self, x: u32, y: u32) -> (r: Option<CellValue>)
        requires
            self.wf(),
        ensures
            r is Some <==> self@.output_value() is Some && self@.output_value()->Some_0.cell(
                x as int,
                y as int,
            ) is Some,
            r is Some ==> r->Some_0@ == self@.output_value()->Some_0.cell(x as int, y as int)->Some_0,
    {
        let out: &CodeCellRunOutput = match &self.output {
            Some(out) => out,
            None => {
                return None;
            },
        };
        match out.output_value() {
            Some(Value::Single(v)) => Some(v.duplicate().into_cell_value()),
            Some(Value::Array(a)) => match a.get(x, y) {
                Some(v) => Some(v.duplicate().into_cell_value()),
                None => None,
            },
            None => None,
        }
    }

    /// What the output shows in the code cell itself; see
    /// [`CodeCellValueView::first_output`].
    pub fn first_output(&self) -> (r: BasicValue)
        requires
            self.wf(),
        ensures
            r@ == self@.first_output(),
    {
        let value: Option<&Value> = match &self.output {
            Some(out) => out.output_value(),
            None => None,
        };
        match value {
            Some(Value::Single(v)) => v.duplicate(),
            Some(Value::Array(a)) => match a.get(0, 0) {
                Some(v) => v.duplicate(),
                None => BasicValue::Blank,
            },
            None => BasicValue::Blank,
        }
    }

    /// The size of the output: that of the array the last run computed, and
    /// one by one in every other case.
    pub fn output_size(&self) -> (s: ArraySize)
        ensures
            s == match self@.output_value() {
                Some(v) => v.size(),
                None => ArraySize { w: 1, h: 1 },
            },
    {
        let value: Option<&Value> = match &self.output {
            Some(out) => out.output_value(),
            None => None,
        };
        match value {
            Some(Value::Array(a)) => a.size(),
            _ => ArraySize::one_by_one(),
        }
    }

    /// A copy with the same model.
    pub fn duplicate(&self) -> (r: CodeCellValue)
        ensures
            r@ == self@,
    {
        CodeCellValue {
            language: self.language,
            code_string: self.code_string.clone(),
            formatted_code_string: duplicate_opt(&self.formatted_code_string),
            last_modified: self.last_modified.clone(),
            output: match &self.output {
                Some(out) => Some(out.duplicate()),
                None => None,
            },
        }
    }
}

} // verus!
