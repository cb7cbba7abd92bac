//! Records handed to the renderer.

use vstd::prelude::*;
use crate::values::CellValue;

verus! {

/// Horizontal alignment of a cell's text.
#[derive(Debug, Clone, Copy, PartialEq, Eq, Hash, Structural)]
pub enum CellAlign {
    Center,
    Left,
    Right,
}

/// What happens to text that is wider than its cell.
#[derive(Debug, Clone, Copy, PartialEq, Eq, Hash, Structural)]
pub enum CellWrap {
    Overflow,
    Wrap,
    Clip,
}

/// How a number is shown.
#[derive(Debug, Clone, Copy, PartialEq, Eq, Hash, Structural)]
pub enum NumericFormatKind {
    Number,
    Currency,
    Percentage,
    Exponential,
}

/// The format of a number, with the currency symbol where it has one.
#[derive(Debug, Clone, PartialEq, Eq)]
pub struct NumericFormat {
    pub kind: NumericFormatKind,
    pub symbol: Option<String>,
}

/// The line of a border.
#[derive(Debug, Clone, Copy, PartialEq, Eq, Hash, Structural)]
pub enum CellBorderStyle {
    Line1,
    Line2,
    Line3,
    Dotted,
    Dashed,
    Double,
}

/// One border of a cell.
#[derive(Debug, Clone, PartialEq, Eq)]
pub struct CellBorder {
    pub color: Option<String>,
    pub style: Option<CellBorderStyle>,
}

/// Whether a flag is set on some cells of a region, and unset on some.
#[derive(Debug, Clone, Copy, PartialEq, Eq, Structural)]
pub struct BoolSummary {
    pub is_any_true: bool,
    pub is_any_false: bool,
}

/// One cell as the renderer draws it.
#[derive(Debug, Clone)]
pub struct JsRenderCell {
    pub x: i64,
    pub y: i64,
    pub align: Option<CellAlign>,
    pub wrap: Option<CellWrap>,
    pub numeric_format: Option<NumericFormat>,
    pub bold: Option<bool>,
    pub italic: Option<bool>,
    pub text_color: Option<String>,
    pub fill_color: Option<String>,
    pub value: CellValue,
}

/// A filled rectangle as the renderer draws it.
#[derive(Debug, Clone)]
pub struct JsRenderFill {
    pub x: i64,
    pub y: i64,
    pub w: u32,
    pub h: u32,
    pub color: String,
}

/// A border line as the renderer draws it.
#[derive(Debug, Clone)]
pub struct JsRenderBorder {
    pub x: i64,
    pub y: i64,
    pub w: Option<usize>,
    pub h: Option<usize>,
    pub style: CellBorder,
}

/// Summary of the text formats of a region.
#[derive(Debug, Clone, PartialEq, Eq)]
pub struct JsFormattingSummary {
    pub bold: BoolSummary,
    pub italic: BoolSummary,
}

} // verus!
