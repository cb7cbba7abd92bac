//! What the formula evaluator needs of the grid: references that are
//! resolved against the cell being evaluated, and the rule by which a
//! function of single values is mapped over arrays.

use vstd::prelude::*;
use crate::position::Pos;
use crate::values::{ArraySize, Axis, BasicValue, BasicValueView, FormulaError, FormulaErrorView};
use crate::code::{Value, ValueView, OutputArray, basic_values_view};

verus! {

/// One coordinate of a reference in a formula.
#[derive(Debug, Clone, Copy, PartialEq, Eq, Hash, Structural)]
pub enum CellRefCoord {
    /// So many cells from the cell that holds the formula.
    Relative(i64),
    /// This column or row, wherever the formula stands.
    Absolute(i64),
}

/// A reference to a cell in a formula.
#[derive(Debug, Clone, Copy, PartialEq, Eq, Hash, Structural)]
pub struct CellRef {
    pub x: CellRefCoord,
    pub y: CellRefCoord,
}

impl CellRefCoord {
    /// The coordinate that the reference names for a formula at `base`.
    pub open spec fn spec_resolve_from(self, base: int) -> int {
        match self {
            CellRefCoord::Relative(delta) => base + delta,
            CellRefCoord::Absolute(coord) => coord as int,
        }
    }

    /// The coordinate that the reference names for a formula at `base`, or
    /// `None` if there is no such column or row.
    pub fn checked_resolve(self, base: i64) -> (r: Option<i64>)
        ensures
            r is Some <==> i64::MIN <= self.spec_resolve_from(base as int) <= i64::MAX,
            r is Some ==> r->Some_0 == self.spec_resolve_from(base as int),
    {
        match self {
            CellRefCoord::Relative(delta) => {
                let sum: i128 = base as i128 + delta as i128;
                if sum < i64::MIN as i128 || sum > i64::MAX as i128 {
                    None
                } else {
                    Some(sum as i64)
                }
            },
            CellRefCoord::Absolute(coord) => Some(coord),
        }
    }

    /// The coordinate that the reference names for a formula at `base`, which
    /// must be one that exists.
    pub fn resolve_from(self, base: i64) -> (r: i64)
        requires
            i64::MIN <= self.spec_resolve_from(base as int) <= i64::MAX,
        ensures
            r == self.spec_resolve_from(base as int),
    {
        match self {
            CellRefCoord::Relative(delta) => base + delta,
            CellRefCoord::Absolute(coord) => coord,
        }
    }
}

impl CellRef {
    /// Whether the reference names a cell that exists, for a formula at
    /// `base`.
    pub open spec fn resolvable_from(self, base: Pos) -> bool {
        &&& i64::MIN <= self.x.spec_resolve_from(base.x as int) <= i64::MAX
        &&& i64::MIN <= self.y.spec_resolve_from(base.y as int) <= i64::MAX
    }

    /// The position that the reference names for a formula at `base`.
    pub open spec fn spec_resolve_from(self, base: Pos) -> Pos {
        Pos {
            x: self.x.spec_resolve_from(base.x as int) as i64,
            y: self.y.spec_resolve_from(base.y as int) as i64,
        }
    }

    /// The position that the reference names for a formula at `base`.
    pub fn resolve_from(self, base: Pos) -> (r: Pos)
        requires
            self.resolvable_from(base),
        ensures
            r == self.spec_resolve_from(base),
    {
        Pos { x: self.x.resolve_from(base.x), y: self.y.resolve_from(base.y) }
    }
}

/// The position of the cell that a formula at `pos` reads through `ref_pos`,
/// or an error in the case of a circular reference: a formula may not read
/// its own cell.
pub fn referenced_cell(ref_pos: CellRef, pos: Pos) -> (r: Result<Pos, FormulaError>)
    requires
        ref_pos.resolvable_from(pos),
    ensures
        r is Ok <==> ref_pos.spec_resolve_from(pos) != pos,
        r is Ok ==> r->Ok_0 == ref_pos.spec_resolve_from(pos),
        r is Err ==> r->Err_0@ == FormulaErrorView::CircularReference,
{
    let resolved: Pos = ref_pos.resolve_from(pos);
    if resolved == pos {
        Err(FormulaError::CircularReference)
    } else {
        Ok(resolved)
    }
}

/// The length along `axis`.
pub open spec fn axis_len(size: ArraySize, axis: Axis) -> u32 {
    match axis {
        Axis::X => size.w,
        Axis::Y => size.h,
    }
}

/// What the common length of some arrays along an axis is, or how it fails.
pub ghost enum CommonLen {
    /// All lengths are this one, or one.
    Len(u32),
    /// A length differs from the one expected after the arrays before it.
    Mismatch { expected: u32, got: u32 },
}

/// The common length of `lens`: going through them from a common length of
/// one, a length that is one or the common length changes nothing, any length
/// replaces a common length of one, and any other length is a mismatch.
pub open spec fn common_len(lens: Seq<u32>) -> CommonLen
    decreases lens.len(),
{
    if lens.len() == 0 {
        CommonLen::Len(1)
    } else {
        match common_len(lens.drop_last()) {
            CommonLen::Len(c) => {
                let l = lens.last();
                if l == c || l == 1 {
                    CommonLen::Len(c)
                } else if c == 1 {
                    CommonLen::Len(l)
                } else {
                    CommonLen::Mismatch { expected: c, got: l }
                }
            },
            m => m,
        }
    }
}

/// The lengths of the values along `axis`: that of an array, one for a
/// single value.
pub open spec fn lens_of(values: Seq<ValueView>, axis: Axis) -> Seq<u32> {
    Seq::new(values.len(), |i: int| axis_len(values[i].size(), axis))
}

/// The models of a list of values, one by one.
pub open spec fn values_view(values: Seq<Value>) -> Seq<ValueView> {
    Seq::new(values.len(), |i: int| values[i]@)
}

/// Every value of the list is well formed.
pub open spec fn all_values_wf(values: Seq<Value>) -> bool {
    forall|i: int| 0 <= i < values.len() ==> (#[trigger] values[i]).wf()
}

/// The value that stands at column `x`, row `y` when the value is expanded: a
/// single value stands everywhere, and so does the one column of an array
/// one wide in every column, and its one row in every row.
pub open spec fn expanded_at(v: ValueView, x: int, y: int) -> BasicValueView {
    match v {
        ValueView::Single(b) => b,
        ValueView::Array(a) => {
            let xx = if a.size.w > 1 { x } else { 0 };
            let yy = if a.size.h > 1 { y } else { 0 };
            a.values[yy * a.size.w + xx]
        },
    }
}

/// The arguments for the cell at column `x`, row `y`: from each value what
/// stands there when it is expanded.
pub open spec fn zip_args(values: Seq<ValueView>, x: int, y: int) -> Seq<BasicValueView> {
    Seq::new(values.len(), |i: int| expanded_at(values[i], x, y))
}

/// The models of a list of borrowed values, one by one.
pub open spec fn args_view(args: Seq<&BasicValue>) -> Seq<BasicValueView> {
    Seq::new(args.len(), |i: int| (*args[i])@)
}

/// The size of a value: that of an array, one by one for a single value.
pub fn value_size(v: &Value) -> (s: ArraySize)
    ensures
        s == v@.size(),
{
    match v {
        Value::Single(_) => ArraySize::one_by_one(),
        Value::Array(a) => a.size(),
    }
}

/// The common length of the values along an axis; see [`common_len`].
fn common_len_of(values: &Vec<Value>, axis: Axis) -> (r: Result<u32, FormulaError>)
    ensures
        match common_len(lens_of(values_view(values@), axis)) {
            CommonLen::Len(c) => r == Ok::<u32, FormulaError>(c),
            CommonLen::Mismatch { expected, got } => r is Err && r->Err_0@
                == (FormulaErrorView::ArrayAxisMismatch { axis, expected, got }),
        },
{
    let ghost lens = lens_of(values_view(values@), axis);
    let mut common: u32 = 1;
    let mut i: usize = 0;
    proof {
        assert(lens.take(0) =~= Seq::<u32>::empty());
    }
    while i < values.len()
        invariant
            i <= values.len(),
            lens == lens_of(values_view(values@), axis),
            common_len(lens.take(i as int)) == CommonLen::Len(common),
        decreases values.len() - i,
    {
        let size: ArraySize = value_size(&values[i]);
        let l: u32 = match axis {
            Axis::X => size.w,
            Axis::Y => size.h,
        };
        proof {
            assert(lens.take(i + 1).drop_last() =~= lens.take(i as int));
            assert(lens.take(i + 1).last() == l);
        }
        if l == common || l == 1 {
        } else if common == 1 {
            common = l;
        } else {
            proof {
                lemma_common_len_mismatch(lens, i + 1);
            }
            return Err(FormulaError::ArrayAxisMismatch { axis, expected: common, got: l });
        }
        i += 1;
    }
    proof {
        assert(lens.take(values.len() as int) =~= lens);
    }
    Ok(common)
}

/// A mismatch among the first lengths is the mismatch of all.
proof fn lemma_common_len_mismatch(lens: Seq<u32>, k: int)
    requires
        0 <= k <= lens.len(),
        common_len(lens.take(k)) is Mismatch,
    ensures
        common_len(lens) == common_len(lens.take(k)),
    decreases lens.len() - k,
{
    if k < lens.len() {
        assert(lens.take(k + 1).drop_last() =~= lens.take(k));
        lemma_common_len_mismatch(lens, k + 1);
    } else {
        assert(lens.take(k) =~= lens);
    }
}

/// The size that the values have in common, or the first mismatch: along the
/// columns first, then along the rows.
pub open spec fn spec_common_array_size(values: Seq<ValueView>) -> Result<ArraySize, FormulaErrorView> {
    match common_len(lens_of(values, Axis::X)) {
        CommonLen::Mismatch { expected, got } => Err(
            FormulaErrorView::ArrayAxisMismatch { axis: Axis::X, expected, got },
        ),
        CommonLen::Len(w) => match common_len(lens_of(values, Axis::Y)) {
            CommonLen::Mismatch { expected, got } => Err(
                FormulaErrorView::ArrayAxisMismatch { axis: Axis::Y, expected, got },
            ),
            CommonLen::Len(h) => Ok(ArraySize { w, h }),
        },
    }
}

/// The size to which all the values can be expanded: along each axis every
/// array has that length, or the length one. An error if two arrays differ
/// along an axis and neither has the length one.
pub fn common_array_size(values: &Vec<Value>) -> (r: Result<ArraySize, FormulaError>)
    ensures
        match spec_common_array_size(values_view(values@)) {
            Ok(size) => r == Ok::<ArraySize, FormulaError>(size),
            Err(e) => r is Err && r->Err_0@ == e,
        },
{
    let w: u32 = match common_len_of(values, Axis::X) {
        Ok(w) => w,
        Err(e) => {
            return Err(e);
        },
    };
    let h: u32 = match common_len_of(values, Axis::Y) {
        Ok(h) => h,
        Err(e) => {
            return Err(e);
        },
    };
    Ok(ArraySize { w, h })
}

/// The value that stands at column `x`, row `y` when `v` is expanded; see
/// [`expanded_at`]. `None` outside the expanded value.
pub fn get_expanded(v: &Value, x: u32, y: u32) -> (r: Option<&BasicValue>)
    requires
        v.wf(),
    ensures
        r is Some <==> (v@.size().w == 1 || x < v@.size().w) && (v@.size().h == 1 || y
            < v@.size().h),
        r is Some ==> r->Some_0@ == expanded_at(v@, x as int, y as int),
{
    match v {
        Value::Single(b) => Some(b),
        Value::Array(a) => {
            let size: ArraySize = a.size();
            let xx: u32 = if size.w > 1 { x } else { 0 };
            let yy: u32 = if size.h > 1 { y } else { 0 };
            a.get(xx, yy)
        },
    }
}

/// In arrays with a common length along an axis, each length is that
/// length or one.
proof fn lemma_common_len(lens: Seq<u32>, i: int)
    requires
        common_len(lens) is Len,
        0 <= i < lens.len(),
    ensures
        lens[i] == 1 || lens[i] == common_len(lens)->Len_0,
        common_len(lens.drop_last()) is Len,
    decreases lens.len(),
{
    if i < lens.len() - 1 {
        lemma_common_len(lens.drop_last(), i);
        assert(lens.drop_last()[i] == lens[i]);
    }
}

/// The arguments for the cell at column `x`, row `y` of the common size; see
/// [`zip_args`].
pub fn args_at(values: &Vec<Value>, x: u32, y: u32) -> (args: Vec<&BasicValue>)
    requires
        all_values_wf(values@),
        spec_common_array_size(values_view(values@)) is Ok,
        x < spec_common_array_size(values_view(values@))->Ok_0.w,
        y < spec_common_array_size(values_view(values@))->Ok_0.h,
    ensures
        args_view(args@) == zip_args(values_view(values@), x as int, y as int),
{
    let ghost vv = values_view(values@);
    let mut args: Vec<&BasicValue> = Vec::new();
    let mut i: usize = 0;
    while i < values.len()
        invariant
            i <= values.len(),
            all_values_wf(values@),
            vv == values_view(values@),
            spec_common_array_size(vv) is Ok,
            x < spec_common_array_size(vv)->Ok_0.w,
            y < spec_common_array_size(vv)->Ok_0.h,
            args.len() == i,
            forall|k: int| 0 <= k < i ==> (*(#[trigger] args@[k]))@ == expanded_at(
                vv[k],
                x as int,
                y as int,
            ),
        decreases values.len() - i,
    {
        proof {
            lemma_common_len(lens_of(vv, Axis::X), i as int);
            lemma_common_len(lens_of(vv, Axis::Y), i as int);
        }
        match get_expanded(&values[i], x, y) {
            Some(b) => {
                args.push(b);
            },
            None => {
                proof {
                    assert(false);
                }
            },
        }
        i += 1;
    }
    assert(args_view(args@) =~= zip_args(vv, x as int, y as int));
    args
}

/// The function `f` can give `out` for arguments with the models `args`.
pub open spec fn gives<F: Fn(&Vec<&BasicValue>) -> Result<BasicValue, FormulaError>>(
    f: F,
    args: Seq<BasicValueView>,
    out: Result<BasicValue, FormulaError>,
) -> bool {
    exists|a: Vec<&BasicValue>| args_view(a@) == args && #[trigger] call_ensures(f, (&a,), out)
}

/// The value at index `b * width + a` of `values` is one that `f` can give
/// for the arguments of the cell at column `a`, row `b`.
pub open spec fn cell_given<F: Fn(&Vec<&BasicValue>) -> Result<BasicValue, FormulaError>>(
    f: F,
    arrays: Seq<ValueView>,
    values: Seq<BasicValue>,
    width: int,
    a: int,
    b: int,
) -> bool {
    gives(f, zip_args(arrays, a, b), Ok::<BasicValue, FormulaError>(values[b * width + a]))
}

/// The value that the result shows at column `x`, row `y` is one that `f`
/// can give for the arguments of that cell.
pub open spec fn result_given<F: Fn(&Vec<&BasicValue>) -> Result<BasicValue, FormulaError>>(
    f: F,
    arrays: Seq<ValueView>,
    result: ValueView,
    x: int,
    y: int,
) -> bool {
    exists|out: BasicValue|
        out@ == expanded_at(result, x, y) && #[trigger] gives(
            f,
            zip_args(arrays, x, y),
            Ok::<BasicValue, FormulaError>(out),
        )
}

/// The error `e` is one that `f` can give for the arguments of the cell at
/// column `x`, row `y`.
pub open spec fn error_given<F: Fn(&Vec<&BasicValue>) -> Result<BasicValue, FormulaError>>(
    f: F,
    arrays: Seq<ValueView>,
    e: FormulaError,
    x: int,
    y: int,
) -> bool {
    gives(f, zip_args(arrays, x, y), Err::<BasicValue, FormulaError>(e))
}

/// Evaluates a function once for each corresponding set of values from
/// `arrays`.
///
/// The arrays are zipped and the function is mapped across corresponding sets
/// of inputs. If any argument is not an array, it is expanded into an array
/// with the same size as other arguments; an array one wide or one high is
/// expanded likewise. If the arrays cannot be expanded to one size, an error
/// is returned. If the result is a single value, that value is returned
/// instead of a one-by-one array.
///
/// Each value of the result is one that `f` gave for the arguments of its
/// cell; an error is one that `f` gave for the arguments of some cell, or the
/// mismatch of the sizes.
pub fn zip_map<F: Fn(&Vec<&BasicValue>) -> Result<BasicValue, FormulaError>>(
    arrays: &Vec<Value>,
    f: F,
) -> (r: Result<Value, FormulaError>)
    requires
        all_values_wf(arrays@),
        forall|args: Vec<&BasicValue>| call_requires(f, (&args,)),
    ensures
        spec_common_array_size(values_view(arrays@)) is Err ==> r is Err && r->Err_0@
            == spec_common_array_size(values_view(arrays@))->Err_0,
        r is Ok ==> {
            let size = spec_common_array_size(values_view(arrays@))->Ok_0;
            &&& spec_common_array_size(values_view(arrays@)) is Ok
            &&& r->Ok_0.wf()
            &&& r->Ok_0@.size() == size
            &&& (r->Ok_0 is Single <==> size.w == 1 && size.h == 1)
            &&& forall|x: int, y: int|
                0 <= x < size.w && 0 <= y < size.h ==> #[trigger] result_given(
                    f,
                    values_view(arrays@),
                    r->Ok_0@,
                    x,
                    y,
                )
        },
        r is Err && spec_common_array_size(values_view(arrays@)) is Ok ==> {
            let size = spec_common_array_size(values_view(arrays@))->Ok_0;
            exists|x: int, y: int|
                0 <= x < size.w && 0 <= y < size.h && #[trigger] error_given(
                    f,
                    values_view(arrays@),
                    r->Err_0,
                    x,
                    y,
                )
        },
{
    let ghost vv = values_view(arrays@);
    let size: ArraySize = match common_array_size(arrays) {
        Ok(size) => size,
        Err(e) => {
            return Err(e);
        },
    };
    let width: u32 = size.w;
    let height: u32 = size.h;
    proof {
        lemma_common_size_positive(vv);
    }
    // If the result is a single value, return that value instead of a 1x1
    // array.
    if width == 1 && height == 1 {
        let args = args_at(arrays, 0, 0);
        return match f(&args) {
            Ok(out) => {
                let v = Value::Single(out);
                proof {
                    assert(gives(f, zip_args(vv, 0, 0), Ok::<BasicValue, FormulaError>(out)));
                    assert forall|x: int, y: int|
                        0 <= x < size.w && 0 <= y < size.h implies #[trigger] result_given(
                        f,
                        vv,
                        v@,
                        x,
                        y,
                    ) by {
                        assert(out@ == expanded_at(v@, x, y));
                    }
                }
                Ok(v)
            },
            Err(e) => {
                proof {
                    assert(gives(f, zip_args(vv, 0, 0), Err::<BasicValue, FormulaError>(e)));
                }
                let r = Err::<Value, FormulaError>(e);
                assert(error_given(f, vv, r->Err_0, 0, 0));
                r
            },
        };
    }
    let mut values: Vec<BasicValue> = Vec::new();
    let mut y: u32 = 0;
    while y < height
        invariant
            y <= height,
            width == size.w,
            height == size.h,
            width >= 1,
            all_values_wf(arrays@),
            vv == values_view(arrays@),
            spec_common_array_size(vv) == Ok::<ArraySize, FormulaErrorView>(size),
            forall|args: Vec<&BasicValue>| call_requires(f, (&args,)),
            values.len() == y * width,
            forall|a: int, b: int|
                0 <= a < width && 0 <= b < y ==> #[trigger] cell_given(
                    f,
                    vv,
                    values@,
                    width as int,
                    a,
                    b,
                ),
        decreases height - y,
    {
        let mut x: u32 = 0;
        while x < width
            invariant
                x <= width,
                y < height,
                width == size.w,
                height == size.h,
                width >= 1,
                all_values_wf(arrays@),
                vv == values_view(arrays@),
                spec_common_array_size(vv) == Ok::<ArraySize, FormulaErrorView>(size),
                forall|args: Vec<&BasicValue>| call_requires(f, (&args,)),
                values.len() == y * width + x,
                forall|a: int, b: int|
                    0 <= a < width && 0 <= b < y ==> #[trigger] cell_given(
                        f,
                        vv,
                        values@,
                        width as int,
                        a,
                        b,
                    ),
                forall|a: int|
                    0 <= a < x ==> #[trigger] cell_given(f, vv, values@, width as int, a, y as int),
            decreases width - x,
        {
            let args = args_at(arrays, x, y);
            let ghost before = values@;
            match f(&args) {
                Ok(out) => {
                    values.push(out);
                    proof {
                        assert forall|a: int, b: int|
                            0 <= a < width && 0 <= b < y implies #[trigger] cell_given(
                            f,
                            vv,
                            values@,
                            width as int,
                            a,
                            b,
                        ) by {
                            crate::ids::lemma_row_major_index(a, b, width as int, y as int);
                            assert(cell_given(f, vv, before, width as int, a, b));
                            assert(values@[b * width + a] == before[b * width + a]);
                        }
                        assert forall|a: int| 0 <= a < x + 1 implies #[trigger] cell_given(
                            f,
                            vv,
                            values@,
                            width as int,
                            a,
                            y as int,
                        ) by {
                            if a < x {
                                assert(cell_given(f, vv, before, width as int, a, y as int));
                                assert(values@[y * width + a] == before[y * width + a]);
                            } else {
                                assert(values@[y * width + a] == out);
                                assert(gives(
                                    f,
                                    zip_args(vv, a, y as int),
                                    Ok::<BasicValue, FormulaError>(out),
                                ));
                            }
                        }
                    }
                },
                Err(e) => {
                    proof {
                        assert(gives(
                            f,
                            zip_args(vv, x as int, y as int),
                            Err::<BasicValue, FormulaError>(e),
                        ));
                    }
                    let r = Err::<Value, FormulaError>(e);
                    assert(error_given(f, vv, r->Err_0, x as int, y as int));
                    return r;
                },
            }
            x += 1;
        }
        proof {
            assert((y + 1) * width == y * width + width) by (nonlinear_arith);
        }
        y += 1;
    }
    proof {
        assert(values.len() == size.spec_len()) by (nonlinear_arith)
            requires
                values.len() == y * width,
                y == height,
                width == size.w,
                height == size.h,
                size.spec_len() == size.w * size.h,
        ;
    }
    let ghost filled = values@;
    let array: OutputArray = match OutputArray::from_row_major(size, values) {
        Some(a) => a,
        None => {
            proof {
                assert(false);
            }
            return Err(FormulaError::CircularReference);
        },
    };
    let v = Value::Array(array);
    proof {
        assert forall|a: int, b: int|
            0 <= a < size.w && 0 <= b < size.h implies #[trigger] result_given(f, vv, v@, a, b) by {
            let o = filled[b * width + a];
            assert(cell_given(f, vv, filled, width as int, a, b));
            crate::ids::lemma_row_major_index(a, b, width as int, height as int);
            assert(basic_values_view(filled)[b * width + a] == o@);
            if size.w > 1 && size.h > 1 {
            } else if size.w > 1 {
                assert(b == 0);
            } else {
                assert(a == 0);
            }
            assert(o@ == expanded_at(v@, a, b));
            assert(gives(f, zip_args(vv, a, b), Ok::<BasicValue, FormulaError>(o)));
        }
    }
    Ok(v)
}

/// A common size has no side of length zero.
proof fn lemma_common_size_positive(values: Seq<ValueView>)
    requires
        spec_common_array_size(values) is Ok,
        forall|i: int| 0 <= i < values.len() ==> (#[trigger] values[i]).wf(),
    ensures
        spec_common_array_size(values)->Ok_0.wf(),
{
    lemma_common_len_positive(lens_of(values, Axis::X));
    lemma_common_len_positive(lens_of(values, Axis::Y));
}

proof fn lemma_common_len_positive(lens: Seq<u32>)
    requires
        forall|i: int| 0 <= i < lens.len() ==> lens[i] >= 1,
        common_len(lens) is Len,
    ensures
        common_len(lens)->Len_0 >= 1,
    decreases lens.len(),
{
    if lens.len() > 0 {
        assert forall|i: int| 0 <= i < lens.drop_last().len() implies lens.drop_last()[i] >= 1 by {
            assert(lens.drop_last()[i] == lens[i]);
        }
        lemma_common_len_positive(lens.drop_last());
    }
}

} // verus!
