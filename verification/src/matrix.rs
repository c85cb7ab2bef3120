//! Row-major trace matrices from `p3-matrix`, over the canonical `u64`
//! representatives of field elements.

use p3_matrix::dense::{DenseMatrix, RowMajorMatrix};
use p3_matrix::Matrix;
use vstd::prelude::*;

use crate::pow2::npot;

verus! {

#[verifier::external_type_specification]
#[verifier::external_body]
#[verifier::reject_recursive_types(T)]
#[verifier::reject_recursive_types(V)]
pub struct ExDenseMatrix<T, V>(DenseMatrix<T, V>);

/// The values a row-major matrix holds, row after row.
pub uninterp spec fn matrix_values(m: DenseMatrix<u64, Vec<u64>>) -> Seq<u64>;

/// The width a row-major matrix was made with.
pub uninterp spec fn matrix_width(m: DenseMatrix<u64, Vec<u64>>) -> nat;

/// The number of whole rows of `len` values at width `width` (none at width 0).
pub open spec fn rows_of(len: nat, width: nat) -> nat {
    if width == 0 {
        0
    } else {
        len / width
    }
}

/// The height of a matrix.
pub open spec fn matrix_height(m: DenseMatrix<u64, Vec<u64>>) -> nat {
    rows_of(matrix_values(m).len(), matrix_width(m))
}

/// `v` cut or extended with `fill` to length `len`, as `Vec::resize` does.
pub open spec fn resized(v: Seq<u64>, len: nat, fill: u64) -> Seq<u64> {
    if len <= v.len() {
        v.subrange(0, len as int)
    } else {
        v + Seq::new((len - v.len()) as nat, |i: int| fill)
    }
}

/// `values` with its last row completed by `fill`, and one row of `fill`
/// where there are no values at all.
pub open spec fn flat_padded(values: Seq<u64>, width: nat, fill: u64) -> Seq<u64> {
    let rem = values.len() % width;
    let completed = if rem != 0 {
        values + Seq::new((width - rem) as nat, |i: int| fill)
    } else {
        values
    };
    if completed.len() == 0 {
        Seq::new(width, |i: int| fill)
    } else {
        completed
    }
}

/// The height that `pad_to_min_power_of_two_height` pads a matrix of
/// `height` rows to: the larger of the two power-of-two ceilings.
pub open spec fn padded_height(height: nat, min_height: nat) -> nat {
    if npot(height) >= npot(min_height) {
        npot(height)
    } else {
        npot(min_height)
    }
}

/// Makes a matrix of the given width from its values, through
/// `RowMajorMatrix::new`, which keeps both as given. Its debug assertion
/// asks for a whole number of rows.
#[verifier::external_body]
pub(crate) fn matrix_new(values: Vec<u64>, width: usize) -> (m: RowMajorMatrix<u64>)
    requires
        if width == 0 {
            values@.len() == 0
        } else {
            values@.len() % (width as nat) == 0
        },
    ensures
        matrix_values(m) == values@,
        matrix_width(m) == width,
{
    RowMajorMatrix::new(values, width)
}

/// Makes a matrix from values whose last row may be incomplete, through
/// `RowMajorMatrix::from_flat_padded`, which completes the last row with
/// `fill` and gives an empty input one row of `fill`. It panics at width 0.
#[verifier::external_body]
pub(crate) fn matrix_from_flat_padded(values: Vec<u64>, width: usize, fill: u64) -> (m:
    RowMajorMatrix<u64>)
    requires
        width > 0,
        values@.len() + width <= usize::MAX,
    ensures
        matrix_values(m) == flat_padded(values@, width as nat, fill),
        matrix_width(m) == width,
{
    RowMajorMatrix::from_flat_padded(values, width, fill)
}

/// The height of a matrix, through `Matrix::height`: the number of whole
/// rows (0 at width 0).
#[verifier::external_body]
pub(crate) fn height_of(m: &RowMajorMatrix<u64>) -> (r: usize)
    ensures
        r == matrix_height(*m),
{
    m.height()
}

/// Pads a matrix with rows of `fill` through
/// `RowMajorMatrix::pad_to_min_power_of_two_height`, which resizes the values
/// to `width * max(npot(height), npot(min_height))`. The power-of-two
/// ceilings panic in debug builds where they overflow.
#[verifier::external_body]
pub(crate) fn pad_to_min_power_of_two_height(
    m: &mut RowMajorMatrix<u64>,
    min_height: usize,
    fill: u64,
)
    requires
        npot(matrix_height(*old(m))) <= usize::MAX,
        npot(min_height as nat) <= usize::MAX,
        matrix_width(*old(m)) * padded_height(matrix_height(*old(m)), min_height as nat)
            <= usize::MAX,
    ensures
        matrix_width(*final(m)) == matrix_width(*old(m)),
        matrix_values(*final(m)) == resized(
            matrix_values(*old(m)),
            matrix_width(*old(m)) * padded_height(matrix_height(*old(m)), min_height as nat),
            fill,
        ),
{
    m.pad_to_min_power_of_two_height(min_height, fill)
}

} // verus!
