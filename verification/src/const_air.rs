//! [`ConstAir`] binds compile-time constants to verifier-owned preprocessed
//! values.
//!
//! The AIR is generic over an extension degree `D`. Each constant row has `D`
//! committed main columns and `D + 2` preprocessed columns:
//!
//! - main: `value[0], value[1], ..., value[D-1]`
//! - preprocessed: `multiplicity, index, expected[0], ..., expected[D-1]`
//!
//! The witness bus sends the verifier-owned expected value `(index,
//! expected[0..D])` with multiplicity `multiplicity`; committed main columns
//! are not trusted for constant values.
//!
//! Field elements are held by their canonical `u64` representatives.

use vstd::prelude::*;

use crate::circuit::WitnessId;
use crate::matrix::{
    flat_padded, height_of, matrix_from_flat_padded, matrix_height, matrix_new, matrix_values,
    matrix_width, pad_to_min_power_of_two_height, padded_height, resized, rows_of,
};
use crate::pow2::{
    is_pow2, lemma_npot_bounds, lemma_npot_is_pow2, lemma_npot_mono, lemma_npot_of_pow2,
    lemma_npot_pow2, next_power_of_two,
    npot, npot_log,
};
use p3_matrix::dense::RowMajorMatrix;

verus! {

/// The constant table's trace: per constant, the witness slot it binds and
/// its value, given by its basis coefficients over the base field.
pub struct ConstTrace {
    pub index: Vec<WitnessId>,
    pub values: Vec<Vec<u64>>,
}

/// The values of a trace, flattened row after row.
pub open spec fn flattened(values: Seq<Vec<u64>>) -> Seq<u64>
    decreases values.len(),
{
    if values.len() == 0 {
        Seq::empty()
    } else {
        flattened(values.drop_last()) + values.last()@
    }
}

/// Vector-valued constant binding with extension degree `D`.
///
/// Layout per row:
/// - main: `[value[0..D-1]]` (prover trace, not trusted for binding)
/// - preprocessed: `[multiplicity, index, expected[0..D-1]]`
#[derive(Debug, Clone)]
pub struct ConstAir<const D: usize> {
    /// Total number of logical constant rows in the trace.
    pub num_ops: usize,
    /// Flattened verifier-owned rows.
    pub preprocessed: Vec<u64>,
    /// Minimum trace height for FRI compatibility.
    pub min_height: usize,
}

/// The values of the preprocessed trace of `preprocessed` at width `width`:
/// the values, the last row completed with zeros (one row of zeros where
/// there are none), then rows of zeros up to the padded height.
pub open spec fn preprocessed_layout(preprocessed: Seq<u64>, width: nat, min_height: nat) -> Seq<
    u64,
> {
    let completed = flat_padded(preprocessed, width, 0);
    resized(
        completed,
        width * padded_height(rows_of(completed.len(), width), min_height),
        0,
    )
}

/// The values of the main trace of a constant table at width `width`: the
/// coefficients row after row, then rows of zeros up to the padded height.
pub open spec fn main_layout(values: Seq<Vec<u64>>, width: nat, min_height: nat) -> Seq<u64> {
    resized(flattened(values), width * padded_height(values.len(), min_height), 0)
}

/// Padding to at least `max(min_height, npot(h))` is padding to at least
/// `min_height`.
proof fn lemma_padded_height_absorbs(h: nat, min_height: nat)
    ensures
        padded_height(h, if min_height >= npot(h) { min_height } else { npot(h) })
            == padded_height(h, min_height),
{
    lemma_npot_is_pow2(h);
    lemma_npot_of_pow2(npot_log(h));
    if min_height < npot(h) {
        lemma_npot_mono(min_height, npot(h));
    }
}

proof fn lemma_flattened_len(values: Seq<Vec<u64>>, d: nat)
    requires
        forall|i: int| 0 <= i < values.len() ==> (#[trigger] values[i])@.len() == d,
    ensures
        flattened(values).len() == values.len() * d,
    decreases values.len(),
{
    if values.len() > 0 {
        lemma_flattened_len(values.drop_last(), d);
        assert(values.last() == values[values.len() - 1]);
        assert((values.len() - 1) * d + d == values.len() * d) by (nonlinear_arith);
    }
}

impl<const D: usize> ConstAir<D> {
    /// A constant AIR with `num_ops` rows, no preprocessed values and
    /// minimum height 1.
    pub fn new(num_ops: usize) -> (r: Self)
        ensures
            r.num_ops == num_ops,
            r.preprocessed@.len() == 0,
            r.min_height == 1,
    {
        ConstAir { num_ops, preprocessed: Vec::new(), min_height: 1 }
    }

    /// A constant AIR with `num_ops` rows and the given flattened
    /// preprocessed rows, minimum height 1.
    pub fn new_with_preprocessed(num_ops: usize, preprocessed: Vec<u64>) -> (r: Self)
        ensures
            r.num_ops == num_ops,
            r.preprocessed@ == preprocessed@,
            r.min_height == 1,
    {
        ConstAir { num_ops, preprocessed, min_height: 1 }
    }

    /// Sets the minimum trace height for FRI compatibility.
    ///
    /// FRI requires `log_trace_height > log_final_poly_len + log_blowup`, so
    /// `min_height` should be at least `2^(log_final_poly_len + log_blowup + 1)`.
    pub fn with_min_height(self, min_height: usize) -> (r: Self)
        ensures
            r.num_ops == self.num_ops,
            r.preprocessed@ == self.preprocessed@,
            r.min_height == min_height,
    {
        let mut r = self;
        r.min_height = min_height;
        r
    }

    /// Number of preprocessed columns: multiplicity + index + expected value.
    pub fn preprocessed_width() -> (r: usize)
        requires
            D + 2 <= usize::MAX,
        ensures
            r == D + 2,
    {
        D + 2
    }

    /// Number of main columns: the `D` coefficients of the value.
    pub fn width(&self) -> (r: usize)
        ensures
            r == D,
    {
        D
    }

    /// The main columns read on the next row: none.
    pub fn main_next_row_columns(&self) -> (r: Vec<usize>)
        ensures
            r@.len() == 0,
    {
        Vec::new()
    }

    /// The preprocessed columns read on the next row: none.
    pub fn preprocessed_next_row_columns(&self) -> (r: Vec<usize>)
        ensures
            r@.len() == 0,
    {
        Vec::new()
    }

    /// The witness-bus message of a row, as preprocessed columns: the
    /// multiplicity column, and the message fields `(index,
    /// expected[0..D])`.
    pub fn witness_bus_columns() -> (r: (usize, Vec<usize>))
        requires
            D + 2 <= usize::MAX,
        ensures
            r.0 == 0,
            r.1@ == Seq::new((D + 1) as nat, |j: int| (j + 1) as usize),
    {
        let mut fields: Vec<usize> = Vec::with_capacity(1 + D);
        fields.push(1);
        let mut j: usize = 0;
        while j < D
            invariant
                j <= D,
                D + 2 <= usize::MAX,
                fields@ =~= Seq::new((j + 1) as nat, |k: int| (k + 1) as usize),
            decreases D - j,
        {
            fields.push(2 + j);
            j = j + 1;
        }
        (0, fields)
    }

    /// The preprocessed trace: the flattened verifier-owned rows at width
    /// `D + 2`, the last row completed with zeros, padded with zero rows to
    /// a power-of-two height of at least `min_height`.
    pub fn preprocessed_trace(&self) -> (r: Option<RowMajorMatrix<u64>>)
        requires
            D + 2 <= usize::MAX,
            self.preprocessed@.len() + D + 2 <= usize::MAX,
            npot(rows_of(flat_padded(self.preprocessed@, (D + 2) as nat, 0).len(), (D + 2) as nat))
                <= usize::MAX,
            npot(self.min_height as nat) <= usize::MAX,
            (D + 2) * padded_height(
                rows_of(flat_padded(self.preprocessed@, (D + 2) as nat, 0).len(), (D + 2) as nat),
                self.min_height as nat,
            ) <= usize::MAX,
        ensures
            r matches Some(m) && matrix_width(m) == D + 2 && matrix_values(m)
                == preprocessed_layout(self.preprocessed@, (D + 2) as nat, self.min_height as nat),
    {
        let width = Self::preprocessed_width();
        let mut values: Vec<u64> = Vec::new();
        let mut k: usize = 0;
        while k < self.preprocessed.len()
            invariant
                k <= self.preprocessed@.len(),
                values@ == self.preprocessed@.subrange(0, k as int),
            decreases self.preprocessed@.len() - k,
        {
            values.push(self.preprocessed[k]);
            k = k + 1;
            proof {
                assert(values@ =~= self.preprocessed@.subrange(0, k as int));
            }
        }
        proof {
            assert(values@ =~= self.preprocessed@);
        }
        let mut mat = matrix_from_flat_padded(values, width, 0);
        pad_to_min_power_of_two_height(&mut mat, self.min_height, 0);
        Some(mat)
    }

    /// Converts a constant trace into the main trace matrix: each value's
    /// `D` basis coefficients form a row, and the rows are padded with zeros
    /// to a power-of-two height of at least `min_height`.
    pub fn trace_to_matrix(trace: &ConstTrace, min_height: usize) -> (r: RowMajorMatrix<u64>)
        requires
            trace.values@.len() == trace.index@.len(),
            forall|i: int| 0 <= i < trace.values@.len() ==> (#[trigger] trace.values@[i])@.len() == D,
            trace.values@.len() * D <= usize::MAX,
            npot(trace.values@.len() as nat) <= usize::MAX,
            npot(min_height as nat) <= usize::MAX,
            D * padded_height(trace.values@.len() as nat, min_height as nat) <= usize::MAX,
        ensures
            matrix_width(r) == D,
            matrix_values(r) == main_layout(trace.values@, D as nat, min_height as nat),
    {
        let height = trace.values.len();
        let width = D;
        let mut values: Vec<u64> = Vec::with_capacity(height * width);
        let mut i: usize = 0;
        while i < height
            invariant
                i <= height,
                height == trace.values@.len(),
                width == D,
                forall|i2: int| 0 <= i2 < height ==> (#[trigger] trace.values@[i2])@.len() == D,
                values@ == flattened(trace.values@.subrange(0, i as int)),
            decreases height - i,
        {
            let coeffs = &trace.values[i];
            let mut k: usize = 0;
            let ghost before = values@;
            while k < coeffs.len()
                invariant
                    k <= coeffs@.len(),
                    values@ == before + coeffs@.subrange(0, k as int),
                decreases coeffs@.len() - k,
            {
                values.push(coeffs[k]);
                k = k + 1;
                proof {
                    assert(values@ =~= before + coeffs@.subrange(0, k as int));
                }
            }
            proof {
                let prefix = trace.values@.subrange(0, i + 1);
                assert(prefix.drop_last() =~= trace.values@.subrange(0, i as int));
                assert(coeffs@.subrange(0, coeffs@.len() as int) =~= coeffs@);
            }
            i = i + 1;
        }
        proof {
            assert(trace.values@.subrange(0, height as int) =~= trace.values@);
            lemma_flattened_len(trace.values@, D as nat);
            if D > 0 {
                let hn = height as nat;
                let dn = D as nat;
                assert((hn * dn) % dn == 0) by (nonlinear_arith)
                    requires dn > 0;
                assert((hn * dn) / dn == hn) by (nonlinear_arith)
                    requires dn > 0;
            }
        }
        let mut mat = matrix_new(values, width);
        let h = height_of(&mat);
        proof {
            if D == 0 {
                assert(h == 0);
                lemma_npot_bounds(height as nat);
                lemma_npot_bounds(0);
            }
        }
        let h_pow2 = next_power_of_two(h);
        let target = if min_height >= h_pow2 {
            min_height
        } else {
            h_pow2
        };
        proof {
            lemma_npot_bounds(h as nat);
            lemma_padded_height_absorbs(h as nat, min_height as nat);
            if min_height < h_pow2 {
                lemma_npot_is_pow2(h as nat);
                lemma_npot_of_pow2(npot_log(h as nat));
            }
        }
        pad_to_min_power_of_two_height(&mut mat, target, 0);
        mat
    }
}


/// A value that fills `len` entries is extended, not cut, by `resized`.
proof fn lemma_resized_extends(v: Seq<u64>, len: nat)
    requires
        v.len() <= len,
    ensures
        resized(v, len, 0).len() == len,
        resized(v, len, 0).subrange(0, v.len() as int) == v,
        forall|i: int| v.len() <= i < len ==> resized(v, len, 0)[i] == 0,
{
    if v.len() < len {
        assert(resized(v, len, 0).subrange(0, v.len() as int) =~= v);
    } else {
        assert(v.subrange(0, len as int) =~= v);
    }
}

/// The padded height is a power of two, at least `min_height`, at least
/// `rows`, and at least 1.
proof fn lemma_padded_height(rows: nat, min_height: nat)
    ensures
        is_pow2(padded_height(rows, min_height)),
        padded_height(rows, min_height) >= min_height,
        padded_height(rows, min_height) >= rows,
        padded_height(rows, min_height) >= 1,
{
    lemma_npot_bounds(rows);
    lemma_npot_bounds(min_height);
    lemma_npot_pow2(rows);
    lemma_npot_pow2(min_height);
}

/// The preprocessed trace holds the verifier-owned values first and zeros
/// after them; its height is a power of two, at least `min_height`, at least
/// one row, and enough rows for all values.
pub proof fn lemma_preprocessed_layout(preprocessed: Seq<u64>, width: nat, min_height: nat)
    requires
        width > 0,
    ensures
        ({
            let v = preprocessed_layout(preprocessed, width, min_height);
            let height = v.len() / width;
            &&& v.len() == height * width
            &&& is_pow2(height)
            &&& height >= min_height
            &&& height >= 1
            &&& height * width >= preprocessed.len()
            &&& v.subrange(0, preprocessed.len() as int) == preprocessed
            &&& forall|i: int| preprocessed.len() <= i < v.len() ==> v[i] == 0
        }),
{
    let len = preprocessed.len();
    let c = flat_padded(preprocessed, width, 0);
    let q = len / width;
    let rem = len % width;
    assert(len == width * q + rem && rem < width) by (nonlinear_arith)
        requires
            width > 0,
            q == len / width,
            rem == len % width,
    ;
    // The completed values: a whole number m of rows, the values first.
    let m: nat = if rem != 0 {
        q + 1
    } else if len == 0 {
        1
    } else {
        q
    };
    assert(c.len() == width * m) by (nonlinear_arith)
        requires
            len == width * q + rem,
            rem != 0 ==> c.len() == len + (width - rem),
            rem == 0 && len == 0 ==> c.len() == width,
            rem == 0 && len != 0 ==> c.len() == len,
            m == if rem != 0 {
                q + 1
            } else if len == 0 {
                1
            } else {
                q
            },
    ;
    assert(c.subrange(0, len as int) =~= preprocessed);
    assert forall|i: int| len <= i < c.len() implies c[i] == 0 by {}
    assert((width * m) / width == m) by (nonlinear_arith)
        requires
            width > 0,
    ;
    let ph = padded_height(m, min_height);
    lemma_padded_height(m, min_height);
    assert(width * ph >= width * m) by (nonlinear_arith)
        requires
            ph >= m,
    ;
    lemma_resized_extends(c, width * ph);
    let v = preprocessed_layout(preprocessed, width, min_height);
    assert((width * ph) / width == ph) by (nonlinear_arith)
        requires
            width > 0,
    ;
    assert(ph * width == width * ph) by (nonlinear_arith);
    assert(v.subrange(0, len as int) =~= c.subrange(0, len as int));
}

proof fn lemma_flattened_index(values: Seq<Vec<u64>>, d: nat, r: int, c: int)
    requires
        forall|i: int| 0 <= i < values.len() ==> (#[trigger] values[i])@.len() == d,
        0 <= r < values.len(),
        0 <= c < d,
    ensures
        flattened(values).len() == values.len() * d,
        r * d + c < values.len() * d,
        flattened(values)[r * d + c] == values[r]@[c],
    decreases values.len(),
{
    lemma_flattened_len(values, d);
    let n = values.len() as int;
    assert(r * d + c < n * d) by (nonlinear_arith)
        requires
            0 <= r < n,
            0 <= c < d,
    ;
    if r < n - 1 {
        lemma_flattened_index(values.drop_last(), d, r, c);
    } else {
        lemma_flattened_len(values.drop_last(), d);
        assert(values.last() == values[n - 1]);
    }
}

/// The main trace matrix holds the `c`-th coefficient of constant `r` in
/// row `r`, column `c`, and zeros in every row past the constants; its
/// height is a power of two, at least `min_height`, at least one row, and
/// at least the number of constants.
pub proof fn lemma_main_layout(values: Seq<Vec<u64>>, width: nat, min_height: nat)
    requires
        width > 0,
        forall|i: int| 0 <= i < values.len() ==> (#[trigger] values[i])@.len() == width,
    ensures
        ({
            let v = main_layout(values, width, min_height);
            let height = v.len() / width;
            &&& v.len() == height * width
            &&& is_pow2(height)
            &&& height >= min_height
            &&& height >= 1
            &&& height >= values.len()
            &&& forall|r: int, c: int|
                0 <= r < values.len() && 0 <= c < width ==> v[r * width + c] == values[r]@[c]
            &&& forall|i: int| values.len() * width <= i < v.len() ==> v[i] == 0
        }),
{
    let n = values.len();
    let f = flattened(values);
    lemma_flattened_len(values, width);
    let ph = padded_height(n, min_height);
    lemma_padded_height(n, min_height);
    assert(width * ph >= n * width) by (nonlinear_arith)
        requires
            ph >= n,
    ;
    lemma_resized_extends(f, width * ph);
    assert((width * ph) / width == ph) by (nonlinear_arith)
        requires
            width > 0,
    ;
    assert(ph * width == width * ph) by (nonlinear_arith);
    let v = main_layout(values, width, min_height);
    assert forall|r: int, c: int| 0 <= r < n && 0 <= c < width implies v[r * width + c]
        == values[r]@[c] by {
        lemma_flattened_index(values, width, r, c);
        assert(v.subrange(0, f.len() as int)[r * width + c] == v[r * width + c]);
    }
}

} // verus!
