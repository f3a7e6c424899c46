//! The packed ternary matrix.
use vstd::prelude::*;

use crate::pack::{
    decoded, encodes, is_ternary, lemma_bit_is_0_or_1, lemma_decode_encode, plane_bit, signum,
    ternary_at,
};

verus! {

/// A row-major `rows x cols` ternary matrix held as two bitplanes, with its
/// scale factors. Element `(row, col)` is bit `row * cols + col` of the planes.
///
/// Each scale is held as the IEEE-754 bit pattern of an `f32`
/// (`f32::to_bits`); the matrix only selects scales and never computes on them.
pub struct TernaryTensor {
    pub rows: usize,
    pub cols: usize,
    pub nonzero: Vec<u8>,
    pub sign: Vec<u8>,
    /// len=1: per-tensor scale / len=rows: per-channel scale
    pub scale: Vec<u32>,
}

impl TernaryTensor {
    /// The ternary value at `(row, col)`.
    pub open spec fn value_at(&self, row: int, col: int) -> i8 {
        ternary_at(self.nonzero@, self.sign@, row * self.cols + col)
    }

    /// The scale count is 1 (per-tensor) or `rows` (per-channel).
    pub open spec fn scales_ok(&self) -> bool {
        self.scale.len() == 1 || self.scale.len() == self.rows
    }

    /// Both planes hold at least `rows * cols` bits.
    pub open spec fn planes_hold_matrix(&self) -> bool {
        &&& self.rows * self.cols <= 8 * self.nonzero.len()
        &&& self.rows * self.cols <= 8 * self.sign.len()
    }

    /// Which entry of `scale` applies to `row`: the only one for a per-tensor
    /// scale, entry `row` otherwise.
    pub open spec fn scale_index(&self, row: int) -> int {
        if self.scale.len() == 1 {
            0
        } else {
            row
        }
    }

    /// Builds a tensor from its parts. The scale count must be 1 or `rows`.
    pub fn new(rows: usize, cols: usize, nonzero: Vec<u8>, sign: Vec<u8>, scale: Vec<u32>) -> (t:
        Self)
        requires
            scale.len() == 1 || scale.len() == rows,
        ensures
            t.rows == rows,
            t.cols == cols,
            t.nonzero == nonzero,
            t.sign == sign,
            t.scale == scale,
            t.scales_ok(),
    {
        TernaryTensor { rows, cols, nonzero, sign, scale }
    }

    /// The ternary value {-1, 0, 1} at `(row, col)`.
    pub fn get(&self, row: usize, col: usize) -> (v: i8)
        requires
            row * self.cols + col <= usize::MAX,
            row * self.cols + col < 8 * self.nonzero.len(),
            row * self.cols + col < 8 * self.sign.len(),
        ensures
            v == self.value_at(row as int, col as int),
            -1 <= v <= 1,
            v == 0 <==> !plane_bit(self.nonzero@, row * self.cols + col),
            v == 1 <==> plane_bit(self.nonzero@, row * self.cols + col) && !plane_bit(
                self.sign@,
                row * self.cols + col,
            ),
            v == -1 <==> plane_bit(self.nonzero@, row * self.cols + col) && plane_bit(
                self.sign@,
                row * self.cols + col,
            ),
    {
        let i = row * self.cols + col;
        let shift = (i % 8) as u8;
        let nz = (self.nonzero[i / 8] >> shift) & 1;
        let sg = (self.sign[i / 8] >> shift) & 1;
        proof {
            lemma_bit_is_0_or_1(self.nonzero@[(i / 8) as int], shift);
            lemma_bit_is_0_or_1(self.sign@[(i / 8) as int], shift);
        }
        if nz == 0 {
            0
        } else if sg == 0 {
            1
        } else {
            -1
        }
    }

    /// The bit pattern of the scale that applies to `row`.
    pub fn row_scale(&self, row: usize) -> (s: u32)
        requires
            self.scale.len() == 1 || row < self.scale.len(),
        ensures
            s == self.scale@[self.scale_index(row as int)],
            self.scale.len() == 1 ==> s == self.scale@[0],
            self.scale.len() != 1 ==> s == self.scale@[row as int],
    {
        if self.scale.len() == 1 {
            self.scale[0]
        } else {
            self.scale[row]
        }
    }

    /// Number of rows.
    pub fn rows(&self) -> (r: usize)
        ensures
            r == self.rows,
    {
        self.rows
    }

    /// Number of columns.
    pub fn cols(&self) -> (c: usize)
        ensures
            c == self.cols,
    {
        self.cols
    }
}

/// In a tensor whose planes hold the matrix, every in-range `(row, col)` meets
/// what `get` asks of its arguments.
pub proof fn lemma_get_in_range(t: &TernaryTensor, row: int, col: int)
    requires
        t.planes_hold_matrix(),
        0 <= row < t.rows,
        0 <= col < t.cols,
    ensures
        row * t.cols + col < t.rows * t.cols,
        row * t.cols + col < 8 * t.nonzero.len(),
        row * t.cols + col < 8 * t.sign.len(),
{
    assert(row * t.cols + col < t.rows * t.cols) by (nonlinear_arith)
        requires
            0 <= row < t.rows,
            0 <= col < t.cols,
    ;
}

/// Reading after packing: in a tensor whose planes encode the row-major
/// `rows x cols` values `vals` (as `encode` produces them), the planes hold the
/// matrix and every in-range `(row, col)` reads the sign of
/// `vals[row * cols + col]`, which is that value itself when `vals` is ternary.
pub proof fn lemma_get_after_encode(t: &TernaryTensor, vals: Seq<i8>)
    requires
        encodes(t.nonzero@, t.sign@, vals),
        vals.len() == t.rows * t.cols,
    ensures
        t.planes_hold_matrix(),
        forall|row: int, col: int|
            0 <= row < t.rows && 0 <= col < t.cols ==> #[trigger] t.value_at(row, col) == signum(
                vals[row * t.cols + col],
            ),
        is_ternary(vals) ==> forall|row: int, col: int|
            0 <= row < t.rows && 0 <= col < t.cols ==> #[trigger] t.value_at(row, col) == vals[row
                * t.cols + col],
{
    lemma_decode_encode(t.nonzero@, t.sign@, vals);
    assert forall|row: int, col: int| 0 <= row < t.rows && 0 <= col < t.cols implies #[trigger] t.value_at(
        row,
        col,
    ) == signum(vals[row * t.cols + col]) by {
        assert(row * t.cols + col < t.rows * t.cols) by (nonlinear_arith)
            requires
                0 <= row < t.rows,
                0 <= col < t.cols,
        ;
        let i = row * t.cols + col;
        assert(crate::pack::decoded(t.nonzero@, t.sign@, vals.len())[i] == vals.map_values(
            |v: i8| signum(v),
        )[i]);
    }
    if is_ternary(vals) {
        assert forall|row: int, col: int|
            0 <= row < t.rows && 0 <= col < t.cols implies #[trigger] t.value_at(row, col)
            == vals[row * t.cols + col] by {
            assert(row * t.cols + col < t.rows * t.cols) by (nonlinear_arith)
                requires
                    0 <= row < t.rows,
                    0 <= col < t.cols,
            ;
            let i = row * t.cols + col;
            assert(t.value_at(row, col) == signum(vals[i]));
            assert(-1 <= vals[i] <= 1);
        }
    }
}

/// Scale selection: a tensor with one scale uses it for every row; a
/// per-channel tensor (one scale per row, more than one row) uses scale `r`
/// for row `r`, so different rows may carry different scales.
pub proof fn lemma_scale_selection(t: &TernaryTensor)
    requires
        t.scales_ok(),
    ensures
        t.scale.len() == 1 ==> forall|r: int| #[trigger] t.scale_index(r) == 0,
        t.scale.len() != 1 ==> t.scale.len() == t.rows && forall|r: int|
            0 <= r < t.rows ==> #[trigger] t.scale@[t.scale_index(r)] == t.scale@[r],
{
}

/// Reading one element agrees with decoding the planes, on any planes (not
/// only those `encode` produces): the value at `(row, col)` is element
/// `row * cols + col` of every decoded prefix that covers it. In particular a
/// clear nonzero bit reads 0 whatever the sign bit, and a set nonzero bit reads
/// -1 exactly when the sign bit is set.
pub proof fn lemma_value_at_is_decoded(t: &TernaryTensor, row: int, col: int, n: nat)
    requires
        0 <= row * t.cols + col < n,
    ensures
        t.value_at(row, col) == decoded(t.nonzero@, t.sign@, n)[row * t.cols + col],
        !plane_bit(t.nonzero@, row * t.cols + col) ==> t.value_at(row, col) == 0,
        plane_bit(t.nonzero@, row * t.cols + col) ==> (t.value_at(row, col) == -1 <==> plane_bit(
            t.sign@,
            row * t.cols + col,
        )),
        plane_bit(t.nonzero@, row * t.cols + col) ==> t.value_at(row, col) != 0,
{
}

} // verus!
