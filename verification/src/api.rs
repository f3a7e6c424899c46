//! Argument checks and packing behind the matrix operations.
use vstd::prelude::*;

use crate::pack::{encode, encodes, lemma_decode_encode, signum};
use crate::tensor::TernaryTensor;

verus! {

/// Why a matrix operation refused its arguments.
#[derive(Clone, Copy, Debug, PartialEq, Eq, Structural)]
pub enum ShapeError {
    /// A weight matrix with no rows or no columns.
    EmptyMatrix,
    /// A vector whose length is not the tensor's column count.
    XLenMismatch { xlen: usize, cols: usize },
    /// A matrix whose row count is not the tensor's column count.
    XRowsMismatch { xrows: usize, cols: usize },
}

/// Packs a quantized `rows x cols` weight matrix (row-major values in
/// {-1, 0, 1}) with one per-tensor scale (`f32` bit pattern) into a ternary
/// tensor. An empty matrix is refused.
pub fn pack_tensor(rows: usize, cols: usize, quantized: &[i8], scale: u32) -> (r: Result<
    TernaryTensor,
    ShapeError,
>)
    requires
        quantized.len() + 7 <= usize::MAX,
    ensures
        r is Err <==> (rows == 0 || cols == 0),
        r is Err ==> r == Err::<TernaryTensor, ShapeError>(ShapeError::EmptyMatrix),
        r matches Ok(t) ==> {
            &&& t.rows == rows
            &&& t.cols == cols
            &&& encodes(t.nonzero@, t.sign@, quantized@)
            &&& t.scale@ == seq![scale]
            &&& t.scales_ok()
        },
        r matches Ok(t) ==> quantized.len() == rows * cols ==> {
            &&& t.planes_hold_matrix()
            &&& forall|row: int, col: int|
                0 <= row < rows && 0 <= col < cols ==> #[trigger] t.value_at(row, col) == signum(
                    quantized@[row * cols + col],
                )
        },
{
    if rows == 0 || cols == 0 {
        return Err(ShapeError::EmptyMatrix);
    }
    let (nonzero, sign) = encode(quantized);
    let t = TernaryTensor::new(rows, cols, nonzero, sign, vec![scale]);
    proof {
        lemma_decode_encode(t.nonzero@, t.sign@, quantized@);
        if quantized.len() == rows * cols {
            assert forall|row: int, col: int|
                0 <= row < rows && 0 <= col < cols implies #[trigger] t.value_at(row, col)
                == signum(quantized@[row * cols + col]) by {
                assert(row * cols + col < rows * cols) by (nonlinear_arith)
                    requires
                        0 <= row < rows,
                        0 <= col < cols,
                ;
                let i = row * cols + col;
                assert(crate::pack::decoded(t.nonzero@, t.sign@, quantized@.len())[i]
                    == quantized@.map_values(|v: i8| signum(v))[i]);
            }
        }
    }
    Ok(t)
}

/// Checks that a vector of length `xlen` can multiply `w` (its length must be
/// the column count).
pub fn check_x_len(w: &TernaryTensor, xlen: usize) -> (r: Result<(), ShapeError>)
    ensures
        r is Ok <==> xlen == w.cols,
        r is Err ==> r == Err::<(), ShapeError>(ShapeError::XLenMismatch { xlen, cols: w.cols }),
{
    if xlen != w.cols {
        Err(ShapeError::XLenMismatch { xlen, cols: w.cols })
    } else {
        Ok(())
    }
}

/// Checks that a matrix with `xrows` rows can multiply `w` (its row count must
/// be the column count).
pub fn check_x_rows(w: &TernaryTensor, xrows: usize) -> (r: Result<(), ShapeError>)
    ensures
        r is Ok <==> xrows == w.cols,
        r is Err ==> r == Err::<(), ShapeError>(ShapeError::XRowsMismatch { xrows, cols: w.cols }),
{
    if xrows != w.cols {
        Err(ShapeError::XRowsMismatch { xrows, cols: w.cols })
    } else {
        Ok(())
    }
}

} // verus!
