//! Integer kernels on packed ternary rows: bitplane windows, the int8 row dot
//! product and the int8 GEMM row accumulation.
use vstd::prelude::*;

use crate::pack::{plane_bit, ternary_at, lemma_bit_is_0_or_1};
use crate::tensor::TernaryTensor;

verus! {

/// Bit `base + t` of a plane, reading as zero past the plane's end.
pub open spec fn window_bit(plane: Seq<u8>, base: int, t: int) -> bool {
    base + t < 8 * plane.len() && plane_bit(plane, base + t)
}

/// OR-ing a byte in above the bits already set places its bits at `s .. s + 8`
/// and keeps the lower ones.
proof fn lemma_or_byte_bit(acc: u64, b: u8, s: u64, j: u64)
    requires
        s <= 32,
        j < 64,
        acc >> s == 0,
    ensures
        (acc | ((b as u64) << s)) >> (s + 8) == 0,
        j < s ==> ((acc | ((b as u64) << s)) >> j) & 1 == (acc >> j) & 1,
        s <= j < s + 8 ==> ((acc | ((b as u64) << s)) >> j) & 1 == ((b >> ((j - s) as u8))
            & 1u8) as u64,
{
    assert((acc | ((b as u64) << s)) >> (s + 8) == 0) by (bit_vector)
        requires
            s <= 32,
            acc >> s == 0,
    ;
    assert(j < s ==> ((acc | ((b as u64) << s)) >> j) & 1 == (acc >> j) & 1) by (bit_vector)
        requires
            s <= 32,
            j < 64,
            acc >> s == 0,
    ;
    assert(s <= j < s + 8 ==> ((acc | ((b as u64) << s)) >> j) & 1 == ((b >> ((j - s) as u8))
        & 1u8) as u64) by (bit_vector)
        requires
            s <= 32,
            j < 64,
            acc >> s == 0,
    ;
}

/// Bits at or above `s` of a value below `2^s` are clear.
proof fn lemma_high_bits_clear(acc: u64, s: u64, j: u64)
    requires
        s <= 40,
        j < 64,
        s <= j,
        acc >> s == 0,
    ensures
        (acc >> j) & 1 == 0,
        acc >> (s + 8) == 0,
{
    assert((acc >> j) & 1 == 0) by (bit_vector)
        requires
            s <= j,
            j < 64,
            acc >> s == 0,
    ;
    assert(acc >> (s + 8) == 0) by (bit_vector)
        requires
            s <= 40,
            acc >> s == 0,
    ;
}

/// A single extracted bit of a `u64` is 0 or 1.
proof fn lemma_bit_is_0_or_1_u64(v: u64, k: u64)
    ensures
        (v >> k) & 1u64 == 0u64 || (v >> k) & 1u64 == 1u64,
{
    assert((v >> k) & 1u64 == 0u64 || (v >> k) & 1u64 == 1u64) by (bit_vector);
}

/// Bit `t` of the low 32 bits of `acc >> off` is bit `off + t` of `acc`.
proof fn lemma_window_bit(acc: u64, off: u64, t: u64)
    requires
        off < 8,
        t < 32,
    ensures
        ((((acc >> off) & 0xFFFF_FFFFu64) as u32) >> (t as u32)) & 1u32 == ((acc >> ((off + t)
            as u64)) & 1u64) as u32,
{
    assert(((((acc >> off) & 0xFFFF_FFFFu64) as u32) >> (t as u32)) & 1u32 == ((acc >> ((off + t)
        as u64)) & 1u64) as u32) by (bit_vector)
        requires
            off < 8,
            t < 32,
    ;
}

/// The 32 plane bits starting at bit `base`, bit `base + t` at position `t`.
/// They span at most five bytes; bits past the end of the plane read as zero.
pub fn plane_window(plane: &[u8], base: usize) -> (bits: u32)
    ensures
        forall|t: int|
            0 <= t < 32 ==> (#[trigger] ((bits >> (t as u32)) & 1u32) == 1u32) == window_bit(
                plane@,
                base as int,
                t,
            ),
{
    let nlen = plane.len();
    let byte = base / 8;
    let off = base % 8;
    let mut acc: u64 = 0;
    let mut t: usize = 0;
    assert(0u64 >> 0u64 == 0u64) by (bit_vector);
    while t < 5
        invariant
            t <= 5,
            nlen == plane.len(),
            byte == base / 8,
            acc >> (8 * t) as u64 == 0,
            forall|j: int|
                0 <= j < 8 * t ==> (#[trigger] ((acc >> (j as u64)) & 1u64) == 1u64) == (8 * byte + j
                    < 8 * nlen && plane_bit(plane@, 8 * byte + j)),
        decreases 5 - t,
    {
        let ghost old_acc = acc;
        let s = (8 * t) as u64;
        if byte + t < nlen {
            let b = plane[byte + t];
            acc = acc | ((b as u64) << s);
            assert forall|j: int| 0 <= j < 8 * (t + 1) implies (#[trigger] ((acc >> (j as u64))
                & 1u64) == 1u64) == (8 * byte + j < 8 * nlen && plane_bit(plane@, 8 * byte + j)) by {
                lemma_or_byte_bit(old_acc, b, s, j as u64);
                if j >= 8 * t {
                    lemma_bit_is_0_or_1(b, (j - s) as u8);
                }
            }
            proof {
                lemma_or_byte_bit(old_acc, b, s, 0);
            }
        } else {
            assert forall|j: int| 0 <= j < 8 * (t + 1) implies (#[trigger] ((acc >> (j as u64))
                & 1u64) == 1u64) == (8 * byte + j < 8 * nlen && plane_bit(plane@, 8 * byte + j)) by {
                if j >= 8 * t {
                    lemma_high_bits_clear(acc, s, j as u64);
                }
            }
            proof {
                lemma_high_bits_clear(acc, s, s);
            }
        }
        t = t + 1;
    }
    let bits = (#[verifier::truncate] (((acc >> (off as u64)) & 0xFFFF_FFFFu64) as u32));
    assert forall|t: int| 0 <= t < 32 implies (#[trigger] ((bits >> (t as u32)) & 1u32) == 1u32)
        == window_bit(plane@, base as int, t) by {
        lemma_window_bit(acc, off as u64, t as u64);
        let j: int = off + t;
        assert(((acc >> (j as u64)) & 1u64) == 1u64 <==> (8 * byte + j < 8 * nlen && plane_bit(
            plane@,
            8 * byte + j,
        )));
        assert(8 * byte + j == base + t);
        lemma_bit_is_0_or_1_u64(acc, j as u64);
    }
    bits
}

/// `sum_{c < k} W(base + c) * x[c]`: the dot product of the first `k`
/// ternary values from position `base` of the planes with `x`.
pub open spec fn ternary_dot(nonzero: Seq<u8>, sign: Seq<u8>, base: int, x: Seq<i8>, k: int) -> int
    decreases k,
{
    if k <= 0 {
        0
    } else {
        ternary_dot(nonzero, sign, base, x, k - 1) + ternary_at(nonzero, sign, base + k - 1) * x[k
            - 1]
    }
}

/// `sum_{c < k} W(base + c) * x[c * n + j]`: the first `k` ternary values from
/// position `base` against column `j` of the row-major `(k x n)` matrix `x`.
pub open spec fn ternary_col_dot(
    nonzero: Seq<u8>,
    sign: Seq<u8>,
    base: int,
    x: Seq<i8>,
    n: int,
    j: int,
    k: int,
) -> int
    decreases k,
{
    if k <= 0 {
        0
    } else {
        ternary_col_dot(nonzero, sign, base, x, n, j, k - 1) + ternary_at(
            nonzero,
            sign,
            base + k - 1,
        ) * x[(k - 1) * n + j]
    }
}

/// Column `j` of the row-major `(rows x n)` matrix `x`.
pub open spec fn column(x: Seq<i8>, n: int, j: int, rows: int) -> Seq<i8> {
    Seq::new(rows as nat, |c: int| x[c * n + j])
}

/// Each output column of the GEMM accumulation is a GEMV: the column dot
/// product against column `j` of `x` is the row dot product with that column.
pub proof fn lemma_col_dot_is_column_dot(
    nonzero: Seq<u8>,
    sign: Seq<u8>,
    base: int,
    x: Seq<i8>,
    n: int,
    j: int,
    k: int,
)
    requires
        0 <= k,
    ensures
        ternary_col_dot(nonzero, sign, base, x, n, j, k) == ternary_dot(
            nonzero,
            sign,
            base,
            column(x, n, j, k),
            k,
        ),
{
    lemma_col_dot_prefix(nonzero, sign, base, x, n, j, k, k);
}

/// The column dot product over the first `k` rows only reads those rows of
/// the column.
proof fn lemma_col_dot_prefix(
    nonzero: Seq<u8>,
    sign: Seq<u8>,
    base: int,
    x: Seq<i8>,
    n: int,
    j: int,
    k: int,
    rows: int,
)
    requires
        0 <= k <= rows,
    ensures
        ternary_col_dot(nonzero, sign, base, x, n, j, k) == ternary_dot(
            nonzero,
            sign,
            base,
            column(x, n, j, rows),
            k,
        ),
    decreases k,
{
    if k > 0 {
        lemma_col_dot_prefix(nonzero, sign, base, x, n, j, k - 1, rows);
        assert(column(x, n, j, rows)[k - 1] == x[(k - 1) * n + j]);
    }
}

/// Every running sum `ternary_dot(.., m)` for `m <= k` lies in the `i32` range.
pub open spec fn dot_sums_fit(nonzero: Seq<u8>, sign: Seq<u8>, base: int, x: Seq<i8>, k: int) -> bool {
    forall|m: int|
        0 <= m <= k ==> i32::MIN <= #[trigger] ternary_dot(nonzero, sign, base, x, m) <= i32::MAX
}

/// For every output column `j < n`, `acc[j]` plus every running column sum
/// `ternary_col_dot(.., j, m)` for `m <= k` lies in the `i32` range.
pub open spec fn col_sums_fit(
    nonzero: Seq<u8>,
    sign: Seq<u8>,
    base: int,
    x: Seq<i8>,
    n: int,
    acc: Seq<i32>,
    k: int,
) -> bool {
    forall|j: int, m: int|
        0 <= j < n && 0 <= m <= k ==> i32::MIN <= acc[j] + #[trigger] ternary_col_dot(
            nonzero,
            sign,
            base,
            x,
            n,
            j,
            m,
        ) <= i32::MAX
}

/// Multiplying by a ternary value keeps, negates or zeroes an `i8`.
proof fn lemma_unit_times(t: i8, v: i8)
    ensures
        t == 1 ==> t * v == v,
        t == -1 ==> t * v == -v,
        t == 0 ==> t * v == 0,
{
    assert(t == 1 ==> t * v == v) by (nonlinear_arith);
    assert(t == -1 ==> t * v == -v) by (nonlinear_arith);
    assert(t == 0 ==> t * v == 0) by (nonlinear_arith);
}

/// A ternary value times an `i8` lies in `[-128, 128]`.
proof fn lemma_ternary_term(t: i8, v: i8)
    requires
        t == 0 || t == 1 || t == -1,
    ensures
        -128 <= t * v <= 128,
{
    if t == 1 {
        assert(t * v == v);
    } else if t == -1 {
        assert(t * v == -v);
    } else {
        assert(t * v == 0);
    }
}

/// The dot product of `k` ternary values with `i8` values is at most `128 k`
/// in magnitude.
pub proof fn lemma_ternary_dot_bound(nonzero: Seq<u8>, sign: Seq<u8>, base: int, x: Seq<i8>, k: int)
    requires
        0 <= k,
    ensures
        -128 * k <= ternary_dot(nonzero, sign, base, x, k) <= 128 * k,
    decreases k,
{
    if k > 0 {
        lemma_ternary_dot_bound(nonzero, sign, base, x, k - 1);
        lemma_ternary_term(ternary_at(nonzero, sign, base + k - 1), x[k - 1]);
    }
}

/// The column dot product of `k` ternary values with `i8` values is at most
/// `128 k` in magnitude.
pub proof fn lemma_ternary_col_dot_bound(
    nonzero: Seq<u8>,
    sign: Seq<u8>,
    base: int,
    x: Seq<i8>,
    n: int,
    j: int,
    k: int,
)
    requires
        0 <= k,
    ensures
        -128 * k <= ternary_col_dot(nonzero, sign, base, x, n, j, k) <= 128 * k,
    decreases k,
{
    if k > 0 {
        lemma_ternary_col_dot_bound(nonzero, sign, base, x, n, j, k - 1);
        lemma_ternary_term(ternary_at(nonzero, sign, base + k - 1), x[(k - 1) * n + j]);
    }
}

/// Integer dot product of ternary row `row` of `w` with int8 activations:
/// `sum_k W[row, k] * x_q[k]`. Reads 32 weights at a time through
/// `plane_window`, then the remaining `cols % 32` one by one.
pub fn qdot_row(w: &TernaryTensor, row: usize, x_q: &[i8]) -> (s: i32)
    requires
        row * w.cols + w.cols <= usize::MAX,
        row * w.cols + w.cols <= 8 * w.nonzero.len(),
        row * w.cols + w.cols <= 8 * w.sign.len(),
        w.cols <= x_q.len(),
        dot_sums_fit(w.nonzero@, w.sign@, row * w.cols, x_q@, w.cols as int),
    ensures
        s == ternary_dot(w.nonzero@, w.sign@, row * w.cols, x_q@, w.cols as int),
{
    let cols = w.cols;
    let nz = w.nonzero.as_slice();
    let sg = w.sign.as_slice();
    let rb = row * cols;
    let ghost base0 = rb as int;
    let chunks = cols / 32;
    let mut result: i32 = 0;
    let mut chunk: usize = 0;
    while chunk < chunks
        invariant
            chunk <= chunks,
            chunks == cols / 32,
            cols == w.cols,
            nz@ == w.nonzero@,
            sg@ == w.sign@,
            rb == row * cols,
            base0 == rb,
            rb + cols <= usize::MAX,
            rb + cols <= 8 * nz.len(),
            rb + cols <= 8 * sg.len(),
            cols <= x_q.len(),
            dot_sums_fit(nz@, sg@, base0, x_q@, cols as int),
            result == ternary_dot(nz@, sg@, base0, x_q@, 32 * chunk),
        decreases chunks - chunk,
    {
        let base = rb + chunk * 32;
        let nz32 = plane_window(nz, base);
        let sg32 = plane_window(sg, base);
        let mut lane: u32 = 0;
        while lane < 32
            invariant
                lane <= 32,
                chunk < chunks,
                chunks == cols / 32,
                base == rb + chunk * 32,
                base0 == rb,
                rb + cols <= 8 * nz.len(),
                rb + cols <= 8 * sg.len(),
                cols <= x_q.len(),
                dot_sums_fit(nz@, sg@, base0, x_q@, cols as int),
                forall|t: int|
                    0 <= t < 32 ==> (#[trigger] ((nz32 >> (t as u32)) & 1u32) == 1u32)
                        == window_bit(nz@, base as int, t),
                forall|t: int|
                    0 <= t < 32 ==> (#[trigger] ((sg32 >> (t as u32)) & 1u32) == 1u32)
                        == window_bit(sg@, base as int, t),
                result == ternary_dot(nz@, sg@, base0, x_q@, 32 * chunk + lane),
            decreases 32 - lane,
        {
            let k = chunk * 32 + lane as usize;
            proof {
                assert(i32::MIN <= ternary_dot(nz@, sg@, base0, x_q@, k + 1) <= i32::MAX);
                let tl: int = lane as int;
                assert(((nz32 >> (tl as u32)) & 1u32) == 1u32 <==> window_bit(nz@, base as int, tl));
                assert(((sg32 >> (tl as u32)) & 1u32) == 1u32 <==> window_bit(sg@, base as int, tl));
                assert(tl as u32 == lane);
                assert(base0 + k == base + lane);
            }
            let ghost t = ternary_at(nz@, sg@, base0 + k);
            assert(ternary_dot(nz@, sg@, base0, x_q@, k + 1) == ternary_dot(
                nz@,
                sg@,
                base0,
                x_q@,
                k as int,
            ) + t * x_q@[k as int]);
            if (nz32 >> lane) & 1 == 1 {
                if (sg32 >> lane) & 1 == 1 {
                    assert(t == -1);
                    proof { lemma_unit_times(t, x_q@[k as int]); }
                    result = result - x_q[k] as i32;
                } else {
                    assert(t == 1);
                    proof { lemma_unit_times(t, x_q@[k as int]); }
                    result = result + x_q[k] as i32;
                }
            } else {
                assert(t == 0);
                proof { lemma_unit_times(t, x_q@[k as int]); }
            }
            assert(result == ternary_dot(nz@, sg@, base0, x_q@, k + 1));
            lane = lane + 1;
        }
        chunk = chunk + 1;
    }
    let mut col: usize = chunks * 32;
    while col < cols
        invariant
            chunks * 32 <= col <= cols,
            cols == w.cols,
            nz@ == w.nonzero@,
            sg@ == w.sign@,
            rb == row * cols,
            base0 == rb,
            rb + cols <= usize::MAX,
            rb + cols <= 8 * nz.len(),
            rb + cols <= 8 * sg.len(),
            cols <= x_q.len(),
            dot_sums_fit(nz@, sg@, base0, x_q@, cols as int),
            result == ternary_dot(nz@, sg@, base0, x_q@, col as int),
        decreases cols - col,
    {
        assert(i32::MIN <= ternary_dot(nz@, sg@, base0, x_q@, col + 1) <= i32::MAX);
        let i = rb + col;
        let shift = (i % 8) as u8;
        let ghost t = ternary_at(nz@, sg@, base0 + col);
        assert(ternary_dot(nz@, sg@, base0, x_q@, col + 1) == ternary_dot(
            nz@,
            sg@,
            base0,
            x_q@,
            col as int,
        ) + t * x_q@[col as int]);
        let nzb = (nz[i / 8] >> shift) & 1;
        if nzb == 1 {
            let sgb = (sg[i / 8] >> shift) & 1;
            if sgb == 1 {
                assert(t == -1);
                proof { lemma_unit_times(t, x_q@[col as int]); }
                result = result - x_q[col] as i32;
            } else {
                assert(t == 1);
                proof { lemma_unit_times(t, x_q@[col as int]); }
                result = result + x_q[col] as i32;
            }
        } else {
            assert(t == 0);
            proof { lemma_unit_times(t, x_q@[col as int]); }
        }
        assert(result == ternary_dot(nz@, sg@, base0, x_q@, col + 1));
        col = col + 1;
    }
    result
}

/// `k * n + n <= cols * n` for `k < cols`.
proof fn lemma_row_offset(k: int, cols: int, n: int)
    requires
        0 <= k < cols,
        0 <= n,
    ensures
        k * n + n <= cols * n,
        0 <= k * n,
{
    assert(k * n + n <= cols * n) by (nonlinear_arith)
        requires
            0 <= k < cols,
            0 <= n,
    ;
    assert(0 <= k * n) by (nonlinear_arith)
        requires
            0 <= k,
            0 <= n,
    ;
}

/// Adds to `acc[j]`, for each output column `j < n`, the integer dot product
/// of ternary row `row` of `w` with column `j` of the row-major `(cols x n)`
/// int8 matrix `x_q`: `acc[j] += sum_k W[row, k] * x_q[k * n + j]`.
/// Zero weights are skipped; entries of `acc` past `n` are left alone.
pub fn qgemm_accumulate(w: &TernaryTensor, row: usize, x_q: &[i8], n: usize, acc: &mut Vec<i32>)
    requires
        row * w.cols + w.cols <= usize::MAX,
        row * w.cols + w.cols <= 8 * w.nonzero.len(),
        row * w.cols + w.cols <= 8 * w.sign.len(),
        w.cols * n <= x_q.len(),
        n <= old(acc).len(),
        col_sums_fit(w.nonzero@, w.sign@, row * w.cols, x_q@, n as int, old(acc)@, w.cols as int),
    ensures
        final(acc).len() == old(acc).len(),
        forall|j: int|
            0 <= j < n ==> #[trigger] final(acc)[j] == old(acc)[j] + ternary_col_dot(
                w.nonzero@,
                w.sign@,
                row * w.cols,
                x_q@,
                n as int,
                j,
                w.cols as int,
            ),
        forall|j: int| n <= j < old(acc).len() ==> #[trigger] final(acc)[j] == old(acc)[j],
{
    let cols = w.cols;
    let nz = w.nonzero.as_slice();
    let sg = w.sign.as_slice();
    let rb = row * cols;
    let ghost base0 = rb as int;
    let ghost acc0 = acc@;
    let mut k: usize = 0;
    while k < cols
        invariant
            k <= cols,
            cols == w.cols,
            nz@ == w.nonzero@,
            sg@ == w.sign@,
            rb == row * cols,
            base0 == rb,
            rb + cols <= usize::MAX,
            rb + cols <= 8 * nz.len(),
            rb + cols <= 8 * sg.len(),
            cols * n <= x_q.len(),
            n <= acc0.len(),
            acc.len() == acc0.len(),
            col_sums_fit(nz@, sg@, base0, x_q@, n as int, acc0, cols as int),
            forall|j: int|
                0 <= j < n ==> #[trigger] acc@[j] == acc0[j] + ternary_col_dot(
                    nz@,
                    sg@,
                    base0,
                    x_q@,
                    n as int,
                    j,
                    k as int,
                ),
            forall|j: int| n <= j < acc0.len() ==> #[trigger] acc@[j] == acc0[j],
        decreases cols - k,
    {
        let i = rb + k;
        let shift = (i % 8) as u8;
        let nzb = (nz[i / 8] >> shift) & 1;
        let ghost t = ternary_at(nz@, sg@, base0 + k);
        if nzb == 1 {
            let sgb = (sg[i / 8] >> shift) & 1;
            proof {
                lemma_row_offset(k as int, cols as int, n as int);
                if sgb == 1 {
                    assert(t == -1);
                } else {
                    assert(t == 1);
                }
            }
            let xo = k * n;
            let ghost acc_k = acc@;
            let mut j: usize = 0;
            while j < n
                invariant
                    j <= n,
                    k < cols,
                    xo == k * n,
                    xo + n <= x_q.len(),
                    n <= acc0.len(),
                    acc.len() == acc0.len(),
                    t == 1 || t == -1,
                    t == ternary_at(nz@, sg@, base0 + k),
                    sgb == 1 ==> t == -1,
                    sgb != 1 ==> t == 1,
                    col_sums_fit(nz@, sg@, base0, x_q@, n as int, acc0, cols as int),
                    forall|m: int|
                        0 <= m < n ==> #[trigger] acc_k[m] == acc0[m] + ternary_col_dot(
                            nz@,
                            sg@,
                            base0,
                            x_q@,
                            n as int,
                            m,
                            k as int,
                        ),
                    forall|m: int| 0 <= m < j ==> #[trigger] acc@[m] == acc_k[m] + t * x_q@[xo + m],
                    forall|m: int| j <= m < acc0.len() ==> #[trigger] acc@[m] == acc_k[m],
                decreases n - j,
            {
                proof {
                    assert(i32::MIN <= acc0[j as int] + ternary_col_dot(
                        nz@,
                        sg@,
                        base0,
                        x_q@,
                        n as int,
                        j as int,
                        k + 1,
                    ) <= i32::MAX);
                }
                let xv = x_q[xo + j] as i32;
                let cur = acc[j];
                proof {
                    assert(cur == acc_k[j as int]);
                    assert(xo + j == ((k + 1) - 1) * n + j);
                    assert(ternary_col_dot(nz@, sg@, base0, x_q@, n as int, j as int, k + 1)
                        == ternary_col_dot(nz@, sg@, base0, x_q@, n as int, j as int, k as int) + t
                        * x_q@[xo + j]);
                    if sgb == 1 {
                        lemma_unit_times(t, x_q@[xo + j]);
                    } else {
                        lemma_unit_times(t, x_q@[xo + j]);
                    }
                }
                if sgb == 1 {
                    acc.set(j, cur - xv);
                } else {
                    acc.set(j, cur + xv);
                }
                j = j + 1;
            }
            assert forall|m: int| 0 <= m < n implies #[trigger] acc@[m] == acc0[m] + ternary_col_dot(
                nz@,
                sg@,
                base0,
                x_q@,
                n as int,
                m,
                k + 1,
            ) by {
                assert(acc@[m] == acc_k[m] + t * x_q@[xo + m]);
                assert(xo + m == ((k + 1) - 1) * n + m);
                assert(ternary_col_dot(nz@, sg@, base0, x_q@, n as int, m, k + 1) == ternary_col_dot(
                    nz@,
                    sg@,
                    base0,
                    x_q@,
                    n as int,
                    m,
                    k as int,
                ) + t * x_q@[xo + m]);
            }
        } else {
            assert(t == 0);
            assert forall|m: int| 0 <= m < n implies #[trigger] acc@[m] == acc0[m] + ternary_col_dot(
                nz@,
                sg@,
                base0,
                x_q@,
                n as int,
                m,
                k + 1,
            ) by {
                assert(acc@[m] == acc0[m] + ternary_col_dot(
                    nz@,
                    sg@,
                    base0,
                    x_q@,
                    n as int,
                    m,
                    k as int,
                ));
                lemma_unit_times(t, x_q@[k * n + m]);
                assert(ternary_col_dot(nz@, sg@, base0, x_q@, n as int, m, k + 1) == ternary_col_dot(
                    nz@,
                    sg@,
                    base0,
                    x_q@,
                    n as int,
                    m,
                    k as int,
                ) + t * x_q@[k * n + m]);
            }
        }
        k = k + 1;
    }
}

/// Whether every running sum of `qdot_row(w, row, x_q)` fits in an `i32`,
/// which is what `qdot_row` asks. Rows under 2^24 columns always fit; longer
/// ones are summed in `i64`, stopping at the first sum that leaves the range.
pub fn qdot_row_fits(w: &TernaryTensor, row: usize, x_q: &[i8]) -> (ok: bool)
    requires
        row * w.cols + w.cols <= usize::MAX,
        row * w.cols + w.cols <= 8 * w.nonzero.len(),
        row * w.cols + w.cols <= 8 * w.sign.len(),
        w.cols <= x_q.len(),
    ensures
        ok == dot_sums_fit(w.nonzero@, w.sign@, row * w.cols, x_q@, w.cols as int),
{
    let cols = w.cols;
    let nz = w.nonzero.as_slice();
    let sg = w.sign.as_slice();
    let rb = row * cols;
    let ghost base0 = rb as int;
    if cols < 16_777_216 {
        assert forall|m: int| 0 <= m <= cols implies i32::MIN <= #[trigger] ternary_dot(
            nz@,
            sg@,
            base0,
            x_q@,
            m,
        ) <= i32::MAX by {
            lemma_ternary_dot_bound(nz@, sg@, base0, x_q@, m);
        }
        return true;
    }
    let mut s: i64 = 0;
    let mut k: usize = 0;
    while k < cols
        invariant
            k <= cols,
            cols == w.cols,
            nz@ == w.nonzero@,
            sg@ == w.sign@,
            base0 == rb,
            rb == row * cols,
            rb + cols <= usize::MAX,
            rb + cols <= 8 * nz.len(),
            rb + cols <= 8 * sg.len(),
            cols <= x_q.len(),
            s == ternary_dot(nz@, sg@, base0, x_q@, k as int),
            dot_sums_fit(nz@, sg@, base0, x_q@, k as int),
        decreases cols - k,
    {
        let i = rb + k;
        let shift = (i % 8) as u8;
        let ghost t = ternary_at(nz@, sg@, base0 + k);
        assert(ternary_dot(nz@, sg@, base0, x_q@, k + 1) == ternary_dot(
            nz@,
            sg@,
            base0,
            x_q@,
            k as int,
        ) + t * x_q@[k as int]);
        assert(i32::MIN <= ternary_dot(nz@, sg@, base0, x_q@, k as int) <= i32::MAX);
        let nzb = (nz[i / 8] >> shift) & 1;
        if nzb == 1 {
            let sgb = (sg[i / 8] >> shift) & 1;
            if sgb == 1 {
                assert(t == -1);
                proof { lemma_unit_times(t, x_q@[k as int]); }
                s = s - x_q[k] as i64;
            } else {
                assert(t == 1);
                proof { lemma_unit_times(t, x_q@[k as int]); }
                s = s + x_q[k] as i64;
            }
        } else {
            assert(t == 0);
            proof { lemma_unit_times(t, x_q@[k as int]); }
        }
        assert(s == ternary_dot(nz@, sg@, base0, x_q@, k + 1));
        if s < -2147483648i64 || s > 2147483647i64 {
            assert(!(i32::MIN <= ternary_dot(nz@, sg@, base0, x_q@, k + 1) <= i32::MAX));
            assert(!dot_sums_fit(nz@, sg@, base0, x_q@, cols as int));
            return false;
        }
        k = k + 1;
    }
    true
}

/// Whether every entry `acc[j]` (`j < n`) is at least `margin` away from
/// both ends of the `i32` range.
fn within_margin(acc: &[i32], n: usize, margin: i64) -> (ok: bool)
    requires
        n <= acc.len(),
        0 <= margin <= 2147483648i64,
    ensures
        ok == forall|j: int|
            0 <= j < n ==> i32::MIN + margin <= #[trigger] acc@[j] <= i32::MAX - margin,
{
    let mut j: usize = 0;
    while j < n
        invariant
            j <= n,
            n <= acc.len(),
            0 <= margin <= 2147483648i64,
            forall|m: int| 0 <= m < j ==> i32::MIN + margin <= #[trigger] acc@[m] <= i32::MAX - margin,
        decreases n - j,
    {
        let a = acc[j] as i64;
        if a < -2147483648i64 + margin || a > 2147483647i64 - margin {
            return false;
        }
        j = j + 1;
    }
    true
}

/// Whether `acc[j]` plus every running column sum of
/// `qgemm_accumulate(w, row, x_q, n, acc)` fits in an `i32`, which is what
/// `qgemm_accumulate` asks. Rows under 2^24 columns fit when every `acc[j]`
/// keeps `128 * cols` away from the `i32` bounds; otherwise each column is
/// summed in `i64`, stopping at the first sum that leaves the range.
pub fn qgemm_sums_fit(w: &TernaryTensor, row: usize, x_q: &[i8], n: usize, acc: &[i32]) -> (ok:
    bool)
    requires
        row * w.cols + w.cols <= usize::MAX,
        row * w.cols + w.cols <= 8 * w.nonzero.len(),
        row * w.cols + w.cols <= 8 * w.sign.len(),
        w.cols * n <= x_q.len(),
        n <= acc.len(),
    ensures
        ok == col_sums_fit(w.nonzero@, w.sign@, row * w.cols, x_q@, n as int, acc@, w.cols as int),
{
    let cols = w.cols;
    let nz = w.nonzero.as_slice();
    let sg = w.sign.as_slice();
    let rb = row * cols;
    let ghost base0 = rb as int;
    if cols < 16_777_216 {
        let margin = (128 * cols) as i64;
        if within_margin(acc, n, margin) {
            assert forall|j: int, m: int|
                0 <= j < n && 0 <= m <= cols implies i32::MIN <= acc@[j] + #[trigger] ternary_col_dot(
                nz@,
                sg@,
                base0,
                x_q@,
                n as int,
                j,
                m,
            ) <= i32::MAX by {
                lemma_ternary_col_dot_bound(nz@, sg@, base0, x_q@, n as int, j, m);
                assert(i32::MIN + margin <= acc@[j] <= i32::MAX - margin);
            }
            return true;
        }
    }
    let mut j: usize = 0;
    while j < n
        invariant
            j <= n,
            cols == w.cols,
            nz@ == w.nonzero@,
            sg@ == w.sign@,
            base0 == rb,
            rb == row * cols,
            rb + cols <= usize::MAX,
            rb + cols <= 8 * nz.len(),
            rb + cols <= 8 * sg.len(),
            cols * n <= x_q.len(),
            n <= acc.len(),
            forall|jj: int, m: int|
                0 <= jj < j && 0 <= m <= cols ==> i32::MIN <= acc@[jj] + #[trigger] ternary_col_dot(
                    nz@,
                    sg@,
                    base0,
                    x_q@,
                    n as int,
                    jj,
                    m,
                ) <= i32::MAX,
        decreases n - j,
    {
        let mut s: i64 = acc[j] as i64;
        let mut k: usize = 0;
        while k < cols
            invariant
                k <= cols,
                j < n,
                cols == w.cols,
                nz@ == w.nonzero@,
                sg@ == w.sign@,
                base0 == rb,
                rb == row * cols,
                rb + cols <= usize::MAX,
                rb + cols <= 8 * nz.len(),
                rb + cols <= 8 * sg.len(),
                cols * n <= x_q.len(),
                n <= acc.len(),
                s == acc@[j as int] + ternary_col_dot(nz@, sg@, base0, x_q@, n as int, j as int, k as int),
                forall|m: int|
                    0 <= m <= k ==> i32::MIN <= acc@[j as int] + #[trigger] ternary_col_dot(
                        nz@,
                        sg@,
                        base0,
                        x_q@,
                        n as int,
                        j as int,
                        m,
                    ) <= i32::MAX,
            decreases cols - k,
        {
            proof {
                lemma_row_offset(k as int, cols as int, n as int);
            }
            let i = rb + k;
            let shift = (i % 8) as u8;
            let xi = k * n + j;
            let ghost t = ternary_at(nz@, sg@, base0 + k);
            assert(xi == ((k + 1) - 1) * n + j);
            assert(ternary_col_dot(nz@, sg@, base0, x_q@, n as int, j as int, k + 1)
                == ternary_col_dot(nz@, sg@, base0, x_q@, n as int, j as int, k as int) + t
                * x_q@[xi as int]);
            assert(i32::MIN <= acc@[j as int] + ternary_col_dot(
                nz@,
                sg@,
                base0,
                x_q@,
                n as int,
                j as int,
                k as int,
            ) <= i32::MAX);
            let nzb = (nz[i / 8] >> shift) & 1;
            if nzb == 1 {
                let sgb = (sg[i / 8] >> shift) & 1;
                if sgb == 1 {
                    assert(t == -1);
                    proof { lemma_unit_times(t, x_q@[xi as int]); }
                    s = s - x_q[xi] as i64;
                } else {
                    assert(t == 1);
                    proof { lemma_unit_times(t, x_q@[xi as int]); }
                    s = s + x_q[xi] as i64;
                }
            } else {
                assert(t == 0);
                proof { lemma_unit_times(t, x_q@[xi as int]); }
            }
            if s < -2147483648i64 || s > 2147483647i64 {
                assert(!(i32::MIN <= acc@[j as int] + ternary_col_dot(
                    nz@,
                    sg@,
                    base0,
                    x_q@,
                    n as int,
                    j as int,
                    k + 1,
                ) <= i32::MAX));
                assert(!col_sums_fit(nz@, sg@, base0, x_q@, n as int, acc@, cols as int));
                return false;
            }
            k = k + 1;
        }
        j = j + 1;
    }
    true
}

} // verus!
