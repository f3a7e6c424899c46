//! Bitplane encoding of ternary values.
//!
//! Element `i` lives in byte `i / 8`, bit `i % 8` (least significant bit first)
//! of two planes: the `nonzero` plane holds `v != 0`, the `sign` plane `v < 0`.
use vstd::prelude::*;

verus! {

/// Number of bytes that hold `n` bits.
pub open spec fn spec_bit_len(n: int) -> int {
    (n + 7) / 8
}

/// Bit `i` of a bitplane: bit `i % 8` of byte `i / 8`.
pub open spec fn plane_bit(plane: Seq<u8>, i: int) -> bool {
    (plane[i / 8] >> ((i % 8) as u8)) & 1u8 == 1u8
}

/// The ternary value that the two planes hold at position `i`:
/// `nonzero = 0 -> 0`, `nonzero = 1, sign = 0 -> +1`, `nonzero = 1, sign = 1 -> -1`.
pub open spec fn ternary_at(nonzero: Seq<u8>, sign: Seq<u8>, i: int) -> i8 {
    if !plane_bit(nonzero, i) {
        0
    } else if !plane_bit(sign, i) {
        1
    } else {
        -1i8
    }
}

/// The sign of a value: -1, 0 or +1.
pub open spec fn signum(v: i8) -> i8 {
    if v > 0 {
        1
    } else if v < 0 {
        -1i8
    } else {
        0
    }
}

/// Every value is one of -1, 0, +1.
pub open spec fn is_ternary(vals: Seq<i8>) -> bool {
    forall|i: int| 0 <= i < vals.len() ==> -1 <= #[trigger] vals[i] <= 1
}

/// `(nonzero, sign)` is the bitplane encoding of `vals`: each plane has
/// `ceil(len / 8)` bytes, bit `i` of `nonzero` is `vals[i] != 0`, bit `i` of
/// `sign` is `vals[i] < 0`, and the padding bits past the last value are zero.
pub open spec fn encodes(nonzero: Seq<u8>, sign: Seq<u8>, vals: Seq<i8>) -> bool {
    &&& nonzero.len() == spec_bit_len(vals.len() as int)
    &&& sign.len() == spec_bit_len(vals.len() as int)
    &&& forall|i: int| 0 <= i < vals.len() ==> #[trigger] plane_bit(nonzero, i) == (vals[i] != 0)
    &&& forall|i: int| 0 <= i < vals.len() ==> #[trigger] plane_bit(sign, i) == (vals[i] < 0)
    &&& forall|i: int| vals.len() <= i < 8 * nonzero.len() ==> !#[trigger] plane_bit(nonzero, i)
    &&& forall|i: int| vals.len() <= i < 8 * sign.len() ==> !#[trigger] plane_bit(sign, i)
}

/// The first `n` ternary values that the two planes hold.
pub open spec fn decoded(nonzero: Seq<u8>, sign: Seq<u8>, n: nat) -> Seq<i8> {
    Seq::new(n, |i: int| ternary_at(nonzero, sign, i))
}

/// Setting bit `k` of a byte sets bit `k` and leaves every other bit as it was.
proof fn lemma_set_bit(b: u8, k: u8, j: u8)
    requires
        k < 8,
        j < 8,
    ensures
        ((b | (1u8 << k)) >> j) & 1u8 == (if j == k {
            1u8
        } else {
            (b >> j) & 1u8
        }),
{
    assert(((b | (1u8 << k)) >> j) & 1u8 == (if j == k {
        1u8
    } else {
        (b >> j) & 1u8
    })) by (bit_vector)
        requires
            k < 8,
            j < 8,
    ;
}

/// Every bit of a zero byte is clear.
proof fn lemma_zero_bits(j: u8)
    requires
        j < 8,
    ensures
        (0u8 >> j) & 1u8 == 0u8,
{
    assert((0u8 >> j) & 1u8 == 0u8) by (bit_vector);
}

/// Number of bytes needed to hold `n` bits (`ceil(n / 8)`).
pub fn bit_len(n: usize) -> (len: usize)
    requires
        n + 7 <= usize::MAX,
    ensures
        len == spec_bit_len(n as int),
        8 * len >= n,
        8 * len < n + 8,
{
    (n + 7) / 8
}

/// Sets bit `i` of `plane`; every other bit keeps its value.
fn set_plane_bit(plane: &mut Vec<u8>, i: usize)
    requires
        i / 8 < old(plane).len(),
    ensures
        final(plane).len() == old(plane).len(),
        forall|j: int|
            0 <= j < 8 * old(plane).len() ==> #[trigger] plane_bit(final(plane)@, j) == (j == i
                || plane_bit(old(plane)@, j)),
{
    let idx = i / 8;
    let k = (i % 8) as u8;
    let b = plane[idx];
    plane.set(idx, b | (1u8 << k));
    assert forall|j: int| 0 <= j < 8 * old(plane).len() implies #[trigger] plane_bit(plane@, j) == (
    j == i || plane_bit(old(plane)@, j)) by {
        if j / 8 == idx as int {
            lemma_set_bit(b, k, (j % 8) as u8);
        }
    }
}

/// A plane of `bytes` zero bytes.
fn zero_plane(bytes: usize) -> (plane: Vec<u8>)
    ensures
        plane.len() == bytes,
        forall|j: int| 0 <= j < 8 * bytes ==> !#[trigger] plane_bit(plane@, j),
{
    let mut plane: Vec<u8> = Vec::new();
    for k in 0..bytes
        invariant
            plane.len() == k,
            forall|m: int| 0 <= m < k ==> plane@[m] == 0u8,
    {
        plane.push(0u8);
    }
    assert forall|j: int| 0 <= j < 8 * bytes implies !#[trigger] plane_bit(plane@, j) by {
        lemma_zero_bits((j % 8) as u8);
    }
    plane
}

/// Encodes values in {-1, 0, 1} into two bitplanes `(nonzero, sign)`, each
/// `ceil(n / 8)` bytes. Element `i` goes to byte `i / 8`, bit `i % 8`.
pub fn encode(vals: &[i8]) -> (planes: (Vec<u8>, Vec<u8>))
    requires
        vals.len() + 7 <= usize::MAX,
    ensures
        encodes(planes.0@, planes.1@, vals@),
{
    let n = vals.len();
    let bytes = bit_len(n);
    let mut nonzero = zero_plane(bytes);
    let mut sign = zero_plane(bytes);
    let mut i: usize = 0;
    while i < n
        invariant
            i <= n,
            n == vals.len(),
            bytes == spec_bit_len(n as int),
            8 * bytes >= n,
            nonzero.len() == bytes,
            sign.len() == bytes,
            forall|j: int| 0 <= j < i ==> #[trigger] plane_bit(nonzero@, j) == (vals@[j] != 0),
            forall|j: int| 0 <= j < i ==> #[trigger] plane_bit(sign@, j) == (vals@[j] < 0),
            forall|j: int| i <= j < 8 * bytes ==> !#[trigger] plane_bit(nonzero@, j),
            forall|j: int| i <= j < 8 * bytes ==> !#[trigger] plane_bit(sign@, j),
        decreases n - i,
    {
        let v = vals[i];
        if v != 0 {
            set_plane_bit(&mut nonzero, i);
        }
        if v < 0 {
            set_plane_bit(&mut sign, i);
        }
        i = i + 1;
    }
    (nonzero, sign)
}

/// Decodes the first `n` values from two bitplanes.
/// Decode rule: `nonzero = 0 -> 0`, `nonzero = 1, sign = 0 -> +1`, `nonzero = 1, sign = 1 -> -1`.
pub fn decode(nonzero: &[u8], sign: &[u8], n: usize) -> (vals: Vec<i8>)
    requires
        n <= 8 * nonzero.len(),
        n <= 8 * sign.len(),
    ensures
        vals@ == decoded(nonzero@, sign@, n as nat),
        forall|i: int|
            0 <= i < n ==> (#[trigger] vals@[i] == 0 <==> !plane_bit(nonzero@, i)) && (vals@[i] == 1
                <==> plane_bit(nonzero@, i) && !plane_bit(sign@, i)) && (vals@[i] == -1 <==> plane_bit(
                nonzero@,
                i,
            ) && plane_bit(sign@, i)),
{
    let mut vals: Vec<i8> = Vec::new();
    let mut i: usize = 0;
    while i < n
        invariant
            i <= n,
            n <= 8 * nonzero.len(),
            n <= 8 * sign.len(),
            vals@ == decoded(nonzero@, sign@, i as nat),
        decreases n - i,
    {
        let shift = (i % 8) as u8;
        let nz = (nonzero[i / 8] >> shift) & 1;
        let sg = (sign[i / 8] >> shift) & 1;
        let v: i8 = if nz == 0 {
            0
        } else if sg == 0 {
            1
        } else {
            -1
        };
        proof {
            lemma_bit_is_0_or_1(nonzero@[(i / 8) as int], shift);
            lemma_bit_is_0_or_1(sign@[(i / 8) as int], shift);
        }
        vals.push(v);
        i = i + 1;
        assert(vals@ =~= decoded(nonzero@, sign@, i as nat));
    }
    vals
}

/// A single extracted bit is 0 or 1.
pub(crate) proof fn lemma_bit_is_0_or_1(b: u8, k: u8)
    ensures
        (b >> k) & 1u8 == 0u8 || (b >> k) & 1u8 == 1u8,
{
    assert((b >> k) & 1u8 == 0u8 || (b >> k) & 1u8 == 1u8) by (bit_vector);
}

/// Two bytes whose eight bits agree are equal.
proof fn lemma_byte_from_bits(a: u8, b: u8)
    requires
        (a >> 0u8) & 1u8 == (b >> 0u8) & 1u8,
        (a >> 1u8) & 1u8 == (b >> 1u8) & 1u8,
        (a >> 2u8) & 1u8 == (b >> 2u8) & 1u8,
        (a >> 3u8) & 1u8 == (b >> 3u8) & 1u8,
        (a >> 4u8) & 1u8 == (b >> 4u8) & 1u8,
        (a >> 5u8) & 1u8 == (b >> 5u8) & 1u8,
        (a >> 6u8) & 1u8 == (b >> 6u8) & 1u8,
        (a >> 7u8) & 1u8 == (b >> 7u8) & 1u8,
    ensures
        a == b,
{
    assert(a == b) by (bit_vector)
        requires
            (a >> 0u8) & 1u8 == (b >> 0u8) & 1u8,
            (a >> 1u8) & 1u8 == (b >> 1u8) & 1u8,
            (a >> 2u8) & 1u8 == (b >> 2u8) & 1u8,
            (a >> 3u8) & 1u8 == (b >> 3u8) & 1u8,
            (a >> 4u8) & 1u8 == (b >> 4u8) & 1u8,
            (a >> 5u8) & 1u8 == (b >> 5u8) & 1u8,
            (a >> 6u8) & 1u8 == (b >> 6u8) & 1u8,
            (a >> 7u8) & 1u8 == (b >> 7u8) & 1u8,
    ;
}

/// Two planes of the same length whose bits all agree are equal.
proof fn lemma_plane_from_bits(p: Seq<u8>, q: Seq<u8>)
    requires
        p.len() == q.len(),
        forall|i: int| 0 <= i < 8 * p.len() ==> #[trigger] plane_bit(p, i) == plane_bit(q, i),
    ensures
        p == q,
{
    assert forall|k: int| 0 <= k < p.len() implies p[k] == q[k] by {
        assert(plane_bit(p, 8 * k) == plane_bit(q, 8 * k));
        assert(plane_bit(p, 8 * k + 1) == plane_bit(q, 8 * k + 1));
        assert(plane_bit(p, 8 * k + 2) == plane_bit(q, 8 * k + 2));
        assert(plane_bit(p, 8 * k + 3) == plane_bit(q, 8 * k + 3));
        assert(plane_bit(p, 8 * k + 4) == plane_bit(q, 8 * k + 4));
        assert(plane_bit(p, 8 * k + 5) == plane_bit(q, 8 * k + 5));
        assert(plane_bit(p, 8 * k + 6) == plane_bit(q, 8 * k + 6));
        assert(plane_bit(p, 8 * k + 7) == plane_bit(q, 8 * k + 7));
        lemma_bit_is_0_or_1(p[k], 0u8);
        lemma_bit_is_0_or_1(p[k], 1u8);
        lemma_bit_is_0_or_1(p[k], 2u8);
        lemma_bit_is_0_or_1(p[k], 3u8);
        lemma_bit_is_0_or_1(p[k], 4u8);
        lemma_bit_is_0_or_1(p[k], 5u8);
        lemma_bit_is_0_or_1(p[k], 6u8);
        lemma_bit_is_0_or_1(p[k], 7u8);
        lemma_bit_is_0_or_1(q[k], 0u8);
        lemma_bit_is_0_or_1(q[k], 1u8);
        lemma_bit_is_0_or_1(q[k], 2u8);
        lemma_bit_is_0_or_1(q[k], 3u8);
        lemma_bit_is_0_or_1(q[k], 4u8);
        lemma_bit_is_0_or_1(q[k], 5u8);
        lemma_bit_is_0_or_1(q[k], 6u8);
        lemma_bit_is_0_or_1(q[k], 7u8);
        lemma_byte_from_bits(p[k], q[k]);
    }
    assert(p =~= q);
}

/// Planes in canonical form for `n` values: `ceil(n / 8)` bytes each, a sign
/// bit only where the nonzero bit is set, and zero padding past the last value.
/// These are exactly the planes that `encode` produces.
pub open spec fn canonical_planes(nonzero: Seq<u8>, sign: Seq<u8>, n: nat) -> bool {
    &&& nonzero.len() == spec_bit_len(n as int)
    &&& sign.len() == spec_bit_len(n as int)
    &&& forall|i: int| 0 <= i < n ==> #[trigger] plane_bit(sign, i) ==> plane_bit(nonzero, i)
    &&& forall|i: int| n <= i < 8 * nonzero.len() ==> !#[trigger] plane_bit(nonzero, i)
    &&& forall|i: int| n <= i < 8 * sign.len() ==> !#[trigger] plane_bit(sign, i)
}

/// Round trip: decoding the planes that encode `vals` gives the sign of each
/// value back, so values already in {-1, 0, 1} come back unchanged.
pub proof fn lemma_decode_encode(nonzero: Seq<u8>, sign: Seq<u8>, vals: Seq<i8>)
    requires
        encodes(nonzero, sign, vals),
    ensures
        decoded(nonzero, sign, vals.len()) == vals.map_values(|v: i8| signum(v)),
        is_ternary(vals) ==> decoded(nonzero, sign, vals.len()) == vals,
{
    assert(decoded(nonzero, sign, vals.len()) =~= vals.map_values(|v: i8| signum(v)));
    if is_ternary(vals) {
        assert forall|i: int| 0 <= i < vals.len() implies decoded(nonzero, sign, vals.len())[i]
            == vals[i] by {
            assert(-1 <= vals[i] <= 1);
        }
        assert(decoded(nonzero, sign, vals.len()) =~= vals);
    }
}

/// Every output of `encode` is in canonical form.
pub proof fn lemma_encode_canonical(nonzero: Seq<u8>, sign: Seq<u8>, vals: Seq<i8>)
    requires
        encodes(nonzero, sign, vals),
    ensures
        canonical_planes(nonzero, sign, vals.len()),
{
}

/// Round trip the other way: encoding what canonical planes decode to gives
/// the same planes back.
pub proof fn lemma_encode_decode(
    nonzero: Seq<u8>,
    sign: Seq<u8>,
    n: nat,
    nonzero2: Seq<u8>,
    sign2: Seq<u8>,
)
    requires
        canonical_planes(nonzero, sign, n),
        encodes(nonzero2, sign2, decoded(nonzero, sign, n)),
    ensures
        nonzero2 == nonzero,
        sign2 == sign,
{
    let d = decoded(nonzero, sign, n);
    assert forall|i: int| 0 <= i < 8 * nonzero.len() implies #[trigger] plane_bit(nonzero2, i)
        == plane_bit(nonzero, i) by {
        if i < n {
            assert(plane_bit(nonzero2, i) == (d[i] != 0));
        }
    }
    assert forall|i: int| 0 <= i < 8 * sign.len() implies #[trigger] plane_bit(sign2, i)
        == plane_bit(sign, i) by {
        if i < n {
            assert(plane_bit(sign2, i) == (d[i] < 0));
        }
    }
    lemma_plane_from_bits(nonzero2, nonzero);
    lemma_plane_from_bits(sign2, sign);
}

} // verus!
