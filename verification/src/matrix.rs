//! The Cauchy coding matrix and the encoded-row specification.
//!
//! For `k` data columns and `m` recovery rows, row `i` is assigned the field
//! element `k + i` and column `j` the element `j`; the two index sets are
//! disjoint, so the raw Cauchy entry `1 / ((k + i) ^ j)` is always defined.
//! Each column is scaled by the inverse of its row-0 entry, which leaves
//! every square submatrix of the extended (identity over Cauchy) matrix
//! invertible and makes row 0 all ones, so the first recovery block is the
//! plain XOR of the data blocks.
//!
//! Recovery row `i` of an encoding is, byte for byte, the GF(256) linear
//! combination of the data blocks with these coefficients; [`spec_enc_byte`]
//! states that sum and is the anchor of the encoder's and decoder's
//! contracts.

use crate::gf256::{
    gf_mul, lemma_gf_no_zero_divisors, lemma_gf_pow_nonzero, pow254, spec_gf_div, spec_gf_inv,
    spec_gf_mul,
};
use vstd::prelude::*;

verus! {

/// Entry `(i, j)` of the `(m x k)` coding matrix:
/// `(k ^ j) / ((k + i) ^ j)`, the Cauchy entry scaled per column so that
/// row 0 is all ones.
pub open spec fn spec_coef(k: int, i: int, j: int) -> u8 {
    if i == 0 {
        1u8
    } else {
        spec_gf_div((k as u8) ^ (j as u8), ((k + i) as u8) ^ (j as u8))
    }
}

/// The coding-matrix entry `(i, j)` for `k` data columns. The two index
/// sets are disjoint, so every entry is a nonzero field element.
pub fn coef(k: u32, i: u32, j: u32) -> (r: u8)
    requires
        j < k,
        k + i <= 255,
    ensures
        r == spec_coef(k as int, i as int, j as int),
        r != 0,
{
    if i == 0 {
        1u8
    } else {
        let x: u8 = ((k + i) as u8) ^ (j as u8);
        let y: u8 = (k as u8) ^ (j as u8);
        proof {
            assert(j < k && k + i <= 255 && i >= 1 ==> ((k as u8) ^ (j as u8)) != 0 && (((k
                + i) as u8) ^ (j as u8)) != 0) by (bit_vector);
            lemma_gf_pow_nonzero(x, 254);
            lemma_gf_no_zero_divisors(y, spec_gf_inv(x));
        }
        gf_mul(y, pow254(x))
    }
}

/// The byte sequences held by a sequence of byte vectors.
pub open spec fn seqs_of(v: Seq<Vec<u8>>) -> Seq<Seq<u8>> {
    Seq::new(v.len(), |i: int| v[i]@)
}

/// Byte `p` of recovery row `i`, accumulated over the first `upto` of the
/// `k` data blocks: the XOR of `data[j][p] * C[i][j]` for `j < upto`.
pub open spec fn spec_enc_byte(k: int, i: int, data: Seq<Seq<u8>>, upto: int, p: int) -> u8
    decreases upto,
{
    if upto <= 0 {
        0u8
    } else {
        spec_enc_byte(k, i, data, upto - 1, p) ^ spec_gf_mul(
            data[upto - 1][p],
            spec_coef(k, i, upto - 1),
        )
    }
}

/// Byte `p` of row `t` of the extended `(k + m) x k` code: the identity for
/// data rows `t < k`, the coding matrix for recovery rows `t >= k`.
pub open spec fn spec_ext_row_byte(k: int, t: int, data: Seq<Seq<u8>>, p: int) -> u8 {
    if t < k {
        data[t][p]
    } else {
        spec_enc_byte(k, t - k, data, k, p)
    }
}

/// The XOR over the first `upto` data blocks' bytes `p`.
pub open spec fn spec_xor_byte(data: Seq<Seq<u8>>, upto: int, p: int) -> u8
    decreases upto,
{
    if upto <= 0 {
        0u8
    } else {
        spec_xor_byte(data, upto - 1, p) ^ data[upto - 1][p]
    }
}

/// Row 0 of the coding matrix is all ones, so the first recovery row is the
/// plain XOR of the data blocks, byte for byte.
pub proof fn lemma_first_row_is_xor(k: int, data: Seq<Seq<u8>>, upto: int, p: int)
    ensures
        spec_enc_byte(k, 0, data, upto, p) == spec_xor_byte(data, upto, p),
    decreases upto,
{
    if upto > 0 {
        lemma_first_row_is_xor(k, data, upto - 1, p);
        crate::gf256::lemma_gf_mul_one(data[upto - 1][p]);
        assert(spec_coef(k, 0, upto - 1) == 1);
    }
}

/// Computes one full recovery row: byte `p` of the result is the linear
/// combination of the data blocks' bytes `p` under coding-matrix row `i`.
#[verifier::loop_isolation(false)]
pub fn encode_row(data: &Vec<Vec<u8>>, i: u32, len: usize) -> (r: Vec<u8>)
    requires
        1 <= data@.len(),
        data@.len() + i <= 255,
        forall|j: int| 0 <= j < data@.len() ==> (#[trigger] data@[j])@.len() == len,
    ensures
        r@.len() == len,
        forall|p: int|
            0 <= p < len ==> r@[p] == spec_enc_byte(
                data@.len() as int,
                i as int,
                seqs_of(data@),
                data@.len() as int,
                p,
            ),
{
    let k: usize = data.len();
    let ghost dv: Seq<Seq<u8>> = seqs_of(data@);
    let mut row: Vec<u8> = Vec::new();
    while row.len() < len
        invariant
            row@.len() <= len,
            forall|q: int| 0 <= q < row@.len() ==> row@[q] == 0u8,
        decreases len - row@.len(),
    {
        row.push(0u8);
    }
    let mut j: usize = 0;
    while j < k
        invariant
            j <= k,
            row@.len() == len,
            forall|q: int|
                0 <= q < len ==> row@[q] == spec_enc_byte(k as int, i as int, dv, j as int, q),
        decreases k - j,
    {
        let c: u8 = coef(k as u32, i, j as u32);
        let mut p: usize = 0;
        while p < len
            invariant
                p <= len,
                row@.len() == len,
                c == spec_coef(k as int, i as int, j as int),
                forall|q: int|
                    0 <= q < p ==> row@[q] == spec_enc_byte(k as int, i as int, dv, j + 1, q),
                forall|q: int|
                    p <= q < len ==> row@[q] == spec_enc_byte(k as int, i as int, dv, j as int, q),
            decreases len - p,
        {
            let v: u8 = row[p];
            let dj: &Vec<u8> = &data[j];
            let d: u8 = dj[p];
            let m: u8 = gf_mul(d, c);
            row.set(p, v ^ m);
            p = p + 1;
        }
        j = j + 1;
    }
    row
}

} // verus!
