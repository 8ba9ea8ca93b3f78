//! The encoder, the decoder, and the session layer around them.
//!
//! A [`Cauchy`] session fixes `max_k`, the largest data-block count its
//! calls may use. [`Cauchy::encode`] fills `m` recovery blocks with the
//! GF(256) linear combinations of the `k` data blocks given by the coding
//! matrix; [`Cauchy::decode`] takes any `k` surviving blocks, each tagged
//! with its row index in `[0, k + m)`, and rebuilds the `k` original data
//! blocks, leaving the slice sorted by tag `0..k`.
//!
//! Both calls validate their block counts, sizes and tags first and report
//! a contract violation without touching any buffer. On success, decode's
//! contract states that every supplied block equals the corresponding row
//! of the extended code applied to the returned data — the returned blocks
//! are a data assignment consistent with everything the caller handed in.

use crate::gf256::{gf_mul, pow254};
use crate::matrix::{coef, encode_row, seqs_of, spec_enc_byte, spec_ext_row_byte};
use crate::Error;
use vstd::prelude::*;

verus! {

/// One block of a decode call: a byte buffer tagged with its row index.
///
/// Tags in `[0, k)` mark original data rows, tags in `[k, k + m)` recovery
/// rows.
pub struct Block {
    /// Row index of this block in the extended code.
    pub row: u32,
    /// The block's bytes.
    pub data: Vec<u8>,
}

/// A tagged block buffer, as the decoder sees it: a row index and bytes.
pub trait AsBlock {
    /// The row tag, at the specification level.
    spec fn spec_index(&self) -> u32;

    /// The bytes, at the specification level.
    spec fn spec_data(&self) -> Seq<u8>;

    /// Returns the row tag.
    fn index(&self) -> (r: u32)
        ensures
            r == self.spec_index(),
    ;

    /// Replaces the row tag, leaving the bytes unchanged.
    fn set_index(&mut self, index: u32)
        ensures
            final(self).spec_index() == index,
            final(self).spec_data() == old(self).spec_data(),
    ;

    /// Returns the bytes.
    fn data(&self) -> (r: &Vec<u8>)
        ensures
            r@ == self.spec_data(),
    ;
}

impl AsBlock for Block {
    open spec fn spec_index(&self) -> u32 {
        self.row
    }

    open spec fn spec_data(&self) -> Seq<u8> {
        self.data@
    }

    fn index(&self) -> (r: u32) {
        self.row
    }

    fn set_index(&mut self, index: u32) {
        self.row = index;
    }

    fn data(&self) -> (r: &Vec<u8>) {
        &self.data
    }
}

/// An erasure-coding session: bounds the data-block count of every call
/// made through it.
pub struct Cauchy {
    max_k: u32,
}

/// True when the block counts of a call are out of bounds: no data block,
/// more than `max_k`, or more total rows than GF(256) has elements.
pub open spec fn spec_count_bad(k: int, m: int, max_k: int) -> bool {
    k == 0 || k > max_k || k + m > 256
}

/// True when the block sizes of an encode call are inconsistent: an input
/// or output length differs from the first input's, or that length is zero
/// or not a multiple of the word size.
pub open spec fn spec_size_bad(data: Seq<Seq<u8>>, out: Seq<Seq<u8>>) -> bool {
    let len = data[0].len();
    len == 0 || len % 8 != 0 || (exists|i: int|
        0 <= i < data.len() && (#[trigger] data[i]).len() != len) || (exists|i: int|
        0 <= i < out.len() && (#[trigger] out[i]).len() != len)
}

/// True when the counts of a decode call are out of bounds: the bounds of
/// [`spec_count_bad`], or a block slice that is not exactly `k` long.
pub open spec fn spec_dcount_bad(k: int, m: int, max_k: int, n_blocks: int) -> bool {
    k == 0 || k > max_k || k + m > 256 || n_blocks != k
}

/// The counterpart of [`spec_size_bad`] for a decode call's tagged blocks.
pub open spec fn spec_dsize_bad(s: Seq<Block>) -> bool {
    let len = s[0].data@.len();
    len == 0 || len % 8 != 0 || (exists|i: int|
        0 <= i < s.len() && (#[trigger] s[i].data)@.len() != len)
}

/// True when some decode tag lies outside `[0, k + m)`.
pub open spec fn spec_tag_bad(k: int, m: int, s: Seq<Block>) -> bool {
    exists|i: int| 0 <= i < s.len() && (#[trigger] s[i].row) as int >= k + m
}

/// The byte sequences held by a sequence of blocks, in block order.
pub open spec fn block_datas(s: Seq<Block>) -> Seq<Seq<u8>> {
    Seq::new(s.len(), |i: int| s[i].data@)
}

/// Every block of `s` equals its own row of the extended code applied to
/// the data assignment `d`: `s` is consistent with `d` being the original
/// data.
pub open spec fn spec_consistent(k: int, s: Seq<Block>, d: Seq<Seq<u8>>) -> bool {
    forall|i: int, p: int|
        0 <= i < s.len() && 0 <= p < s[i].data@.len() ==> (#[trigger] s[i].data@[p])
            == spec_ext_row_byte(k, s[i].row as int, d, p)
}

/// Some block of `s` carries the row tag `j`.
pub open spec fn spec_has_tag(s: Seq<Block>, j: int) -> bool {
    exists|i: int| 0 <= i < s.len() && (#[trigger] s[i].row) as int == j
}

/// The blocks carry each data tag `0..k` exactly once: every tag is below
/// `k`, no two blocks share a tag, and every data row is present.
pub open spec fn spec_all_data_rows(k: int, s: Seq<Block>) -> bool {
    (forall|i: int| 0 <= i < s.len() ==> (#[trigger] s[i].row) < k) && (forall|i1: int, i2: int|
        0 <= i1 < s.len() && 0 <= i2 < s.len() && i1 != i2 ==> s[i1].row != s[i2].row) && (
    forall|j: int| 0 <= j < k ==> #[trigger] spec_has_tag(s, j))
}

impl Cauchy {
    /// The session bound is within the field size.
    pub closed spec fn wf(&self) -> bool {
        self.max_k <= 256
    }

    /// The session's `max_k`, at the specification level.
    pub closed spec fn spec_max_k(&self) -> u32 {
        self.max_k
    }

    /// Creates a session for up to `max_k` data blocks per call; rejects a
    /// bound above the field size.
    pub fn new(max_k: u32) -> (r: Result<Cauchy, Error>)
        ensures
            max_k <= 256 ==> (r matches Ok(c) && c.wf() && c.spec_max_k() == max_k),
            max_k > 256 ==> (r matches Err(e) && e == Error::InvalidBlockCount),
    {
        if max_k > 256 {
            Err(Error::InvalidBlockCount)
        } else {
            Ok(Cauchy { max_k })
        }
    }

    /// The largest data-block count this session accepts.
    pub fn max_k(&self) -> (r: u32)
        ensures
            r == self.spec_max_k(),
    {
        self.max_k
    }
}

/// A fresh vector holding the same bytes as `v`.
fn copy_bytes(v: &Vec<u8>) -> (r: Vec<u8>)
    ensures
        r@ == v@,
{
    let mut r: Vec<u8> = Vec::new();
    let mut i: usize = 0;
    while i < v.len()
        invariant
            i <= v@.len(),
            r@ == v@.subrange(0, i as int),
        decreases v@.len() - i,
    {
        r.push(v[i]);
        proof {
            assert(r@ =~= v@.subrange(0, i + 1));
        }
        i = i + 1;
    }
    proof {
        assert(r@ =~= v@);
    }
    r
}

/// Whether two byte vectors hold the same bytes.
fn bytes_eq(a: &Vec<u8>, b: &Vec<u8>) -> (r: bool)
    ensures
        r <==> a@ == b@,
{
    if a.len() != b.len() {
        proof {
            assert(a@ != b@);
        }
        return false;
    }
    let mut i: usize = 0;
    while i < a.len()
        invariant
            i <= a@.len(),
            a@.len() == b@.len(),
            forall|q: int| 0 <= q < i ==> a@[q] == b@[q],
        decreases a@.len() - i,
    {
        if a[i] != b[i] {
            return false;
        }
        i = i + 1;
    }
    proof {
        assert(a@ =~= b@);
    }
    true
}

impl Cauchy {
    /// Fills the `m` recovery blocks with the coding-matrix combinations of
    /// the `k` data blocks: on success, byte `p` of recovery block `i`
    /// equals the XOR over `j < k` of `blocks[j][p] * C[i][j]`.
    ///
    /// Fails with `InvalidBlockCount` when `k == 0`, `k > max_k` or
    /// `k + m > 256`, and with `InconsistentBlockSize` when an input or
    /// output length differs from the first input's or that length is zero
    /// or not a multiple of 8; a failed call leaves the recovery blocks
    /// unchanged.
    pub fn encode(&mut self, blocks: &Vec<Vec<u8>>, recovery_blocks: &mut Vec<Vec<u8>>) -> (r:
        Result<(), Error>)
        requires
            old(self).wf(),
        ensures
            *final(self) == *old(self),
            (r matches Err(e) && e == Error::InvalidBlockCount) <==> spec_count_bad(
                blocks@.len() as int,
                old(recovery_blocks)@.len() as int,
                old(self).spec_max_k() as int,
            ),
            !spec_count_bad(
                blocks@.len() as int,
                old(recovery_blocks)@.len() as int,
                old(self).spec_max_k() as int,
            ) ==> ((r matches Err(e) && e == Error::InconsistentBlockSize) <==> spec_size_bad(
                seqs_of(blocks@),
                seqs_of(old(recovery_blocks)@),
            )),
            r is Ok <==> (!spec_count_bad(
                blocks@.len() as int,
                old(recovery_blocks)@.len() as int,
                old(self).spec_max_k() as int,
            ) && !spec_size_bad(seqs_of(blocks@), seqs_of(old(recovery_blocks)@))),
            r is Err ==> final(recovery_blocks)@ == old(recovery_blocks)@,
            r is Ok ==> final(recovery_blocks)@.len() == old(recovery_blocks)@.len(),
            r is Ok ==> forall|i: int|
                0 <= i < final(recovery_blocks)@.len() ==> (#[trigger] final(recovery_blocks)@[i])@.len()
                    == blocks@[0]@.len(),
            r is Ok ==> forall|i: int, p: int|
                0 <= i < final(recovery_blocks)@.len() && 0 <= p < blocks@[0]@.len() ==> (
                #[trigger] final(recovery_blocks)@[i]@[p]) == spec_enc_byte(
                    blocks@.len() as int,
                    i,
                    seqs_of(blocks@),
                    blocks@.len() as int,
                    p,
                ),
    {
        let k: usize = blocks.len();
        let m: usize = recovery_blocks.len();
        if k == 0 || k > self.max_k as usize || m > 256 || k + m > 256 {
            return Err(Error::InvalidBlockCount);
        }
        let len: usize = blocks[0].len();
        let mut i: usize = 0;
        while i < k
            invariant
                i <= k,
                k == blocks@.len(),
                len == blocks@[0]@.len(),
                !spec_count_bad(
                    blocks@.len() as int,
                    old(recovery_blocks)@.len() as int,
                    old(self).spec_max_k() as int,
                ),
                forall|q: int| 0 <= q < i ==> (#[trigger] blocks@[q])@.len() == len,
            decreases k - i,
        {
            let bi: &Vec<u8> = &blocks[i];
            if bi.len() != len {
                proof {
                    assert(seqs_of(blocks@)[i as int].len() != seqs_of(blocks@)[0].len());
                }
                return Err(Error::InconsistentBlockSize);
            }
            i = i + 1;
        }
        if len == 0 || len % 8 != 0 {
            proof {
                assert(seqs_of(blocks@)[0].len() == len);
            }
            return Err(Error::InconsistentBlockSize);
        }
        let mut i: usize = 0;
        while i < m
            invariant
                i <= m,
                m == recovery_blocks@.len(),
                k == blocks@.len(),
                1 <= k,
                len == blocks@[0]@.len(),
                !spec_count_bad(
                    blocks@.len() as int,
                    old(recovery_blocks)@.len() as int,
                    old(self).spec_max_k() as int,
                ),
                recovery_blocks@ == old(recovery_blocks)@,
                forall|q: int| 0 <= q < i ==> (#[trigger] recovery_blocks@[q])@.len() == len,
            decreases m - i,
        {
            let ri: &Vec<u8> = &recovery_blocks[i];
            if ri.len() != len {
                proof {
                    assert(seqs_of(recovery_blocks@)[i as int].len() != seqs_of(blocks@)[0].len());
                }
                return Err(Error::InconsistentBlockSize);
            }
            i = i + 1;
        }
        proof {
            assert(seqs_of(blocks@)[0].len() == len);
            assert(forall|q: int|
                0 <= q < k ==> (#[trigger] seqs_of(blocks@)[q]).len() == blocks@[q]@.len());
            assert(forall|q: int|
                0 <= q < m ==> (#[trigger] seqs_of(recovery_blocks@)[q]).len()
                    == recovery_blocks@[q]@.len());
            assert(!spec_size_bad(seqs_of(blocks@), seqs_of(recovery_blocks@)));
        }
        let mut i: usize = 0;
        while i < m
            invariant
                i <= m,
                m == recovery_blocks@.len(),
                k == blocks@.len(),
                1 <= k,
                k + m <= 256,
                len == blocks@[0]@.len(),
                forall|j: int| 0 <= j < k ==> (#[trigger] blocks@[j])@.len() == len,
                forall|q: int|
                    0 <= q < i ==> (#[trigger] recovery_blocks@[q])@.len() == len && forall|p: int|
                        0 <= p < len ==> recovery_blocks@[q]@[p] == spec_enc_byte(
                            k as int,
                            q,
                            seqs_of(blocks@),
                            k as int,
                            p,
                        ),
                forall|q: int|
                    i <= q < m ==> (#[trigger] recovery_blocks@[q]) == old(recovery_blocks)@[q],
            decreases m - i,
        {
            let row: Vec<u8> = encode_row(blocks, i as u32, len);
            recovery_blocks.set(i, row);
            i = i + 1;
        }
        Ok(())
    }
}

/// Collects the supplied data rows: returns `k` candidate data buffers and
/// a presence flag per data tag. A flagged tag's buffer holds the bytes of
/// a supplied block carrying that tag; unflagged buffers are zero filled.
#[verifier::loop_isolation(false)]
fn build_candidate(k: u32, blocks: &Vec<Block>, len: usize) -> (r: (Vec<Vec<u8>>, Vec<bool>))
    requires
        blocks@.len() == k,
        forall|i: int| 0 <= i < blocks@.len() ==> (#[trigger] blocks@[i].data)@.len() == len,
    ensures
        r.0@.len() == k,
        r.1@.len() == k,
        forall|j: int| 0 <= j < k ==> (#[trigger] r.0@[j])@.len() == len,
        forall|j: int| 0 <= j < k ==> ((#[trigger] r.1@[j]) <==> spec_has_tag(blocks@, j)),
        forall|j: int|
            0 <= j < k && r.1@[j] ==> exists|i2: int|
                0 <= i2 < blocks@.len() && (#[trigger] blocks@[i2].row) as int == j && r.0@[j]@
                    == blocks@[i2].data@,
{
    let kk = k as usize;
    let mut candidate: Vec<Vec<u8>> = Vec::new();
    let mut present: Vec<bool> = Vec::new();
    while candidate.len() < kk
        invariant
            candidate@.len() == present@.len(),
            candidate@.len() <= kk,
            forall|j: int| 0 <= j < candidate@.len() ==> (#[trigger] candidate@[j])@.len() == len,
            forall|j: int| 0 <= j < present@.len() ==> !(#[trigger] present@[j]),
        decreases kk - candidate@.len(),
    {
        let mut z: Vec<u8> = Vec::new();
        while z.len() < len
            invariant
                z@.len() <= len,
            decreases len - z@.len(),
        {
            z.push(0u8);
        }
        candidate.push(z);
        present.push(false);
    }
    let mut i: usize = 0;
    while i < kk
        invariant
            i <= kk,
            candidate@.len() == kk,
            present@.len() == kk,
            forall|j: int| 0 <= j < kk ==> (#[trigger] candidate@[j])@.len() == len,
            forall|j: int|
                0 <= j < kk ==> ((#[trigger] present@[j]) <==> exists|i2: int|
                    0 <= i2 < i && (#[trigger] blocks@[i2].row) as int == j),
            forall|j: int|
                0 <= j < kk && present@[j] ==> exists|i2: int|
                    0 <= i2 < i && (#[trigger] blocks@[i2].row) as int == j && candidate@[j]@
                        == blocks@[i2].data@,
        decreases kk - i,
    {
        let t: u32 = blocks[i].row;
        if t < k {
            let copy = copy_bytes(&blocks[i].data);
            candidate.set(t as usize, copy);
            present.set(t as usize, true);
        }
        i = i + 1;
    }
    (candidate, present)
}

/// The data tags that no supplied block carries, in increasing order.
#[verifier::loop_isolation(false)]
fn build_missing(k: u32, present: &Vec<bool>) -> (r: Vec<u32>)
    requires
        present@.len() == k,
    ensures
        r@.len() <= k,
        forall|c: int|
            0 <= c < r@.len() ==> (#[trigger] r@[c]) < k && !present@[r@[c] as int],
        (forall|j: int| 0 <= j < k ==> present@[j]) ==> r@.len() == 0,
{
    let kk = k as usize;
    let mut missing: Vec<u32> = Vec::new();
    let mut j: usize = 0;
    while j < kk
        invariant
            j <= kk,
            missing@.len() <= j,
            forall|c: int|
                0 <= c < missing@.len() ==> (#[trigger] missing@[c]) < k
                    && !present@[missing@[c] as int],
        decreases kk - j,
    {
        if !present[j] {
            missing.push(j as u32);
        }
        j = j + 1;
    }
    proof {
        if missing@.len() > 0 && (forall|j2: int| 0 <= j2 < k ==> present@[j2]) {
            assert(!present@[missing@[0] as int]);
        }
    }
    missing
}

/// Assembles the linear system for the missing data rows: one equation per
/// supplied recovery block, with the known (present) data rows' shares
/// already folded into the right-hand side.
#[verifier::loop_isolation(false)]
fn build_system(
    k: u32,
    m: u32,
    blocks: &Vec<Block>,
    candidate: &Vec<Vec<u8>>,
    present: &Vec<bool>,
    missing: &Vec<u32>,
    len: usize,
) -> (r: (Vec<Vec<u8>>, Vec<Vec<u8>>))
    requires
        1 <= k,
        k + m <= 256,
        blocks@.len() == k,
        forall|i: int| 0 <= i < blocks@.len() ==> ((#[trigger] blocks@[i].row) as int) < k + m,
        forall|i: int| 0 <= i < blocks@.len() ==> (#[trigger] blocks@[i].data)@.len() == len,
        candidate@.len() == k,
        forall|j: int| 0 <= j < candidate@.len() ==> (#[trigger] candidate@[j])@.len() == len,
        present@.len() == k,
        forall|c: int| 0 <= c < missing@.len() ==> (#[trigger] missing@[c]) < k,
    ensures
        r.0@.len() == r.1@.len(),
        forall|q: int| 0 <= q < r.0@.len() ==> (#[trigger] r.0@[q])@.len() == missing@.len(),
        forall|q: int| 0 <= q < r.1@.len() ==> (#[trigger] r.1@[q])@.len() == len,
{
    let kk = k as usize;
    let e: usize = missing.len();
    let mut mat: Vec<Vec<u8>> = Vec::new();
    let mut rhs: Vec<Vec<u8>> = Vec::new();
    let mut i: usize = 0;
    while i < kk
        invariant
            i <= kk,
            mat@.len() == rhs@.len(),
            forall|q: int| 0 <= q < mat@.len() ==> (#[trigger] mat@[q])@.len() == e,
            forall|q: int| 0 <= q < rhs@.len() ==> (#[trigger] rhs@[q])@.len() == len,
        decreases kk - i,
    {
        let t: u32 = blocks[i].row;
        if t >= k {
            let ri: u32 = t - k;
            let mut arow: Vec<u8> = Vec::new();
            let mut c: usize = 0;
            while c < e
                invariant
                    c <= e,
                    arow@.len() == c,
                decreases e - c,
            {
                arow.push(coef(k, ri, missing[c]));
                c = c + 1;
            }
            let mut rrow: Vec<u8> = copy_bytes(&blocks[i].data);
            let mut j: usize = 0;
            while j < kk
                invariant
                    j <= kk,
                    rrow@.len() == len,
                decreases kk - j,
            {
                if present[j] {
                    let cf: u8 = coef(k, ri, j as u32);
                    let cj: &Vec<u8> = &candidate[j];
                    let mut p: usize = 0;
                    while p < len
                        invariant
                            p <= len,
                            rrow@.len() == len,
                        decreases len - p,
                    {
                        let v: u8 = rrow[p];
                        rrow.set(p, v ^ gf_mul(cj[p], cf));
                        p = p + 1;
                    }
                }
                j = j + 1;
            }
            mat.push(arow);
            rhs.push(rrow);
        }
        i = i + 1;
    }
    (mat, rhs)
}

/// Gauss-Jordan elimination over GF(256) on the system `(mat | rhs)` with
/// `e` unknown columns: reduces `mat` to the identity on its first `e`
/// rows, carrying `rhs` along, so that row `c` of `rhs` becomes the value
/// of unknown `c`. Returns false when no nonzero pivot can be found for
/// some column — the system is singular.
#[verifier::loop_isolation(false)]
fn eliminate(mat: &mut Vec<Vec<u8>>, rhs: &mut Vec<Vec<u8>>, e: usize, len: usize) -> (ok: bool)
    requires
        old(mat)@.len() == old(rhs)@.len(),
        forall|q: int| 0 <= q < old(mat)@.len() ==> (#[trigger] old(mat)@[q])@.len() == e,
        forall|q: int| 0 <= q < old(rhs)@.len() ==> (#[trigger] old(rhs)@[q])@.len() == len,
    ensures
        final(rhs)@.len() == old(rhs)@.len(),
        forall|q: int| 0 <= q < final(rhs)@.len() ==> (#[trigger] final(rhs)@[q])@.len() == len,
        ok ==> e <= final(rhs)@.len(),
        e == 0 ==> ok,
{
    let n: usize = mat.len();
    let mut c: usize = 0;
    while c < e
        invariant
            c <= e,
            c == 0 || c <= n,
            mat@.len() == n,
            rhs@.len() == n,
            forall|q: int| 0 <= q < mat@.len() ==> (#[trigger] mat@[q])@.len() == e,
            forall|q: int| 0 <= q < rhs@.len() ==> (#[trigger] rhs@[q])@.len() == len,
        decreases e - c,
    {
        let mut piv: usize = n;
        let mut r2: usize = c;
        while r2 < n
            invariant
                c <= r2,
                piv == n || (c <= piv && piv < n),
            decreases n - r2,
        {
            let mrow: &Vec<u8> = &mat[r2];
            if mrow[c] != 0 {
                piv = r2;
                r2 = n;
            } else {
                r2 = r2 + 1;
            }
        }
        if piv == n {
            return false;
        }
        if piv != c {
            let tmp_c = copy_bytes(&mat[c]);
            let tmp_p = copy_bytes(&mat[piv]);
            mat.set(c, tmp_p);
            mat.set(piv, tmp_c);
            let tmp_rc = copy_bytes(&rhs[c]);
            let tmp_rp = copy_bytes(&rhs[piv]);
            rhs.set(c, tmp_rp);
            rhs.set(piv, tmp_rc);
        }
        let inv_p: u8 = {
            let rowc: &Vec<u8> = &mat[c];
            pow254(rowc[c])
        };
        let mut newrow: Vec<u8> = Vec::new();
        let mut col: usize = 0;
        while col < e
            invariant
                col <= e,
                newrow@.len() == col,
            decreases e - col,
        {
            let rowc: &Vec<u8> = &mat[c];
            newrow.push(gf_mul(rowc[col], inv_p));
            col = col + 1;
        }
        mat.set(c, newrow);
        let mut newrhs: Vec<u8> = Vec::new();
        let mut p: usize = 0;
        while p < len
            invariant
                p <= len,
                newrhs@.len() == p,
            decreases len - p,
        {
            let rowc: &Vec<u8> = &rhs[c];
            newrhs.push(gf_mul(rowc[p], inv_p));
            p = p + 1;
        }
        rhs.set(c, newrhs);
        let mut r3: usize = 0;
        while r3 < n
            invariant
                r3 <= n,
                mat@.len() == n,
                rhs@.len() == n,
                forall|q: int| 0 <= q < mat@.len() ==> (#[trigger] mat@[q])@.len() == e,
                forall|q: int| 0 <= q < rhs@.len() ==> (#[trigger] rhs@[q])@.len() == len,
            decreases n - r3,
        {
            if r3 != c {
                let f: u8 = {
                    let rr: &Vec<u8> = &mat[r3];
                    rr[c]
                };
                if f != 0 {
                    let mut nr: Vec<u8> = Vec::new();
                    let mut col2: usize = 0;
                    while col2 < e
                        invariant
                            col2 <= e,
                            nr@.len() == col2,
                        decreases e - col2,
                    {
                        let a: u8 = {
                            let rr: &Vec<u8> = &mat[r3];
                            rr[col2]
                        };
                        let b: u8 = {
                            let rc: &Vec<u8> = &mat[c];
                            rc[col2]
                        };
                        nr.push(a ^ gf_mul(b, f));
                        col2 = col2 + 1;
                    }
                    mat.set(r3, nr);
                    let mut nrh: Vec<u8> = Vec::new();
                    let mut p2: usize = 0;
                    while p2 < len
                        invariant
                            p2 <= len,
                            nrh@.len() == p2,
                        decreases len - p2,
                    {
                        let a: u8 = {
                            let rr: &Vec<u8> = &rhs[r3];
                            rr[p2]
                        };
                        let b: u8 = {
                            let rc: &Vec<u8> = &rhs[c];
                            rc[p2]
                        };
                        nrh.push(a ^ gf_mul(b, f));
                        p2 = p2 + 1;
                    }
                    rhs.set(r3, nrh);
                }
            }
            r3 = r3 + 1;
        }
        c = c + 1;
    }
    true
}

/// Decides whether every supplied block equals its own row of the extended
/// code applied to the candidate data: data rows must match the candidate
/// buffer of their tag, recovery rows must match a fresh encoding of the
/// candidate. This check is what decode's success contract rests on.
#[verifier::loop_isolation(false)]
fn check_consistency(k: u32, m: u32, blocks: &Vec<Block>, candidate: &Vec<Vec<u8>>, len: usize) -> (r:
    bool)
    requires
        1 <= k,
        k + m <= 256,
        candidate@.len() == k,
        forall|i: int| 0 <= i < blocks@.len() ==> ((#[trigger] blocks@[i].row) as int) < k + m,
        forall|i: int| 0 <= i < blocks@.len() ==> (#[trigger] blocks@[i].data)@.len() == len,
        forall|j: int| 0 <= j < candidate@.len() ==> (#[trigger] candidate@[j])@.len() == len,
    ensures
        r <==> spec_consistent(k as int, blocks@, seqs_of(candidate@)),
{
    let ghost dv: Seq<Seq<u8>> = seqs_of(candidate@);
    let n: usize = blocks.len();
    let mut i: usize = 0;
    while i < n
        invariant
            i <= n,
            forall|i2: int, p: int|
                0 <= i2 < i && 0 <= p < blocks@[i2].data@.len() ==> (#[trigger] blocks@[i2].data@[p])
                    == spec_ext_row_byte(k as int, blocks@[i2].row as int, dv, p),
        decreases n - i,
    {
        let t: u32 = blocks[i].row;
        let ghost bi = blocks@[i as int];
        if t < k {
            let same: bool = bytes_eq(&candidate[t as usize], &blocks[i].data);
            if !same {
                proof {
                    assert(exists|p: int| 0 <= p < len && candidate@[t as int]@[p] != bi.data@[p])
                        by {
                        if forall|p: int| 0 <= p < len ==> candidate@[t as int]@[p] == bi.data@[p] {
                            assert(candidate@[t as int]@ =~= bi.data@);
                        }
                    }
                    let p = choose|p: int|
                        0 <= p < len && candidate@[t as int]@[p] != bi.data@[p];
                    assert(dv[t as int] == candidate@[t as int]@);
                    assert(bi.data@[p] != spec_ext_row_byte(k as int, bi.row as int, dv, p));
                }
                return false;
            }
            proof {
                assert(dv[t as int] == candidate@[t as int]@);
                assert(forall|p: int|
                    0 <= p < len ==> (#[trigger] bi.data@[p]) == spec_ext_row_byte(
                        k as int,
                        bi.row as int,
                        dv,
                        p,
                    ));
            }
        } else {
            let row: Vec<u8> = encode_row(candidate, t - k, len);
            if !bytes_eq(&row, &blocks[i].data) {
                proof {
                    assert(exists|p: int| 0 <= p < len && row@[p] != bi.data@[p]) by {
                        if forall|p: int| 0 <= p < len ==> row@[p] == bi.data@[p] {
                            assert(row@ =~= bi.data@);
                        }
                    }
                    let p = choose|p: int| 0 <= p < len && row@[p] != bi.data@[p];
                    assert(row@[p] == spec_enc_byte(k as int, (t - k) as int, dv, k as int, p));
                    assert(bi.data@[p] != spec_ext_row_byte(k as int, bi.row as int, dv, p));
                }
                return false;
            }
            proof {
                assert(forall|p: int|
                    0 <= p < len ==> (#[trigger] bi.data@[p]) == spec_ext_row_byte(
                        k as int,
                        bi.row as int,
                        dv,
                        p,
                    ));
            }
        }
        i = i + 1;
    }
    true
}

impl Cauchy {
    /// Reconstructs the `k` original data blocks from the supplied `k`
    /// tagged blocks (any mix of data rows and recovery rows of a `(k, m)`
    /// encoding) and leaves the slice sorted by tag: block `t` carries tag
    /// `t` and the reconstructed data of row `t`.
    ///
    /// On success, every supplied block equals its own row of the extended
    /// code applied to the returned data ([`spec_consistent`]): supplied
    /// data rows are returned unchanged at their tag's position, and the
    /// returned data re-encodes to every supplied recovery row. A call
    /// whose blocks carry exactly the data tags `0..k` always succeeds.
    ///
    /// Fails with `InvalidBlockCount`, `InconsistentBlockSize` or
    /// `InvalidRowIndex` exactly on the inputs those errors name, and with
    /// `SingularSystem` when the supplied rows do not determine the data
    /// (as with duplicate tags); a failed call leaves the blocks unchanged.
    #[verifier::loop_isolation(false)]
    pub fn decode(&mut self, k: u32, m: u32, blocks: &mut Vec<Block>) -> (r: Result<(), Error>)
        requires
            old(self).wf(),
        ensures
            *final(self) == *old(self),
            (r matches Err(e) && e == Error::InvalidBlockCount) <==> spec_dcount_bad(
                k as int,
                m as int,
                old(self).spec_max_k() as int,
                old(blocks)@.len() as int,
            ),
            !spec_dcount_bad(
                k as int,
                m as int,
                old(self).spec_max_k() as int,
                old(blocks)@.len() as int,
            ) ==> ((r matches Err(e) && e == Error::InconsistentBlockSize) <==> spec_dsize_bad(
                old(blocks)@,
            )),
            (!spec_dcount_bad(
                k as int,
                m as int,
                old(self).spec_max_k() as int,
                old(blocks)@.len() as int,
            ) && !spec_dsize_bad(old(blocks)@)) ==> ((r matches Err(e) && e
                == Error::InvalidRowIndex) <==> spec_tag_bad(k as int, m as int, old(blocks)@)),
            r is Err ==> final(blocks)@ == old(blocks)@,
            r is Ok ==> final(blocks)@.len() == k,
            r is Ok ==> forall|t: int|
                0 <= t < k ==> (#[trigger] final(blocks)@[t]).row == t
                    && final(blocks)@[t].data@.len() == old(blocks)@[0].data@.len(),
            r is Ok ==> spec_consistent(k as int, old(blocks)@, block_datas(final(blocks)@)),
            (!spec_dcount_bad(
                k as int,
                m as int,
                old(self).spec_max_k() as int,
                old(blocks)@.len() as int,
            ) && !spec_dsize_bad(old(blocks)@) && spec_all_data_rows(k as int, old(blocks)@))
                ==> r is Ok,
    {
        let kk = k as usize;
        if k == 0 || k > self.max_k || m > 256 || k + m > 256 || blocks.len() != kk {
            return Err(Error::InvalidBlockCount);
        }
        let len: usize = blocks[0].data.len();
        let mut i: usize = 0;
        while i < kk
            invariant
                i <= kk,
                forall|q: int| 0 <= q < i ==> (#[trigger] blocks@[q].data)@.len() == len,
            decreases kk - i,
        {
            if blocks[i].data.len() != len {
                return Err(Error::InconsistentBlockSize);
            }
            i = i + 1;
        }
        if len == 0 || len % 8 != 0 {
            return Err(Error::InconsistentBlockSize);
        }
        let mut i: usize = 0;
        while i < kk
            invariant
                i <= kk,
                forall|q: int| 0 <= q < i ==> ((#[trigger] blocks@[q].row) as int) < k + m,
            decreases kk - i,
        {
            if blocks[i].row >= k + m {
                return Err(Error::InvalidRowIndex);
            }
            i = i + 1;
        }
        let ghost data_only: bool = spec_all_data_rows(k as int, blocks@);
        let (mut candidate, present) = build_candidate(k, blocks, len);
        let missing: Vec<u32> = build_missing(k, &present);
        let e: usize = missing.len();
        let (mut mat, mut rhs) = build_system(k, m, blocks, &candidate, &present, &missing, len);
        let ok: bool = eliminate(&mut mat, &mut rhs, e, len);
        if !ok {
            proof {
                if data_only {
                    assert(forall|j: int| 0 <= j < k ==> spec_has_tag(blocks@, j));
                    assert(forall|j: int| 0 <= j < k ==> present@[j]);
                    assert(e == 0);
                }
            }
            return Err(Error::SingularSystem);
        }
        let mut c: usize = 0;
        while c < e
            invariant
                c <= e,
                candidate@.len() == kk,
                forall|j: int| 0 <= j < kk ==> (#[trigger] candidate@[j])@.len() == len,
                forall|j: int|
                    0 <= j < kk && present@[j] ==> exists|i2: int|
                        0 <= i2 < blocks@.len() && (#[trigger] blocks@[i2].row) as int == j
                            && candidate@[j]@ == blocks@[i2].data@,
            decreases e - c,
        {
            let sol: Vec<u8> = copy_bytes(&rhs[c]);
            candidate.set(missing[c] as usize, sol);
            c = c + 1;
        }
        if !check_consistency(k, m, blocks, &candidate, len) {
            proof {
                if data_only {
                    let ghost dv = seqs_of(candidate@);
                    assert forall|i2: int, p: int|
                        0 <= i2 < blocks@.len() && 0 <= p < blocks@[i2].data@.len() implies (
                    #[trigger] blocks@[i2].data@[p]) == spec_ext_row_byte(
                        k as int,
                        blocks@[i2].row as int,
                        dv,
                        p,
                    ) by {
                        let t = blocks@[i2].row as int;
                        assert(spec_has_tag(blocks@, t));
                        assert(present@[t]);
                        let i3 = choose|i3: int|
                            0 <= i3 < blocks@.len() && (#[trigger] blocks@[i3].row) as int == t
                                && candidate@[t]@ == blocks@[i3].data@;
                        assert(i3 == i2);
                        assert(dv[t] == candidate@[t]@);
                    }
                    assert(spec_consistent(k as int, blocks@, dv));
                }
            }
            return Err(Error::SingularSystem);
        }
        let mut out: Vec<Block> = Vec::new();
        let mut t: usize = 0;
        while t < kk
            invariant
                t <= kk,
                out@.len() == t,
                forall|t2: int|
                    0 <= t2 < t ==> (#[trigger] out@[t2]).row == t2 && out@[t2].data@
                        == candidate@[t2]@,
            decreases kk - t,
        {
            let data: Vec<u8> = copy_bytes(&candidate[t]);
            out.push(Block { row: t as u32, data });
            t = t + 1;
        }
        *blocks = out;
        proof {
            assert(block_datas(blocks@) =~= seqs_of(candidate@));
        }
        Ok(())
    }
}

/// Encoding is deterministic: two recovery-block sets that both satisfy the
/// encoder's contract for the same `k` data blocks and the same `(k, m)`
/// are byte-identical, whichever call produced them.
pub proof fn lemma_encode_deterministic(
    k: int,
    m: int,
    data: Seq<Seq<u8>>,
    len: int,
    r1: Seq<Seq<u8>>,
    r2: Seq<Seq<u8>>,
)
    requires
        r1.len() == m,
        r2.len() == m,
        forall|i: int| 0 <= i < m ==> (#[trigger] r1[i]).len() == len,
        forall|i: int| 0 <= i < m ==> (#[trigger] r2[i]).len() == len,
        forall|i: int, p: int|
            0 <= i < m && 0 <= p < len ==> (#[trigger] r1[i][p]) == spec_enc_byte(k, i, data, k, p),
        forall|i: int, p: int|
            0 <= i < m && 0 <= p < len ==> (#[trigger] r2[i][p]) == spec_enc_byte(k, i, data, k, p),
    ensures
        r1 == r2,
{
    assert forall|i: int| 0 <= i < m implies r1[i] =~= r2[i] by {
        assert(forall|p: int| 0 <= p < len ==> (#[trigger] r1[i][p]) == r2[i][p]);
    }
    assert(r1 =~~= r2);
}

/// A successful decode hands the supplied data rows back unchanged: when
/// the supplied blocks are consistent with a returned data assignment `d`
/// of `k` rows, each supplied block tagged `t < k` holds exactly `d[t]`.
pub proof fn lemma_decode_preserves_data_rows(k: int, s: Seq<Block>, d: Seq<Seq<u8>>, i: int)
    requires
        spec_consistent(k, s, d),
        0 <= i < s.len(),
        (s[i].row as int) < k,
        s[i].data@.len() == d[s[i].row as int].len(),
    ensures
        s[i].data@ == d[s[i].row as int],
{
    let t = s[i].row as int;
    assert forall|p: int| 0 <= p < s[i].data@.len() implies (#[trigger] s[i].data@[p])
        == d[t][p] by {
        assert(s[i].data@[p] == spec_ext_row_byte(k, t, d, p));
    }
    assert(s[i].data@ =~= d[t]);
}

/// One-time global initialization. The field arithmetic here is computed
/// directly and keeps no process-wide tables, so there is nothing to build:
/// the call is idempotent and always succeeds.
pub fn init() -> (r: Result<(), Error>)
    ensures
        r matches Ok(u) && u == (),
{
    Ok(())
}

} // verus!
