//! Binary quantization: a running mean per dimension is accumulated during
//! the first heap pass; a vector's code sets one bit per dimension, the
//! sign of the component against the mean.  Codes are ranked by Hamming
//! distance, a proxy that the query path re-ranks with full vectors.

use vstd::prelude::*;
use crate::blob::{read_blob, spec_blob_chain, write_blob};
use crate::distance::COMP_BOUND;
use crate::meta_page::{spec_meta_of, spec_meta_ok, MetaPage};
use crate::node::{decode_comps_vec, encode_comps_vec, spec_bq_words, spec_encode_comps};
use crate::page::{PageType, Relation};
use crate::tape::Tape;
use crate::util::{IndexError, ItemPointer};

verus! {

/// Largest sample count the trainer accepts.
pub const MAX_BQ_SAMPLES: u64 = 0x100_0000_0000;

/// Mean of a dimension: the truncated average of the accumulated sum,
/// computed over values shifted into the non-negative range.
pub open spec fn spec_bq_mean(sum: int, count: int) -> int {
    if count == 0 {
        0
    } else {
        (sum + count * COMP_BOUND) / count - COMP_BOUND
    }
}

/// Bit `d` of a vector's code: the component lies above the mean.
pub open spec fn spec_bq_bit(v: Seq<i32>, means: Seq<i32>, d: int) -> bool {
    0 <= d < v.len() && v[d] > means[d]
}

/// Bits `base + j .. base + 64` packed with bit `base + j` lowest.
pub open spec fn spec_word_acc(v: Seq<i32>, means: Seq<i32>, base: int, j: int) -> int
    decreases 64 - j,
{
    if j >= 64 {
        0
    } else {
        2 * spec_word_acc(v, means, base, j + 1) + if spec_bq_bit(v, means, base + j) {
            1int
        } else {
            0int
        }
    }
}

/// The packed code of a vector against the means.
pub open spec fn spec_bq_quantize(v: Seq<i32>, means: Seq<i32>) -> Seq<u64> {
    Seq::new(
        spec_bq_words(v.len() as int) as nat,
        |k: int| spec_word_acc(v, means, 64 * k, 0) as u64,
    )
}

/// `x` shifted down by `k` bits, as repeated halving.
pub open spec fn spec_shr(x: int, k: int) -> int
    decreases k,
{
    if k <= 0 {
        x
    } else {
        spec_shr(x, k - 1) / 2
    }
}

/// Bit `d` of a packed code.
pub open spec fn spec_code_bit(w: Seq<u64>, d: int) -> bool {
    spec_shr(w[d / 64] as int, d % 64) % 2 == 1
}

/// Hamming distance over the first `n` bits of two codes.
pub open spec fn spec_hamming(a: Seq<u64>, b: Seq<u64>, n: int) -> int
    decreases n,
{
    if n <= 0 {
        0
    } else {
        spec_hamming(a, b, n - 1) + if spec_code_bit(a, n - 1) != spec_code_bit(b, n - 1) {
            1int
        } else {
            0int
        }
    }
}

/// A packed word is below `2^(64 - j)`.
proof fn lemma_word_acc_bound(v: Seq<i32>, means: Seq<i32>, base: int, j: int)
    requires
        0 <= j <= 64,
    ensures
        0 <= spec_word_acc(v, means, base, j) < spec_cap_pow(64 - j),
    decreases 64 - j,
{
    if j < 64 {
        lemma_word_acc_bound(v, means, base, j + 1);
    }
}

/// `2^k` for the small exponents the packer needs.
pub open spec fn spec_cap_pow(k: int) -> int
    decreases k,
{
    if k <= 0 {
        1
    } else {
        2 * spec_cap_pow(k - 1)
    }
}

proof fn lemma_cap_pow_64()
    ensures
        spec_cap_pow(64) == 0x1_0000_0000_0000_0000,
{
    reveal_with_fuel(spec_cap_pow, 65);
    assert(spec_cap_pow(64) == 0x1_0000_0000_0000_0000);
}

/// Halving `2a + b` for a bit `b` recovers `a`, shifted one less.
proof fn lemma_shr_double(a: int, b: int, k: int)
    requires
        a >= 0,
        0 <= b < 2,
        k >= 1,
    ensures
        spec_shr(2 * a + b, k) == spec_shr(a, k - 1),
    decreases k,
{
    if k == 1 {
        assert((2 * a + b) / 2 == a) by (nonlinear_arith)
            requires
                a >= 0,
                0 <= b < 2,
        ;
        assert(spec_shr(2 * a + b, 0) == 2 * a + b);
        assert(spec_shr(2 * a + b, 1) == spec_shr(2 * a + b, 0) / 2);
        assert(spec_shr(a, 0) == a);
    } else {
        lemma_shr_double(a, b, k - 1);
        assert(spec_shr(2 * a + b, k) == spec_shr(2 * a + b, k - 1) / 2);
        assert(spec_shr(a, k - 1) == spec_shr(a, k - 2) / 2);
    }
}

/// Shifting a packed word down by `t - j` and reading the parity gives the
/// bit packed for dimension `base + t`.
proof fn lemma_word_acc_bit(v: Seq<i32>, means: Seq<i32>, base: int, j: int, t: int)
    requires
        0 <= j <= t < 64,
    ensures
        spec_shr(spec_word_acc(v, means, base, j), t - j) % 2 == (if spec_bq_bit(
            v,
            means,
            base + t,
        ) {
            1int
        } else {
            0int
        }),
    decreases t - j,
{
    let acc1 = spec_word_acc(v, means, base, j + 1);
    let b: int = if spec_bq_bit(v, means, base + j) {
        1
    } else {
        0
    };
    lemma_word_acc_bound(v, means, base, j + 1);
    if t == j {
        assert((2 * acc1 + b) % 2 == b) by (nonlinear_arith)
            requires
                acc1 >= 0,
                0 <= b < 2,
        ;
    } else {
        lemma_shr_double(acc1, b, t - j);
        lemma_word_acc_bit(v, means, base, j + 1, t);
    }
}

/// Bit `d` of a quantized code is the sign bit of dimension `d`.
pub proof fn lemma_quantize_bit(v: Seq<i32>, means: Seq<i32>, d: int)
    requires
        0 <= d < v.len(),
        v.len() < 2000,
    ensures
        spec_code_bit(spec_bq_quantize(v, means), d) == spec_bq_bit(v, means, d),
{
    let k = d / 64;
    let t = d % 64;
    vstd::arithmetic::div_mod::lemma_fundamental_div_mod(d, 64);
    assert(0 <= k < spec_bq_words(v.len() as int));
    let w = spec_bq_quantize(v, means);
    lemma_word_acc_bound(v, means, 64 * k, 0);
    lemma_cap_pow_64();
    assert(w[k] as int == spec_word_acc(v, means, 64 * k, 0));
    lemma_word_acc_bit(v, means, 64 * k, 0, t);
}

/// A Hamming distance lies between zero and the bit count.
pub proof fn lemma_hamming_bounds(a: Seq<u64>, b: Seq<u64>, n: int)
    requires
        n >= 0,
    ensures
        0 <= spec_hamming(a, b, n) <= n,
    decreases n,
{
    if n > 0 {
        lemma_hamming_bounds(a, b, n - 1);
    }
}

/// Counting more bits never lowers the distance: the proxy is monotone in
/// the dimension count.
pub proof fn lemma_hamming_monotone(a: Seq<u64>, b: Seq<u64>, m: int, n: int)
    requires
        0 <= m <= n,
    ensures
        spec_hamming(a, b, m) <= spec_hamming(a, b, n),
    decreases n - m,
{
    if m < n {
        lemma_hamming_monotone(a, b, m, n - 1);
    }
}

/// Hamming distance over the first `dims` bits of two packed codes.
pub fn hamming_distance(a: &Vec<u64>, b: &Vec<u64>, dims: u32) -> (r: u64)
    requires
        dims < 2000,
        a@.len() == spec_bq_words(dims as int),
        b@.len() == spec_bq_words(dims as int),
    ensures
        r as int == spec_hamming(a@, b@, dims as int),
        r <= dims,
{
    proof {
        lemma_hamming_bounds(a@, b@, dims as int);
    }
    let mut diff: u64 = 0;
    let mut d: usize = 0;
    let mut cur_a: u64 = 0;
    let mut cur_b: u64 = 0;
    while d < dims as usize
        invariant
            0 <= d <= dims,
            diff as int == spec_hamming(a@, b@, d as int),
            diff <= d,
            d % 64 != 0 ==> cur_a as int == spec_shr(a@[d as int / 64] as int, d as int % 64)
                && cur_b as int == spec_shr(b@[d as int / 64] as int, d as int % 64),
        decreases dims - d,
    {
        if d % 64 == 0 {
            cur_a = a[d / 64];
            cur_b = b[d / 64];
            proof {
                assert(cur_a as int == spec_shr(a@[d as int / 64] as int, 0));
                assert(cur_b as int == spec_shr(b@[d as int / 64] as int, 0));
            }
        }
        proof {
            lemma_hamming_bounds(a@, b@, d as int + 1);
            assert(cur_a as int == spec_shr(a@[d as int / 64] as int, d as int % 64));
            assert(spec_code_bit(a@, d as int) == (cur_a % 2 == 1));
            assert(spec_code_bit(b@, d as int) == (cur_b % 2 == 1));
        }
        if (cur_a % 2) != (cur_b % 2) {
            diff = diff + 1;
        }
        proof {
            assert((d as int + 1) % 64 != 0 ==> (d as int + 1) / 64 == d as int / 64 && (d as int
                + 1) % 64 == d as int % 64 + 1);
        }
        cur_a = cur_a / 2;
        cur_b = cur_b / 2;
        d = d + 1;
    }
    diff
}


/// The metadata's blob pointer leads to a chain holding exactly these
/// means.
pub open spec fn spec_bq_blob_ok(rel: Relation, meta: MetaPage, means: Seq<i32>) -> bool {
    exists|c: nat|
        spec_blob_chain(
            rel,
            (ItemPointer { block_number: meta.pq_block_number, offset: meta.pq_block_offset }),
            PageType::BqBlob,
            spec_encode_comps(means, meta.num_dimensions as int),
            c,
        )
}

/// The binary quantizer: sums accumulated while training, the means they
/// settle into, and the dimension count they describe.
pub struct BqQuantizer {
    pub dims: u32,
    pub count: u64,
    pub sums: Vec<i64>,
    pub means: Vec<i32>,
}

impl BqQuantizer {
    /// The trainer's bookkeeping stays inside the ranges its arithmetic
    /// needs.
    pub open spec fn wf(self) -> bool {
        &&& self.dims < 2000
        &&& self.sums@.len() == self.dims
        &&& self.means@.len() == self.dims
        &&& self.count <= MAX_BQ_SAMPLES
        &&& forall|i: int|
            0 <= i < self.dims ==> -COMP_BOUND <= #[trigger] self.means@[i] <= COMP_BOUND
        &&& forall|i: int|
            0 <= i < self.dims ==> -(self.count as int) * COMP_BOUND <= #[trigger] self.sums@[i]
                <= (self.count as int) * COMP_BOUND
    }

    pub fn new() -> (r: Self)
        ensures
            r.wf(),
            r.dims == 0,
            r.count == 0,
    {
        BqQuantizer { dims: 0, count: 0, sums: Vec::new(), means: Vec::new() }
    }

    /// Reset the trainer for the metadata's dimension count.
    pub fn start_training(&mut self, meta_page: &MetaPage)
        requires
            meta_page.wf(),
        ensures
            final(self).wf(),
            final(self).dims == meta_page.num_dimensions,
            final(self).count == 0,
            forall|i: int| 0 <= i < final(self).dims ==> #[trigger] final(self).sums@[i] == 0,
            forall|i: int| 0 <= i < final(self).dims ==> #[trigger] final(self).means@[i] == 0,
    {
        let dims = meta_page.get_num_dimensions();
        let mut sums: Vec<i64> = Vec::new();
        let mut means: Vec<i32> = Vec::new();
        let mut i: usize = 0;
        while i < dims as usize
            invariant
                0 <= i <= dims,
                sums@.len() == i,
                means@.len() == i,
                forall|j: int| 0 <= j < i ==> #[trigger] sums@[j] == 0,
                forall|j: int| 0 <= j < i ==> #[trigger] means@[j] == 0,
            decreases dims - i,
        {
            sums.push(0);
            means.push(0);
            i = i + 1;
        }
        self.dims = dims;
        self.count = 0;
        self.sums = sums;
        self.means = means;
    }

    /// Fold one vector into the running sums.
    pub fn add_sample(&mut self, sample: &Vec<i32>)
        requires
            old(self).wf(),
            old(self).count < MAX_BQ_SAMPLES,
            sample@.len() == old(self).dims,
            forall|i: int|
                0 <= i < sample@.len() ==> -COMP_BOUND <= #[trigger] sample@[i] <= COMP_BOUND,
        ensures
            final(self).wf(),
            final(self).dims == old(self).dims,
            final(self).means == old(self).means,
            final(self).count == old(self).count + 1,
            forall|i: int|
                0 <= i < final(self).dims ==> #[trigger] final(self).sums@[i] == old(self).sums@[i]
                    + sample@[i],
    {
        let dims = self.dims as usize;
        let mut sums: Vec<i64> = Vec::new();
        let mut i: usize = 0;
        while i < dims
            invariant
                0 <= i <= dims,
                dims == self.dims,
                self == old(self),
                sample@.len() == self.dims,
                self.wf(),
                self.count < MAX_BQ_SAMPLES,
                forall|j: int|
                    0 <= j < sample@.len() ==> -COMP_BOUND <= #[trigger] sample@[j] <= COMP_BOUND,
                sums@.len() == i,
                forall|j: int|
                    0 <= j < i ==> #[trigger] sums@[j] == self.sums@[j] + sample@[j],
            decreases dims - i,
        {
            let s: i64 = self.sums[i] + sample[i] as i64;
            sums.push(s);
            i = i + 1;
        }
        self.sums = sums;
        self.count = self.count + 1;
    }

    /// Settle the means: each dimension becomes the truncated average of
    /// its accumulated sum.
    pub fn finish_training(&mut self)
        requires
            old(self).wf(),
        ensures
            final(self).wf(),
            final(self).dims == old(self).dims,
            final(self).count == old(self).count,
            final(self).sums == old(self).sums,
            forall|i: int|
                0 <= i < final(self).dims ==> #[trigger] final(self).means@[i] as int
                    == spec_bq_mean(old(self).sums@[i] as int, old(self).count as int),
    {
        let dims = self.dims as usize;
        let count = self.count;
        let mut means: Vec<i32> = Vec::new();
        let mut i: usize = 0;
        while i < dims
            invariant
                0 <= i <= dims,
                dims == self.dims,
                self == old(self),
                count == self.count,
                self.wf(),
                means@.len() == i,
                forall|j: int|
                    0 <= j < i ==> #[trigger] means@[j] as int == spec_bq_mean(
                        self.sums@[j] as int,
                        self.count as int,
                    ) && -COMP_BOUND <= means@[j] <= COMP_BOUND,
            decreases dims - i,
        {
            let m: i32;
            if count == 0 {
                m = 0;
            } else {
                let shifted: u64 = (self.sums[i] + (count as i64) * (COMP_BOUND as i64)) as u64;
                let q: u64 = shifted / count;
                proof {
                    assert(q <= 2 * COMP_BOUND) by (nonlinear_arith)
                        requires
                            q == shifted as int / count as int,
                            shifted as int <= count as int * (2 * COMP_BOUND as int),
                            count > 0,
                    ;
                }
                m = (q as i64 - COMP_BOUND as i64) as i32;
            }
            means.push(m);
            i = i + 1;
        }
        self.means = means;
    }

    /// Pack a vector's sign bits against the settled means.
    pub fn quantize(&self, full_vector: &Vec<i32>) -> (r: Vec<u64>)
        requires
            self.wf(),
            full_vector@.len() == self.dims,
        ensures
            r@ == spec_bq_quantize(full_vector@, self.means@),
            r@.len() == spec_bq_words(self.dims as int),
    {
        let dims = self.dims as usize;
        let words = (dims + 63) / 64;
        let mut out: Vec<u64> = Vec::new();
        let mut k: usize = 0;
        while k < words
            invariant
                0 <= k <= words,
                words == spec_bq_words(self.dims as int),
                dims == self.dims,
                self.wf(),
                full_vector@.len() == self.dims,
                out@.len() == k,
                forall|t: int|
                    0 <= t < k ==> #[trigger] out@[t] as int == spec_word_acc(
                        full_vector@,
                        self.means@,
                        64 * t,
                        0,
                    ),
            decreases words - k,
        {
            let mut w: u64 = 0;
            let mut j: usize = 64;
            while j > 0
                invariant
                    0 <= j <= 64,
                    k < words,
                    dims == self.dims,
                    self.wf(),
                    full_vector@.len() == self.dims,
                    w as int == spec_word_acc(full_vector@, self.means@, 64 * k as int, j as int),
                    (w as int) < spec_cap_pow(64 - j as int),
                decreases j,
            {
                j = j - 1;
                let d = 64 * k + j;
                let bit: u64 = if d < dims && full_vector[d] > self.means[d] {
                    1
                } else {
                    0
                };
                proof {
                    lemma_cap_pow_64();
                    lemma_cap_pow_monotone(64 - j as int - 1, 64);
                    lemma_cap_pow_monotone(64 - j as int, 64);
                    assert(bit as int == (if spec_bq_bit(full_vector@, self.means@, 64 * k as int
                        + j as int) {
                        1int
                    } else {
                        0int
                    }));
                }
                w = 2 * w + bit;
            }
            out.push(w);
            k = k + 1;
        }
        proof {
            assert forall|t: int| 0 <= t < words implies #[trigger] out@[t] == spec_bq_quantize(
                full_vector@,
                self.means@,
            )[t] by {
                lemma_word_acc_bound(full_vector@, self.means@, 64 * t, 0);
                lemma_cap_pow_64();
            }
            assert(out@ =~= spec_bq_quantize(full_vector@, self.means@));
        }
        out
    }

    /// Load the means from the blob chain the metadata points to.  Fails
    /// with `Storage` when there is no pointer or the chain does not hold a
    /// component vector of the right length.
    #[verifier::rlimit(50)]
    pub fn load(rel: &Relation, meta_page: &MetaPage) -> (r: Result<BqQuantizer, IndexError>)
        requires
            meta_page.wf(),
        ensures
            r is Err ==> r == Result::<BqQuantizer, IndexError>::Err(IndexError::Storage),
            r is Ok ==> r->Ok_0.wf() && r->Ok_0.dims == meta_page.num_dimensions,
            r is Ok ==> spec_bq_blob_ok(*rel, *meta_page, r->Ok_0.means@),
            (!(meta_page.pq_block_number == 0 && meta_page.pq_block_offset == 0) && (
            meta_page.use_pq || meta_page.use_bq) && exists|means: Seq<i32>|
                means.len() == meta_page.num_dimensions && (forall|i: int|
                    0 <= i < means.len() ==> -COMP_BOUND <= #[trigger] means[i] <= COMP_BOUND)
                    && #[trigger] spec_bq_blob_ok(*rel, *meta_page, means)) ==> r is Ok,
    {
        let ghost loadable = !(meta_page.pq_block_number == 0 && meta_page.pq_block_offset == 0)
            && (meta_page.use_pq || meta_page.use_bq) && exists|means: Seq<i32>|
            means.len() == meta_page.num_dimensions && (forall|i: int|
                0 <= i < means.len() ==> -COMP_BOUND <= #[trigger] means[i] <= COMP_BOUND)
                && #[trigger] spec_bq_blob_ok(*rel, *meta_page, means);
        let head = match meta_page.get_pq_pointer() {
            Some(ip) => ip,
            None => {
                return Err(IndexError::Storage);
            },
        };
        let dims = meta_page.get_num_dimensions();
        proof {
            if loadable {
                let ms = choose|ms: Seq<i32>|
                    ms.len() == meta_page.num_dimensions && (forall|i: int|
                        0 <= i < ms.len() ==> -COMP_BOUND <= #[trigger] ms[i] <= COMP_BOUND)
                        && #[trigger] spec_bq_blob_ok(*rel, *meta_page, ms);
                crate::node::lemma_encode_comps_len(ms, dims as int);
                let c = choose|c: nat|
                    spec_blob_chain(
                        *rel,
                        head,
                        PageType::BqBlob,
                        spec_encode_comps(ms, dims as int),
                        c,
                    );
                assert(spec_blob_chain(
                    *rel,
                    head,
                    PageType::BqBlob,
                    spec_encode_comps(ms, dims as int),
                    c,
                ) && spec_encode_comps(ms, dims as int).len() <= 4 * dims);
            }
        }
        let bytes = match read_blob(rel, head, PageType::BqBlob, 4 * dims as usize) {
            Ok(b) => b,
            Err(e) => {
                return Err(e);
            },
        };
        proof {
            if loadable {
                let ms = choose|ms: Seq<i32>|
                    ms.len() == meta_page.num_dimensions && (forall|i: int|
                        0 <= i < ms.len() ==> -COMP_BOUND <= #[trigger] ms[i] <= COMP_BOUND)
                        && #[trigger] spec_bq_blob_ok(*rel, *meta_page, ms);
                let c = choose|c: nat|
                    spec_blob_chain(
                        *rel,
                        head,
                        PageType::BqBlob,
                        spec_encode_comps(ms, dims as int),
                        c,
                    );
                let c2 = choose|c2: nat| spec_blob_chain(*rel, head, PageType::BqBlob, bytes@, c2);
                crate::blob::lemma_blob_chain_unique(
                    *rel,
                    head,
                    PageType::BqBlob,
                    bytes@,
                    c2,
                    spec_encode_comps(ms, dims as int),
                    c,
                );
                assert(bytes@ == spec_encode_comps(ms, dims as int));
            }
        }
        let means = match decode_comps_vec(&bytes, dims as usize) {
            Some(v) => v,
            None => {
                return Err(IndexError::Storage);
            },
        };
        let mut q = BqQuantizer::new();
        q.start_training(meta_page);
        let BqQuantizer { dims: qd, count, sums, means: _zeros } = q;
        let out = BqQuantizer { dims: qd, count, sums, means };
        proof {
            let c = choose|c: nat| spec_blob_chain(*rel, head, PageType::BqBlob, bytes@, c);
            assert(spec_encode_comps(out.means@, dims as int) == bytes@);
            assert(head == (ItemPointer {
                block_number: meta_page.pq_block_number,
                offset: meta_page.pq_block_offset,
            }));
            assert(spec_blob_chain(
                *rel,
                head,
                PageType::BqBlob,
                spec_encode_comps(out.means@, meta_page.num_dimensions as int),
                c,
            ));
            assert(spec_bq_blob_ok(*rel, *meta_page, out.means@)) by {
                assert(spec_blob_chain(
                    *rel,
                    (ItemPointer {
                        block_number: meta_page.pq_block_number,
                        offset: meta_page.pq_block_offset,
                    }),
                    PageType::BqBlob,
                    spec_encode_comps(out.means@, meta_page.num_dimensions as int),
                    c,
                ));
            }
        }
        Ok(out)
    }

    /// Persist the means as a blob chain and point the metadata at it.
    /// Fails with `Storage` exactly when page 0 is not a current metadata
    /// page.
    pub fn write_metadata(&self, rel: &mut Relation) -> (r: Result<(), IndexError>)
        requires
            self.wf(),
            self.dims > 0,
            old(rel).num_pages() < 0xE000_0000u32,
            spec_meta_ok(*old(rel)) ==> self.dims == spec_meta_of(*old(rel)).num_dimensions,
        ensures
            spec_meta_ok(*old(rel)) ==> r is Ok && spec_meta_of(*final(rel)) == (MetaPage {
                pq_block_number: spec_meta_of(*final(rel)).pq_block_number,
                pq_block_offset: spec_meta_of(*final(rel)).pq_block_offset,
                ..spec_meta_of(*old(rel))
            }),
            final(rel).num_pages() <= old(rel).num_pages() + 4202,
            r is Err ==> r == Result::<(), IndexError>::Err(IndexError::Storage),
            r is Ok ==> spec_meta_ok(*final(rel)) && spec_bq_blob_ok(
                *final(rel),
                spec_meta_of(*final(rel)),
                self.means@,
            ),
    {
        let mut tape = Tape::new(rel, PageType::BqBlob);
        let ghost rel_after_tape = *rel;
        let bytes = encode_comps_vec(&self.means);
        let head = write_blob(&mut tape, rel, &bytes);
        let ghost rel_after_blob = *rel;
        match MetaPage::update_pq_pointer(rel, head) {
            Ok(()) => {
                proof {
                    let c = choose|c: nat|
                        spec_blob_chain(
                            rel_after_blob,
                            head,
                            PageType::BqBlob,
                            spec_encode_comps(self.means@, self.dims as int),
                            c,
                        );
                    crate::blob::lemma_blob_chain_frame(
                        rel_after_blob,
                        *rel,
                        head,
                        PageType::BqBlob,
                        spec_encode_comps(self.means@, self.dims as int),
                        c,
                    );
                    assert(head == (ItemPointer {
                        block_number: spec_meta_of(*rel).pq_block_number,
                        offset: spec_meta_of(*rel).pq_block_offset,
                    }));
                    assert(spec_meta_ok(rel_after_blob));
                    assert(old(rel).num_pages() > 0) by {
                        if old(rel).num_pages() == 0 {
                            assert(rel_after_tape.page_ty(0) == PageType::BqBlob);
                            assert(rel_after_blob.page_ty(0) == PageType::BqBlob);
                        }
                    }
                    assert(rel_after_tape.page_ty(0) == old(rel).page_ty(0));
                    assert(rel_after_blob.page_ty(0) == PageType::Meta);
                    assert(rel_after_tape.page_ty(0) == PageType::Meta);
                    assert(rel_after_tape.items(0) == old(rel).items(0));
                    assert(rel_after_blob.items(0) == rel_after_tape.items(0));
                    assert(spec_meta_ok(*old(rel)));
                    assert(spec_meta_of(*old(rel)) == spec_meta_of(rel_after_blob));
                    assert(self.dims == spec_meta_of(*rel).num_dimensions);
                    assert(spec_bq_blob_ok(*rel, spec_meta_of(*rel), self.means@)) by {
                        assert(spec_blob_chain(
                            *rel,
                            (ItemPointer {
                                block_number: spec_meta_of(*rel).pq_block_number,
                                offset: spec_meta_of(*rel).pq_block_offset,
                            }),
                            PageType::BqBlob,
                            spec_encode_comps(self.means@, self.dims as int),
                            c,
                        ));
                    }
                }
                Ok(())
            },
            Err(e) => Err(e),
        }
    }
}

/// Powers of two grow with the exponent.
proof fn lemma_cap_pow_monotone(a: int, b: int)
    requires
        a <= b,
    ensures
        spec_cap_pow(a) <= spec_cap_pow(b),
    decreases b - a,
{
    if a < b {
        lemma_cap_pow_monotone(a, b - 1);
        lemma_cap_pow_pos(b - 1);
        if b > 0 {
            assert(spec_cap_pow(b) == 2 * spec_cap_pow(b - 1));
        }
    }
}

proof fn lemma_cap_pow_pos(k: int)
    ensures
        spec_cap_pow(k) >= 1,
    decreases (if k > 0 {
        k
    } else {
        0
    }),
{
    if k > 0 {
        lemma_cap_pow_pos(k - 1);
    }
}

} // verus!
