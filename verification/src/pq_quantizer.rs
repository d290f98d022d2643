//! Product quantization: vectors are cut into equal segments; k-means run
//! per segment yields 256 centroids each; a vector's code names, per
//! segment, its nearest centroid.  Queries precompute a lookup table of
//! distances from their segments to every centroid, so a node's distance is
//! a sum of table lookups over its code bytes.

use vstd::prelude::*;
use crate::blob::{read_blob, spec_blob_chain, write_blob};
use crate::distance::{
    distance_sq_at, spec_dist_sq, wf_component, COMP_BOUND,
    MAX_SQ_DIFF,
};
use crate::meta_page::{spec_meta_of, spec_meta_ok, MetaPage};
use crate::node::{decode_comps_vec, encode_comps_vec, spec_encode_comps};
use crate::page::{PageType, Relation};
use crate::tape::Tape;
use crate::util::{IndexError, ItemPointer};

verus! {

/// Centroids per segment; one code byte addresses them all.
pub const PQ_NUM_CENTROIDS: usize = 256;

/// Fewest training samples the per-segment k-means accepts.
pub const PQ_TRAINING_MIN: usize = 300;

/// Most samples the trainer keeps; later samples are ignored.
pub const PQ_MAX_SAMPLES: usize = 4096;

/// Segment `s` of a vector cut into `seg_len`-component segments.
pub open spec fn spec_seg(v: Seq<i32>, s: int, seg_len: int) -> Seq<i32> {
    v.subrange(s * seg_len, s * seg_len + seg_len)
}

/// The product quantizer: the segment geometry, the training samples, and
/// after training the per-segment codebooks, row-major by segment.
pub struct PqQuantizer {
    pub dims: u32,
    pub seg_len: u32,
    pub segments: u32,
    pub trained: bool,
    pub samples: Vec<Vec<i32>>,
    pub codebook: Vec<Vec<i32>>,
}

impl PqQuantizer {
    /// The codebook as mathematical sequences.
    pub open spec fn cb_view(self) -> Seq<Seq<i32>> {
        self.codebook@.map_values(|v: Vec<i32>| v@)
    }

    /// Centroid `c` of segment `s`.
    pub open spec fn spec_centroid(self, s: int, c: int) -> Seq<i32> {
        self.cb_view()[s * 256 + c]
    }

    /// Squared distance from segment `s` of `v` to centroid `c`.
    pub open spec fn spec_seg_dist(self, v: Seq<i32>, s: int, c: int) -> int {
        spec_dist_sq(spec_seg(v, s, self.seg_len as int), self.spec_centroid(s, c))
    }

    /// `c` is the code chosen for segment `s` of `v`: it minimizes the
    /// distance, and no earlier centroid ties it.
    pub open spec fn spec_is_min_code(self, v: Seq<i32>, s: int, c: int) -> bool {
        &&& 0 <= c < 256
        &&& forall|c2: int| 0 <= c2 < 256 ==> self.spec_seg_dist(v, s, c) <= self.spec_seg_dist(v, s, c2)
        &&& forall|c2: int| 0 <= c2 < c ==> self.spec_seg_dist(v, s, c2) > self.spec_seg_dist(v, s, c)
    }

    /// Asymmetric distance of a code vector to a query: the sum over the
    /// first `n` segments of the query-segment-to-centroid distances.
    pub open spec fn spec_pq_dist(self, query: Seq<i32>, codes: Seq<u8>, n: int) -> int
        decreases n,
    {
        if n <= 0 {
            0
        } else {
            self.spec_pq_dist(query, codes, n - 1) + self.spec_seg_dist(
                query,
                n - 1,
                codes[n - 1] as int,
            )
        }
    }

    /// Distance between two code vectors: the sum over the first `n`
    /// segments of the distances between the centroids they name.
    pub open spec fn spec_pq_node_dist(self, a: Seq<u8>, b: Seq<u8>, n: int) -> int
        decreases n,
    {
        if n <= 0 {
            0
        } else {
            self.spec_pq_node_dist(a, b, n - 1) + spec_dist_sq(
                self.spec_centroid(n - 1, a[n - 1] as int),
                self.spec_centroid(n - 1, b[n - 1] as int),
            )
        }
    }

    /// The geometry is consistent and, once trained, the codebook has 256
    /// bounded centroids of segment length for every segment.
    pub open spec fn wf(self) -> bool {
        &&& 0 < self.dims < 2000
        &&& 1 <= self.seg_len <= self.dims
        &&& self.dims as int % self.seg_len as int == 0
        &&& self.segments as int == self.dims as int / self.seg_len as int
        &&& self.samples@.len() <= PQ_MAX_SAMPLES
        &&& forall|i: int|
            0 <= i < self.samples@.len() ==> (#[trigger] self.samples@[i])@.len() == self.dims
                && forall|j: int|
                0 <= j < self.samples@[i]@.len() ==> wf_component(
                    #[trigger] self.samples@[i]@[j] as int,
                )
        &&& self.trained ==> {
            &&& self.cb_view().len() == 256 * self.segments
            &&& forall|i: int|
                0 <= i < self.cb_view().len() ==> (#[trigger] self.cb_view()[i]).len()
                    == self.seg_len && forall|j: int|
                    0 <= j < self.cb_view()[i].len() ==> wf_component(
                        #[trigger] self.cb_view()[i][j] as int,
                    )
        }
    }

    /// Segments tile the vector exactly.
    pub proof fn lemma_geometry(self)
        requires
            self.wf(),
        ensures
            self.segments as int * self.seg_len as int == self.dims as int,
            self.segments >= 1,
    {
        vstd::arithmetic::div_mod::lemma_fundamental_div_mod(self.dims as int, self.seg_len as int);
        assert(self.segments >= 1) by (nonlinear_arith)
            requires
                self.segments as int * self.seg_len as int == self.dims as int,
                1 <= self.seg_len <= self.dims,
        ;
    }

    pub fn new() -> (r: Self)
        ensures
            r.dims == 0,
            !r.trained,
            r.samples@.len() == 0,
    {
        PqQuantizer {
            dims: 0,
            seg_len: 0,
            segments: 0,
            trained: false,
            samples: Vec::new(),
            codebook: Vec::new(),
        }
    }

    /// Reset the trainer for the metadata's geometry.
    pub fn start_training(&mut self, meta_page: &MetaPage)
        requires
            meta_page.wf(),
            meta_page.use_pq,
        ensures
            final(self).wf(),
            !final(self).trained,
            final(self).dims == meta_page.num_dimensions,
            final(self).seg_len == meta_page.pq_vector_length,
            final(self).samples@.len() == 0,
    {
        self.dims = meta_page.get_num_dimensions();
        self.seg_len = meta_page.pq_vector_length;
        self.segments = meta_page.get_num_dimensions() / meta_page.pq_vector_length;
        self.trained = false;
        self.samples = Vec::new();
        self.codebook = Vec::new();
    }

    /// Keep one training sample; past the cap the sample is ignored.
    pub fn add_sample(&mut self, sample: &Vec<i32>)
        requires
            old(self).wf(),
            sample@.len() == old(self).dims,
            forall|j: int|
                0 <= j < sample@.len() ==> wf_component(#[trigger] sample@[j] as int),
        ensures
            final(self).wf(),
            final(self).dims == old(self).dims,
            final(self).seg_len == old(self).seg_len,
            final(self).segments == old(self).segments,
            final(self).trained == old(self).trained,
            final(self).codebook == old(self).codebook,
            old(self).samples@.len() < PQ_MAX_SAMPLES ==> final(self).samples@.len() == old(self).samples@.len() + 1,
            old(self).samples@.len() >= PQ_MAX_SAMPLES ==> final(self).samples@.len() == old(self).samples@.len(),
    {
        if self.samples.len() < PQ_MAX_SAMPLES {
            self.samples.push(sample.clone());
            proof {
                assert(forall|j: int|
                    0 <= j < sample@.len() ==> #[trigger] self.samples@.last()@[j] == sample@[j]);
            }
        }
    }

    /// Run k-means per segment over the kept samples: centroids start on
    /// the samples and take one reassignment pass.  Fails with `Training`
    /// exactly when fewer samples were seen than the quantizer needs.
    pub fn finish_training(&mut self) -> (r: Result<(), IndexError>)
        requires
            old(self).wf(),
            !old(self).trained,
            old(self).dims > 0,
        ensures
            r is Ok <==> old(self).samples@.len() >= PQ_TRAINING_MIN,
            r is Err ==> r == Result::<(), IndexError>::Err(IndexError::Training) && *final(self)
                == *old(self),
            r is Ok ==> {
                &&& final(self).wf()
                &&& final(self).trained
                &&& final(self).dims == old(self).dims
                &&& final(self).seg_len == old(self).seg_len
                &&& final(self).segments == old(self).segments
            },
    {
        if self.samples.len() < PQ_TRAINING_MIN {
            return Err(IndexError::Training);
        }
        proof {
            self.lemma_geometry();
        }
        let seg_len = self.seg_len as usize;
        let segments = self.segments as usize;
        let n = self.samples.len();
        let mut codebook: Vec<Vec<i32>> = Vec::new();
        let mut s: usize = 0;
        let mut off: usize = 0;
        while s < segments
            invariant
                0 <= s <= segments,
                off == s * seg_len,
                seg_len == self.seg_len,
                segments == self.segments,
                n == self.samples@.len(),
                self == old(self),
                self.wf(),
                PQ_TRAINING_MIN <= n <= PQ_MAX_SAMPLES,
                self.dims > 0,
                codebook@.len() == 256 * s,
                forall|i: int|
                    0 <= i < codebook@.len() ==> (#[trigger] codebook@[i])@.len() == seg_len
                        && forall|j: int|
                        0 <= j < codebook@[i]@.len() ==> wf_component(
                            #[trigger] codebook@[i]@[j] as int,
                        ),
            decreases segments - s,
        {
            proof {
                assert(off + seg_len <= self.dims) by (nonlinear_arith)
                    requires
                        off == s * seg_len,
                        s < segments,
                        segments * seg_len == self.dims,
                        seg_len >= 1,
                ;
            }
            let seg_cb = train_segment(&self.samples, off, seg_len);
            let mut c: usize = 0;
            while c < PQ_NUM_CENTROIDS
                invariant
                    0 <= c <= PQ_NUM_CENTROIDS,
                    codebook@.len() == 256 * s + c,
                    seg_cb@.len() == 256,
                    forall|i: int|
                        0 <= i < seg_cb@.len() ==> (#[trigger] seg_cb@[i])@.len() == seg_len
                            && forall|j: int|
                            0 <= j < seg_cb@[i]@.len() ==> wf_component(
                                #[trigger] seg_cb@[i]@[j] as int,
                            ),
                    forall|i: int|
                        0 <= i < codebook@.len() ==> (#[trigger] codebook@[i])@.len() == seg_len
                            && forall|j: int|
                            0 <= j < codebook@[i]@.len() ==> wf_component(
                                #[trigger] codebook@[i]@[j] as int,
                            ),
                decreases PQ_NUM_CENTROIDS - c,
            {
                codebook.push(seg_cb[c].clone());
                proof {
                    let last = codebook@.len() - 1;
                    assert(codebook@[last]@ =~= seg_cb@[c as int]@);
                }
                c = c + 1;
            }
            s = s + 1;
            proof {
                assert(off + seg_len == s * seg_len) by (nonlinear_arith)
                    requires
                        off == (s - 1) * seg_len,
                ;
            }
            off = off + seg_len;
        }
        self.codebook = codebook;
        self.trained = true;
        proof {
            assert(self.cb_view().len() == 256 * self.segments);
            assert forall|i: int| 0 <= i < self.cb_view().len() implies (
            #[trigger] self.cb_view()[i]).len() == self.seg_len && forall|j: int|
                0 <= j < self.cb_view()[i].len() ==> wf_component(
                    #[trigger] self.cb_view()[i][j] as int,
                ) by {
                assert(self.cb_view()[i] == self.codebook@[i]@);
            }
        }
        Ok(())
    }

    /// Encode a vector: per segment, the index of the nearest centroid,
    /// earliest on ties.
    pub fn quantize(&self, full_vector: &Vec<i32>) -> (r: Vec<u8>)
        requires
            self.wf(),
            self.trained,
            full_vector@.len() == self.dims,
            forall|j: int|
                0 <= j < full_vector@.len() ==> wf_component(#[trigger] full_vector@[j] as int),
        ensures
            r@.len() == self.segments,
            forall|s: int|
                0 <= s < self.segments ==> self.spec_is_min_code(
                    full_vector@,
                    s,
                    #[trigger] r@[s] as int,
                ),
    {
        proof {
            self.lemma_geometry();
        }
        let seg_len = self.seg_len as usize;
        let segments = self.segments as usize;
        let mut out: Vec<u8> = Vec::new();
        let mut s: usize = 0;
        let mut off: usize = 0;
        while s < segments
            invariant
                0 <= s <= segments,
                off == s * seg_len,
                seg_len == self.seg_len,
                segments == self.segments,
                self.wf(),
                self.trained,
                self.segments as int * self.seg_len as int == self.dims as int,
                full_vector@.len() == self.dims,
                forall|j: int|
                    0 <= j < full_vector@.len() ==> wf_component(#[trigger] full_vector@[j] as int),
                out@.len() == s,
                forall|t: int|
                    0 <= t < s ==> self.spec_is_min_code(full_vector@, t, #[trigger] out@[t] as int),
            decreases segments - s,
        {
            proof {
                assert(off + seg_len <= self.dims) by (nonlinear_arith)
                    requires
                        off == s * seg_len,
                        s < segments,
                        segments * seg_len == self.dims,
                        seg_len >= 1,
                ;
            }
            let best = self.nearest_centroid(full_vector, off, s);
            out.push(best);
            s = s + 1;
            proof {
                assert(off + seg_len == s * seg_len) by (nonlinear_arith)
                    requires
                        off == (s - 1) * seg_len,
                ;
            }
            off = off + seg_len;
        }
        out
    }

    /// The index of the centroid of segment `s` nearest to the vector's
    /// segment at `off`, earliest on ties.
    fn nearest_centroid(&self, v: &Vec<i32>, off: usize, s: usize) -> (r: u8)
        requires
            self.wf(),
            self.trained,
            v@.len() == self.dims,
            s < self.segments,
            off == s * self.seg_len,
            off + self.seg_len <= v@.len(),
            forall|j: int| 0 <= j < v@.len() ==> wf_component(#[trigger] v@[j] as int),
        ensures
            self.spec_is_min_code(v@, s as int, r as int),
    {
        let seg_len = self.seg_len as usize;
        let mut best_c: usize = 0;
        let mut best_d: u64 = self.centroid_dist(v, off, s, 0);
        let mut c: usize = 1;
        while c < PQ_NUM_CENTROIDS
            invariant
                1 <= c <= PQ_NUM_CENTROIDS,
                best_c < c,
                self.wf(),
                self.trained,
                v@.len() == self.dims,
                s < self.segments,
                off == s * self.seg_len,
                off + self.seg_len <= v@.len(),
                forall|j: int| 0 <= j < v@.len() ==> wf_component(#[trigger] v@[j] as int),
                best_d as int == self.spec_seg_dist(v@, s as int, best_c as int),
                forall|c2: int|
                    0 <= c2 < c ==> best_d as int <= self.spec_seg_dist(v@, s as int, c2),
                forall|c2: int|
                    0 <= c2 < best_c ==> self.spec_seg_dist(v@, s as int, c2) > best_d as int,
            decreases PQ_NUM_CENTROIDS - c,
        {
            let d = self.centroid_dist(v, off, s, c);
            if d < best_d {
                best_c = c;
                best_d = d;
            }
            c = c + 1;
        }
        best_c as u8
    }

    /// Distance from the vector's segment at `off` to centroid `c` of
    /// segment `s`.
    fn centroid_dist(&self, v: &Vec<i32>, off: usize, s: usize, c: usize) -> (r: u64)
        requires
            self.wf(),
            self.trained,
            v@.len() == self.dims,
            s < self.segments,
            c < 256,
            off == s * self.seg_len,
            off + self.seg_len <= v@.len(),
            forall|j: int| 0 <= j < v@.len() ==> wf_component(#[trigger] v@[j] as int),
        ensures
            r as int == self.spec_seg_dist(v@, s as int, c as int),
            r <= self.seg_len * MAX_SQ_DIFF,
    {
        proof {
            assert(s * 256 + 256 <= 256 * self.segments) by (nonlinear_arith)
                requires
                    s < self.segments,
            ;
        }
        let idx = s * PQ_NUM_CENTROIDS + c;
        proof {
            assert(self.cb_view()[idx as int] == self.codebook@[idx as int]@);
        }
        let cent = &self.codebook[idx];
        let r = distance_sq_at(v, off, cent, 0, self.seg_len as usize);
        proof {
            assert(self.cb_view()[idx as int].len() == self.seg_len);
            assert(cent@.subrange(0, self.seg_len as int) =~= cent@);
        }
        r
    }
}

/// One segment's k-means: centroids seeded from the samples, then one
/// reassignment-and-mean pass.  Returns 256 centroids of `seg_len` bounded
/// components.
fn train_segment(samples: &Vec<Vec<i32>>, off: usize, seg_len: usize) -> (r: Vec<Vec<i32>>)
    requires
        1 <= seg_len < 2000,
        PQ_TRAINING_MIN <= samples@.len() <= PQ_MAX_SAMPLES,
        forall|i: int|
            0 <= i < samples@.len() ==> off + seg_len <= (#[trigger] samples@[i])@.len()
                && forall|j: int|
                0 <= j < samples@[i]@.len() ==> wf_component(#[trigger] samples@[i]@[j] as int),
    ensures
        r@.len() == 256,
        forall|i: int|
            0 <= i < r@.len() ==> (#[trigger] r@[i])@.len() == seg_len && forall|j: int|
                0 <= j < r@[i]@.len() ==> wf_component(#[trigger] r@[i]@[j] as int),
{
    let n = samples.len();
    // Seed: centroid c starts on a sample spread over the sample set.
    let mut cb: Vec<Vec<i32>> = Vec::new();
    let mut c: usize = 0;
    while c < PQ_NUM_CENTROIDS
        invariant
            0 <= c <= PQ_NUM_CENTROIDS,
            n == samples@.len(),
            cb@.len() == c,
            forall|i: int|
                0 <= i < cb@.len() ==> (#[trigger] cb@[i])@.len() == seg_len && forall|j: int|
                    0 <= j < cb@[i]@.len() ==> wf_component(#[trigger] cb@[i]@[j] as int),
        decreases PQ_NUM_CENTROIDS - c,
    {
        proof {
            assert(c * n <= 256 * 4096) by (nonlinear_arith)
                requires
                    c <= 256,
                    n <= 4096,
            ;
        }
        let src = (c * n) / PQ_NUM_CENTROIDS;
        proof {
            assert(src < n) by (nonlinear_arith)
                requires
                    src == (c * n) as int / 256,
                    c < 256,
                    n >= 1,
            ;
        }
        let sample = &samples[src];
        let slen = sample.len();
        assert(off + seg_len <= slen);
        let mut cent: Vec<i32> = Vec::new();
        let mut j: usize = 0;
        while j < seg_len
            invariant
                0 <= j <= seg_len,
                src < samples@.len(),
                sample@ == samples@[src as int]@,
                off + seg_len <= slen,
                slen == sample@.len(),
                cent@.len() == j,
                forall|t: int| 0 <= t < j ==> wf_component(#[trigger] cent@[t] as int),
            decreases seg_len - j,
        {
            cent.push(sample[off + j]);
            j = j + 1;
        }
        cb.push(cent);
        c = c + 1;
    }
    // One reassignment pass: sum the samples behind each centroid, then
    // move the centroid to the mean of its assignees.
    let mut sums: Vec<Vec<i64>> = Vec::new();
    let mut counts: Vec<u64> = Vec::new();
    let mut t: usize = 0;
    while t < PQ_NUM_CENTROIDS
        invariant
            0 <= t <= PQ_NUM_CENTROIDS,
            sums@.len() == t,
            counts@.len() == t,
            forall|i: int| 0 <= i < t ==> (#[trigger] sums@[i])@.len() == seg_len,
            forall|i: int, j: int|
                0 <= i < t && 0 <= j < seg_len ==> #[trigger] sums@[i]@[j] == 0,
            forall|i: int| 0 <= i < t ==> #[trigger] counts@[i] == 0,
        decreases PQ_NUM_CENTROIDS - t,
    {
        let mut z: Vec<i64> = Vec::new();
        let mut j: usize = 0;
        while j < seg_len
            invariant
                0 <= j <= seg_len,
                z@.len() == j,
                forall|k: int| 0 <= k < j ==> #[trigger] z@[k] == 0,
            decreases seg_len - j,
        {
            z.push(0);
            j = j + 1;
        }
        sums.push(z);
        counts.push(0);
        t = t + 1;
    }
    let mut i: usize = 0;
    while i < n
        invariant
            0 <= i <= n,
            n == samples@.len(),
            PQ_TRAINING_MIN <= n <= PQ_MAX_SAMPLES,
            1 <= seg_len < 2000,
            forall|k: int|
                0 <= k < samples@.len() ==> off + seg_len <= (#[trigger] samples@[k])@.len()
                    && forall|j: int|
                    0 <= j < samples@[k]@.len() ==> wf_component(
                        #[trigger] samples@[k]@[j] as int,
                    ),
            cb@.len() == 256,
            forall|k: int|
                0 <= k < cb@.len() ==> (#[trigger] cb@[k])@.len() == seg_len && forall|j: int|
                    0 <= j < cb@[k]@.len() ==> wf_component(#[trigger] cb@[k]@[j] as int),
            sums@.len() == 256,
            counts@.len() == 256,
            forall|k: int| 0 <= k < 256 ==> (#[trigger] sums@[k])@.len() == seg_len,
            forall|k: int| 0 <= k < 256 ==> #[trigger] counts@[k] <= i,
            forall|k: int, j: int|
                0 <= k < 256 && 0 <= j < seg_len ==> -(counts@[k] as int) * COMP_BOUND
                    <= #[trigger] sums@[k]@[j] <= (counts@[k] as int) * COMP_BOUND,
        decreases n - i,
    {
        let sample = &samples[i];
        let slen = sample.len();
        assert(off + seg_len <= slen);
        // Nearest current centroid for this sample's segment.
        let mut best_c: usize = 0;
        let mut best_d: u64 = distance_sq_at(sample, off, &cb[0], 0, seg_len);
        let mut c2: usize = 1;
        while c2 < PQ_NUM_CENTROIDS
            invariant
                1 <= c2 <= PQ_NUM_CENTROIDS,
                best_c < c2,
                i < samples@.len(),
                sample@ == samples@[i as int]@,
                off + seg_len <= sample@.len(),
                1 <= seg_len < 2000,
                forall|j: int| 0 <= j < sample@.len() ==> wf_component(#[trigger] sample@[j] as int),
                cb@.len() == 256,
                forall|k: int|
                    0 <= k < cb@.len() ==> (#[trigger] cb@[k])@.len() == seg_len && forall|j: int|
                        0 <= j < cb@[k]@.len() ==> wf_component(#[trigger] cb@[k]@[j] as int),
            decreases PQ_NUM_CENTROIDS - c2,
        {
            let d = distance_sq_at(sample, off, &cb[c2], 0, seg_len);
            if d < best_d {
                best_c = c2;
                best_d = d;
            }
            c2 = c2 + 1;
        }
        // Fold the sample into its centroid's running sums.
        let ghost sums0 = sums@;
        let sv = &sums[best_c];
        let mut new_sv: Vec<i64> = Vec::new();
        let mut j: usize = 0;
        while j < seg_len
            invariant
                0 <= j <= seg_len,
                best_c < 256,
                i < samples@.len(),
                i < n,
                sample@ == samples@[i as int]@,
                off + seg_len <= sample@.len(),
                slen == sample@.len(),
                forall|t3: int|
                    0 <= t3 < sample@.len() ==> wf_component(#[trigger] sample@[t3] as int),
                sums@ == sums0,
                sums@.len() == 256,
                sv@ == sums@[best_c as int]@,
                sv@.len() == seg_len,
                counts@[best_c as int] <= i,
                forall|k: int, j2: int|
                    0 <= k < 256 && 0 <= j2 < seg_len ==> -(counts@[k] as int) * COMP_BOUND
                        <= #[trigger] sums@[k]@[j2] <= (counts@[k] as int) * COMP_BOUND,
                new_sv@.len() == j,
                forall|t3: int|
                    0 <= t3 < j ==> #[trigger] new_sv@[t3] == sv@[t3] + sample@[off + t3],
            decreases seg_len - j,
        {
            let nv: i64 = sv[j] + sample[off + j] as i64;
            new_sv.push(nv);
            j = j + 1;
        }
        let ghost cprev = counts@;
        let oldc = counts[best_c];
        counts.remove(best_c);
        counts.insert(best_c, oldc + 1);
        sums.remove(best_c);
        sums.insert(best_c, new_sv);
        proof {
            assert(counts@ =~= cprev.update(best_c as int, (oldc + 1) as u64));
            assert(sums@ =~= sums0.update(best_c as int, sums@[best_c as int]));
        }
        i = i + 1;
    }
    // Means: each centroid with assignees moves to their average.
    let mut out: Vec<Vec<i32>> = Vec::new();
    let mut c3: usize = 0;
    while c3 < PQ_NUM_CENTROIDS
        invariant
            0 <= c3 <= PQ_NUM_CENTROIDS,
            n <= PQ_MAX_SAMPLES,
            1 <= seg_len < 2000,
            cb@.len() == 256,
            forall|k: int|
                0 <= k < cb@.len() ==> (#[trigger] cb@[k])@.len() == seg_len && forall|j: int|
                    0 <= j < cb@[k]@.len() ==> wf_component(#[trigger] cb@[k]@[j] as int),
            sums@.len() == 256,
            counts@.len() == 256,
            forall|k: int| 0 <= k < 256 ==> (#[trigger] sums@[k])@.len() == seg_len,
            forall|k: int| 0 <= k < 256 ==> #[trigger] counts@[k] <= n,
            forall|k: int, j: int|
                0 <= k < 256 && 0 <= j < seg_len ==> -(counts@[k] as int) * COMP_BOUND
                    <= #[trigger] sums@[k]@[j] <= (counts@[k] as int) * COMP_BOUND,
            out@.len() == c3,
            forall|k: int|
                0 <= k < out@.len() ==> (#[trigger] out@[k])@.len() == seg_len && forall|j: int|
                    0 <= j < out@[k]@.len() ==> wf_component(#[trigger] out@[k]@[j] as int),
        decreases PQ_NUM_CENTROIDS - c3,
    {
        let cnt = counts[c3];
        let mut cent: Vec<i32> = Vec::new();
        let mut j: usize = 0;
        while j < seg_len
            invariant
                0 <= j <= seg_len,
                c3 < 256,
                cnt == counts@[c3 as int],
                cnt <= n,
                n <= PQ_MAX_SAMPLES,
                cb@.len() == 256,
                (cb@[c3 as int])@.len() == seg_len,
                forall|t3: int|
                    0 <= t3 < cb@[c3 as int]@.len() ==> wf_component(
                        #[trigger] cb@[c3 as int]@[t3] as int,
                    ),
                sums@.len() == 256,
                (sums@[c3 as int])@.len() == seg_len,
                forall|k: int, j2: int|
                    0 <= k < 256 && 0 <= j2 < seg_len ==> -(counts@[k] as int) * COMP_BOUND
                        <= #[trigger] sums@[k]@[j2] <= (counts@[k] as int) * COMP_BOUND,
                cent@.len() == j,
                forall|t3: int| 0 <= t3 < j ==> wf_component(#[trigger] cent@[t3] as int),
            decreases seg_len - j,
        {
            let m: i32;
            if cnt == 0 {
                // No assignee: the centroid stays where it was seeded.
                m = cb[c3][j];
            } else {
                assert(-(cnt as int) * COMP_BOUND <= sums@[c3 as int]@[j as int] <= (cnt as int)
                    * COMP_BOUND);
                let sv: i64 = sums[c3][j];
                let shifted: u64 = (sv + (cnt as i64) * (COMP_BOUND as i64)) as u64;
                proof {
                    assert(shifted as int <= cnt as int * (2 * COMP_BOUND as int))
                        by (nonlinear_arith)
                        requires
                            shifted as int == sv as int + cnt as int * (COMP_BOUND as int),
                            -(cnt as int) * (COMP_BOUND as int) <= sv as int <= (cnt as int) * (
                            COMP_BOUND as int),
                    ;
                }
                let q: u64 = shifted / cnt;
                proof {
                    assert(q <= 2 * COMP_BOUND) by (nonlinear_arith)
                        requires
                            q == shifted as int / cnt as int,
                            shifted as int <= cnt as int * (2 * COMP_BOUND as int),
                            cnt > 0,
                    ;
                }
                m = (q as i64 - COMP_BOUND as i64) as i32;
            }
            cent.push(m);
            j = j + 1;
        }
        out.push(cent);
        c3 = c3 + 1;
    }
    out
}

// ---------------------------------------------------------------------
// Query-side distance table
// ---------------------------------------------------------------------

/// The query's precomputed lookup table: per segment, the distance from
/// the query's segment to every centroid.
pub struct PqSearchDistanceMeasure {
    pub table: Vec<Vec<u64>>,
    pub query: Ghost<Seq<i32>>,
}

impl PqSearchDistanceMeasure {
    /// The table agrees with the quantizer on every entry.
    pub open spec fn wf(self, q: PqQuantizer) -> bool {
        &&& self.table@.len() == q.segments
        &&& forall|s: int|
            0 <= s < self.table@.len() ==> (#[trigger] self.table@[s])@.len() == 256
        &&& forall|s: int, c: int|
            0 <= s < self.table@.len() && 0 <= c < 256 ==> #[trigger] self.table@[s]@[c] as int
                == q.spec_seg_dist(self.query@, s, c) && self.table@[s]@[c] <= q.seg_len
                * MAX_SQ_DIFF
    }

    /// Precompute the table for a query.
    pub fn new(q: &PqQuantizer, query: &Vec<i32>) -> (r: Self)
        requires
            q.wf(),
            q.trained,
            query@.len() == q.dims,
            forall|j: int| 0 <= j < query@.len() ==> wf_component(#[trigger] query@[j] as int),
        ensures
            r.wf(*q),
            r.query@ == query@,
    {
        proof {
            q.lemma_geometry();
        }
        let seg_len = q.seg_len as usize;
        let segments = q.segments as usize;
        let mut table: Vec<Vec<u64>> = Vec::new();
        let mut s: usize = 0;
        let mut off: usize = 0;
        while s < segments
            invariant
                0 <= s <= segments,
                off == s * seg_len,
                seg_len == q.seg_len,
                segments == q.segments,
                q.wf(),
                q.trained,
                q.segments as int * q.seg_len as int == q.dims as int,
                query@.len() == q.dims,
                forall|j: int| 0 <= j < query@.len() ==> wf_component(#[trigger] query@[j] as int),
                table@.len() == s,
                forall|t: int| 0 <= t < s ==> (#[trigger] table@[t])@.len() == 256,
                forall|t: int, c: int|
                    0 <= t < s && 0 <= c < 256 ==> #[trigger] table@[t]@[c] as int
                        == q.spec_seg_dist(query@, t, c) && table@[t]@[c] <= q.seg_len
                        * MAX_SQ_DIFF,
            decreases segments - s,
        {
            proof {
                assert(off + seg_len <= q.dims) by (nonlinear_arith)
                    requires
                        off == s * seg_len,
                        s < segments,
                        segments * seg_len == q.dims,
                        seg_len >= 1,
                ;
            }
            let mut row: Vec<u64> = Vec::new();
            let mut c: usize = 0;
            while c < PQ_NUM_CENTROIDS
                invariant
                    0 <= c <= PQ_NUM_CENTROIDS,
                    s < segments,
                    off == s * seg_len,
                    seg_len == q.seg_len,
                    segments == q.segments,
                    q.wf(),
                    q.trained,
                    query@.len() == q.dims,
                    off + seg_len <= query@.len(),
                    forall|j: int|
                        0 <= j < query@.len() ==> wf_component(#[trigger] query@[j] as int),
                    row@.len() == c,
                    forall|c2: int|
                        0 <= c2 < c ==> #[trigger] row@[c2] as int == q.spec_seg_dist(
                            query@,
                            s as int,
                            c2,
                        ) && row@[c2] <= q.seg_len * MAX_SQ_DIFF,
                decreases PQ_NUM_CENTROIDS - c,
            {
                let d = q.centroid_dist(query, off, s, c);
                row.push(d);
                c = c + 1;
            }
            table.push(row);
            s = s + 1;
            proof {
                assert(off + seg_len == s * seg_len) by (nonlinear_arith)
                    requires
                        off == (s - 1) * seg_len,
                ;
            }
            off = off + seg_len;
        }
        PqSearchDistanceMeasure { table, query: Ghost(query@) }
    }

    /// Rank a code vector against the query: the sum of one table lookup
    /// per segment.
    pub fn distance(&self, q: &PqQuantizer, codes: &Vec<u8>) -> (r: u64)
        requires
            q.wf(),
            q.trained,
            self.wf(*q),
            codes@.len() == q.segments,
        ensures
            r as int == q.spec_pq_dist(self.query@, codes@, q.segments as int),
            r <= 2000 * MAX_SQ_DIFF,
    {
        proof {
            q.lemma_geometry();
        }
        let segments = q.segments as usize;
        let seg_len = q.seg_len as usize;
        let mut sum: u64 = 0;
        let mut s: usize = 0;
        let mut off: usize = 0;
        while s < segments
            invariant
                0 <= s <= segments,
                off == s * seg_len,
                seg_len == q.seg_len,
                segments == q.segments,
                q.wf(),
                q.trained,
                self.wf(*q),
                codes@.len() == q.segments,
                q.segments as int * q.seg_len as int == q.dims as int,
                sum as int == q.spec_pq_dist(self.query@, codes@, s as int),
                sum <= off * MAX_SQ_DIFF,
            decreases segments - s,
        {
            let code = codes[s] as usize;
            let d = self.table[s][code];
            proof {
                assert(off + seg_len <= q.dims) by (nonlinear_arith)
                    requires
                        off == s * seg_len,
                        s < segments,
                        segments * seg_len == q.dims,
                        seg_len >= 1,
                ;
            }
            sum = sum + d;
            s = s + 1;
            proof {
                assert(off + seg_len == s * seg_len) by (nonlinear_arith)
                    requires
                        off == (s - 1) * seg_len,
                ;
            }
            off = off + seg_len;
        }
        proof {
            assert(off as int * MAX_SQ_DIFF as int <= 2000 * MAX_SQ_DIFF as int)
                by (nonlinear_arith)
                requires
                    off <= 2000,
            ;
        }
        sum
    }
}

impl PqQuantizer {
    /// Distance between two stored codes: the centroids they name are
    /// compared segment by segment.
    pub fn node_distance(&self, a: &Vec<u8>, b: &Vec<u8>) -> (r: u64)
        requires
            self.wf(),
            self.trained,
            a@.len() == self.segments,
            b@.len() == self.segments,
        ensures
            r as int == self.spec_pq_node_dist(a@, b@, self.segments as int),
            r <= 2000 * MAX_SQ_DIFF,
    {
        proof {
            self.lemma_geometry();
        }
        let segments = self.segments as usize;
        let seg_len = self.seg_len as usize;
        let mut sum: u64 = 0;
        let mut s: usize = 0;
        let mut off: usize = 0;
        while s < segments
            invariant
                0 <= s <= segments,
                off == s * seg_len,
                seg_len == self.seg_len,
                segments == self.segments,
                self.wf(),
                self.trained,
                a@.len() == self.segments,
                b@.len() == self.segments,
                self.segments as int * self.seg_len as int == self.dims as int,
                sum as int == self.spec_pq_node_dist(a@, b@, s as int),
                sum <= off * MAX_SQ_DIFF,
            decreases segments - s,
        {
            proof {
                assert(s * 256 + 256 <= 256 * self.segments) by (nonlinear_arith)
                    requires
                        s < self.segments,
                ;
                assert(off + seg_len <= self.dims) by (nonlinear_arith)
                    requires
                        off == s * seg_len,
                        s < segments,
                        segments * seg_len == self.dims,
                        seg_len >= 1,
                ;
            }
            let ia = s * PQ_NUM_CENTROIDS + (a[s] as usize);
            let ib = s * PQ_NUM_CENTROIDS + (b[s] as usize);
            proof {
                assert(self.cb_view()[ia as int] == self.codebook@[ia as int]@);
                assert(self.cb_view()[ib as int] == self.codebook@[ib as int]@);
            }
            let d = distance_sq_at(&self.codebook[ia], 0, &self.codebook[ib], 0, seg_len);
            proof {
                assert(self.codebook@[ia as int]@.subrange(0, seg_len as int) =~= self.codebook@[
                    ia as int
                ]@);
                assert(self.codebook@[ib as int]@.subrange(0, seg_len as int) =~= self.codebook@[
                    ib as int
                ]@);
            }
            sum = sum + d;
            s = s + 1;
            proof {
                assert(off + seg_len == s * seg_len) by (nonlinear_arith)
                    requires
                        off == (s - 1) * seg_len,
                ;
            }
            off = off + seg_len;
        }
        proof {
            assert(off as int * MAX_SQ_DIFF as int <= 2000 * MAX_SQ_DIFF as int)
                by (nonlinear_arith)
                requires
                    off <= 2000,
            ;
        }
        sum
    }
}

// ---------------------------------------------------------------------
// The approximation laws
// ---------------------------------------------------------------------

/// The least distance from `v` to the first `n` centroids of a codebook.
pub open spec fn spec_min_dist(cb: Seq<Seq<i32>>, v: Seq<i32>, n: int) -> int
    decreases n,
{
    if n <= 1 {
        spec_dist_sq(v, cb[0])
    } else {
        let rest = spec_min_dist(cb, v, n - 1);
        let d = spec_dist_sq(v, cb[n - 1]);
        if d < rest {
            d
        } else {
            rest
        }
    }
}

/// The quantization error is bounded: the best centroid is at most as far
/// as any centroid in the codebook.
pub proof fn lemma_pq_error_bounded(cb: Seq<Seq<i32>>, v: Seq<i32>, n: int, i: int)
    requires
        0 <= i < n,
        1 <= n,
    ensures
        spec_min_dist(cb, v, n) <= spec_dist_sq(v, cb[i]),
    decreases n,
{
    if n > 1 && i < n - 1 {
        lemma_pq_error_bounded(cb, v, n - 1, i);
    }
}

/// The quantization error is monotone in the codebook size: more centroids
/// never increase the best achievable distance.
pub proof fn lemma_pq_error_monotone(cb: Seq<Seq<i32>>, v: Seq<i32>, m: int, n: int)
    requires
        1 <= m <= n,
    ensures
        spec_min_dist(cb, v, n) <= spec_min_dist(cb, v, m),
    decreases n - m,
{
    if m < n {
        lemma_pq_error_monotone(cb, v, m, n - 1);
    }
}

/// The code the quantizer picks reaches the codebook's least distance for
/// its segment.
pub proof fn lemma_quantize_achieves_min(q: PqQuantizer, v: Seq<i32>, s: int, c: int)
    requires
        q.wf(),
        q.trained,
        0 <= s < q.segments,
        q.spec_is_min_code(v, s, c),
    ensures
        forall|c2: int|
            0 <= c2 < 256 ==> q.spec_seg_dist(v, s, c) <= #[trigger] q.spec_seg_dist(v, s, c2),
{
}

// ---------------------------------------------------------------------
// Persistence
// ---------------------------------------------------------------------

/// A codebook flattened into one component stream, centroid after
/// centroid.
pub open spec fn spec_flat(cb: Seq<Seq<i32>>) -> Seq<i32>
    decreases cb.len(),
{
    if cb.len() == 0 {
        Seq::empty()
    } else {
        spec_flat(cb.drop_last()) + cb.last()
    }
}

proof fn lemma_flat_take_step(cb: Seq<Seq<i32>>, i: int)
    requires
        0 <= i < cb.len(),
    ensures
        spec_flat(cb.take(i + 1)) == spec_flat(cb.take(i)) + cb[i],
{
    assert(cb.take(i + 1).drop_last() =~= cb.take(i));
}

/// A codebook of uniform segment length flattens to one component per
/// coordinate of every centroid.
pub proof fn lemma_flat_len(cb: Seq<Seq<i32>>, seg_len: int)
    requires
        forall|i: int| 0 <= i < cb.len() ==> (#[trigger] cb[i]).len() == seg_len,
    ensures
        spec_flat(cb).len() == cb.len() * seg_len,
    decreases cb.len(),
{
    if cb.len() > 0 {
        lemma_flat_len(cb.drop_last(), seg_len);
        assert(cb.drop_last().len() == cb.len() - 1);
        assert((cb.len() - 1) * seg_len + seg_len == cb.len() * seg_len) by (nonlinear_arith);
    }
}

/// A pointwise property of every centroid's components holds of the
/// flattened stream.
pub proof fn lemma_flat_preserves(cb: Seq<Seq<i32>>, p: spec_fn(i32) -> bool)
    requires
        forall|i: int|
            0 <= i < cb.len() ==> forall|j: int|
                0 <= j < (#[trigger] cb[i]).len() ==> p(#[trigger] cb[i][j]),
    ensures
        forall|k: int| 0 <= k < spec_flat(cb).len() ==> p(#[trigger] spec_flat(cb)[k]),
    decreases cb.len(),
{
    if cb.len() > 0 {
        lemma_flat_preserves(cb.drop_last(), p);
        assert forall|k: int| 0 <= k < spec_flat(cb).len() implies p(
            #[trigger] spec_flat(cb)[k],
        ) by {
            if k < spec_flat(cb.drop_last()).len() {
                assert(spec_flat(cb)[k] == spec_flat(cb.drop_last())[k]);
            } else {
                assert(spec_flat(cb)[k] == cb.last()[k - spec_flat(cb.drop_last()).len()]);
                assert(cb.last() == cb[cb.len() - 1]);
            }
        }
    }
}

/// The metadata's blob pointer leads to a chain holding exactly this
/// flattened codebook.
pub open spec fn spec_pq_blob_ok(rel: Relation, meta: MetaPage, cb: Seq<Seq<i32>>) -> bool {
    exists|c: nat|
        spec_blob_chain(
            rel,
            (ItemPointer { block_number: meta.pq_block_number, offset: meta.pq_block_offset }),
            PageType::PqBlob,
            spec_encode_comps(spec_flat(cb), spec_flat(cb).len() as int),
            c,
        )
}

impl PqQuantizer {
    /// Persist the codebook as a blob chain and point the metadata at it.
    pub fn write_metadata(&self, rel: &mut Relation) -> (r: Result<(), IndexError>)
        requires
            self.wf(),
            self.trained,
            old(rel).num_pages() < 0xE000_0000u32,
        ensures
            spec_meta_ok(*old(rel)) ==> r is Ok && spec_meta_of(*final(rel)) == (MetaPage {
                pq_block_number: spec_meta_of(*final(rel)).pq_block_number,
                pq_block_offset: spec_meta_of(*final(rel)).pq_block_offset,
                ..spec_meta_of(*old(rel))
            }),
            final(rel).num_pages() <= old(rel).num_pages() + 4202,
            r is Err ==> r == Result::<(), IndexError>::Err(IndexError::Storage),
            r is Ok ==> spec_meta_ok(*final(rel)) && spec_pq_blob_ok(
                *final(rel),
                spec_meta_of(*final(rel)),
                self.cb_view(),
            ),
    {
        proof {
            self.lemma_geometry();
        }
        let mut tape = Tape::new(rel, PageType::PqBlob);
        let ghost rel_after_tape = *rel;
        let flat = self.flatten();
        let bytes = encode_comps_vec(&flat);
        proof {
            assert(flat@.len() >= 1) by (nonlinear_arith)
                requires
                    flat@.len() == 256 * self.segments as int * self.seg_len as int,
                    self.segments >= 1,
                    self.seg_len >= 1,
            ;
            assert(flat@.len() <= 256 * 2000) by (nonlinear_arith)
                requires
                    flat@.len() == 256 * self.segments as int * self.seg_len as int,
                    self.segments as int * self.seg_len as int == self.dims as int,
                    self.dims < 2000,
            ;
        }
        let head = write_blob(&mut tape, rel, &bytes);
        let ghost rel_after_blob = *rel;
        match MetaPage::update_pq_pointer(rel, head) {
            Ok(()) => {
                proof {
                    let c = choose|c: nat|
                        spec_blob_chain(
                            rel_after_blob,
                            head,
                            PageType::PqBlob,
                            spec_encode_comps(flat@, flat@.len() as int),
                            c,
                        );
                    crate::blob::lemma_blob_chain_frame(
                        rel_after_blob,
                        *rel,
                        head,
                        PageType::PqBlob,
                        spec_encode_comps(flat@, flat@.len() as int),
                        c,
                    );
                    assert(spec_meta_ok(rel_after_blob));
                    assert(old(rel).num_pages() > 0) by {
                        if old(rel).num_pages() == 0 {
                            assert(rel_after_tape.page_ty(0) == PageType::PqBlob);
                            assert(rel_after_blob.page_ty(0) == PageType::PqBlob);
                        }
                    }
                    assert(rel_after_tape.page_ty(0) == old(rel).page_ty(0));
                    assert(rel_after_blob.page_ty(0) == PageType::Meta);
                    assert(rel_after_tape.page_ty(0) == PageType::Meta);
                    assert(rel_after_tape.items(0) == old(rel).items(0));
                    assert(rel_after_blob.items(0) == rel_after_tape.items(0));
                    assert(spec_meta_ok(*old(rel)));
                    assert(spec_meta_of(*old(rel)) == spec_meta_of(rel_after_blob));
                    assert(head == (ItemPointer {
                        block_number: spec_meta_of(*rel).pq_block_number,
                        offset: spec_meta_of(*rel).pq_block_offset,
                    }));
                    assert(spec_pq_blob_ok(*rel, spec_meta_of(*rel), self.cb_view())) by {
                        assert(spec_blob_chain(
                            *rel,
                            (ItemPointer {
                                block_number: spec_meta_of(*rel).pq_block_number,
                                offset: spec_meta_of(*rel).pq_block_offset,
                            }),
                            PageType::PqBlob,
                            spec_encode_comps(
                                spec_flat(self.cb_view()),
                                spec_flat(self.cb_view()).len() as int,
                            ),
                            c,
                        ));
                    }
                }
                Ok(())
            },
            Err(e) => Err(e),
        }
    }

    /// The codebook as one component vector.
    fn flatten(&self) -> (r: Vec<i32>)
        requires
            self.wf(),
            self.trained,
        ensures
            r@ == spec_flat(self.cb_view()),
            r@.len() == 256 * self.segments as int * self.seg_len as int,
            forall|j: int| 0 <= j < r@.len() ==> wf_component(#[trigger] r@[j] as int),
    {
        let mut out: Vec<i32> = Vec::new();
        let mut i: usize = 0;
        let cnt = self.codebook.len();
        proof {
            assert(self.cb_view().take(0) =~= Seq::<Seq<i32>>::empty());
        }
        while i < cnt
            invariant
                0 <= i <= cnt,
                cnt == self.codebook@.len(),
                self.wf(),
                self.trained,
                out@ == spec_flat(self.cb_view().take(i as int)),
                out@.len() == i * self.seg_len,
                forall|j: int| 0 <= j < out@.len() ==> wf_component(#[trigger] out@[j] as int),
            decreases cnt - i,
        {
            let cent = &self.codebook[i];
            let ghost before = out@;
            let mut j: usize = 0;
            proof {
                assert(self.cb_view()[i as int] == self.codebook@[i as int]@);
                assert(cent@.len() == self.seg_len);
            }
            while j < cent.len()
                invariant
                    0 <= j <= cent@.len(),
                    i < self.codebook@.len(),
                    cent@ == self.codebook@[i as int]@,
                    forall|t: int| 0 <= t < cent@.len() ==> wf_component(#[trigger] cent@[t] as int),
                    out@ == before + cent@.take(j as int),
                decreases cent@.len() - j,
            {
                out.push(cent[j]);
                proof {
                    assert(out@ =~= before + cent@.take(j as int + 1));
                }
                j = j + 1;
            }
            proof {
                lemma_flat_take_step(self.cb_view(), i as int);
                assert(cent@.take(cent@.len() as int) =~= cent@);
                assert(out@ == spec_flat(self.cb_view().take(i as int + 1)));
                assert((i + 1) * self.seg_len == i * self.seg_len + self.seg_len)
                    by (nonlinear_arith)
                ;
            }
            i = i + 1;
        }
        proof {
            assert(self.cb_view().take(cnt as int) =~= self.cb_view());
            assert(cnt * self.seg_len == 256 * self.segments as int * self.seg_len as int)
                by (nonlinear_arith)
                requires
                    cnt == 256 * self.segments as int,
            ;
        }
        out
    }

    /// Load the codebook from the blob chain the metadata points to.
    /// Fails with `Storage` when there is no pointer or the chain does not
    /// hold a codebook of the metadata's geometry.
    pub fn load(rel: &Relation, meta_page: &MetaPage) -> (r: Result<PqQuantizer, IndexError>)
        requires
            meta_page.wf(),
            meta_page.use_pq,
        ensures
            r is Err ==> r == Result::<PqQuantizer, IndexError>::Err(IndexError::Storage),
            r is Ok ==> r->Ok_0.wf() && r->Ok_0.trained && r->Ok_0.dims
                == meta_page.num_dimensions && r->Ok_0.seg_len == meta_page.pq_vector_length
                && r->Ok_0.samples@.len() == 0,
            r is Ok ==> spec_pq_blob_ok(*rel, *meta_page, r->Ok_0.cb_view()),
            (!(meta_page.pq_block_number == 0 && meta_page.pq_block_offset == 0) && exists|
                cb: Seq<Seq<i32>>,
            |
                cb.len() == 256 * (meta_page.num_dimensions as int
                    / meta_page.pq_vector_length as int) && (forall|i: int|
                    0 <= i < cb.len() ==> (#[trigger] cb[i]).len() == meta_page.pq_vector_length
                        && forall|j: int|
                        0 <= j < cb[i].len() ==> -COMP_BOUND <= #[trigger] cb[i][j] <= COMP_BOUND)
                    && #[trigger] spec_pq_blob_ok(*rel, *meta_page, cb)) ==> r is Ok,
    {
        let ghost segs = meta_page.num_dimensions as int / meta_page.pq_vector_length as int;
        let ghost loadable = !(meta_page.pq_block_number == 0 && meta_page.pq_block_offset == 0)
            && exists|cb: Seq<Seq<i32>>|
            cb.len() == 256 * segs && (forall|i: int|
                0 <= i < cb.len() ==> (#[trigger] cb[i]).len() == meta_page.pq_vector_length
                    && forall|j: int|
                    0 <= j < cb[i].len() ==> -COMP_BOUND <= #[trigger] cb[i][j] <= COMP_BOUND)
                && #[trigger] spec_pq_blob_ok(*rel, *meta_page, cb);
        let head = match meta_page.get_pq_pointer() {
            Some(ip) => ip,
            None => {
                return Err(IndexError::Storage);
            },
        };
        let mut q = PqQuantizer::new();
        q.start_training(meta_page);
        proof {
            q.lemma_geometry();
        }
        let seg_len = q.seg_len as usize;
        let segments = q.segments as usize;
        proof {
            assert(256 * segments * seg_len <= 256 * 2000) by (nonlinear_arith)
                requires
                    segments * seg_len == q.dims as int,
                    q.dims < 2000,
            ;
        }
        let total = 256 * segments * seg_len;
        proof {
            if loadable {
                let cb = choose|cb: Seq<Seq<i32>>|
                    cb.len() == 256 * segs && (forall|i: int|
                        0 <= i < cb.len() ==> (#[trigger] cb[i]).len()
                            == meta_page.pq_vector_length && forall|j: int|
                            0 <= j < cb[i].len() ==> -COMP_BOUND <= #[trigger] cb[i][j]
                                <= COMP_BOUND)
                        && #[trigger] spec_pq_blob_ok(*rel, *meta_page, cb);
                lemma_flat_len(cb, seg_len as int);
                lemma_flat_preserves(
                    cb,
                    |x: i32| -COMP_BOUND <= x <= COMP_BOUND,
                );
                crate::node::lemma_encode_comps_len(spec_flat(cb), spec_flat(cb).len() as int);
                assert(spec_flat(cb).len() == total) by (nonlinear_arith)
                    requires
                        spec_flat(cb).len() == cb.len() * seg_len as int,
                        cb.len() == 256 * segs,
                        total == 256 * segments * seg_len,
                        segs == segments as int,
                ;
                let c = choose|c: nat|
                    spec_blob_chain(
                        *rel,
                        head,
                        PageType::PqBlob,
                        spec_encode_comps(spec_flat(cb), spec_flat(cb).len() as int),
                        c,
                    );
                assert(spec_blob_chain(
                    *rel,
                    head,
                    PageType::PqBlob,
                    spec_encode_comps(spec_flat(cb), spec_flat(cb).len() as int),
                    c,
                ) && spec_encode_comps(spec_flat(cb), spec_flat(cb).len() as int).len() <= 4
                    * total);
            }
        }
        let bytes = match read_blob(rel, head, PageType::PqBlob, 4 * total) {
            Ok(b) => b,
            Err(e) => {
                return Err(e);
            },
        };
        proof {
            if loadable {
                let cb = choose|cb: Seq<Seq<i32>>|
                    cb.len() == 256 * segs && (forall|i: int|
                        0 <= i < cb.len() ==> (#[trigger] cb[i]).len()
                            == meta_page.pq_vector_length && forall|j: int|
                            0 <= j < cb[i].len() ==> -COMP_BOUND <= #[trigger] cb[i][j]
                                <= COMP_BOUND)
                        && #[trigger] spec_pq_blob_ok(*rel, *meta_page, cb);
                lemma_flat_len(cb, seg_len as int);
                lemma_flat_preserves(cb, |x: i32| -COMP_BOUND <= x <= COMP_BOUND);
                crate::node::lemma_encode_comps_len(spec_flat(cb), spec_flat(cb).len() as int);
                let c = choose|c: nat|
                    spec_blob_chain(
                        *rel,
                        head,
                        PageType::PqBlob,
                        spec_encode_comps(spec_flat(cb), spec_flat(cb).len() as int),
                        c,
                    );
                let c2 = choose|c2: nat| spec_blob_chain(*rel, head, PageType::PqBlob, bytes@, c2);
                crate::blob::lemma_blob_chain_unique(
                    *rel,
                    head,
                    PageType::PqBlob,
                    bytes@,
                    c2,
                    spec_encode_comps(spec_flat(cb), spec_flat(cb).len() as int),
                    c,
                );
                assert(spec_flat(cb).len() == total) by (nonlinear_arith)
                    requires
                        spec_flat(cb).len() == cb.len() * seg_len as int,
                        cb.len() == 256 * segs,
                        total == 256 * segments * seg_len,
                        segs == segments as int,
                ;
                assert(bytes@ == spec_encode_comps(spec_flat(cb), total as int));
                assert(bytes@.len() == 4 * total);
            }
        }
        if bytes.len() != 4 * total {
            return Err(IndexError::Storage);
        }
        let comps = match decode_comps_vec(&bytes, total) {
            Some(v) => v,
            None => {
                return Err(IndexError::Storage);
            },
        };
        // Cut the stream back into centroids.
        let mut codebook: Vec<Vec<i32>> = Vec::new();
        let mut off: usize = 0;
        let mut i: usize = 0;
        let want = 256 * segments;
        proof {
            assert(Seq::<Vec<i32>>::empty().map_values(|v: Vec<i32>| v@)
                =~= Seq::<Seq<i32>>::empty());
            assert(spec_flat(Seq::<Seq<i32>>::empty()) =~= Seq::<i32>::empty());
            assert(comps@.take(0) =~= Seq::<i32>::empty());
            assert(want * seg_len == total) by (nonlinear_arith)
                requires
                    want == 256 * segments,
                    total == 256 * segments * seg_len,
            ;
        }
        while i < want
            invariant
                0 <= i <= want,
                off == i * seg_len,
                off <= total,
                want * seg_len == total,
                1 <= seg_len,
                comps@.len() == total,
                forall|j: int| 0 <= j < comps@.len() ==> wf_component(#[trigger] comps@[j] as int),
                codebook@.len() == i,
                spec_flat(codebook@.map_values(|v: Vec<i32>| v@)) == comps@.take(off as int),
                forall|k: int|
                    0 <= k < codebook@.len() ==> (#[trigger] codebook@[k])@.len() == seg_len
                        && forall|j: int|
                        0 <= j < codebook@[k]@.len() ==> wf_component(
                            #[trigger] codebook@[k]@[j] as int,
                        ),
            decreases want - i,
        {
            proof {
                assert(off + seg_len <= total) by (nonlinear_arith)
                    requires
                        off == i * seg_len,
                        i < want,
                        want * seg_len == total,
                        seg_len >= 1,
                ;
            }
            let mut cent: Vec<i32> = Vec::new();
            let mut j: usize = 0;
            while j < seg_len
                invariant
                    0 <= j <= seg_len,
                    off + seg_len <= total,
                    comps@.len() == total,
                    forall|t: int|
                        0 <= t < comps@.len() ==> wf_component(#[trigger] comps@[t] as int),
                    cent@.len() == j,
                    cent@ == comps@.subrange(off as int, off as int + j),
                decreases seg_len - j,
            {
                cent.push(comps[off + j]);
                proof {
                    assert(cent@ =~= comps@.subrange(off as int, off as int + j + 1));
                }
                j = j + 1;
            }
            let ghost cb_before = codebook@.map_values(|v: Vec<i32>| v@);
            codebook.push(cent);
            proof {
                let cb_now = codebook@.map_values(|v: Vec<i32>| v@);
                assert(cb_now =~= cb_before.push(comps@.subrange(off as int, off as int
                    + seg_len)));
                assert(cb_now.drop_last() =~= cb_before);
                assert(spec_flat(cb_now) == spec_flat(cb_before) + cb_now.last());
                assert(comps@.take(off as int) + comps@.subrange(off as int, off as int + seg_len)
                    =~= comps@.take(off as int + seg_len));
                assert((i + 1) * seg_len == i * seg_len + seg_len) by (nonlinear_arith);
            }
            i = i + 1;
            off = off + seg_len;
        }
        let PqQuantizer { dims, seg_len: sl, segments: sg, trained: _t, samples, codebook: _cb } =
            q;
        let out = PqQuantizer {
            dims,
            seg_len: sl,
            segments: sg,
            trained: true,
            samples,
            codebook,
        };
        proof {
            assert(out.cb_view().len() == 256 * out.segments);
            assert forall|k: int| 0 <= k < out.cb_view().len() implies (
            #[trigger] out.cb_view()[k]).len() == out.seg_len && forall|j: int|
                0 <= j < out.cb_view()[k].len() ==> wf_component(
                    #[trigger] out.cb_view()[k][j] as int,
                ) by {
                assert(out.cb_view()[k] == out.codebook@[k]@);
            }
            assert(out.wf());
            let c = choose|c: nat| spec_blob_chain(*rel, head, PageType::PqBlob, bytes@, c);
            assert(comps@.take(total as int) =~= comps@);
            assert(spec_flat(out.cb_view()) == comps@);
            assert(spec_encode_comps(comps@, total as int) == bytes@);
            assert(spec_pq_blob_ok(*rel, *meta_page, out.cb_view())) by {
                assert(spec_blob_chain(
                    *rel,
                    (ItemPointer {
                        block_number: meta_page.pq_block_number,
                        offset: meta_page.pq_block_offset,
                    }),
                    PageType::PqBlob,
                    spec_encode_comps(
                        spec_flat(out.cb_view()),
                        spec_flat(out.cb_view()).len() as int,
                    ),
                    c,
                ));
            }
        }
        Ok(out)
    }
}

} // verus!
