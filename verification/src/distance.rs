//! Distances between fixed-point vectors.  Components are bounded so that
//! a squared Euclidean distance over any legal dimension count fits a
//! machine word with room to spare.

use vstd::prelude::*;

verus! {

/// Largest magnitude a fixed-point vector component may have.
pub const COMP_BOUND: i32 = 1048576;

/// Largest value a squared component difference may take: `(2 * COMP_BOUND)^2`.
pub const MAX_SQ_DIFF: u64 = 0x400_0000_0000;

/// A legal component value.
pub open spec fn wf_component(c: int) -> bool {
    -COMP_BOUND <= c <= COMP_BOUND
}

/// A legal vector of the given dimension count.
pub open spec fn wf_vector(v: Seq<i32>, dims: int) -> bool {
    &&& v.len() == dims
    &&& forall|i: int| 0 <= i < v.len() ==> wf_component(#[trigger] v[i] as int)
}

/// Squared Euclidean distance over the first `n` components.
pub open spec fn spec_dist_sq_prefix(a: Seq<i32>, b: Seq<i32>, n: int) -> int
    decreases n,
{
    if n <= 0 {
        0
    } else {
        spec_dist_sq_prefix(a, b, n - 1) + (a[n - 1] - b[n - 1]) * (a[n - 1] - b[n - 1])
    }
}

/// Squared Euclidean distance between two vectors of equal length.
pub open spec fn spec_dist_sq(a: Seq<i32>, b: Seq<i32>) -> int {
    spec_dist_sq_prefix(a, b, a.len() as int)
}

/// One squared difference of legal components is bounded by `MAX_SQ_DIFF`.
pub proof fn lemma_sq_diff_bound(x: int, y: int)
    requires
        wf_component(x),
        wf_component(y),
    ensures
        0 <= (x - y) * (x - y) <= MAX_SQ_DIFF,
{
    let d = x - y;
    assert(-2097152 <= d <= 2097152);
    assert(0 <= d * d <= 0x400_0000_0000) by (nonlinear_arith)
        requires
            -2097152 <= d <= 2097152,
    ;
}

/// The distance over a prefix of legal vectors is non-negative and grows at
/// most `MAX_SQ_DIFF` per component.
pub proof fn lemma_dist_sq_prefix_bound(a: Seq<i32>, b: Seq<i32>, n: int)
    requires
        0 <= n <= a.len(),
        n <= b.len(),
        forall|i: int| 0 <= i < a.len() ==> wf_component(#[trigger] a[i] as int),
        forall|i: int| 0 <= i < b.len() ==> wf_component(#[trigger] b[i] as int),
    ensures
        0 <= spec_dist_sq_prefix(a, b, n) <= n * MAX_SQ_DIFF,
    decreases n,
{
    if n > 0 {
        lemma_dist_sq_prefix_bound(a, b, n - 1);
        lemma_sq_diff_bound(a[n - 1] as int, b[n - 1] as int);
    }
}

/// Squared Euclidean distance, the metric every storage variant ranks by.
pub fn distance_sq(a: &Vec<i32>, b: &Vec<i32>) -> (r: u64)
    requires
        a@.len() == b@.len(),
        a@.len() < 2000,
        forall|i: int| 0 <= i < a@.len() ==> wf_component(#[trigger] a@[i] as int),
        forall|i: int| 0 <= i < b@.len() ==> wf_component(#[trigger] b@[i] as int),
    ensures
        r as int == spec_dist_sq(a@, b@),
        r <= 2000 * MAX_SQ_DIFF,
{
    let mut sum: u64 = 0;
    let mut i: usize = 0;
    while i < a.len()
        invariant
            0 <= i <= a@.len(),
            a@.len() == b@.len(),
            a@.len() < 2000,
            forall|j: int| 0 <= j < a@.len() ==> wf_component(#[trigger] a@[j] as int),
            forall|j: int| 0 <= j < b@.len() ==> wf_component(#[trigger] b@[j] as int),
            sum as int == spec_dist_sq_prefix(a@, b@, i as int),
            sum <= i * MAX_SQ_DIFF,
        decreases a@.len() - i,
    {
        let d: i64 = a[i] as i64 - b[i] as i64;
        proof {
            lemma_sq_diff_bound(a@[i as int] as int, b@[i as int] as int);
        }
        let dd: u64 = (d * d) as u64;
        sum = sum + dd;
        i = i + 1;
    }
    sum
}

/// Squared Euclidean distance between `len`-component windows of two
/// vectors, starting at the given offsets.
pub fn distance_sq_at(a: &Vec<i32>, ao: usize, b: &Vec<i32>, bo: usize, len: usize) -> (r: u64)
    requires
        ao + len <= a@.len(),
        bo + len <= b@.len(),
        len < 2000,
        forall|i: int| 0 <= i < a@.len() ==> wf_component(#[trigger] a@[i] as int),
        forall|i: int| 0 <= i < b@.len() ==> wf_component(#[trigger] b@[i] as int),
    ensures
        r as int == spec_dist_sq(
            a@.subrange(ao as int, ao as int + len),
            b@.subrange(bo as int, bo as int + len),
        ),
        r <= len * MAX_SQ_DIFF,
{
    let ghost sa = a@.subrange(ao as int, ao as int + len);
    let ghost sb = b@.subrange(bo as int, bo as int + len);
    let alen: usize = a.len();
    let blen: usize = b.len();
    assert(ao + len <= alen && bo + len <= blen);
    let mut sum: u64 = 0;
    let mut i: usize = 0;
    while i < len
        invariant
            0 <= i <= len,
            sum as int == spec_dist_sq_prefix(sa, sb, i as int),
            sum <= i * MAX_SQ_DIFF,
        decreases len - i,
    {
        let d: i64 = a[ao + i] as i64 - b[bo + i] as i64;
        proof {
            assert(sa[i as int] == a@[ao + i] && sb[i as int] == b@[bo + i]);
            lemma_sq_diff_bound(sa[i as int] as int, sb[i as int] as int);
        }
        let dd: u64 = (d * d) as u64;
        sum = sum + dd;
        i = i + 1;
    }
    sum
}

} // verus!
