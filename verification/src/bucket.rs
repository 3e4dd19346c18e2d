//! The bucketer: the points of one window gathered bucket by bucket, the
//! smallest bucket first, and the sums of the buckets by a scan of each
//! bucket's segment.

use vstd::prelude::*;
use crate::bytes::EdwardsPoint;
use crate::cpu::{all_wf, coordinates_of};
use crate::curve::{
    edwards_sum, lemma_point_add_decodes, mont_edwards_sum, neutral, point_add, Coordinates,
    MontgomeryPoint,
};
use crate::field::{lemma_field_constants, lemma_mont_round_trip, modulus, r_mod_p};
use crate::intra_bucket::{bucket_points, indices_of};
use crate::mont::{edwards_from_mont, edwards_to_mont};

verus! {

/// How many of the first `n` scalars are `v`.
pub open spec fn count_of(scalars: Seq<u32>, n: nat, v: nat) -> nat
    decreases n,
{
    if n == 0 {
        0
    } else {
        count_of(scalars, (n - 1) as nat, v) + if scalars[n - 1] == v {
            1nat
        } else {
            0nat
        }
    }
}

/// The size of bucket `v` among the first `n` scalars. Bucket 0 counts as
/// empty.
pub open spec fn bucket_size(scalars: Seq<u32>, n: nat, v: nat) -> nat {
    if v == 0 {
        0
    } else {
        count_of(scalars, n, v)
    }
}

/// The sizes among the first `n` scalars of the first `m` buckets of `order`,
/// added up.
pub open spec fn size_prefix(order: Seq<usize>, scalars: Seq<u32>, n: nat, m: nat) -> nat
    decreases m,
{
    if m == 0 {
        0
    } else {
        size_prefix(order, scalars, n, (m - 1) as nat) + bucket_size(
            scalars,
            n,
            order[m - 1] as nat,
        )
    }
}

/// How many of the first `n` scalars are not zero.
pub open spec fn nonzero_count(scalars: Seq<u32>, n: nat) -> nat
    decreases n,
{
    if n == 0 {
        0
    } else {
        nonzero_count(scalars, (n - 1) as nat) + if scalars[n - 1] != 0 {
            1nat
        } else {
            0nat
        }
    }
}

/// `order` holds each bucket number below `n_buckets` once.
pub open spec fn is_permutation(order: Seq<usize>, n_buckets: nat) -> bool {
    &&& order.len() == n_buckets
    &&& forall|k: int| 0 <= k < order.len() ==> #[trigger] order[k] < n_buckets
    &&& forall|i: int, j: int| 0 <= i < j < order.len() ==> order[i] != order[j]
    &&& forall|v: usize| v < n_buckets ==> order.contains(v)
}

/// `order` holds the buckets by size, the smallest first, and those of one
/// size by their number.
pub open spec fn is_size_order(order: Seq<usize>, scalars: Seq<u32>) -> bool {
    forall|i: int, j: int|
        0 <= i < j < order.len() ==> {
            let a = bucket_size(scalars, scalars.len(), #[trigger] order[i] as nat);
            let b = bucket_size(scalars, scalars.len(), #[trigger] order[j] as nat);
            a < b || (a == b && order[i] < order[j])
        }
}

proof fn lemma_count_bounds(scalars: Seq<u32>, n: nat, m: nat, v: nat)
    requires
        n <= m,
    ensures
        count_of(scalars, n, v) <= count_of(scalars, m, v),
        count_of(scalars, n, v) <= n,
        n < m && scalars[n as int] == v ==> count_of(scalars, n, v) < count_of(scalars, m, v),
    decreases m,
{
    if n > 0 {
        lemma_count_bounds(scalars, (n - 1) as nat, (n - 1) as nat, v);
    }
    if n < m {
        lemma_count_bounds(scalars, n, (m - 1) as nat, v);
    }
}

proof fn lemma_size_prefix_monotone(order: Seq<usize>, scalars: Seq<u32>, n: nat, a: nat, b: nat)
    requires
        a <= b,
    ensures
        size_prefix(order, scalars, n, a) <= size_prefix(order, scalars, n, b),
    decreases b,
{
    if a < b {
        lemma_size_prefix_monotone(order, scalars, n, a, (b - 1) as nat);
    }
}

/// One more scalar adds one to the sizes of the first `m` buckets where it
/// is not zero and names one of them, and nothing otherwise.
proof fn lemma_size_prefix_step(order: Seq<usize>, scalars: Seq<u32>, n: nat, m: nat)
    requires
        m <= order.len(),
        forall|i: int, j: int| 0 <= i < j < order.len() ==> order[i] != order[j],
    ensures
        size_prefix(order, scalars, n + 1, m) == size_prefix(order, scalars, n, m) + if scalars[n as int]
            != 0 && exists|k: int| 0 <= k < m && order[k] == scalars[n as int] {
            1nat
        } else {
            0nat
        },
    decreases m,
{
    let s = scalars[n as int];
    if m > 0 {
        lemma_size_prefix_step(order, scalars, n, (m - 1) as nat);
        let last = order[m - 1];
        if s != 0 && last == s {
            assert(!exists|k: int| 0 <= k < m - 1 && order[k] == s);
        } else if s != 0 && exists|k: int| 0 <= k < m && order[k] == s {
            let k = choose|k: int| 0 <= k < m && order[k] == s;
            assert(0 <= k < m - 1 && order[k] == s);
        }
    }
}

/// The sizes of all the buckets add up to the number of scalars that are
/// not zero.
pub proof fn lemma_sizes_total(order: Seq<usize>, scalars: Seq<u32>, n: nat, n_buckets: nat)
    requires
        is_permutation(order, n_buckets),
        n <= scalars.len(),
        forall|i: int| 0 <= i < n ==> scalars[i] < n_buckets,
    ensures
        size_prefix(order, scalars, n, n_buckets) == nonzero_count(scalars, n),
        nonzero_count(scalars, n) <= n,
    decreases n,
{
    if n == 0 {
        lemma_size_prefix_empty(order, scalars, n_buckets);
    } else {
        lemma_sizes_total(order, scalars, (n - 1) as nat, n_buckets);
        lemma_size_prefix_step(order, scalars, (n - 1) as nat, n_buckets);
        let s = scalars[n - 1];
        if s != 0 {
            assert(order.contains(s as usize));
            let k = choose|k: int| 0 <= k < order.len() && order[k] == s as usize;
            assert(0 <= k < n_buckets && order[k] == s);
        }
    }
}

proof fn lemma_size_prefix_empty(order: Seq<usize>, scalars: Seq<u32>, m: nat)
    ensures
        size_prefix(order, scalars, 0, m) == 0,
    decreases m,
{
    if m > 0 {
        lemma_size_prefix_empty(order, scalars, (m - 1) as nat);
    }
}

/// `slice::sort_by_key` of std, on bucket numbers in ascending order with
/// the size of the bucket for a key: the result holds the same numbers, by
/// ascending size, and, the sort being stable, those of one size in
/// ascending order.
#[verifier::external_body]
fn sort_by_count(order: &mut Vec<usize>, counts: &Vec<usize>)
    requires
        forall|i: int| 0 <= i < old(order).len() ==> old(order)[i] < counts.len(),
        forall|i: int, j: int| 0 <= i < j < old(order).len() ==> old(order)[i] < old(order)[j],
    ensures
        final(order)@.to_multiset() == old(order)@.to_multiset(),
        forall|i: int, j: int|
            0 <= i < j < final(order).len() ==> counts[final(order)[i] as int]
                <= counts[final(order)[j] as int],
        forall|i: int, j: int|
            0 <= i < j < final(order).len() && counts[final(order)[i] as int]
                == counts[final(order)[j] as int] ==> final(order)[i] < final(order)[j],
{
    order.sort_by_key(|&i| counts[i]);
}

/// The bucket numbers `0` to `n - 1` in ascending order.
fn identity_order(n: usize) -> (order: Vec<usize>)
    ensures
        order.len() == n,
        forall|i: int| 0 <= i < n ==> order[i] == i,
{
    let mut order: Vec<usize> = Vec::with_capacity(n);
    let mut i: usize = 0;
    while i < n
        invariant
            i <= n,
            order.len() == i,
            forall|k: int| 0 <= k < i ==> order[k] == k,
        decreases n - i,
    {
        order.push(i);
        i += 1;
    }
    order
}

/// A sequence with the elements of `0, 1, .., n - 1` holds each of them
/// once.
proof fn lemma_permutation_of_identity(order: Seq<usize>, identity: Seq<usize>, n: nat)
    requires
        identity.len() == n,
        forall|i: int| 0 <= i < n ==> identity[i] == i,
        order.to_multiset() == identity.to_multiset(),
    ensures
        is_permutation(order, n),
{
    broadcast use vstd::seq_lib::to_multiset_len, vstd::seq_lib::to_multiset_contains;

    assert(order.len() == order.to_multiset().len());
    assert(identity.len() == identity.to_multiset().len());
    assert(identity.no_duplicates());
    identity.lemma_multiset_has_no_duplicates();
    order.lemma_multiset_has_no_duplicates_conv();
    assert forall|k: int| 0 <= k < order.len() implies #[trigger] order[k] < n by {
        assert(order.contains(order[k]));
        assert(order.to_multiset().count(order[k]) > 0);
        assert(identity.contains(order[k]));
    }
    assert forall|v: usize| v < n implies order.contains(v) by {
        assert(identity[v as int] == v);
        assert(identity.contains(v));
        assert(identity.to_multiset().count(v) > 0);
    }
}

/// The points of one window, gathered for the scan.
pub struct GpuBucketerPreprocessed {
    reshuffled: Vec<EdwardsPoint>,
    bucket_shuffled: Vec<usize>,
    idx_to_bkt: Vec<usize>,
    n_nonzero: usize,
}

/// What a gathering holds.
pub struct Gathered {
    /// The points whose scalar is not zero, bucket by bucket in the order of
    /// `idx_to_bkt`.
    pub reshuffled: Seq<EdwardsPoint>,
    /// Where in `reshuffled` the bucket at each place of `idx_to_bkt` ends.
    pub bucket_shuffled: Seq<usize>,
    /// The bucket numbers by size, the smallest first.
    pub idx_to_bkt: Seq<usize>,
    /// The number of points in `reshuffled`.
    pub n_nonzero: usize,
}

impl View for GpuBucketerPreprocessed {
    type V = Gathered;

    closed spec fn view(&self) -> Gathered {
        Gathered {
            reshuffled: self.reshuffled@,
            bucket_shuffled: self.bucket_shuffled@,
            idx_to_bkt: self.idx_to_bkt@,
            n_nonzero: self.n_nonzero,
        }
    }
}

impl Gathered {
    /// The buckets are a permutation, their ends do not decrease from zero
    /// to the number of points, and the points have residues for
    /// coordinates.
    pub open spec fn wf(self) -> bool {
        &&& self.idx_to_bkt.len() >= 1
        &&& is_permutation(self.idx_to_bkt, self.idx_to_bkt.len())
        &&& self.bucket_shuffled.len() == self.idx_to_bkt.len()
        &&& forall|i: int, j: int|
            0 <= i <= j < self.bucket_shuffled.len() ==> self.bucket_shuffled[i]
                <= self.bucket_shuffled[j]
        &&& self.bucket_shuffled[0] == 0
        &&& self.bucket_shuffled[self.bucket_shuffled.len() - 1] == self.n_nonzero
        &&& self.reshuffled.len() == self.n_nonzero
        &&& all_wf(self.reshuffled)
    }

    /// What the gathering makes of the scalars and points of a window: the
    /// buckets stand by size; each ends where the sizes of the buckets up to
    /// it add up to; and within its bucket each point stands before those
    /// that came earlier among the inputs.
    pub open spec fn gathers(self, scalars: Seq<u32>, points: Seq<Coordinates>) -> bool {
        &&& is_size_order(self.idx_to_bkt, scalars)
        &&& forall|k: int|
            0 <= k < self.idx_to_bkt.len() ==> #[trigger] self.bucket_shuffled[k] == size_prefix(
                self.idx_to_bkt,
                scalars,
                scalars.len(),
                (k + 1) as nat,
            )
        &&& self.n_nonzero == nonzero_count(scalars, scalars.len())
        &&& forall|i: int, k: int|
            0 <= i < scalars.len() && 0 <= k < self.idx_to_bkt.len() && scalars[i] != 0
                && #[trigger] self.idx_to_bkt[k] == #[trigger] scalars[i] ==> self.reshuffled[self.bucket_shuffled[k]
                - 1 - count_of(scalars, i as nat, scalars[i] as nat)]@ == points[i]
    }

    /// Where the segment of the bucket at place `s` starts.
    pub open spec fn segment_start(self, s: int) -> int {
        if s == 0 {
            0
        } else {
            self.bucket_shuffled[s - 1] as int
        }
    }

    /// What of the segment at place `s` lies before point `upto`.
    pub open spec fn segment_done(self, s: int, upto: int) -> int {
        if upto <= self.segment_start(s) {
            self.segment_start(s)
        } else if upto >= self.bucket_shuffled[s] {
            self.bucket_shuffled[s] as int
        } else {
            upto
        }
    }
}

impl GpuBucketerPreprocessed {
    #[verifier::type_invariant]
    closed spec fn inv(&self) -> bool {
        self@.wf()
    }

    /// The points whose scalar is not zero, bucket by bucket in the order of
    /// `idx_to_bkt`.
    pub fn reshuffled(&self) -> (r: &Vec<EdwardsPoint>)
        ensures
            r@ == self@.reshuffled,
            self@.wf(),
    {
        proof {
            use_type_invariant(self);
        }
        &self.reshuffled
    }

    /// Where in `reshuffled` the bucket at each place of `idx_to_bkt` ends.
    pub fn bucket_shuffled(&self) -> (r: &Vec<usize>)
        ensures
            r@ == self@.bucket_shuffled,
            self@.wf(),
    {
        proof {
            use_type_invariant(self);
        }
        &self.bucket_shuffled
    }

    /// The bucket numbers by size, the smallest first.
    pub fn idx_to_bkt(&self) -> (r: &Vec<usize>)
        ensures
            r@ == self@.idx_to_bkt,
            self@.wf(),
    {
        proof {
            use_type_invariant(self);
        }
        &self.idx_to_bkt
    }

    /// The number of points in `reshuffled`.
    pub fn n_nonzero(&self) -> (r: usize)
        ensures
            r == self@.n_nonzero,
            self@.wf(),
    {
        proof {
            use_type_invariant(self);
        }
        self.n_nonzero
    }
}

/// Gathers the points of one window for the scan over `n_buckets` buckets.
pub struct GpuBucketer {
    pub n_buckets: usize,
}

impl GpuBucketer {
    /// A bucketer for windows of `n_buckets` buckets.
    pub fn new(n_buckets: usize) -> (r: Self)
        ensures
            r.n_buckets == n_buckets,
    {
        GpuBucketer { n_buckets }
    }

    /// Counts the points of each bucket, orders the buckets by size, and
    /// lays the points out bucket by bucket in that order. Bucket 0 is left
    /// out.
    pub fn preprocess(&self, scalars: &[u32], points: &[EdwardsPoint]) -> (r:
        GpuBucketerPreprocessed)
        requires
            self.n_buckets >= 1,
            scalars.len() == points.len(),
            forall|i: int| 0 <= i < scalars.len() ==> scalars[i] < self.n_buckets,
            all_wf(points@),
        ensures
            r@.wf(),
            r@.idx_to_bkt.len() == self.n_buckets,
            r@.gathers(scalars@, coordinates_of(points@)),
    {
        let n_buckets = self.n_buckets;
        let n = scalars.len();
        // the size of each bucket
        let mut counts: Vec<usize> = Vec::with_capacity(n_buckets);
        let mut v: usize = 0;
        while v < n_buckets
            invariant
                v <= n_buckets,
                counts.len() == v,
                forall|k: int| 0 <= k < v ==> counts[k] == 0,
            decreases n_buckets - v,
        {
            counts.push(0);
            v += 1;
        }
        let mut i: usize = 0;
        while i < n
            invariant
                i <= n,
                n == scalars.len(),
                counts.len() == n_buckets,
                forall|k: int| 0 <= k < n ==> scalars[k] < n_buckets,
                forall|k: int|
                    0 <= k < n_buckets ==> #[trigger] counts[k] == count_of(
                        scalars@,
                        i as nat,
                        k as nat,
                    ),
            decreases n - i,
        {
            let s = scalars[i] as usize;
            proof {
                lemma_count_bounds(scalars@, i as nat, i as nat, s as nat);
            }
            counts[s] = counts[s] + 1;
            i += 1;
        }
        counts[0] = 0;
        assert forall|k: int| 0 <= k < n_buckets implies #[trigger] counts[k] == bucket_size(
            scalars@,
            n as nat,
            k as nat,
        ) by {}
        // the buckets by size
        let mut order = identity_order(n_buckets);
        let ghost identity = order@;
        sort_by_count(&mut order, &counts);
        proof {
            lemma_permutation_of_identity(order@, identity, n_buckets as nat);
            assert(is_size_order(order@, scalars@)) by {
                assert forall|a: int, b: int| 0 <= a < b < order.len() implies ({
                    let x = bucket_size(scalars@, scalars@.len(), #[trigger] order[a] as nat);
                    let y = bucket_size(scalars@, scalars@.len(), #[trigger] order[b] as nat);
                    x < y || (x == y && order[a] < order[b])
                }) by {
                    assert(counts[order[a] as int] == bucket_size(
                        scalars@,
                        n as nat,
                        order[a] as nat,
                    ));
                    assert(counts[order[b] as int] == bucket_size(
                        scalars@,
                        n as nat,
                        order[b] as nat,
                    ));
                }
            }
            lemma_sizes_total(order@, scalars@, n as nat, n_buckets as nat);
        }
        // where each bucket ends
        let mut ends: Vec<usize> = Vec::with_capacity(n_buckets);
        let mut work: Vec<usize> = counts.clone();
        let mut total: usize = 0;
        let mut k: usize = 0;
        while k < n_buckets
            invariant
                k <= n_buckets,
                n == scalars.len(),
                order.len() == n_buckets,
                counts.len() == n_buckets,
                work.len() == n_buckets,
                is_permutation(order@, n_buckets as nat),
                size_prefix(order@, scalars@, n as nat, n_buckets as nat) <= n,
                forall|b: int|
                    0 <= b < n_buckets ==> #[trigger] counts[b] == bucket_size(
                        scalars@,
                        n as nat,
                        b as nat,
                    ),
                ends.len() == k,
                total == size_prefix(order@, scalars@, n as nat, k as nat),
                forall|a: int|
                    0 <= a < k ==> #[trigger] ends[a] == size_prefix(
                        order@,
                        scalars@,
                        n as nat,
                        (a + 1) as nat,
                    ),
                forall|a: int| 0 <= a < k ==> work[#[trigger] order[a] as int] == ends[a],
            decreases n_buckets - k,
        {
            let b = order[k];
            proof {
                lemma_size_prefix_monotone(
                    order@,
                    scalars@,
                    n as nat,
                    (k + 1) as nat,
                    n_buckets as nat,
                );
            }
            total = total + counts[b];
            ends.push(total);
            work[b] = total;
            k += 1;
        }
        let n_nonzero = total;
        // the points, bucket by bucket
        let mut reshuffled: Vec<EdwardsPoint> = Vec::with_capacity(n_nonzero);
        let mut f: usize = 0;
        while f < n_nonzero
            invariant
                f <= n_nonzero,
                reshuffled.len() == f,
                all_wf(reshuffled@),
            decreases n_nonzero - f,
        {
            reshuffled.push(EdwardsPoint::zero());
            f += 1;
        }
        let ghost cs = coordinates_of(points@);
        let mut i: usize = 0;
        while i < n
            invariant
                i <= n,
                n == scalars.len(),
                n == points.len(),
                cs == coordinates_of(points@),
                all_wf(points@),
                all_wf(reshuffled@),
                forall|j: int| 0 <= j < n ==> scalars[j] < n_buckets,
                order.len() == n_buckets,
                ends.len() == n_buckets,
                work.len() == n_buckets,
                reshuffled.len() == n_nonzero,
                n_nonzero == size_prefix(order@, scalars@, n as nat, n_buckets as nat),
                is_permutation(order@, n_buckets as nat),
                forall|a: int|
                    0 <= a < n_buckets ==> #[trigger] ends[a] == size_prefix(
                        order@,
                        scalars@,
                        n as nat,
                        (a + 1) as nat,
                    ),
                forall|a: int|
                    0 <= a < n_buckets && order[a] != 0 ==> work[#[trigger] order[a] as int]
                        == ends[a] - count_of(scalars@, i as nat, order[a] as nat),
                forall|j: int, a: int|
                    0 <= j < i && 0 <= a < n_buckets && scalars[j] != 0 && #[trigger] order[a]
                        == #[trigger] scalars[j] ==> reshuffled[ends[a] - 1 - count_of(
                        scalars@,
                        j as nat,
                        scalars[j] as nat,
                    )]@ == cs[j],
            decreases n - i,
        {
            let idx = scalars[i] as usize;
            if idx != 0 {
                let ghost a = choose|a: int| 0 <= a < order.len() && order[a] == idx;
                let ghost place = ends[a] - 1 - count_of(scalars@, i as nat, idx as nat);
                proof {
                    assert(order@.contains(idx));
                    lemma_place(order@, scalars@, i as int, a);
                    assert(work[order[a] as int] == ends[a] - count_of(
                        scalars@,
                        i as nat,
                        idx as nat,
                    ));
                }
                let at = work[idx] - 1;
                assert(at == place);
                work[idx] = at;
                let ghost before = reshuffled@;
                assert(points@[i as int].wf());
                reshuffled[at] = points[i];
                proof {
                    assert(reshuffled@ == before.update(at as int, points[i as int]));
                    assert(cs[i as int] == points[i as int]@);
                    assert forall|j: int, b: int|
                        0 <= j < i + 1 && 0 <= b < n_buckets && scalars[j] != 0
                            && #[trigger] order[b] == #[trigger] scalars[j] implies reshuffled[ends[b]
                        - 1 - count_of(scalars@, j as nat, scalars[j] as nat)]@ == cs[j] by {
                        let q = ends[b] - 1 - count_of(scalars@, j as nat, scalars[j] as nat);
                        lemma_place(order@, scalars@, j, b);
                        if j < i {
                            lemma_places_differ(order@, scalars@, j, b, i as int, a);
                            assert(q != at);
                            assert(before[q]@ == cs[j]);
                            assert(reshuffled@[q] == before[q]);
                        } else {
                            assert(a == b);
                            assert(q == at);
                        }
                    }
                    assert forall|c: int| 0 <= c < n_buckets && order[c] != 0 implies work[#[trigger] order[c] as int]
                        == ends[c] - count_of(scalars@, (i + 1) as nat, order[c] as nat) by {
                        if c != a {
                            assert(order[c] != order[a]);
                        }
                    }
                }
            }
            i += 1;
        }
        proof {
            assert(ends[0] == 0) by {
                assert(order@.contains(0usize));
                let z = choose|z: int| 0 <= z < order.len() && order[z] == 0usize;
                reveal_with_fuel(size_prefix, 2);
                if z > 0 {
                    assert(bucket_size(scalars@, scalars@.len(), order[0] as nat) <= bucket_size(
                        scalars@,
                        scalars@.len(),
                        order[z] as nat,
                    ));
                }
            }
            assert forall|a: int, b: int| 0 <= a <= b < ends.len() implies ends[a] <= ends[b] by {
                lemma_size_prefix_monotone(
                    order@,
                    scalars@,
                    n as nat,
                    (a + 1) as nat,
                    (b + 1) as nat,
                );
            }
        }
        let r = GpuBucketerPreprocessed {
            reshuffled,
            bucket_shuffled: ends,
            idx_to_bkt: order,
            n_nonzero,
        };
        r
    }
}

/// Where the point of scalar `i` stands: in the segment of its bucket, which
/// stands at place `a` of the order.
proof fn lemma_place(order: Seq<usize>, scalars: Seq<u32>, i: int, a: int)
    requires
        0 <= i < scalars.len(),
        0 <= a < order.len(),
        order[a] == scalars[i],
        scalars[i] != 0,
    ensures
        size_prefix(order, scalars, scalars.len(), a as nat) <= size_prefix(
            order,
            scalars,
            scalars.len(),
            (a + 1) as nat,
        ) - 1 - count_of(scalars, i as nat, scalars[i] as nat),
        count_of(scalars, i as nat, scalars[i] as nat) < count_of(
            scalars,
            scalars.len(),
            scalars[i] as nat,
        ),
        size_prefix(order, scalars, scalars.len(), (a + 1) as nat) <= size_prefix(
            order,
            scalars,
            scalars.len(),
            order.len(),
        ),
{
    lemma_count_bounds(scalars, i as nat, scalars.len(), scalars[i] as nat);
    lemma_size_prefix_monotone(order, scalars, scalars.len(), (a + 1) as nat, order.len());
}

/// Two points stand at different places.
proof fn lemma_places_differ(order: Seq<usize>, scalars: Seq<u32>, j: int, b: int, i: int, a: int)
    requires
        0 <= j < i < scalars.len(),
        0 <= a < order.len(),
        0 <= b < order.len(),
        order[a] == scalars[i],
        order[b] == scalars[j],
        scalars[i] != 0,
        scalars[j] != 0,
        forall|x: int, y: int| 0 <= x < y < order.len() ==> order[x] != order[y],
    ensures
        size_prefix(order, scalars, scalars.len(), (b + 1) as nat) - 1 - count_of(
            scalars,
            j as nat,
            scalars[j] as nat,
        ) != size_prefix(order, scalars, scalars.len(), (a + 1) as nat) - 1 - count_of(
            scalars,
            i as nat,
            scalars[i] as nat,
        ),
{
    lemma_place(order, scalars, i, a);
    lemma_place(order, scalars, j, b);
    if a == b {
        lemma_count_bounds(scalars, j as nat, i as nat, scalars[i] as nat);
    } else if a < b {
        lemma_size_prefix_monotone(order, scalars, scalars.len(), (a + 1) as nat, b as nat);
    } else {
        lemma_size_prefix_monotone(order, scalars, scalars.len(), (b + 1) as nat, a as nat);
    }
}

/// The most points that one dispatch of the scan takes.
pub const MAX_BATCH_SIZE: usize = 1048576;

/// The most dispatches that run on the device at one time.
pub const MAX_IN_FLIGHT: usize = 4;

/// The submission to wait for before the next one goes out, when
/// `submitted` have gone out: the one that went out four before it, so that
/// no more than four are in flight.
pub fn submission_to_await(submitted: usize) -> (r: Option<usize>)
    ensures
        r == if submitted >= MAX_IN_FLIGHT {
            Some((submitted - MAX_IN_FLIGHT) as usize)
        } else {
            None
        },
{
    if submitted >= MAX_IN_FLIGHT {
        Some(submitted - MAX_IN_FLIGHT)
    } else {
        None
    }
}

/// The threads of one batch of the scan. Thread `t` scans the points of the
/// bucket at place `start_idx + t` of the order, as far as they lie in the
/// batch.
pub struct ScanBatch {
    /// The first point of the batch.
    pub start: usize,
    /// The point after the last of the batch.
    pub end: usize,
    /// The first place with points in the batch.
    pub start_idx: usize,
    /// The place after the last with points in the batch.
    pub end_idx: usize,
    /// Where in the batch the segment of each thread starts, and after them
    /// the length of the batch.
    pub offsets: Vec<u32>,
    /// The bucket of each thread, filled up with zeros to whole workgroups.
    pub buckets: Vec<u32>,
    /// The workgroups of 64 threads.
    pub n_workgroups: u32,
    /// The place at which the search for the next batch's first place
    /// starts: the last place of this batch, whose segment may go on.
    pub next_idx: usize,
}

impl GpuBucketerPreprocessed {
    /// The threads of the batch of at most `max_batch` points that starts
    /// at point `start`, where the search for its first place starts at
    /// `current_idx`.
    pub fn plan_batch(&self, max_batch: usize, start: usize, current_idx: usize) -> (plan:
        ScanBatch)
        requires
            self@.idx_to_bkt.len() <= 0x7fff_ffff,
            1 <= max_batch <= u32::MAX,
            start < self@.n_nonzero,
            1 <= current_idx <= self@.idx_to_bkt.len(),
            self@.bucket_shuffled[current_idx - 1] <= start,
        ensures
            plan.start == start,
            plan.end == if self@.n_nonzero - plan.start < max_batch {
                self@.n_nonzero as int
            } else {
                plan.start + max_batch
            },
            current_idx <= plan.start_idx < plan.end_idx <= self@.idx_to_bkt.len(),
            forall|s: int| 0 <= s < plan.start_idx ==> self@.bucket_shuffled[s] <= plan.start,
            self@.bucket_shuffled[plan.start_idx as int] > plan.start,
            forall|s: int|
                plan.start_idx <= s < plan.end_idx ==> #[trigger] self@.segment_start(s) < plan.end,
            self@.bucket_shuffled[plan.end_idx - 1] >= plan.end,
            plan.offsets.len() == plan.end_idx - plan.start_idx + 1,
            forall|t: int|
                0 <= t < plan.end_idx - plan.start_idx ==> #[trigger] plan.offsets[t]
                    == self@.segment_done(plan.start_idx + t, plan.start as int) - plan.start,
            plan.offsets[plan.end_idx - plan.start_idx] == plan.end - plan.start,
            plan.n_workgroups == (plan.end_idx - plan.start_idx + 63) / 64,
            plan.buckets.len() == plan.n_workgroups * 64,
            forall|t: int|
                0 <= t < plan.end_idx - plan.start_idx ==> #[trigger] plan.buckets[t]
                    == self@.idx_to_bkt[plan.start_idx + t],
            forall|t: int|
                plan.end_idx - plan.start_idx <= t < plan.buckets.len() ==> #[trigger] plan.buckets[t]
                    == 0,
            plan.next_idx == plan.end_idx - 1,
            plan.next_idx >= 1,
            self@.bucket_shuffled[plan.next_idx - 1] <= plan.end,
    {
        proof {
            use_type_invariant(self);
        }
        let n_buckets = self.idx_to_bkt.len();
        let n_nonzero = self.n_nonzero;
        let end = if n_nonzero - start < max_batch {
            n_nonzero
        } else {
            start + max_batch
        };
        let mut current = current_idx;
        // the first bucket that ends after the start of this batch
        while current < n_buckets && self.bucket_shuffled[current] <= start
            invariant
                current_idx <= current <= n_buckets,
                n_buckets == self@.idx_to_bkt.len(),
                self@.wf(),
                forall|s: int| 0 <= s < current ==> self@.bucket_shuffled[s] <= start,
            decreases n_buckets - current,
        {
            current += 1;
        }
        let start_idx = current;
        assert(start_idx < n_buckets && self@.bucket_shuffled[start_idx as int] > start);
        // the first bucket that starts after the end of this batch
        while current < n_buckets && self.bucket_shuffled[current - 1] < end
            invariant
                start_idx <= current <= n_buckets,
                start_idx >= 1,
                n_buckets == self@.idx_to_bkt.len(),
                self@.wf(),
                forall|s: int| start_idx <= s < current ==> #[trigger] self@.segment_start(s) < end,
            decreases n_buckets - current,
        {
            current += 1;
        }
        let end_idx = current;
        assert(end_idx > start_idx);
        assert(self@.segment_start(end_idx - 1) < end);
        let n_threads = end_idx - start_idx;
        let n_workgroups = (n_threads + 63) / 64;
        let mut offsets: Vec<u32> = Vec::with_capacity(n_threads + 1);
        let mut buckets: Vec<u32> = Vec::with_capacity(n_workgroups * 64);
        let mut s = start_idx;
        while s < end_idx
            invariant
                start_idx <= s <= end_idx,
                end_idx <= n_buckets,
                start_idx >= 1,
                n_buckets == self@.idx_to_bkt.len(),
                n_buckets <= 0x7fff_ffff,
                self@.wf(),
                self@.bucket_shuffled[start_idx as int] > start,
                start < end,
                end - start <= max_batch,
                max_batch <= u32::MAX,
                end <= self@.n_nonzero,
                forall|q: int| start_idx <= q < end_idx ==> #[trigger] self@.segment_start(q) < end,
                offsets.len() == s - start_idx,
                buckets.len() == s - start_idx,
                forall|t: int|
                    0 <= t < s - start_idx ==> #[trigger] offsets[t] == self@.segment_done(
                        start_idx + t,
                        start as int,
                    ) - start,
                forall|t: int|
                    0 <= t < s - start_idx ==> #[trigger] buckets[t] == self@.idx_to_bkt[start_idx
                        + t],
            decreases end_idx - s,
        {
            let before = self.bucket_shuffled[s - 1];
            assert(self@.segment_start(s as int) < end);
            assert(self@.bucket_shuffled[s as int] > start);
            let offset = if before > start {
                before - start
            } else {
                0
            };
            assert(self@.idx_to_bkt[s as int] < n_buckets);
            offsets.push(offset as u32);
            buckets.push(self.idx_to_bkt[s] as u32);
            s += 1;
        }
        offsets.push((end - start) as u32);
        let padded = n_workgroups * 64;
        let mut t = n_threads;
        while t < padded
            invariant
                n_threads <= t <= padded,
                start_idx + n_threads <= self@.idx_to_bkt.len(),
                buckets.len() == t,
                forall|q: int|
                    0 <= q < n_threads ==> #[trigger] buckets[q] == self@.idx_to_bkt[start_idx + q],
                forall|q: int| n_threads <= q < t ==> #[trigger] buckets[q] == 0,
            decreases padded - t,
        {
            buckets.push(0);
            t += 1;
        }
        ScanBatch {
            start,
            end,
            start_idx,
            end_idx,
            offsets,
            buckets,
            n_workgroups: n_workgroups as u32,
            next_idx: end_idx - 1,
        }
    }
}

/// The points from `from` up to `to`, added one after the other to `acc` in
/// Montgomery form.
pub open spec fn chain_from(acc: Coordinates, points: Seq<Coordinates>, from: int, to: int)
    -> Coordinates
    decreases to - from,
{
    if to <= from {
        acc
    } else {
        mont_edwards_sum(chain_from(acc, points, from, to - 1), points[to - 1])
    }
}

/// The points from `from` up to `to`, added one after the other to `acc`,
/// on residues.
pub open spec fn edwards_chain(acc: Coordinates, points: Seq<Coordinates>, from: int, to: int)
    -> Coordinates
    decreases to - from,
{
    if to <= from {
        acc
    } else {
        edwards_sum(edwards_chain(acc, points, from, to - 1), points[to - 1])
    }
}

/// A chain that is taken up where it stopped goes on as if it had not
/// stopped.
pub proof fn lemma_chain_concat(acc: Coordinates, points: Seq<Coordinates>, a: int, m: int, e: int)
    requires
        a <= m <= e,
    ensures
        chain_from(chain_from(acc, points, a, m), points, m, e) == chain_from(acc, points, a, e),
    decreases e - m,
{
    if m < e {
        lemma_chain_concat(acc, points, a, m, e - 1);
    }
}

/// The coordinates of each point of a sequence.
pub open spec fn mont_coordinates(points: Seq<MontgomeryPoint>) -> Seq<Coordinates> {
    Seq::new(points.len(), |i: int| points[i]@)
}

/// Every point of a sequence has residues for coordinates.
pub open spec fn all_mont_wf(points: Seq<MontgomeryPoint>) -> bool {
    forall|i: int| 0 <= i < points.len() ==> (#[trigger] points[i]).wf()
}

/// One batch of the scan: each thread takes the sum of its bucket, adds the
/// points of its segment to it one after the other, and puts it back. No
/// two threads have one bucket.
pub fn scan_batch(sums: &mut Vec<MontgomeryPoint>, points: &[MontgomeryPoint], plan: &ScanBatch)
    requires
        plan.offsets.len() >= 1,
        plan.buckets.len() >= plan.offsets.len() - 1,
        plan.start + plan.offsets[plan.offsets.len() - 1] <= points.len(),
        forall|t: int, u: int|
            0 <= t <= u < plan.offsets.len() ==> plan.offsets[t] <= plan.offsets[u],
        forall|t: int| 0 <= t < plan.offsets.len() - 1 ==> plan.buckets[t] < old(sums).len(),
        forall|t: int, u: int|
            0 <= t < u < plan.offsets.len() - 1 ==> plan.buckets[t] != plan.buckets[u],
        all_mont_wf(points@),
        all_mont_wf(old(sums)@),
    ensures
        final(sums).len() == old(sums).len(),
        all_mont_wf(final(sums)@),
        forall|t: int|
            0 <= t < plan.offsets.len() - 1 ==> final(sums)[#[trigger] plan.buckets[t] as int]@
                == chain_from(
                old(sums)[plan.buckets[t] as int]@,
                mont_coordinates(points@),
                plan.start + plan.offsets[t],
                plan.start + plan.offsets[t + 1],
            ),
        forall|b: int|
            0 <= b < old(sums).len() && (forall|t: int|
                0 <= t < plan.offsets.len() - 1 ==> plan.buckets[t] != b) ==> final(sums)[b]
                == old(sums)[b],
{
    let n_threads = plan.offsets.len() - 1;
    let ghost cs = mont_coordinates(points@);
    let mut t: usize = 0;
    while t < n_threads
        invariant
            t <= n_threads,
            n_threads == plan.offsets.len() - 1,
            plan.buckets.len() >= n_threads,
            plan.start + plan.offsets[n_threads as int] <= points.len(),
            forall|a: int, u: int|
                0 <= a <= u < plan.offsets.len() ==> plan.offsets[a] <= plan.offsets[u],
            forall|a: int| 0 <= a < n_threads ==> plan.buckets[a] < sums.len(),
            forall|a: int, u: int| 0 <= a < u < n_threads ==> plan.buckets[a] != plan.buckets[u],
            all_mont_wf(points@),
            all_mont_wf(sums@),
            cs == mont_coordinates(points@),
            sums.len() == old(sums).len(),
            forall|a: int|
                0 <= a < t ==> sums[#[trigger] plan.buckets[a] as int]@ == chain_from(
                    old(sums)[plan.buckets[a] as int]@,
                    cs,
                    plan.start + plan.offsets[a],
                    plan.start + plan.offsets[a + 1],
                ),
            forall|b: int|
                0 <= b < sums.len() && (forall|a: int| 0 <= a < t ==> plan.buckets[a] != b)
                    ==> sums[b] == old(sums)[b],
        decreases n_threads - t,
    {
        let bucket = plan.buckets[t] as usize;
        let from = plan.start + plan.offsets[t] as usize;
        let to = plan.start + plan.offsets[t + 1] as usize;
        assert(sums@[bucket as int].wf());
        assert(sums[bucket as int] == old(sums)[bucket as int]);
        let mut acc = sums[bucket];
        let mut q = from;
        while q < to
            invariant
                from <= q <= to,
                to <= points.len(),
                all_mont_wf(points@),
                cs == mont_coordinates(points@),
                acc.wf(),
                acc@ == chain_from(old(sums)[bucket as int]@, cs, from as int, q as int),
            decreases to - q,
        {
            assert(points@[q as int].wf());
            acc = point_add(&acc, &points[q]);
            q += 1;
        }
        let ghost before = sums@;
        sums[bucket] = acc;
        proof {
            assert forall|a: int| 0 <= a < t + 1 implies sums[#[trigger] plan.buckets[a] as int]@
                == chain_from(
                old(sums)[plan.buckets[a] as int]@,
                cs,
                plan.start + plan.offsets[a],
                plan.start + plan.offsets[a + 1],
            ) by {
                if a < t {
                    assert(plan.buckets[a] != plan.buckets[t as int]);
                    assert(sums[plan.buckets[a] as int] == before[plan.buckets[a] as int]);
                }
            }
        }
        t += 1;
    }
}

/// The neutral point in Montgomery form stands for the neutral point.
pub proof fn lemma_zero_decodes()
    ensures
        (Coordinates { x: 0, y: r_mod_p(), t: 0, z: r_mod_p() }).from_mont() == neutral(),
{
    lemma_field_constants();
    lemma_mont_round_trip(1);
    vstd::arithmetic::div_mod::lemma_fundamental_div_mod_converse(
        crate::u256::two_256() as int,
        modulus() as int,
        13,
        r_mod_p() as int,
    );
    assert(crate::field::to_mont_value(1) == r_mod_p());
    assert(0 * crate::field::r_inverse() == 0);
    vstd::arithmetic::div_mod::lemma_small_mod(0, modulus());
}

/// A chain of points in Montgomery form stands for the chain of what the
/// points stand for.
pub proof fn lemma_chain_decodes(acc: Coordinates, points: Seq<Coordinates>, from: int, to: int)
    requires
        0 <= from,
        to <= points.len(),
    ensures
        chain_from(acc, points, from, to).from_mont() == edwards_chain(
            acc.from_mont(),
            Seq::new(points.len(), |i: int| points[i].from_mont()),
            from,
            to,
        ),
    decreases to - from,
{
    if from < to {
        lemma_chain_decodes(acc, points, from, to - 1);
        lemma_point_add_decodes(chain_from(acc, points, from, to - 1), points[to - 1]);
    }
}

impl GpuBucketer {
    /// The sum of each bucket: the points of its segment added one after the
    /// other to the neutral point, by the addition with eight
    /// multiplications. The scan runs in batches of at most `max_batch`
    /// points, and a segment that a batch cuts goes on in the next.
    pub fn bucket_batched(&self, preprocessed: &GpuBucketerPreprocessed, max_batch: usize) -> (sums:
        Vec<EdwardsPoint>)
        requires
            preprocessed@.idx_to_bkt.len() == self.n_buckets,
            self.n_buckets <= 0x7fff_ffff,
            1 <= max_batch <= u32::MAX,
        ensures
            sums.len() == self.n_buckets,
            all_wf(sums@),
            forall|s: int|
                0 <= s < self.n_buckets ==> sums[#[trigger] preprocessed@.idx_to_bkt[s] as int]@
                    == edwards_chain(
                    neutral(),
                    coordinates_of(preprocessed@.reshuffled),
                    preprocessed@.segment_start(s),
                    preprocessed@.bucket_shuffled[s] as int,
                ),
    {
        proof {
            use_type_invariant(preprocessed);
        }
        let n_buckets = self.n_buckets;
        let n_nonzero = preprocessed.n_nonzero;
        let ghost std_points = coordinates_of(preprocessed@.reshuffled);
        // the points in Montgomery form
        let mut points: Vec<MontgomeryPoint> = Vec::with_capacity(n_nonzero);
        let mut i: usize = 0;
        while i < n_nonzero
            invariant
                i <= n_nonzero,
                n_nonzero == preprocessed@.reshuffled.len(),
                all_wf(preprocessed@.reshuffled),
                points.len() == i,
                all_mont_wf(points@),
                forall|k: int|
                    0 <= k < i ==> (#[trigger] points[k])@ == preprocessed@.reshuffled[k]@.to_mont(),
            decreases n_nonzero - i,
        {
            assert(preprocessed@.reshuffled[i as int].wf());
            points.push(edwards_to_mont(&preprocessed.reshuffled[i]));
            i += 1;
        }
        let ghost cs = mont_coordinates(points@);
        // the sums, all neutral
        let mut sums: Vec<MontgomeryPoint> = Vec::with_capacity(n_buckets);
        let mut b: usize = 0;
        while b < n_buckets
            invariant
                b <= n_buckets,
                sums.len() == b,
                all_mont_wf(sums@),
                forall|k: int|
                    0 <= k < b ==> (#[trigger] sums[k])@ == (Coordinates {
                        x: 0,
                        y: r_mod_p(),
                        t: 0,
                        z: r_mod_p(),
                    }),
            decreases n_buckets - b,
        {
            sums.push(MontgomeryPoint::zero());
            b += 1;
        }
        let ghost zero = Coordinates { x: 0, y: r_mod_p(), t: 0, z: r_mod_p() };
        let mut current_idx: usize = 1;
        let mut start: usize = 0;
        while start < n_nonzero
            invariant
                start <= n_nonzero,
                n_nonzero == preprocessed@.n_nonzero,
                n_buckets == preprocessed@.idx_to_bkt.len(),
                n_buckets <= 0x7fff_ffff,
                1 <= max_batch <= u32::MAX,
                preprocessed@.wf(),
                points.len() == n_nonzero,
                all_mont_wf(points@),
                cs == mont_coordinates(points@),
                sums.len() == n_buckets,
                all_mont_wf(sums@),
                start < n_nonzero ==> 1 <= current_idx <= n_buckets
                    && preprocessed@.bucket_shuffled[current_idx - 1] <= start,
                forall|s: int|
                    0 <= s < n_buckets ==> sums[#[trigger] preprocessed@.idx_to_bkt[s] as int]@
                        == chain_from(
                        zero,
                        cs,
                        preprocessed@.segment_start(s),
                        preprocessed@.segment_done(s, start as int),
                    ),
            decreases n_nonzero - start,
        {
            let plan = preprocessed.plan_batch(max_batch, start, current_idx);
            let ghost before = sums@;
            let ghost n_threads = plan.end_idx - plan.start_idx;
            proof {
                assert forall|t: int, u: int| 0 <= t <= u < plan.offsets.len() implies plan.offsets[t]
                    <= plan.offsets[u] by {
                    lemma_offsets(preprocessed, &plan, t);
                    lemma_offsets(preprocessed, &plan, u);
                }
                assert forall|t: int| 0 <= t < plan.offsets.len() - 1 implies plan.buckets[t]
                    < sums.len() by {
                    assert(preprocessed@.idx_to_bkt[plan.start_idx + t] < n_buckets);
                }
                assert forall|t: int, u: int| 0 <= t < u < plan.offsets.len() - 1 implies plan.buckets[t]
                    != plan.buckets[u] by {
                    assert(preprocessed@.idx_to_bkt[plan.start_idx + t]
                        != preprocessed@.idx_to_bkt[plan.start_idx + u]);
                }
            }
            scan_batch(&mut sums, points.as_slice(), &plan);
            proof {
                assert forall|s: int| 0 <= s < n_buckets implies sums[#[trigger] preprocessed@.idx_to_bkt[s] as int]@
                    == chain_from(
                    zero,
                    cs,
                    preprocessed@.segment_start(s),
                    preprocessed@.segment_done(s, plan.end as int),
                ) by {
                    let bkt = preprocessed@.idx_to_bkt[s];
                    assert(before[bkt as int]@ == chain_from(
                        zero,
                        cs,
                        preprocessed@.segment_start(s),
                        preprocessed@.segment_done(s, start as int),
                    ));
                    if plan.start_idx <= s < plan.end_idx {
                        let t = s - plan.start_idx;
                        assert(plan.buckets[t] == bkt);
                        lemma_offsets(preprocessed, &plan, t);
                        lemma_offsets(preprocessed, &plan, t + 1);
                        assert(preprocessed@.segment_start(s) < plan.end);
                        if s + 1 < plan.end_idx {
                            assert(preprocessed@.segment_start(s + 1) < plan.end);
                        }
                        lemma_chain_concat(
                            zero,
                            cs,
                            preprocessed@.segment_start(s),
                            preprocessed@.segment_done(s, start as int),
                            preprocessed@.segment_done(s, plan.end as int),
                        );
                    } else {
                        assert forall|t: int| 0 <= t < plan.offsets.len() - 1 implies plan.buckets[t]
                            != bkt by {
                            assert(preprocessed@.idx_to_bkt[plan.start_idx + t]
                                != preprocessed@.idx_to_bkt[s]);
                        }
                        assert(sums[bkt as int] == before[bkt as int]);
                        if s >= plan.end_idx {
                            assert(preprocessed@.bucket_shuffled[s - 1]
                                >= preprocessed@.bucket_shuffled[plan.end_idx - 1]);
                        }
                    }
                }
            }
            current_idx = plan.next_idx;
            start = plan.end;
        }
        // out of Montgomery form
        let mut out: Vec<EdwardsPoint> = Vec::with_capacity(n_buckets);
        let mut b: usize = 0;
        while b < n_buckets
            invariant
                b <= n_buckets,
                sums.len() == n_buckets,
                all_mont_wf(sums@),
                out.len() == b,
                all_wf(out@),
                forall|k: int| 0 <= k < b ==> (#[trigger] out[k])@ == sums[k]@.from_mont(),
            decreases n_buckets - b,
        {
            assert(sums@[b as int].wf());
            out.push(edwards_from_mont(&sums[b]));
            b += 1;
        }
        proof {
            lemma_zero_decodes();
            let decoded = Seq::new(cs.len(), |i: int| cs[i].from_mont());
            assert(decoded =~= std_points) by {
                assert forall|i: int| 0 <= i < cs.len() implies decoded[i] == std_points[i] by {
                    assert(preprocessed@.reshuffled[i].wf());
                    lemma_mont_round_trip(std_points[i].x);
                    lemma_mont_round_trip(std_points[i].y);
                    lemma_mont_round_trip(std_points[i].t);
                    lemma_mont_round_trip(std_points[i].z);
                }
            }
            assert forall|s: int| 0 <= s < n_buckets implies out[#[trigger] preprocessed@.idx_to_bkt[s] as int]@
                == edwards_chain(
                neutral(),
                std_points,
                preprocessed@.segment_start(s),
                preprocessed@.bucket_shuffled[s] as int,
            ) by {
                lemma_chain_decodes(
                    zero,
                    cs,
                    preprocessed@.segment_start(s),
                    preprocessed@.bucket_shuffled[s] as int,
                );
            }
        }
        out
    }

    /// The sum of each bucket, by the scan in batches of at most
    /// `MAX_BATCH_SIZE` points.
    pub fn bucket(&self, preprocessed: &GpuBucketerPreprocessed) -> (sums: Vec<EdwardsPoint>)
        requires
            preprocessed@.idx_to_bkt.len() == self.n_buckets,
            self.n_buckets <= 0x7fff_ffff,
        ensures
            sums.len() == self.n_buckets,
            all_wf(sums@),
            forall|s: int|
                0 <= s < self.n_buckets ==> sums[#[trigger] preprocessed@.idx_to_bkt[s] as int]@
                    == edwards_chain(
                    neutral(),
                    coordinates_of(preprocessed@.reshuffled),
                    preprocessed@.segment_start(s),
                    preprocessed@.bucket_shuffled[s] as int,
                ),
    {
        self.bucket_batched(preprocessed, MAX_BATCH_SIZE)
    }
}

/// Where in the reshuffled points an offset of a batch lies: the offset of
/// thread `t` at the start of what is left of its segment, and the offset
/// after it at the end of what the batch holds of it.
proof fn lemma_offsets(pre: &GpuBucketerPreprocessed, plan: &ScanBatch, t: int)
    requires
        pre@.wf(),
        plan.start < plan.end <= pre@.n_nonzero,
        1 <= plan.start_idx < plan.end_idx <= pre@.idx_to_bkt.len(),
        pre@.bucket_shuffled[plan.start_idx as int] > plan.start,
        forall|s: int| 0 <= s < plan.start_idx ==> pre@.bucket_shuffled[s] <= plan.start,
        forall|s: int| plan.start_idx <= s < plan.end_idx ==> #[trigger] pre@.segment_start(s) < plan.end,
        pre@.bucket_shuffled[plan.end_idx - 1] >= plan.end,
        plan.offsets.len() == plan.end_idx - plan.start_idx + 1,
        forall|t: int|
            0 <= t < plan.end_idx - plan.start_idx ==> #[trigger] plan.offsets[t] == pre@.segment_done(
                plan.start_idx + t,
                plan.start as int,
            ) - plan.start,
        plan.offsets[plan.end_idx - plan.start_idx] == plan.end - plan.start,
        0 <= t <= plan.end_idx - plan.start_idx,
    ensures
        t < plan.end_idx - plan.start_idx ==> plan.start + plan.offsets[t] == pre@.segment_done(
            plan.start_idx + t,
            plan.start as int,
        ),
        t > 0 ==> plan.start + plan.offsets[t] == pre@.segment_done(
            plan.start_idx + t - 1,
            plan.end as int,
        ),
        plan.start <= plan.start + plan.offsets[t] <= plan.end,
        t < plan.end_idx - plan.start_idx ==> plan.start + plan.offsets[t] == (if t == 0 {
            if pre@.segment_start(plan.start_idx as int) > plan.start {
                pre@.segment_start(plan.start_idx as int)
            } else {
                plan.start as int
            }
        } else {
            pre@.bucket_shuffled[plan.start_idx + t - 1] as int
        }),
{
    let n = plan.end_idx - plan.start_idx;
    if t < n {
        let s = plan.start_idx + t;
        assert(pre@.segment_start(s) < plan.end);
        assert(pre@.bucket_shuffled[s] >= pre@.bucket_shuffled[plan.start_idx as int]);
        if t > 0 {
            assert(pre@.bucket_shuffled[s - 1] >= pre@.bucket_shuffled[plan.start_idx as int]);
            assert(pre@.segment_start(s - 1) < plan.end);
        }
    } else {
        assert(pre@.segment_start(plan.end_idx - 1) < plan.end);
    }
}

/// The sum of a bucket by the scan: its points added one after the other to
/// the neutral point, the latest first.
pub open spec fn scan_sum(bucket: Seq<Coordinates>) -> Coordinates {
    edwards_chain(neutral(), bucket.reverse(), 0, bucket.len() as int)
}

/// A chain depends on the points of its segment alone.
pub proof fn lemma_chain_of_segment(
    acc: Coordinates,
    a: Seq<Coordinates>,
    from: int,
    to: int,
    b: Seq<Coordinates>,
)
    requires
        from <= to,
        b.len() == to - from,
        forall|j: int| 0 <= j < to - from ==> a[from + j] == #[trigger] b[j],
    ensures
        edwards_chain(acc, a, from, to) == edwards_chain(acc, b, 0, to - from),
    decreases to - from,
{
    if from < to {
        lemma_chain_of_segment(acc, a, from, to - 1, b.drop_last());
        lemma_chain_prefix(acc, b, to - from - 1);
        assert(a[to - 1] == b[to - from - 1]);
    }
}

proof fn lemma_chain_prefix(acc: Coordinates, b: Seq<Coordinates>, n: int)
    requires
        0 <= n < b.len(),
    ensures
        edwards_chain(acc, b.drop_last(), 0, n) == edwards_chain(acc, b, 0, n),
    decreases n,
{
    if n > 0 {
        lemma_chain_prefix(acc, b, n - 1);
    }
}

/// The index list of a bucket holds the indices of its scalars in their
/// order: entry `k` is the index before which `k` scalars name the bucket.
pub proof fn lemma_indices_count(scalars: Seq<u32>, n: nat, v: nat, k: int)
    requires
        v != 0,
        n <= scalars.len(),
        n <= 0x1_0000_0000,
    ensures
        indices_of(scalars, n, v).len() == count_of(scalars, n, v),
        0 <= k < indices_of(scalars, n, v).len() ==> indices_of(scalars, n, v)[k] < n
            && scalars[indices_of(scalars, n, v)[k] as int] == v && count_of(
            scalars,
            indices_of(scalars, n, v)[k] as nat,
            v,
        ) == k,
    decreases n,
{
    if n > 0 {
        lemma_indices_count(scalars, (n - 1) as nat, v, k);
        lemma_indices_count(scalars, (n - 1) as nat, v, 0);
    }
}

/// The scan sums each bucket: the chain over the segment at place `s` is
/// the sum by the scan of the points of the bucket that stands there.
pub proof fn lemma_scan_sums_buckets(
    g: Gathered,
    scalars: Seq<u32>,
    points: Seq<Coordinates>,
    s: int,
)
    requires
        g.wf(),
        g.gathers(scalars, points),
        0 <= s < g.idx_to_bkt.len(),
        scalars.len() <= 0x1_0000_0000,
    ensures
        edwards_chain(
            neutral(),
            coordinates_of(g.reshuffled),
            g.segment_start(s),
            g.bucket_shuffled[s] as int,
        ) == scan_sum(bucket_points(scalars, points, g.idx_to_bkt[s] as nat)),
{
    let v = g.idx_to_bkt[s] as nat;
    let n = scalars.len();
    let bucket = bucket_points(scalars, points, v);
    let start = g.segment_start(s);
    let end = g.bucket_shuffled[s] as int;
    let cs = coordinates_of(g.reshuffled);
    assert(start == size_prefix(g.idx_to_bkt, scalars, n, s as nat)) by {
        if s > 0 {
            assert(g.bucket_shuffled[s - 1] == size_prefix(g.idx_to_bkt, scalars, n, s as nat));
        }
    }
    assert(end == size_prefix(g.idx_to_bkt, scalars, n, (s + 1) as nat));
    if v == 0 {
        assert(bucket.len() == 0) by {
            lemma_no_indices_of_zero(scalars, n);
        }
    } else {
        lemma_indices_count(scalars, n, v, 0);
        let idx = indices_of(scalars, n, v);
        let size = idx.len() as int;
        assert(end - start == size);
        assert forall|j: int| 0 <= j < size implies cs[start + j] == #[trigger] bucket.reverse()[j] by {
            let k = size - 1 - j;
            lemma_indices_count(scalars, n, v, k);
            let i = idx[k] as int;
            assert(g.idx_to_bkt[s] == scalars[i]);
            assert(g.reshuffled[g.bucket_shuffled[s] - 1 - count_of(
                scalars,
                i as nat,
                scalars[i] as nat,
            )]@ == points[i]);
        }
        lemma_chain_of_segment(neutral(), cs, start, end, bucket.reverse());
    }
}

proof fn lemma_no_indices_of_zero(scalars: Seq<u32>, n: nat)
    ensures
        indices_of(scalars, n, 0).len() == 0,
    decreases n,
{
    if n > 0 {
        lemma_no_indices_of_zero(scalars, (n - 1) as nat);
    }
}

impl GpuBucketer {
    /// The sum of each bucket of a window by the scan: the points are
    /// gathered bucket by bucket, and each bucket's segment is scanned.
    pub fn bucket_window(&self, scalars: &[u32], points: &[EdwardsPoint]) -> (sums: Vec<
        EdwardsPoint,
    >)
        requires
            1 <= self.n_buckets <= 0x7fff_ffff,
            scalars.len() == points.len(),
            scalars.len() <= 0x1_0000_0000,
            forall|i: int| 0 <= i < scalars.len() ==> scalars[i] < self.n_buckets,
            all_wf(points@),
        ensures
            sums.len() == self.n_buckets,
            all_wf(sums@),
            forall|v: int|
                0 <= v < self.n_buckets ==> (#[trigger] sums[v])@ == scan_sum(
                    bucket_points(scalars@, coordinates_of(points@), v as nat),
                ),
    {
        let preprocessed = self.preprocess(scalars, points);
        let sums = self.bucket(&preprocessed);
        proof {
            let g = preprocessed@;
            assert forall|v: int| 0 <= v < self.n_buckets implies (#[trigger] sums[v])@ == scan_sum(
                bucket_points(scalars@, coordinates_of(points@), v as nat),
            ) by {
                assert(g.idx_to_bkt.contains(v as usize));
                let s = choose|s: int| 0 <= s < g.idx_to_bkt.len() && g.idx_to_bkt[s] == v as usize;
                lemma_scan_sums_buckets(g, scalars@, coordinates_of(points@), s);
                assert(sums[g.idx_to_bkt[s] as int]@ == edwards_chain(
                    neutral(),
                    coordinates_of(g.reshuffled),
                    g.segment_start(s),
                    g.bucket_shuffled[s] as int,
                ));
            }
        }
        sums
    }
}

} // verus!
