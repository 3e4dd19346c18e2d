//! The sum over the buckets of the bucket's number times its sum: chunks of
//! 64 buckets are folded into one, level after level, and what is left is
//! summed by two running sums.

use vstd::prelude::*;
use crate::bucket::{all_mont_wf, mont_coordinates};
use crate::bytes::EdwardsPoint;
use crate::cpu::{all_wf, coordinates_of};
use crate::curve::{mont_edwards_sum, neutral, point_add, unified_sum, Coordinates, MontgomeryPoint};
use crate::intra_bucket::mont_zero;
use crate::mont::{edwards_from_mont, edwards_to_mont};

verus! {

/// The buckets that one workgroup folds into one.
pub const CHUNK: usize = 64;

/// The most buckets that one dispatch takes.
pub const MAX_BATCH_SIZE: usize = 32768;

/// A dispatch of the most buckets takes whole chunks.
pub proof fn lemma_batch_of_whole_chunks()
    ensures
        MAX_BATCH_SIZE % CHUNK == 0,
{
}

/// The sum of two points: on the host the unified sum of residues, else
/// the sum in Montgomery form.
pub open spec fn sum_on(host: bool, a: Coordinates, b: Coordinates) -> Coordinates {
    if host {
        unified_sum(a, b)
    } else {
        mont_edwards_sum(a, b)
    }
}

/// The neutral point, on the host or in Montgomery form.
pub open spec fn zero_on(host: bool) -> Coordinates {
    if host {
        neutral()
    } else {
        mont_zero()
    }
}

/// The sum of the points from `i` up to `hi`, the last first.
pub open spec fn running_carry(host: bool, sum_n: Seq<Coordinates>, i: int, hi: int) -> Coordinates
    decreases hi - i,
{
    if i >= hi {
        zero_on(host)
    } else {
        sum_on(host, running_carry(host, sum_n, i + 1, hi), sum_n[i])
    }
}

/// The weighted sum of the points from `i` up to `hi`: point `k` of `sum_n`
/// enters it `k - i` times and point `k` of `sum_i` once. Index by index
/// from the last down, the running sum of `sum_n` and the point of `sum_i`
/// are added to it.
pub open spec fn weighted_sum(
    host: bool,
    sum_n: Seq<Coordinates>,
    sum_i: Seq<Coordinates>,
    i: int,
    hi: int,
) -> Coordinates
    decreases hi - i,
{
    if i >= hi {
        zero_on(host)
    } else {
        sum_on(
            host,
            weighted_sum(host, sum_n, sum_i, i + 1, hi),
            sum_on(host, running_carry(host, sum_n, i + 1, hi), sum_i[i]),
        )
    }
}

/// A point added to itself `n` times over: `2^n` times the point.
pub open spec fn doubled_by_sum(p: Coordinates, n: nat) -> Coordinates
    decreases n,
{
    if n == 0 {
        p
    } else {
        let half = doubled_by_sum(p, (n - 1) as nat);
        mont_edwards_sum(half, half)
    }
}

/// What chunk `c` hands on as its point of `sum_n`: 64 times the sum of its
/// points, since each of them moves 64 places down for each place that the
/// chunk has in the next level.
pub open spec fn chunk_sum_n(sum_n: Seq<Coordinates>, c: int) -> Coordinates {
    doubled_by_sum(running_carry(false, sum_n, 64 * c, 64 * c + 64), 6)
}

/// What chunk `c` hands on as its point of `sum_i`: the weighted sum of its
/// points by their places within the chunk.
pub open spec fn chunk_sum_i(sum_n: Seq<Coordinates>, sum_i: Seq<Coordinates>, c: int)
    -> Coordinates {
    weighted_sum(false, sum_n, sum_i, 64 * c, 64 * c + 64)
}

/// The weighted sum of the points from `lo` up to `hi` by two running sums
/// in Montgomery form, and the sum of the points of `sum_n` with it.
fn weighted_scan(sum_n: &[MontgomeryPoint], sum_i: &[MontgomeryPoint], lo: usize, hi: usize) -> (r: (
    MontgomeryPoint,
    MontgomeryPoint,
))
    requires
        lo <= hi <= sum_n.len(),
        sum_n.len() == sum_i.len(),
        all_mont_wf(sum_n@),
        all_mont_wf(sum_i@),
    ensures
        r.0.wf(),
        r.1.wf(),
        r.0@ == weighted_sum(
            false,
            mont_coordinates(sum_n@),
            mont_coordinates(sum_i@),
            lo as int,
            hi as int,
        ),
        r.1@ == running_carry(false, mont_coordinates(sum_n@), lo as int, hi as int),
{
    let ghost ns = mont_coordinates(sum_n@);
    let ghost is = mont_coordinates(sum_i@);
    let mut sum = MontgomeryPoint::zero();
    let mut carry = MontgomeryPoint::zero();
    let mut k = hi;
    while k > lo
        invariant
            lo <= k <= hi,
            hi <= sum_n.len(),
            sum_n.len() == sum_i.len(),
            all_mont_wf(sum_n@),
            all_mont_wf(sum_i@),
            ns == mont_coordinates(sum_n@),
            is == mont_coordinates(sum_i@),
            sum.wf(),
            carry.wf(),
            sum@ == weighted_sum(false, ns, is, k as int, hi as int),
            carry@ == running_carry(false, ns, k as int, hi as int),
        decreases k - lo,
    {
        k -= 1;
        assert(sum_n@[k as int].wf() && sum_i@[k as int].wf());
        let term = point_add(&carry, &sum_i[k]);
        sum = point_add(&sum, &term);
        carry = point_add(&carry, &sum_n[k]);
    }
    (sum, carry)
}

/// The work of the workgroup of chunk `c`: its points of `sum_n` and
/// `sum_i` for the next level.
pub fn chunk_reduce(sum_n: &[MontgomeryPoint], sum_i: &[MontgomeryPoint], c: usize) -> (r: (
    MontgomeryPoint,
    MontgomeryPoint,
))
    requires
        64 * c + 64 <= sum_n.len(),
        sum_n.len() == sum_i.len(),
        all_mont_wf(sum_n@),
        all_mont_wf(sum_i@),
    ensures
        r.0.wf(),
        r.1.wf(),
        r.0@ == chunk_sum_n(mont_coordinates(sum_n@), c as int),
        r.1@ == chunk_sum_i(mont_coordinates(sum_n@), mont_coordinates(sum_i@), c as int),
{
    let base = CHUNK * c;
    let (weighted, mut total) = weighted_scan(sum_n, sum_i, base, base + CHUNK);
    let mut d: usize = 0;
    let ghost start = total@;
    while d < 6
        invariant
            d <= 6,
            total.wf(),
            total@ == doubled_by_sum(start, d as nat),
        decreases 6 - d,
    {
        total = point_add(&total, &total);
        d += 1;
    }
    (total, weighted)
}

/// The points of `sum_n` of the next level.
pub open spec fn level_sum_n(sum_n: Seq<Coordinates>) -> Seq<Coordinates> {
    Seq::new((sum_n.len() / 64) as nat, |c: int| chunk_sum_n(sum_n, c))
}

/// The points of `sum_i` of the next level.
pub open spec fn level_sum_i(sum_n: Seq<Coordinates>, sum_i: Seq<Coordinates>) -> Seq<Coordinates> {
    Seq::new((sum_n.len() / 64) as nat, |c: int| chunk_sum_i(sum_n, sum_i, c))
}

/// The workgroups of the dispatch that takes the buckets from `start` on:
/// one for each whole chunk of at most `MAX_BATCH_SIZE` buckets.
pub fn level_batch(n_points: usize, start: usize) -> (r: (usize, usize))
    requires
        start < n_points,
    ensures
        r.0 == if n_points - start < MAX_BATCH_SIZE {
            n_points
        } else {
            (start + MAX_BATCH_SIZE) as usize
        },
        r.1 == (r.0 - start) / 64,
{
    let end = if n_points - start < MAX_BATCH_SIZE {
        n_points
    } else {
        start + MAX_BATCH_SIZE
    };
    (end, (end - start) / CHUNK)
}

/// One level: each chunk of 64 buckets folded into one, dispatch after
/// dispatch.
pub fn reduce_level(sum_n: &Vec<MontgomeryPoint>, sum_i: &Vec<MontgomeryPoint>) -> (r: (
    Vec<MontgomeryPoint>,
    Vec<MontgomeryPoint>,
))
    requires
        sum_n.len() == sum_i.len(),
        sum_n.len() % 64 == 0,
        all_mont_wf(sum_n@),
        all_mont_wf(sum_i@),
    ensures
        r.0.len() == sum_n.len() / 64,
        r.1.len() == sum_n.len() / 64,
        all_mont_wf(r.0@),
        all_mont_wf(r.1@),
        mont_coordinates(r.0@) == level_sum_n(mont_coordinates(sum_n@)),
        mont_coordinates(r.1@) == level_sum_i(mont_coordinates(sum_n@), mont_coordinates(sum_i@)),
{
    let n_points = sum_n.len();
    let ghost ns = mont_coordinates(sum_n@);
    let ghost is = mont_coordinates(sum_i@);
    let mut result_n: Vec<MontgomeryPoint> = Vec::with_capacity(n_points / CHUNK);
    let mut result_i: Vec<MontgomeryPoint> = Vec::with_capacity(n_points / CHUNK);
    let mut start: usize = 0;
    while start < n_points
        invariant
            start <= n_points,
            start % 64 == 0,
            n_points == sum_n.len(),
            n_points % 64 == 0,
            sum_n.len() == sum_i.len(),
            all_mont_wf(sum_n@),
            all_mont_wf(sum_i@),
            ns == mont_coordinates(sum_n@),
            is == mont_coordinates(sum_i@),
            result_n.len() == start / 64,
            result_i.len() == start / 64,
            all_mont_wf(result_n@),
            all_mont_wf(result_i@),
            forall|c: int| 0 <= c < result_n.len() ==> (#[trigger] result_n[c])@ == chunk_sum_n(ns, c),
            forall|c: int|
                0 <= c < result_i.len() ==> (#[trigger] result_i[c])@ == chunk_sum_i(ns, is, c),
        decreases n_points - start,
    {
        let (end, n_workgroups) = level_batch(n_points, start);
        let first = start / CHUNK;
        let mut w: usize = 0;
        while w < n_workgroups
            invariant
                w <= n_workgroups,
                first == start / 64,
                start % 64 == 0,
                n_workgroups == (end - start) / 64,
                (end - start) % 64 == 0,
                start < end <= n_points,
                n_points == sum_n.len(),
                sum_n.len() == sum_i.len(),
                all_mont_wf(sum_n@),
                all_mont_wf(sum_i@),
                ns == mont_coordinates(sum_n@),
                is == mont_coordinates(sum_i@),
                result_n.len() == first + w,
                result_i.len() == first + w,
                all_mont_wf(result_n@),
                all_mont_wf(result_i@),
                forall|c: int|
                    0 <= c < result_n.len() ==> (#[trigger] result_n[c])@ == chunk_sum_n(ns, c),
                forall|c: int|
                    0 <= c < result_i.len() ==> (#[trigger] result_i[c])@ == chunk_sum_i(ns, is, c),
            decreases n_workgroups - w,
        {
            let (n, i) = chunk_reduce(sum_n.as_slice(), sum_i.as_slice(), first + w);
            result_n.push(n);
            result_i.push(i);
            w += 1;
        }
        start = end;
    }
    proof {
        assert(mont_coordinates(result_n@) =~= level_sum_n(ns));
        assert(mont_coordinates(result_i@) =~= level_sum_i(ns, is));
    }
    (result_n, result_i)
}

/// The points of `sum_n` when no level is left to fold.
pub open spec fn folded_sum_n(sum_n: Seq<Coordinates>, sum_i: Seq<Coordinates>) -> Seq<Coordinates>
    decreases sum_n.len(),
{
    if sum_n.len() > 64 && sum_n.len() % 64 == 0 {
        folded_sum_n(level_sum_n(sum_n), level_sum_i(sum_n, sum_i))
    } else {
        sum_n
    }
}

/// The points of `sum_i` when no level is left to fold.
pub open spec fn folded_sum_i(sum_n: Seq<Coordinates>, sum_i: Seq<Coordinates>) -> Seq<Coordinates>
    decreases sum_n.len(),
{
    if sum_n.len() > 64 && sum_n.len() % 64 == 0 {
        folded_sum_i(level_sum_n(sum_n), level_sum_i(sum_n, sum_i))
    } else {
        sum_i
    }
}

/// The coordinates that those of each point are the Montgomery forms of.
pub open spec fn decoded(points: Seq<Coordinates>) -> Seq<Coordinates> {
    Seq::new(points.len(), |i: int| points[i].from_mont())
}

/// The Montgomery forms of the coordinates of each point.
pub open spec fn encoded(points: Seq<Coordinates>) -> Seq<Coordinates> {
    Seq::new(points.len(), |i: int| points[i].to_mont())
}

/// The weighted sum of a window's buckets: the buckets are folded chunk by
/// chunk in Montgomery form while their number is a multiple of 64 above
/// 64, and what is left is summed by two running sums on the host.
pub open spec fn inter_bucket_value(points: Seq<Coordinates>) -> Coordinates {
    let sum_n = encoded(points);
    let sum_i = Seq::new(points.len(), |i: int| mont_zero());
    let last_n = decoded(folded_sum_n(sum_n, sum_i));
    let last_i = decoded(folded_sum_i(sum_n, sum_i));
    weighted_sum(true, last_n, last_i, 0, last_n.len() as int)
}

/// The weighted sum of the points by two running sums on the host.
pub fn weighted_tail(sum_n: &[EdwardsPoint], sum_i: &[EdwardsPoint]) -> (sum: EdwardsPoint)
    requires
        sum_n.len() == sum_i.len(),
        all_wf(sum_n@),
        all_wf(sum_i@),
    ensures
        sum.wf(),
        sum@ == weighted_sum(
            true,
            coordinates_of(sum_n@),
            coordinates_of(sum_i@),
            0,
            sum_n.len() as int,
        ),
{
    let ghost ns = coordinates_of(sum_n@);
    let ghost is = coordinates_of(sum_i@);
    let hi = sum_n.len();
    let mut sum = EdwardsPoint::zero();
    let mut carry = EdwardsPoint::zero();
    let mut k = hi;
    while k > 0
        invariant
            k <= hi,
            hi == sum_n.len(),
            sum_n.len() == sum_i.len(),
            all_wf(sum_n@),
            all_wf(sum_i@),
            ns == coordinates_of(sum_n@),
            is == coordinates_of(sum_i@),
            sum.wf(),
            carry.wf(),
            sum@ == weighted_sum(true, ns, is, k as int, hi as int),
            carry@ == running_carry(true, ns, k as int, hi as int),
        decreases k,
    {
        k -= 1;
        assert(sum_n@[k as int].wf() && sum_i@[k as int].wf());
        let term = carry.add(&sum_i[k]);
        sum = sum.add(&term);
        carry = carry.add(&sum_n[k]);
    }
    sum
}

fn all_from_montgomery(points: &Vec<MontgomeryPoint>) -> (r: Vec<EdwardsPoint>)
    requires
        all_mont_wf(points@),
    ensures
        r.len() == points.len(),
        all_wf(r@),
        coordinates_of(r@) == decoded(mont_coordinates(points@)),
{
    let mut r: Vec<EdwardsPoint> = Vec::with_capacity(points.len());
    let mut i: usize = 0;
    while i < points.len()
        invariant
            i <= points.len(),
            all_mont_wf(points@),
            r.len() == i,
            all_wf(r@),
            forall|k: int| 0 <= k < i ==> (#[trigger] r[k])@ == points[k]@.from_mont(),
        decreases points.len() - i,
    {
        assert(points@[i as int].wf());
        r.push(edwards_from_mont(&points[i]));
        i += 1;
    }
    assert(coordinates_of(r@) =~= decoded(mont_coordinates(points@)));
    r
}

/// Sums a window's buckets into the sum over the buckets of the bucket's
/// number times its sum.
pub struct GpuInterBucketReducer {}

impl GpuInterBucketReducer {
    /// A reducer.
    pub fn new() -> (r: Self) {
        GpuInterBucketReducer {  }
    }

    /// The sum over the points of the point's index times the point.
    pub fn reduce(&self, points: &[EdwardsPoint]) -> (sum: EdwardsPoint)
        requires
            all_wf(points@),
        ensures
            sum.wf(),
            sum@ == inter_bucket_value(coordinates_of(points@)),
    {
        let n = points.len();
        let mut sum_n: Vec<MontgomeryPoint> = Vec::with_capacity(n);
        let mut sum_i: Vec<MontgomeryPoint> = Vec::with_capacity(n);
        let mut i: usize = 0;
        while i < n
            invariant
                i <= n,
                n == points.len(),
                all_wf(points@),
                sum_n.len() == i,
                sum_i.len() == i,
                all_mont_wf(sum_n@),
                all_mont_wf(sum_i@),
                forall|k: int| 0 <= k < i ==> (#[trigger] sum_n[k])@ == points[k]@.to_mont(),
                forall|k: int| 0 <= k < i ==> (#[trigger] sum_i[k])@ == mont_zero(),
            decreases n - i,
        {
            assert(points@[i as int].wf());
            sum_n.push(edwards_to_mont(&points[i]));
            sum_i.push(MontgomeryPoint::zero());
            i += 1;
        }
        let ghost first_n = mont_coordinates(sum_n@);
        let ghost first_i = mont_coordinates(sum_i@);
        proof {
            assert(first_n =~= encoded(coordinates_of(points@)));
            assert(first_i =~= Seq::new(points.len() as nat, |i: int| mont_zero()));
        }
        let mut n_points = n;
        while n_points > CHUNK && n_points % CHUNK == 0
            invariant
                n_points == sum_n.len(),
                sum_n.len() == sum_i.len(),
                all_mont_wf(sum_n@),
                all_mont_wf(sum_i@),
                folded_sum_n(mont_coordinates(sum_n@), mont_coordinates(sum_i@)) == folded_sum_n(
                    first_n,
                    first_i,
                ),
                folded_sum_i(mont_coordinates(sum_n@), mont_coordinates(sum_i@)) == folded_sum_i(
                    first_n,
                    first_i,
                ),
            decreases n_points,
        {
            let (next_n, next_i) = reduce_level(&sum_n, &sum_i);
            sum_n = next_n;
            sum_i = next_i;
            n_points = n_points / CHUNK;
        }
        let last_n = all_from_montgomery(&sum_n);
        let last_i = all_from_montgomery(&sum_i);
        weighted_tail(last_n.as_slice(), last_i.as_slice())
    }
}

} // verus!
