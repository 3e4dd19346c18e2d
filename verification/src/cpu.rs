//! The windowed multi-scalar multiplication on the host: buckets by
//! accumulation, bucket sums by two running sums, and the fold over windows.

use vstd::prelude::*;
use vstd::arithmetic::power2::{lemma2_to64, lemma_pow2_strictly_increases, pow2};
use vstd::slice::slice_subrange;
use crate::ark::affine_add;
use crate::bytes::{
    all_reduced, point_at, read_fq, read_points, words_value, write_fq, EdwardsPoint,
};
use crate::curve::{
    doubled_times, field_product, mixed_sum, neutral, scalar_multiple, unified_sum, Coordinates,
};
use crate::field::modulus;
use crate::limbs::limbs_value;
use crate::split::{
    flat_index, lemma_window_fits, scalar_at, split, window_has_splitter, window_total,
    window_value, Split10, Split11, Split12, Split13, Split14, Split15, Split16, Split20, Split8,
    Split9, SplitImpl,
};

verus! {

/// The coordinates of each point of a sequence.
pub open spec fn coordinates_of(points: Seq<EdwardsPoint>) -> Seq<Coordinates> {
    Seq::new(points.len(), |i: int| points[i]@)
}

/// Every point of a sequence has residues for coordinates.
pub open spec fn all_wf(points: Seq<EdwardsPoint>) -> bool {
    forall|i: int| 0 <= i < points.len() ==> (#[trigger] points[i]).wf()
}

/// What bucket `b` holds after the first `n` pairs of a scalar and a point:
/// the points whose scalar is `b`, added one after the other. The first of
/// them, and any that meets the neutral point in the bucket, is taken as it
/// is. Bucket 0 stays neutral.
pub open spec fn bucket_after(scalars: Seq<u32>, points: Seq<Coordinates>, b: nat, n: nat)
    -> Coordinates
    decreases n,
{
    if n == 0 {
        neutral()
    } else {
        let before = bucket_after(scalars, points, b, (n - 1) as nat);
        if b != 0 && scalars[n - 1] == b {
            if before.is_zero() {
                points[n - 1]
            } else {
                unified_sum(before, points[n - 1])
            }
        } else {
            before
        }
    }
}

/// The number of pairs that a sequence of scalars and one of points make.
pub open spec fn pair_count(scalars: int, points: int) -> nat {
    if scalars <= points {
        scalars as nat
    } else {
        points as nat
    }
}

/// The buckets of one window.
pub open spec fn cpu_buckets(scalars: Seq<u32>, points: Seq<Coordinates>, n_buckets: nat) -> Seq<
    Coordinates,
> {
    Seq::new(
        n_buckets,
        |b: int|
            bucket_after(scalars, points, b as nat, pair_count(scalars.len() as int, points.len() as int)),
    )
}

/// Puts each point into the bucket that its scalar names, adding it to what
/// the bucket holds. Scalar 0 names no bucket.
pub fn bucket_cpu(scalars: &[u32], points: &[EdwardsPoint], n_buckets: usize) -> (bucket: Vec<
    EdwardsPoint,
>)
    requires
        all_wf(points@),
        forall|i: int|
            0 <= i < pair_count(scalars.len() as int, points.len() as int) ==> scalars[i]
                < n_buckets,
    ensures
        all_wf(bucket@),
        coordinates_of(bucket@) == cpu_buckets(scalars@, coordinates_of(points@), n_buckets as nat),
{
    let mut bucket: Vec<EdwardsPoint> = Vec::with_capacity(n_buckets);
    let mut fill: usize = 0;
    while fill < n_buckets
        invariant
            fill <= n_buckets,
            bucket.len() == fill,
            forall|b: int| 0 <= b < fill ==> (#[trigger] bucket[b]).wf() && bucket[b]@ == neutral(),
        decreases n_buckets - fill,
    {
        bucket.push(EdwardsPoint::zero());
        fill += 1;
    }
    let n = if scalars.len() <= points.len() {
        scalars.len()
    } else {
        points.len()
    };
    let ghost cs = coordinates_of(points@);
    let mut i: usize = 0;
    while i < n
        invariant
            i <= n,
            n == pair_count(scalars.len() as int, points.len() as int),
            cs == coordinates_of(points@),
            all_wf(points@),
            forall|k: int| 0 <= k < n ==> scalars[k] < n_buckets,
            bucket.len() == n_buckets,
            forall|b: int|
                0 <= b < n_buckets ==> (#[trigger] bucket[b]).wf() && bucket[b]@ == bucket_after(
                    scalars@,
                    cs,
                    b as nat,
                    i as nat,
                ),
        decreases n - i,
    {
        let bucket_id = scalars[i] as usize;
        if bucket_id != 0 {
            let existing = bucket[bucket_id];
            let point = points[i];
            assert(points@[i as int].wf());
            assert(cs[i as int] == point@);
            let next = if existing.is_zero() {
                point
            } else {
                existing.add(&point)
            };
            bucket[bucket_id] = next;
        }
        i += 1;
    }
    assert(coordinates_of(bucket@) =~= cpu_buckets(scalars@, cs, n_buckets as nat));
    bucket
}

/// The sum of the buckets from `i` on, each as often as the running sum
/// holds it: the neutral buckets are skipped.
pub open spec fn carry_from(bucket: Seq<Coordinates>, i: int) -> Coordinates
    decreases bucket.len() - i,
{
    if i >= bucket.len() {
        neutral()
    } else {
        let carry = carry_from(bucket, i + 1);
        if bucket[i].is_zero() {
            carry
        } else {
            unified_sum(carry, bucket[i])
        }
    }
}

/// The sum of the running sums from `i` on: bucket `k` enters it `k - i + 1`
/// times.
pub open spec fn sum_from(bucket: Seq<Coordinates>, i: int) -> Coordinates
    decreases bucket.len() - i,
{
    if i >= bucket.len() {
        neutral()
    } else {
        unified_sum(sum_from(bucket, i + 1), carry_from(bucket, i))
    }
}

/// The sum over the buckets of the bucket's number times what it holds, by
/// two running sums from the last bucket down to bucket 1.
pub fn bucket_sum_cpu(bucket: Vec<EdwardsPoint>) -> (sum: EdwardsPoint)
    requires
        all_wf(bucket@),
    ensures
        sum.wf(),
        sum@ == sum_from(coordinates_of(bucket@), 1),
{
    let mut sum = EdwardsPoint::zero();
    let mut carry = EdwardsPoint::zero();
    let ghost cs = coordinates_of(bucket@);
    let mut i: usize = bucket.len();
    while i > 1
        invariant
            i <= bucket.len() || bucket.len() == 0,
            i >= 1 || bucket.len() == 0,
            bucket.len() == 0 ==> i == 0,
            cs == coordinates_of(bucket@),
            all_wf(bucket@),
            sum.wf(),
            carry.wf(),
            sum@ == sum_from(cs, i as int),
            carry@ == carry_from(cs, i as int),
        decreases i,
    {
        i -= 1;
        let b = bucket[i];
        assert(bucket@[i as int].wf());
        if !b.is_zero() {
            carry = carry.add(&b);
        }
        sum = sum.add(&carry);
    }
    proof {
        if bucket.len() == 0 {
            assert(sum_from(cs, 1) == neutral());
        }
    }
    sum
}

/// The fold over the windows from `k` on, the last window first: the fold of
/// the windows after `k` is doubled `w` times, and the sum of window `k` is
/// added to it.
pub open spec fn horner_from(sums: Seq<Coordinates>, w: nat, k: int) -> Coordinates
    decreases sums.len() - k,
{
    if k >= sums.len() {
        neutral()
    } else {
        unified_sum(doubled_times(horner_from(sums, w, k + 1), w), sums[k])
    }
}

/// The sixteen limbs of an affine point: `x`, then `y`, each most
/// significant limb first.
pub fn affine_limbs(x: &[u64; 4], y: &[u64; 4]) -> (out: Vec<u32>)
    ensures
        out.len() == 16,
        limbs_value(out@.subrange(0, 8)) == words_value(x@),
        limbs_value(out@.subrange(8, 16)) == words_value(y@),
{
    let xs = write_fq(x);
    let ys = write_fq(y);
    let mut out: Vec<u32> = Vec::with_capacity(16);
    let mut k: usize = 0;
    while k < 8
        invariant
            k <= 8,
            out@ == xs@.subrange(0, k as int),
        decreases 8 - k,
    {
        out.push(xs[k]);
        assert(out@ =~= xs@.subrange(0, k + 1));
        k += 1;
    }
    k = 0;
    while k < 8
        invariant
            k <= 8,
            out@ == xs@.subrange(0, 8) + ys@.subrange(0, k as int),
        decreases 8 - k,
    {
        out.push(ys[k]);
        assert(out@ =~= xs@.subrange(0, 8) + ys@.subrange(0, k + 1));
        k += 1;
    }
    assert(out@.subrange(0, 8) =~= xs@);
    assert(out@.subrange(8, 16) =~= ys@);
    out
}

/// Whether sixteen limbs hold the affine point of `c`: residues `x` and `y`
/// with `x Z = X` and `y Z = Y` modulo `p`.
pub open spec fn is_affine_of(out: Seq<u32>, c: Coordinates) -> bool {
    let x = limbs_value(out.subrange(0, 8));
    let y = limbs_value(out.subrange(8, 16));
    &&& out.len() == 16
    &&& x < modulus()
    &&& y < modulus()
    &&& field_product(x, c.z) == c.x
    &&& field_product(y, c.z) == c.y
}

/// Folds the sums of the windows, the last window first, and gives the
/// affine point of the result; none where the result has `Z = 0`.
pub fn reduce_last<S: SplitImpl>(bucket_sums: &[EdwardsPoint]) -> (out: Option<Vec<u32>>)
    requires
        all_wf(bucket_sums@),
    ensures
        out is Some <==> horner_from(coordinates_of(bucket_sums@), S::window_bits(), 0).z != 0,
        out is Some ==> is_affine_of(
            out->Some_0@,
            horner_from(coordinates_of(bucket_sums@), S::window_bits(), 0),
        ),
{
    let width = S::window_size();
    let ghost cs = coordinates_of(bucket_sums@);
    let mut sum = EdwardsPoint::zero();
    let mut k: usize = bucket_sums.len();
    while k > 0
        invariant
            k <= bucket_sums.len(),
            width == S::window_bits(),
            cs == coordinates_of(bucket_sums@),
            all_wf(bucket_sums@),
            sum.wf(),
            sum@ == horner_from(cs, S::window_bits(), k as int),
        decreases k,
    {
        k -= 1;
        let ghost start = sum@;
        let mut d: usize = 0;
        while d < width
            invariant
                d <= width,
                sum.wf(),
                sum@ == doubled_times(start, d as nat),
            decreases width - d,
        {
            sum = sum.double();
            d += 1;
        }
        assert(bucket_sums@[k as int].wf());
        sum = sum.add(&bucket_sums[k]);
    }
    match sum.into_affine() {
        Some((x, y)) => Some(affine_limbs(&x, &y)),
        None => None,
    }
}

/// Window `j` of each scalar of a flat array, in the order of the scalars.
pub open spec fn window_column(scalars_flat: Seq<u32>, w: nat, j: nat) -> Seq<u32> {
    Seq::new(
        (scalars_flat.len() / 8) as nat,
        |i: int| window_value(limbs_value(scalar_at(scalars_flat, i)), w, j) as u32,
    )
}

/// The sum of each window: the bucket sum of the buckets of its column.
pub open spec fn window_sums(scalars_flat: Seq<u32>, points: Seq<Coordinates>, w: nat) -> Seq<
    Coordinates,
> {
    Seq::new(
        window_total(w),
        |j: int| sum_from(cpu_buckets(window_column(scalars_flat, w, j as nat), points, pow2(w)), 1),
    )
}

/// The points of a flat array.
pub open spec fn points_of(points_flat: Seq<u32>) -> Seq<Coordinates> {
    Seq::new((points_flat.len() / 32) as nat, |i: int| point_at(points_flat, i))
}

/// The multi-scalar product in extended coordinates, as the windowed method
/// computes it.
pub open spec fn msm_value(scalars_flat: Seq<u32>, points_flat: Seq<u32>, w: nat) -> Coordinates {
    horner_from(window_sums(scalars_flat, points_of(points_flat), w), w, 0)
}

/// `2^width` buckets.
pub fn bucket_count(width: usize) -> (n: usize)
    requires
        1 <= width <= 32,
        pow2(width as nat) <= usize::MAX,
    ensures
        n == pow2(width as nat),
{
    let mut n: usize = 1;
    let mut k: usize = 0;
    proof {
        lemma2_to64();
    }
    while k < width
        invariant
            k <= width,
            n == pow2(k as nat),
            pow2(width as nat) <= usize::MAX,
        decreases width - k,
    {
        proof {
            vstd::arithmetic::power2::lemma_pow2_unfold((k + 1) as nat);
            if k + 1 < width {
                lemma_pow2_strictly_increases((k + 1) as nat, width as nat);
            }
        }
        n = n * 2;
        k += 1;
    }
    n
}

/// The points of a flat array whose coordinates are all residues.
pub fn read_reduced_points(points_flat: &[u32]) -> (points: Vec<EdwardsPoint>)
    requires
        all_reduced(points_flat@),
    ensures
        points.len() == points_flat.len() / 32,
        all_wf(points@),
        coordinates_of(points@) == points_of(points_flat@),
{
    let points = read_points(points_flat);
    proof {
        assert forall|i: int| 0 <= i < points.len() implies (#[trigger] points[i]).wf() by {
            assert(point_at(points_flat@, i).reduced());
        }
        assert(coordinates_of(points@) =~= points_of(points_flat@));
    }
    points
}

/// The multi-scalar product of the points and scalars of two flat arrays by
/// windows of the splitter's size, on the host, as sixteen limbs of the
/// affine result; none where the result has `Z = 0`.
pub fn msm_end_to_end<S: SplitImpl>(scalars_flat: &[u32], points_flat: &[u32]) -> (out: Option<
    Vec<u32>,
>)
    requires
        scalars_flat.len() % 8 == 0,
        scalars_flat.len() >= 8,
        (scalars_flat.len() / 8) * window_total(S::window_bits()) <= usize::MAX,
        pow2(S::window_bits()) <= usize::MAX,
        all_reduced(points_flat@),
    ensures
        out is Some <==> msm_value(scalars_flat@, points_flat@, S::window_bits()).z != 0,
        out is Some ==> is_affine_of(
            out->Some_0@,
            msm_value(scalars_flat@, points_flat@, S::window_bits()),
        ),
{
    let width = S::window_size();
    let windows = S::n_windows();
    let n = scalars_flat.len() / 8;
    let parts = split::<S>(scalars_flat);
    let points = read_reduced_points(points_flat);
    let n_buckets = bucket_count(width);
    let ghost cs = points_of(points_flat@);
    let mut sums: Vec<EdwardsPoint> = Vec::with_capacity(windows);
    let mut j: usize = 0;
    while j < windows
        invariant
            j <= windows,
            n == scalars_flat.len() / 8,
            windows == window_total(S::window_bits()),
            width == S::window_bits(),
            1 <= width <= 32,
            n_buckets == pow2(width as nat),
            parts.len() == n * windows,
            forall|i: int, k: int|
                0 <= i < n && 0 <= k < windows ==> #[trigger] parts[flat_index(k, n as int, i)]
                    == window_value(
                    limbs_value(scalar_at(scalars_flat@, i)),
                    S::window_bits(),
                    k as nat,
                ),
            all_wf(points@),
            cs == coordinates_of(points@),
            sums.len() == j,
            all_wf(sums@),
            forall|k: int|
                0 <= k < j ==> (#[trigger] sums[k])@ == window_sums(
                    scalars_flat@,
                    cs,
                    S::window_bits(),
                )[k],
        decreases windows - j,
    {
        proof {
            assert(j * n + n <= n * windows) by (nonlinear_arith)
                requires
                    j < windows,
            ;
            assert((j + 1) * n == j * n + n) by (nonlinear_arith);
        }
        let chunk = slice_subrange(parts.as_slice(), j * n, (j + 1) * n);
        proof {
            let column = window_column(scalars_flat@, S::window_bits(), j as nat);
            assert forall|i: int| 0 <= i < n implies chunk[i] == column[i] && chunk[i]
                < n_buckets by {
                assert(chunk[i] == parts[flat_index(j as int, n as int, i)]);
                lemma_window_fits(
                    limbs_value(scalar_at(scalars_flat@, i)),
                    S::window_bits(),
                    j as nat,
                );
            }
            assert(chunk@ =~= column);
        }
        let buckets = bucket_cpu(chunk, points.as_slice(), n_buckets);
        let sum = bucket_sum_cpu(buckets);
        sums.push(sum);
        j += 1;
    }
    proof {
        assert(coordinates_of(sums@) =~= window_sums(scalars_flat@, cs, S::window_bits()));
    }
    reduce_last::<S>(sums.as_slice())
}

/// The limbs that each window takes of a flat array of the buckets of all
/// windows: the array's length over the number of windows.
pub open spec fn window_chunk(len: nat, w: nat) -> int {
    (len as int) / (window_total(w) as int)
}

/// The number of pieces of `chunk` limbs in an array of `len` limbs, a last
/// shorter piece counted.
pub open spec fn chunk_total(len: nat, chunk: int) -> nat {
    ((len + chunk - 1) / chunk) as nat
}

/// Piece `j` of a flat array cut into pieces of `chunk` limbs; the last may
/// be shorter.
pub open spec fn chunk_of(raw: Seq<u32>, chunk: int, j: int) -> Seq<u32> {
    raw.subrange(
        j * chunk,
        if (j + 1) * chunk <= raw.len() {
            (j + 1) * chunk
        } else {
            raw.len() as int
        },
    )
}

/// The bucket sum of each piece of a flat array of buckets.
pub open spec fn raw_window_sums(raw_buckets: Seq<u32>, chunk: int) -> Seq<Coordinates> {
    Seq::new(
        chunk_total(raw_buckets.len(), chunk),
        |j: int| sum_from(points_of(chunk_of(raw_buckets, chunk, j)), 1),
    )
}

/// Sums the buckets of each window and folds the sums. The windows' buckets
/// lie one after the other, window 0 first, each taking the array's length
/// over the number of windows.
pub fn inter_bucket_reduce<S: SplitImpl>(raw_buckets: &[u32]) -> (out: Option<Vec<u32>>)
    requires
        raw_buckets.len() >= window_total(S::window_bits()),
        forall|j: int|
            0 <= j < chunk_total(
                raw_buckets@.len(),
                window_chunk(raw_buckets@.len(), S::window_bits()),
            ) ==> all_reduced(
                #[trigger] chunk_of(
                    raw_buckets@,
                    window_chunk(raw_buckets@.len(), S::window_bits()),
                    j,
                ),
            ),
    ensures
        out is Some <==> horner_from(
            raw_window_sums(raw_buckets@, window_chunk(raw_buckets@.len(), S::window_bits())),
            S::window_bits(),
            0,
        ).z != 0,
        out is Some ==> is_affine_of(
            out->Some_0@,
            horner_from(
                raw_window_sums(raw_buckets@, window_chunk(raw_buckets@.len(), S::window_bits())),
                S::window_bits(),
                0,
            ),
        ),
{
    let windows = S::n_windows();
    let chunk = raw_buckets.len() / windows;
    let len = raw_buckets.len();
    proof {
        vstd::arithmetic::div_mod::lemma_div_non_zero(len as int, windows as int);
    }
    let ghost target = raw_window_sums(raw_buckets@, chunk as int);
    assert(chunk as int == window_chunk(raw_buckets@.len(), S::window_bits()));
    let mut sums: Vec<EdwardsPoint> = Vec::new();
    let mut start: usize = 0;
    let mut j: usize = 0;
    proof {
        lemma_chunk_count(len as int, chunk as int, 0);
    }
    while start < len
        invariant
            chunk > 0,
            len == raw_buckets.len(),
            start == j * chunk || (start == len && j == target.len()),
            start <= len,
            j <= target.len(),
            target == raw_window_sums(raw_buckets@, chunk as int),
            target.len() == chunk_total(raw_buckets@.len(), chunk as int),
            forall|k: int|
                0 <= k < chunk_total(raw_buckets@.len(), chunk as int) ==> all_reduced(
                    #[trigger] chunk_of(raw_buckets@, chunk as int, k),
                ),
            sums.len() == j,
            all_wf(sums@),
            forall|k: int| 0 <= k < j ==> (#[trigger] sums[k])@ == target[k],
        decreases len - start,
    {
        proof {
            lemma_chunk_count(len as int, chunk as int, j as int);
            lemma_chunk_count(len as int, chunk as int, j + 1);
            assert((j + 1) * chunk == j * chunk + chunk) by (nonlinear_arith);
        }
        let end = if len - start >= chunk {
            start + chunk
        } else {
            len
        };
        let piece = slice_subrange(raw_buckets, start, end);
        assert(piece@ == chunk_of(raw_buckets@, chunk as int, j as int));
        let points = read_reduced_points(piece);
        let sum = bucket_sum_cpu(points);
        sums.push(sum);
        start = end;
        j += 1;
    }
    proof {
        lemma_chunk_count(len as int, chunk as int, j as int);
        assert(coordinates_of(sums@) =~= target);
    }
    reduce_last::<S>(sums.as_slice())
}

proof fn lemma_chunk_count(len: int, chunk: int, j: int)
    requires
        chunk > 0,
        len >= 0,
        j >= 0,
    ensures
        j * chunk < len <==> j < (len + chunk - 1) / chunk,
        j * chunk >= 0,
{
    let n = (len + chunk - 1) / chunk;
    vstd::arithmetic::div_mod::lemma_fundamental_div_mod(len + chunk - 1, chunk);
    let r = (len + chunk - 1) % chunk;
    assert(0 <= r < chunk);
    assert(len + chunk - 1 == chunk * n + r);
    if j < n {
        assert(j * chunk <= (n - 1) * chunk) by (nonlinear_arith)
            requires
                j <= n - 1,
                chunk > 0,
        ;
        assert((n - 1) * chunk == chunk * n - chunk) by (nonlinear_arith);
    } else {
        assert(j * chunk >= n * chunk) by (nonlinear_arith)
            requires
                j >= n,
                chunk > 0,
        ;
        assert(n * chunk == chunk * n) by (nonlinear_arith);
    }
    assert(j * chunk >= 0) by (nonlinear_arith)
        requires
            j >= 0,
            chunk > 0,
    ;
}

/// Folds the sums of the windows that lie as points in a flat array, window
/// 0 first.
pub fn inter_bucket_reduce_last<S: SplitImpl>(raw_buckets: &[u32]) -> (out: Option<Vec<u32>>)
    requires
        all_reduced(raw_buckets@),
    ensures
        out is Some <==> horner_from(points_of(raw_buckets@), S::window_bits(), 0).z != 0,
        out is Some ==> is_affine_of(
            out->Some_0@,
            horner_from(points_of(raw_buckets@), S::window_bits(), 0),
        ),
{
    let sums = read_reduced_points(raw_buckets);
    reduce_last::<S>(sums.as_slice())
}

/// The sum of two affine points, each given as sixteen limbs `x`, `y`, as
/// the sixteen limbs of the affine sum; none where the sum has `Z = 0`.
pub fn point_add_affine(a: &[u32], b: &[u32]) -> (out: Option<Vec<u32>>)
    requires
        a.len() == 16,
        b.len() == 16,
        limbs_value(a@.subrange(0, 8)) < modulus(),
        limbs_value(a@.subrange(8, 16)) < modulus(),
        limbs_value(b@.subrange(0, 8)) < modulus(),
        limbs_value(b@.subrange(8, 16)) < modulus(),
    ensures
        out is Some <==> affine_sum(a@, b@).z != 0,
        out is Some ==> is_affine_of(out->Some_0@, affine_sum(a@, b@)),
{
    let ax = read_fq(slice_subrange(a, 0, 8));
    let ay = read_fq(slice_subrange(a, 8, 16));
    let bx = read_fq(slice_subrange(b, 0, 8));
    let by = read_fq(slice_subrange(b, 8, 16));
    let c = affine_add(&ax, &ay, &bx, &by);
    match c.into_affine() {
        Some((x, y)) => Some(affine_limbs(&x, &y)),
        None => None,
    }
}

/// The sum in extended coordinates of two affine points of sixteen limbs.
pub open spec fn affine_sum(a: Seq<u32>, b: Seq<u32>) -> Coordinates {
    let ax = limbs_value(a.subrange(0, 8));
    let ay = limbs_value(a.subrange(8, 16));
    mixed_sum(
        Coordinates { x: ax, y: ay, t: field_product(ax, ay), z: 1 },
        limbs_value(b.subrange(0, 8)),
        limbs_value(b.subrange(8, 16)),
    )
}

/// The sum of the first `n` points, each times its scalar.
pub open spec fn naive_sum(points: Seq<Coordinates>, scalars: Seq<nat>, n: nat) -> Coordinates
    decreases n,
{
    if n == 0 {
        neutral()
    } else {
        unified_sum(
            naive_sum(points, scalars, (n - 1) as nat),
            scalar_multiple(points[n - 1], scalars[n - 1]),
        )
    }
}

/// The sum of the points, each times its scalar, one product after the
/// other. Where there are more of one than of the other, those without a
/// partner are left out.
pub fn compute_msm_impl(points: &[EdwardsPoint], scalars: &[[u64; 4]]) -> (acc: EdwardsPoint)
    requires
        all_wf(points@),
    ensures
        acc.wf(),
        acc@ == naive_sum(
            coordinates_of(points@),
            Seq::new(scalars.len() as nat, |i: int| words_value(scalars[i]@)),
            pair_count(points.len() as int, scalars.len() as int),
        ),
{
    let n = if points.len() <= scalars.len() {
        points.len()
    } else {
        scalars.len()
    };
    let ghost cs = coordinates_of(points@);
    let ghost ss = Seq::new(scalars.len() as nat, |i: int| words_value(scalars[i]@));
    let mut acc = EdwardsPoint::zero();
    let mut i: usize = 0;
    while i < n
        invariant
            i <= n,
            n <= points.len(),
            n <= scalars.len(),
            all_wf(points@),
            cs == coordinates_of(points@),
            ss == Seq::new(scalars.len() as nat, |i: int| words_value(scalars[i]@)),
            acc.wf(),
            acc@ == naive_sum(cs, ss, i as nat),
        decreases n - i,
    {
        assert(points@[i as int].wf());
        let term = points[i].mul_bigint(&scalars[i]);
        acc = acc.add(&term);
        i += 1;
    }
    acc
}

/// The scalars of a flat array, as integers.
pub open spec fn scalars_of(scalars_flat: Seq<u32>) -> Seq<nat> {
    Seq::new((scalars_flat.len() / 8) as nat, |i: int| limbs_value(scalar_at(scalars_flat, i)))
}

/// The scalars of a flat array, as words. Limbs after the last whole scalar
/// are left out.
pub fn read_scalars(scalars_flat: &[u32]) -> (scalars: Vec<[u64; 4]>)
    ensures
        scalars.len() == scalars_flat.len() / 8,
        Seq::new(scalars.len() as nat, |i: int| words_value(scalars[i]@)) == scalars_of(
            scalars_flat@,
        ),
{
    let n = scalars_flat.len() / 8;
    let mut scalars: Vec<[u64; 4]> = Vec::with_capacity(n);
    let mut i: usize = 0;
    while i < n
        invariant
            i <= n,
            n == scalars_flat.len() / 8,
            scalars.len() == i,
            forall|k: int|
                0 <= k < i ==> words_value((#[trigger] scalars[k])@) == limbs_value(
                    scalar_at(scalars_flat@, k),
                ),
        decreases n - i,
    {
        let scalar = read_fq(slice_subrange(scalars_flat, 8 * i, 8 * i + 8));
        scalars.push(scalar);
        i += 1;
    }
    assert(Seq::new(scalars.len() as nat, |i: int| words_value(scalars[i]@)) =~= scalars_of(
        scalars_flat@,
    ));
    scalars
}

/// The multi-scalar product of the points and scalars of two flat arrays,
/// one product after the other, as sixteen limbs of the affine result; none
/// where the result has `Z = 0`.
pub fn compute_msm(points_flat: &[u32], scalars_flat: &[u32]) -> (out: Option<Vec<u32>>)
    requires
        points_flat.len() % 32 == 0,
        scalars_flat.len() % 8 == 0,
        scalars_flat.len() / 8 == points_flat.len() / 32,
        all_reduced(points_flat@),
        forall|i: int|
            0 <= i < scalars_flat.len() / 8 ==> limbs_value(#[trigger] scalar_at(scalars_flat@, i))
                < modulus(),
    ensures
        out is Some <==> naive_sum(
            points_of(points_flat@),
            scalars_of(scalars_flat@),
            (points_flat.len() / 32) as nat,
        ).z != 0,
        out is Some ==> is_affine_of(
            out->Some_0@,
            naive_sum(
                points_of(points_flat@),
                scalars_of(scalars_flat@),
                (points_flat.len() / 32) as nat,
            ),
        ),
{
    let points = read_reduced_points(points_flat);
    let scalars = read_scalars(scalars_flat);
    assert(coordinates_of(points@).len() == points.len());
    assert(points.len() == points_flat.len() / 32);
    let acc = compute_msm_impl(points.as_slice(), scalars.as_slice());
    match acc.into_affine() {
        Some((x, y)) => Some(affine_limbs(&x, &y)),
        None => None,
    }
}

/// The multi-scalar product by windows of `window_size` bits, on the host.
pub fn msm_end_to_end_dynamic(window_size: u32, scalars_flat: &[u32], points_flat: &[u32]) -> (out:
    Option<Vec<u32>>)
    requires
        window_has_splitter(window_size as nat),
        scalars_flat.len() % 8 == 0,
        scalars_flat.len() >= 8,
        (scalars_flat.len() / 8) * window_total(window_size as nat) <= usize::MAX,
        pow2(window_size as nat) <= usize::MAX,
        all_reduced(points_flat@),
    ensures
        out is Some <==> msm_value(scalars_flat@, points_flat@, window_size as nat).z != 0,
        out is Some ==> is_affine_of(
            out->Some_0@,
            msm_value(scalars_flat@, points_flat@, window_size as nat),
        ),
{
    if window_size == 8 {
        msm_end_to_end::<Split8>(scalars_flat, points_flat)
    } else if window_size == 9 {
        msm_end_to_end::<Split9>(scalars_flat, points_flat)
    } else if window_size == 10 {
        msm_end_to_end::<Split10>(scalars_flat, points_flat)
    } else if window_size == 11 {
        msm_end_to_end::<Split11>(scalars_flat, points_flat)
    } else if window_size == 12 {
        msm_end_to_end::<Split12>(scalars_flat, points_flat)
    } else if window_size == 13 {
        msm_end_to_end::<Split13>(scalars_flat, points_flat)
    } else if window_size == 14 {
        msm_end_to_end::<Split14>(scalars_flat, points_flat)
    } else if window_size == 15 {
        msm_end_to_end::<Split15>(scalars_flat, points_flat)
    } else if window_size == 16 {
        msm_end_to_end::<Split16>(scalars_flat, points_flat)
    } else {
        msm_end_to_end::<Split20>(scalars_flat, points_flat)
    }
}

/// Whether each piece of a flat array of the buckets of all windows holds
/// residues for coordinates.
pub open spec fn chunks_reduced(raw_buckets: Seq<u32>, w: nat) -> bool {
    forall|j: int|
        0 <= j < chunk_total(raw_buckets.len(), window_chunk(raw_buckets.len(), w))
            ==> all_reduced(#[trigger] chunk_of(raw_buckets, window_chunk(raw_buckets.len(), w), j))
}

/// Sums the buckets of each window of `window_size` bits and folds the
/// sums.
pub fn inter_bucket_reduce_dynamic(window_size: u32, raw_buckets: &[u32]) -> (out: Option<Vec<u32>>)
    requires
        window_has_splitter(window_size as nat),
        raw_buckets.len() >= window_total(window_size as nat),
        chunks_reduced(raw_buckets@, window_size as nat),
    ensures
        out is Some <==> horner_from(
            raw_window_sums(raw_buckets@, window_chunk(raw_buckets@.len(), window_size as nat)),
            window_size as nat,
            0,
        ).z != 0,
        out is Some ==> is_affine_of(
            out->Some_0@,
            horner_from(
                raw_window_sums(
                    raw_buckets@,
                    window_chunk(raw_buckets@.len(), window_size as nat),
                ),
                window_size as nat,
                0,
            ),
        ),
{
    if window_size == 8 {
        inter_bucket_reduce::<Split8>(raw_buckets)
    } else if window_size == 9 {
        inter_bucket_reduce::<Split9>(raw_buckets)
    } else if window_size == 10 {
        inter_bucket_reduce::<Split10>(raw_buckets)
    } else if window_size == 11 {
        inter_bucket_reduce::<Split11>(raw_buckets)
    } else if window_size == 12 {
        inter_bucket_reduce::<Split12>(raw_buckets)
    } else if window_size == 13 {
        inter_bucket_reduce::<Split13>(raw_buckets)
    } else if window_size == 14 {
        inter_bucket_reduce::<Split14>(raw_buckets)
    } else if window_size == 15 {
        inter_bucket_reduce::<Split15>(raw_buckets)
    } else if window_size == 16 {
        inter_bucket_reduce::<Split16>(raw_buckets)
    } else {
        inter_bucket_reduce::<Split20>(raw_buckets)
    }
}

/// Folds the sums of the windows of `window_size` bits that lie as points
/// in a flat array, window 0 first.
pub fn inter_bucket_reduce_last_dynamic(window_size: u32, raw_buckets: &[u32]) -> (out: Option<
    Vec<u32>,
>)
    requires
        window_has_splitter(window_size as nat),
        all_reduced(raw_buckets@),
    ensures
        out is Some <==> horner_from(points_of(raw_buckets@), window_size as nat, 0).z != 0,
        out is Some ==> is_affine_of(
            out->Some_0@,
            horner_from(points_of(raw_buckets@), window_size as nat, 0),
        ),
{
    if window_size == 8 {
        inter_bucket_reduce_last::<Split8>(raw_buckets)
    } else if window_size == 9 {
        inter_bucket_reduce_last::<Split9>(raw_buckets)
    } else if window_size == 10 {
        inter_bucket_reduce_last::<Split10>(raw_buckets)
    } else if window_size == 11 {
        inter_bucket_reduce_last::<Split11>(raw_buckets)
    } else if window_size == 12 {
        inter_bucket_reduce_last::<Split12>(raw_buckets)
    } else if window_size == 13 {
        inter_bucket_reduce_last::<Split13>(raw_buckets)
    } else if window_size == 14 {
        inter_bucket_reduce_last::<Split14>(raw_buckets)
    } else if window_size == 15 {
        inter_bucket_reduce_last::<Split15>(raw_buckets)
    } else if window_size == 16 {
        inter_bucket_reduce_last::<Split16>(raw_buckets)
    } else {
        inter_bucket_reduce_last::<Split20>(raw_buckets)
    }
}

/// The bucket sum of each window, where the buckets of each window lie in a
/// flat array of their own.
pub open spec fn separate_window_sums(raw_buckets: Seq<Vec<u32>>) -> Seq<Coordinates> {
    Seq::new(raw_buckets.len(), |j: int| sum_from(points_of(raw_buckets[j]@), 1))
}

/// Sums the buckets of each window of 16 bits and folds the sums. The
/// buckets of each window lie in a flat array of their own, window 0 first.
pub fn inter_bucket_reduce_16(raw_buckets: &Vec<Vec<u32>>) -> (out: Option<Vec<u32>>)
    requires
        forall|j: int| 0 <= j < raw_buckets.len() ==> all_reduced((#[trigger] raw_buckets[j])@),
    ensures
        out is Some <==> horner_from(separate_window_sums(raw_buckets@), 16, 0).z != 0,
        out is Some ==> is_affine_of(
            out->Some_0@,
            horner_from(separate_window_sums(raw_buckets@), 16, 0),
        ),
{
    let mut sums: Vec<EdwardsPoint> = Vec::with_capacity(raw_buckets.len());
    let mut j: usize = 0;
    while j < raw_buckets.len()
        invariant
            j <= raw_buckets.len(),
            forall|k: int| 0 <= k < raw_buckets.len() ==> all_reduced((#[trigger] raw_buckets[k])@),
            sums.len() == j,
            all_wf(sums@),
            forall|k: int| 0 <= k < j ==> (#[trigger] sums[k])@ == separate_window_sums(raw_buckets@)[k],
        decreases raw_buckets.len() - j,
    {
        assert(all_reduced(raw_buckets[j as int]@));
        let buckets = read_reduced_points(raw_buckets[j].as_slice());
        sums.push(bucket_sum_cpu(buckets));
        j += 1;
    }
    assert(coordinates_of(sums@) =~= separate_window_sums(raw_buckets@));
    reduce_last::<Split16>(sums.as_slice())
}

/// Whether every point has residues for coordinates.
pub fn check_all_wf(points: &[EdwardsPoint]) -> (r: bool)
    ensures
        r == all_wf(points@),
{
    let mut i: usize = 0;
    while i < points.len()
        invariant
            i <= points.len(),
            forall|k: int| 0 <= k < i ==> (#[trigger] points[k]).wf(),
        decreases points.len() - i,
    {
        if !points[i].is_wf() {
            return false;
        }
        i += 1;
    }
    true
}

} // verus!
