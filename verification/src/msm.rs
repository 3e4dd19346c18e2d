//! The driver: scalars into windows, each window into buckets, the buckets
//! of each window into one sum, and the sums of the windows into the result.

use vstd::prelude::*;
use vstd::slice::slice_subrange;
use crate::bytes::{all_reduced, EdwardsPoint};
use crate::cpu::{
    all_wf, bucket_cpu, bucket_sum_cpu, coordinates_of, cpu_buckets, horner_from, is_affine_of,
    points_of, read_reduced_points, reduce_last, sum_from, window_column,
};
use crate::curve::Coordinates;
use crate::inter_bucket::{inter_bucket_value, GpuInterBucketReducer};
use crate::bucket::{scan_sum, GpuBucketer};
use crate::intra_bucket::{bucket_points, tree_sum, GpuIntraBucketReducer};
use crate::mont::{pod_coordinates, pods_of_points, points_of_pods};
use crate::limbs::limbs_value;
use crate::split::{
    flat_index, lemma_window_fits, scalar_at, split, window_value, Split16,
};

verus! {

/// How the buckets of a window are filled.
#[derive(Clone, Copy, Debug, PartialEq, Eq, Structural)]
pub enum BucketImplementation {
    /// Point after point on the host.
    Cpu,
    /// By the scan of the segments of the device.
    Gpu,
}

/// How the buckets of a window are summed.
#[derive(Clone, Copy, Debug, PartialEq, Eq, Structural)]
pub enum BucketSumImplementation {
    /// By two running sums on the host.
    Cpu,
    /// Chunk by chunk on the device, and the rest on the host.
    Gpu,
}

/// How the device sums the buckets of a window.
#[derive(Clone, Copy, Debug, PartialEq, Eq, Structural)]
pub enum IntraBucketStrategy {
    /// By the scan of each bucket's segment. This is the default.
    SegmentedScan,
    /// By the tree of additions of pairs.
    PairTree,
}

/// The ways of a multi-scalar product.
#[derive(Clone, Copy, Debug)]
pub struct Options {
    pub bucket_impl: BucketImplementation,
    pub bucket_sum_impl: BucketSumImplementation,
}

/// The bits of a window of the driver.
pub const WINDOW_SIZE: usize = 16;

/// The windows of the driver.
pub const N_WINDOWS: usize = 16;

/// The buckets of a window of the driver.
pub const N_BUCKETS: usize = 65536;

/// The buckets of a window.
pub open spec fn buckets_with(
    bucket_impl: BucketImplementation,
    strategy: IntraBucketStrategy,
    column: Seq<u32>,
    points: Seq<Coordinates>,
) -> Seq<Coordinates> {
    match bucket_impl {
        BucketImplementation::Cpu => cpu_buckets(column, points, 65536),
        BucketImplementation::Gpu => match strategy {
            IntraBucketStrategy::SegmentedScan => Seq::new(
                65536,
                |v: int| scan_sum(bucket_points(column, points, v as nat)),
            ),
            IntraBucketStrategy::PairTree => Seq::new(
                65536,
                |v: int| tree_sum(false, bucket_points(column, points, v as nat)),
            ),
        },
    }
}

/// The sum of a window's buckets, each times its number.
pub open spec fn bucket_sum_with(sum_impl: BucketSumImplementation, buckets: Seq<Coordinates>)
    -> Coordinates {
    match sum_impl {
        BucketSumImplementation::Cpu => sum_from(buckets, 1),
        BucketSumImplementation::Gpu => inter_bucket_value(buckets),
    }
}

/// The multi-scalar product in extended coordinates, as the driver computes
/// it by windows of 16 bits.
pub open spec fn msm_with(
    options: Options,
    strategy: IntraBucketStrategy,
    scalars_flat: Seq<u32>,
    points_flat: Seq<u32>,
) -> Coordinates {
    horner_from(
        Seq::new(
            16,
            |j: int|
                bucket_sum_with(
                    options.bucket_sum_impl,
                    buckets_with(
                        options.bucket_impl,
                        strategy,
                        window_column(scalars_flat, 16, j as nat),
                        points_of(points_flat),
                    ),
                ),
        ),
        16,
        0,
    )
}

/// Whether the driver takes these arrays: whole points, as many scalars as
/// points, at most `2^31` of them and no more than sixteen windows of them
/// can be indexed, and residues for coordinates.
pub open spec fn accepts(points_flat: Seq<u32>, scalars_flat: Seq<u32>) -> bool {
    &&& points_flat.len() % 32 == 0
    &&& scalars_flat.len() % 8 == 0
    &&& scalars_flat.len() / 8 == points_flat.len() / 32
    &&& points_flat.len() / 32 <= 0x8000_0000
    &&& (points_flat.len() / 32) * 16 <= usize::MAX
    &&& all_reduced(points_flat)
}

/// The multi-scalar product of the points and scalars of two flat arrays,
/// as sixteen limbs of the affine result; none where the result has
/// `Z = 0`. Where the device fills the buckets, it sums them by the scan of
/// their segments.
pub fn compute_msm(points_flat: &[u32], scalars_flat: &[u32], options: Options) -> (out: Option<
    [u32; 16],
>)
    requires
        accepts(points_flat@, scalars_flat@),
    ensures
        out is Some <==> msm_with(
            options,
            IntraBucketStrategy::SegmentedScan,
            scalars_flat@,
            points_flat@,
        ).z != 0,
        out is Some ==> is_affine_of(
            out->Some_0@,
            msm_with(options, IntraBucketStrategy::SegmentedScan, scalars_flat@, points_flat@),
        ),
{
    compute_msm_by(points_flat, scalars_flat, options, IntraBucketStrategy::SegmentedScan)
}

/// The multi-scalar product of the points and scalars of two flat arrays,
/// as sixteen limbs of the affine result; none where the result has
/// `Z = 0`. Where the device fills the buckets, it sums them by `strategy`.
pub fn compute_msm_by(
    points_flat: &[u32],
    scalars_flat: &[u32],
    options: Options,
    strategy: IntraBucketStrategy,
) -> (out: Option<[u32; 16]>)
    requires
        accepts(points_flat@, scalars_flat@),
    ensures
        out is Some <==> msm_with(options, strategy, scalars_flat@, points_flat@).z != 0,
        out is Some ==> is_affine_of(
            out->Some_0@,
            msm_with(options, strategy, scalars_flat@, points_flat@),
        ),
{
    let n = points_flat.len() / 32;
    let parts = split::<Split16>(scalars_flat);
    let points = read_reduced_points(points_flat);
    let ghost cs = points_of(points_flat@);
    let mut sums: Vec<EdwardsPoint> = Vec::with_capacity(N_WINDOWS);
    let mut j: usize = 0;
    while j < N_WINDOWS
        invariant
            j <= 16,
            n == points_flat.len() / 32,
            n == scalars_flat.len() / 8,
            n <= 0x8000_0000,
            n * 16 <= usize::MAX,
            parts.len() == n * 16,
            forall|i: int, k: int|
                0 <= i < n && 0 <= k < 16 ==> #[trigger] parts[flat_index(k, n as int, i)]
                    == window_value(limbs_value(scalar_at(scalars_flat@, i)), 16, k as nat),
            all_wf(points@),
            cs == coordinates_of(points@),
            cs == points_of(points_flat@),
            points.len() == n,
            sums.len() == j,
            all_wf(sums@),
            forall|k: int|
                0 <= k < j ==> (#[trigger] sums[k])@ == bucket_sum_with(
                    options.bucket_sum_impl,
                    buckets_with(
                        options.bucket_impl,
                        strategy,
                        window_column(scalars_flat@, 16, k as nat),
                        cs,
                    ),
                ),
        decreases 16 - j,
    {
        proof {
            assert(j * n + n <= n * 16) by (nonlinear_arith)
                requires
                    j < 16,
            ;
            assert((j + 1) * n == j * n + n) by (nonlinear_arith);
        }
        let column = slice_subrange(parts.as_slice(), j * n, (j + 1) * n);
        proof {
            let expected = window_column(scalars_flat@, 16, j as nat);
            vstd::arithmetic::power2::lemma2_to64();
            assert forall|i: int| 0 <= i < n implies column[i] == expected[i] && column[i]
                < 65536 by {
                assert(column[i] == parts[flat_index(j as int, n as int, i)]);
                lemma_window_fits(limbs_value(scalar_at(scalars_flat@, i)), 16, j as nat);
            }
            assert(column@ =~= expected);
        }
        let buckets = match options.bucket_impl {
            BucketImplementation::Cpu => bucket_cpu(column, points.as_slice(), N_BUCKETS),
            BucketImplementation::Gpu => match strategy {
                IntraBucketStrategy::SegmentedScan => {
                    let bucketer = GpuBucketer::new(N_BUCKETS);
                    let buckets = bucketer.bucket_window(column, points.as_slice());
                    assert(coordinates_of(buckets@) =~= buckets_with(
                        BucketImplementation::Gpu,
                        strategy,
                        column@,
                        cs,
                    ));
                    buckets
                },
                IntraBucketStrategy::PairTree => {
                    let reducer = GpuIntraBucketReducer::new(N_BUCKETS);
                    let pods = pods_of_points(points.as_slice());
                    proof {
                        assert(pod_coordinates(pods@) =~= cs);
                        assert forall|i: int| 0 <= i < pods.len() implies (
                        #[trigger] pods[i])@.reduced() by {
                            assert(points@[i].wf());
                        }
                    }
                    let raw = reducer.reduce_points(column, pods.as_slice());
                    let buckets = points_of_pods(&raw);
                    assert forall|v: int| 0 <= v < buckets.len() implies (
                    #[trigger] buckets[v]).wf() by {
                        assert(raw[v]@.reduced());
                    }
                    assert(coordinates_of(buckets@) =~= buckets_with(
                        BucketImplementation::Gpu,
                        strategy,
                        column@,
                        cs,
                    ));
                    buckets
                },
            },
        };
        let sum = match options.bucket_sum_impl {
            BucketSumImplementation::Cpu => bucket_sum_cpu(buckets),
            BucketSumImplementation::Gpu => {
                let reducer = GpuInterBucketReducer::new();
                reducer.reduce(buckets.as_slice())
            },
        };
        sums.push(sum);
        j += 1;
    }
    proof {
        assert(coordinates_of(sums@) =~= Seq::new(
            16,
            |j: int|
                bucket_sum_with(
                    options.bucket_sum_impl,
                    buckets_with(
                        options.bucket_impl,
                        strategy,
                        window_column(scalars_flat@, 16, j as nat),
                        points_of(points_flat@),
                    ),
                ),
        ));
    }
    match reduce_last::<Split16>(sums.as_slice()) {
        Some(limbs) => {
            let out = [
                limbs[0],
                limbs[1],
                limbs[2],
                limbs[3],
                limbs[4],
                limbs[5],
                limbs[6],
                limbs[7],
                limbs[8],
                limbs[9],
                limbs[10],
                limbs[11],
                limbs[12],
                limbs[13],
                limbs[14],
                limbs[15],
            ];
            assert(out@ =~= limbs@);
            Some(out)
        },
        None => None,
    }
}

/// Whether the driver takes these arrays.
pub fn check_accepts(points_flat: &[u32], scalars_flat: &[u32]) -> (r: bool)
    ensures
        r == accepts(points_flat@, scalars_flat@),
{
    if points_flat.len() % 32 != 0 || scalars_flat.len() % 8 != 0 {
        return false;
    }
    let n = points_flat.len() / 32;
    if scalars_flat.len() / 8 != n || n > 0x8000_0000 || n > usize::MAX / 16 {
        return false;
    }
    crate::bytes::check_all_reduced(points_flat)
}

} // verus!
