use ark_ec::{CurveGroup, Group};
use ark_ed_on_bls12_377::{EdwardsProjective, Fq};
use ark_ff::{BigInt, PrimeField};
use msm_wgpu::bucket::{submission_to_await, GpuBucketer, MAX_BATCH_SIZE, MAX_IN_FLIGHT};
use msm_wgpu::bytes::EdwardsPoint;
use msm_wgpu::cpu::bucket_cpu;

fn words(v: Fq) -> [u64; 4] {
    v.into_bigint().0
}

fn field(w: [u64; 4]) -> Fq {
    Fq::from_bigint(BigInt(w)).unwrap()
}

fn to_point(p: &EdwardsProjective) -> EdwardsPoint {
    EdwardsPoint { x: words(p.x), y: words(p.y), t: words(p.t), z: words(p.z) }
}

fn to_ark(p: &EdwardsPoint) -> EdwardsProjective {
    EdwardsProjective::new_unchecked(field(p.x), field(p.y), field(p.t), field(p.z))
}

fn multiple(k: u64) -> EdwardsProjective {
    EdwardsProjective::generator().mul_bigint([k])
}

fn example() -> (Vec<u32>, Vec<EdwardsPoint>) {
    // bucket 1: one point, bucket 2: three, bucket 3: none, bucket 4: one, bucket 5: two
    let scalars = vec![2u32, 5, 0, 2, 1, 4, 5, 2, 0];
    let points = (0..scalars.len() as u64).map(|k| to_point(&multiple(10 + k))).collect();
    (scalars, points)
}

#[test]
fn buckets_stand_by_size_and_then_by_number() {
    let (scalars, points) = example();
    let pre = GpuBucketer::new(6).preprocess(&scalars, &points);
    assert_eq!(pre.idx_to_bkt(), &vec![0, 3, 1, 4, 5, 2]);
    assert_eq!(pre.bucket_shuffled(), &vec![0, 0, 1, 2, 4, 7]);
    assert_eq!(pre.n_nonzero(), 7);
    assert_eq!(pre.reshuffled().len(), 7);
}

#[test]
fn ends_do_not_decrease_and_the_last_is_the_number_of_points() {
    let (scalars, points) = example();
    let pre = GpuBucketer::new(8).preprocess(&scalars, &points);
    assert!(pre.bucket_shuffled().windows(2).all(|w| w[0] <= w[1]));
    assert_eq!(*pre.bucket_shuffled().last().unwrap(), pre.reshuffled().len());
    assert_eq!(pre.reshuffled().len(), scalars.iter().filter(|s| **s != 0).count());
    let mut sorted = pre.idx_to_bkt().clone();
    sorted.sort();
    assert_eq!(sorted, (0..8).collect::<Vec<usize>>());
}

#[test]
fn each_bucket_holds_its_points_the_latest_first() {
    let (scalars, points) = example();
    let pre = GpuBucketer::new(6).preprocess(&scalars, &points);
    let at = |i: usize| to_ark(&pre.reshuffled()[i]);
    // bucket 1 at [0, 1), bucket 4 at [1, 2), bucket 5 at [2, 4), bucket 2 at [4, 7)
    assert_eq!(at(0), multiple(14));
    assert_eq!(at(1), multiple(15));
    assert_eq!(at(2), multiple(16));
    assert_eq!(at(3), multiple(11));
    assert_eq!(at(4), multiple(17));
    assert_eq!(at(5), multiple(13));
    assert_eq!(at(6), multiple(10));
    assert_eq!(pre.reshuffled()[6].x, points[0].x);
}

#[test]
fn a_window_of_zero_scalars_has_no_points() {
    let points: Vec<EdwardsPoint> = (0..3).map(|k| to_point(&multiple(k + 1))).collect();
    let bucketer = GpuBucketer::new(4);
    let pre = bucketer.preprocess(&[0, 0, 0], &points);
    assert_eq!(pre.n_nonzero(), 0);
    assert_eq!(pre.idx_to_bkt(), &vec![0, 1, 2, 3]);
    assert_eq!(pre.bucket_shuffled(), &vec![0, 0, 0, 0]);
    let sums = bucketer.bucket(&pre);
    assert!(sums.iter().all(|s| s.is_zero()));
}

#[test]
fn the_threads_of_a_batch_cover_its_segments() {
    let (scalars, points) = example();
    let pre = GpuBucketer::new(6).preprocess(&scalars, &points);
    // all in one batch
    let plan = pre.plan_batch(16, 0, 1);
    assert_eq!((plan.start, plan.end), (0, 7));
    assert_eq!((plan.start_idx, plan.end_idx), (2, 6));
    assert_eq!(plan.offsets, vec![0, 1, 2, 4, 7]);
    assert_eq!(&plan.buckets[..4], &[1, 4, 5, 2]);
    assert_eq!(plan.n_workgroups, 1);
    assert_eq!(plan.buckets.len(), 64);
    assert!(plan.buckets[4..].iter().all(|b| *b == 0));
    assert_eq!(plan.next_idx, 5);
}

#[test]
fn a_segment_that_a_batch_cuts_goes_on_in_the_next() {
    let (scalars, points) = example();
    let pre = GpuBucketer::new(6).preprocess(&scalars, &points);
    let first = pre.plan_batch(3, 0, 1);
    assert_eq!((first.start, first.end), (0, 3));
    assert_eq!((first.start_idx, first.end_idx), (2, 5));
    assert_eq!(first.offsets, vec![0, 1, 2, 3]);
    assert_eq!(&first.buckets[..3], &[1, 4, 5]);
    assert_eq!(first.next_idx, 4);
    let second = pre.plan_batch(3, 3, first.next_idx);
    assert_eq!((second.start, second.end), (3, 6));
    assert_eq!((second.start_idx, second.end_idx), (4, 6));
    assert_eq!(second.offsets, vec![0, 1, 3]);
    assert_eq!(&second.buckets[..2], &[5, 2]);
    assert_eq!(second.next_idx, 5);
    let third = pre.plan_batch(3, 6, second.next_idx);
    assert_eq!((third.start, third.end), (6, 7));
    assert_eq!((third.start_idx, third.end_idx), (5, 6));
    assert_eq!(third.offsets, vec![0, 1]);
}

#[test]
fn the_scan_sums_each_bucket() {
    let (scalars, points) = example();
    let bucketer = GpuBucketer::new(6);
    let pre = bucketer.preprocess(&scalars, &points);
    let expected = [0u64, 14, 10 + 13 + 17, 0, 15, 11 + 16];
    for max_batch in [1usize, 2, 3, 4, 7, 100] {
        let sums = bucketer.bucket_batched(&pre, max_batch);
        assert_eq!(sums.len(), 6);
        for (v, k) in expected.iter().enumerate() {
            assert_eq!(to_ark(&sums[v]), multiple(*k), "bucket {} batch {}", v, max_batch);
        }
    }
    let whole = bucketer.bucket_batched(&pre, 100);
    let cut = bucketer.bucket_batched(&pre, 2);
    for v in 0..6 {
        assert_eq!(whole[v].x, cut[v].x);
        assert_eq!(whole[v].z, cut[v].z);
    }
    assert_eq!(bucketer.bucket(&pre)[2].y, whole[2].y);
}

#[test]
fn the_scan_and_the_host_agree_on_the_buckets() {
    let (scalars, points) = example();
    let bucketer = GpuBucketer::new(6);
    let scanned = bucketer.bucket(&bucketer.preprocess(&scalars, &points));
    let host = bucket_cpu(&scalars, &points, 6);
    for v in 0..6 {
        assert_eq!(to_ark(&scanned[v]).into_affine(), to_ark(&host[v]).into_affine());
    }
}

#[test]
fn no_more_than_four_dispatches_are_in_flight() {
    assert_eq!(MAX_IN_FLIGHT, 4);
    assert_eq!(MAX_BATCH_SIZE, 1 << 20);
    assert_eq!(submission_to_await(0), None);
    assert_eq!(submission_to_await(3), None);
    assert_eq!(submission_to_await(4), Some(0));
    assert_eq!(submission_to_await(9), Some(5));
}

#[test]
fn a_window_is_gathered_and_scanned_in_one_go() {
    let (scalars, points) = example();
    let bucketer = GpuBucketer::new(6);
    let sums = bucketer.bucket_window(&scalars, &points);
    let by_steps = bucketer.bucket(&bucketer.preprocess(&scalars, &points));
    assert_eq!(sums.len(), 6);
    for v in 0..6 {
        assert_eq!(sums[v].x, by_steps[v].x);
        assert_eq!(sums[v].y, by_steps[v].y);
        assert_eq!(sums[v].t, by_steps[v].t);
        assert_eq!(sums[v].z, by_steps[v].z);
    }
    assert_eq!(to_ark(&sums[5]), multiple(11 + 16));
    assert!(sums[0].is_zero() && sums[3].is_zero());
}
