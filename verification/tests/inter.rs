use ark_ec::{CurveGroup, Group};
use ark_ed_on_bls12_377::{EdwardsProjective, Fq};
use ark_ff::{BigInt, PrimeField};
use msm_wgpu::bytes::EdwardsPoint;
use msm_wgpu::cpu::bucket_sum_cpu;
use msm_wgpu::inter_bucket::{
    level_batch, weighted_tail, GpuInterBucketReducer, CHUNK, MAX_BATCH_SIZE,
};

fn words(v: Fq) -> [u64; 4] {
    v.into_bigint().0
}

fn field(w: [u64; 4]) -> Fq {
    Fq::from_bigint(BigInt(w)).unwrap()
}

fn to_point(p: &EdwardsProjective) -> EdwardsPoint {
    EdwardsPoint { x: words(p.x), y: words(p.y), t: words(p.t), z: words(p.z) }
}

fn to_ark(p: &EdwardsPoint) -> EdwardsProjective {
    EdwardsProjective::new_unchecked(field(p.x), field(p.y), field(p.t), field(p.z))
}

fn multiple(k: u64) -> EdwardsProjective {
    EdwardsProjective::generator().mul_bigint([k])
}

fn points(n: u64) -> Vec<EdwardsPoint> {
    let g = EdwardsProjective::generator();
    let mut p = g.double();
    let mut out = Vec::new();
    for _ in 0..n {
        out.push(to_point(&p));
        p += g;
    }
    out
}

/// The sum over `i < n` of `i (i + 2)`.
fn weighted(n: u64) -> u64 {
    (0..n).map(|i| i * (i + 2)).sum()
}

#[test]
fn a_short_window_is_summed_on_the_host() {
    for n in [0u64, 1, 2, 5, 63, 64, 65, 130] {
        let sum = GpuInterBucketReducer::new().reduce(&points(n));
        assert_eq!(to_ark(&sum).into_affine(), multiple(weighted(n)).into_affine(), "{}", n);
    }
}

#[test]
fn chunks_of_64_are_folded() {
    for n in [128u64, 192, 4096] {
        let sum = GpuInterBucketReducer::new().reduce(&points(n));
        assert_eq!(to_ark(&sum).into_affine(), multiple(weighted(n)).into_affine(), "{}", n);
    }
}

#[test]
fn the_device_and_the_host_agree_on_the_sum_of_the_buckets() {
    let buckets = points(128);
    let folded = GpuInterBucketReducer::new().reduce(&buckets);
    let host = bucket_sum_cpu(buckets);
    assert_eq!(to_ark(&folded).into_affine(), to_ark(&host).into_affine());
}

#[test]
fn the_tail_weighs_by_the_index_and_adds_the_second_array() {
    let sum_n = points(3);
    let sum_i = vec![to_point(&multiple(100)), to_point(&multiple(200)), to_point(&multiple(300))];
    let sum = weighted_tail(&sum_n, &sum_i);
    assert_eq!(to_ark(&sum), multiple(0 * 2 + 1 * 3 + 2 * 4 + 600));
    assert!(weighted_tail(&[], &[]).is_zero());
}

#[test]
fn a_dispatch_takes_whole_chunks() {
    assert_eq!(CHUNK, 64);
    assert_eq!(MAX_BATCH_SIZE, 32768);
    assert_eq!(level_batch(128, 0), (128, 2));
    assert_eq!(level_batch(65536, 0), (32768, 512));
    assert_eq!(level_batch(65536, 32768), (65536, 512));
    assert_eq!(level_batch(32768 + 64, 32768), (32768 + 64, 1));
}
