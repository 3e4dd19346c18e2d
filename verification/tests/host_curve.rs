use ark_ec::{CurveGroup, Group};
use ark_ed_on_bls12_377::{EdwardsProjective, Fq, Fr};
use ark_ff::{BigInt, Field, PrimeField};
use msm_wgpu::ark::affine_add;
use msm_wgpu::bytes::{read_fq, read_points, write_fq, write_points, EdwardsPoint};
use msm_wgpu::cpu::{
    bucket_cpu, bucket_sum_cpu, compute_msm, inter_bucket_reduce, inter_bucket_reduce_16,
    inter_bucket_reduce_dynamic, inter_bucket_reduce_last, inter_bucket_reduce_last_dynamic,
    msm_end_to_end, msm_end_to_end_dynamic, point_add_affine, reduce_last,
};
use msm_wgpu::split::{split, split_dynamic, Split12, Split16, Split8};

fn words(v: Fq) -> [u64; 4] {
    v.into_bigint().0
}

fn field(w: [u64; 4]) -> Fq {
    Fq::from_bigint(BigInt(w)).unwrap()
}

fn to_point(p: &EdwardsProjective) -> EdwardsPoint {
    EdwardsPoint { x: words(p.x), y: words(p.y), t: words(p.t), z: words(p.z) }
}

fn to_ark(p: &EdwardsPoint) -> EdwardsProjective {
    EdwardsProjective::new_unchecked(field(p.x), field(p.y), field(p.t), field(p.z))
}

fn multiple(k: u64) -> EdwardsProjective {
    EdwardsProjective::generator().mul_bigint([k])
}

fn affine_limbs(p: &EdwardsProjective) -> Vec<u32> {
    let a = p.into_affine();
    let mut out = write_fq(&words(a.x)).to_vec();
    out.extend_from_slice(&write_fq(&words(a.y)));
    out
}

fn scalar_limbs(k: u64) -> [u32; 8] {
    [0, 0, 0, 0, 0, 0, (k >> 32) as u32, k as u32]
}

#[test]
fn words_and_limbs_hold_one_integer() {
    let limbs = [1u32, 2, 3, 4, 5, 6, 7, 8];
    let w = read_fq(&limbs);
    assert_eq!(w, [(7u64 << 32) + 8, (5u64 << 32) + 6, (3u64 << 32) + 4, (1u64 << 32) + 2]);
    assert_eq!(write_fq(&w), limbs);
}

#[test]
fn points_survive_the_flat_array() {
    let points = vec![to_point(&multiple(3)), to_point(&multiple(5))];
    let flat = write_points(&points);
    assert_eq!(flat.len(), 64);
    assert_eq!(&flat[0..8], &write_fq(&points[0].x));
    assert_eq!(&flat[56..64], &write_fq(&points[1].z));
    let back = read_points(&flat);
    assert_eq!(back.len(), 2);
    assert_eq!(back[1].t, points[1].t);
    assert_eq!(read_points(&flat[..63]).len(), 1);
}

#[test]
fn host_sum_is_the_sum_of_the_curve_library() {
    let p = multiple(7);
    let q = multiple(11);
    let sum = to_point(&p).add(&to_point(&q));
    assert_eq!(to_ark(&sum), multiple(18));
    let expected = p + q;
    assert_eq!(sum.x, words(expected.x));
    assert_eq!(sum.z, words(expected.z));
}

#[test]
fn host_double_is_the_double_of_the_curve_library() {
    let p = multiple(7);
    let twice = to_point(&p).double();
    assert_eq!(to_ark(&twice), multiple(14));
    assert_ne!(twice.x, to_point(&p).x);
}

#[test]
fn host_multiple_is_the_multiple_of_the_curve_library() {
    let p = to_point(&multiple(3));
    assert_eq!(to_ark(&p.mul_bigint(&[5, 0, 0, 0])), multiple(15));
    assert!(p.mul_bigint(&[0, 0, 0, 0]).is_zero());
}

#[test]
fn zero_is_recognised() {
    assert!(EdwardsPoint::zero().is_zero());
    assert!(!to_point(&multiple(1)).is_zero());
    let scaled = EdwardsPoint { x: [0; 4], y: [9, 0, 0, 0], t: [0; 4], z: [9, 0, 0, 0] };
    assert!(scaled.is_zero());
}

#[test]
fn affine_of_a_point_divides_by_z() {
    let p = multiple(9) + multiple(4);
    let (x, y) = to_point(&p).into_affine().unwrap();
    let a = p.into_affine();
    assert_eq!(x, words(a.x));
    assert_eq!(y, words(a.y));
    let (x, y) = EdwardsPoint::zero().into_affine().unwrap();
    assert_eq!((x, y), ([0, 0, 0, 0], [1, 0, 0, 0]));
    let flat = EdwardsPoint { x: [1, 0, 0, 0], y: [1, 0, 0, 0], t: [1, 0, 0, 0], z: [0; 4] };
    assert!(flat.into_affine().is_none());
}

#[test]
fn affine_points_add() {
    let a = multiple(2).into_affine();
    let b = multiple(3).into_affine();
    let sum = affine_add(&words(a.x), &words(a.y), &words(b.x), &words(b.y));
    assert_eq!(to_ark(&sum), multiple(5));
    let out = point_add_affine(&affine_limbs(&multiple(2)), &affine_limbs(&multiple(3))).unwrap();
    assert_eq!(out, affine_limbs(&multiple(5)));
}

#[test]
fn buckets_collect_the_points_of_each_scalar() {
    let points: Vec<EdwardsPoint> = (1..=5).map(|k| to_point(&multiple(k))).collect();
    let scalars = [2u32, 0, 3, 2, 3];
    let buckets = bucket_cpu(&scalars, &points, 4);
    assert_eq!(buckets.len(), 4);
    assert!(buckets[0].is_zero());
    assert!(buckets[1].is_zero());
    assert_eq!(to_ark(&buckets[2]), multiple(1 + 4));
    assert_eq!(to_ark(&buckets[3]), multiple(3 + 5));
}

#[test]
fn bucket_sum_weighs_each_bucket_by_its_number() {
    let buckets: Vec<EdwardsPoint> =
        vec![to_point(&multiple(100)), to_point(&multiple(1)), EdwardsPoint::zero(), to_point(&multiple(7))];
    let sum = bucket_sum_cpu(buckets);
    assert_eq!(to_ark(&sum), multiple(1 + 3 * 7));
    assert!(bucket_sum_cpu(vec![]).is_zero());
    assert!(bucket_sum_cpu(vec![to_point(&multiple(5))]).is_zero());
}

#[test]
fn last_reduction_folds_from_the_top_window() {
    let sums = vec![to_point(&multiple(3)), to_point(&multiple(2))];
    let out = reduce_last::<Split8>(&sums).unwrap();
    assert_eq!(out, affine_limbs(&multiple(3 + 2 * 256)));
}

fn flat_scalars(scalars: &[[u32; 8]]) -> Vec<u32> {
    scalars.iter().flat_map(|s| s.iter().copied()).collect()
}

fn fr_limbs(s: Fr) -> [u32; 8] {
    write_fq(&s.into_bigint().0)
}

#[test]
fn windowed_msm_matches_the_sum_of_multiples() {
    let points: Vec<EdwardsProjective> = (1..=6).map(|k| multiple(3 * k + 1)).collect();
    let scalars: Vec<Fr> = (1..=6u64).map(|k| Fr::from(k * 0x1234_5678_9abc) * Fr::from(k + 77).square()).collect();
    let mut expected = EdwardsProjective::default();
    for (p, s) in points.iter().zip(scalars.iter()) {
        expected += p.mul_bigint(s.into_bigint());
    }
    let points_flat = write_points(&points.iter().map(to_point).collect::<Vec<_>>());
    let scalars_flat = flat_scalars(&scalars.iter().map(|s| fr_limbs(*s)).collect::<Vec<_>>());
    let out = msm_end_to_end::<Split8>(&scalars_flat, &points_flat).unwrap();
    assert_eq!(out, affine_limbs(&expected));
    let out = msm_end_to_end::<Split16>(&scalars_flat, &points_flat).unwrap();
    assert_eq!(out, affine_limbs(&expected));
    let out = compute_msm(&points_flat, &scalars_flat).unwrap();
    assert_eq!(out, affine_limbs(&expected));
}

#[test]
fn msm_of_one_point_is_its_multiple() {
    let points_flat = write_points(&[to_point(&multiple(5))]);
    let out = msm_end_to_end::<Split16>(&scalar_limbs(12), &points_flat).unwrap();
    assert_eq!(out, affine_limbs(&multiple(60)));
}

#[test]
fn msm_with_zero_scalars_is_the_neutral_point() {
    let points_flat = write_points(&[to_point(&multiple(5)), to_point(&multiple(6))]);
    let out = msm_end_to_end::<Split16>(&[0u32; 16], &points_flat).unwrap();
    let mut expected = vec![0u32; 16];
    expected[15] = 1;
    assert_eq!(out, expected);
    assert_eq!(out, affine_limbs(&EdwardsProjective::default()));
}

fn small_instance() -> (Vec<u32>, Vec<u32>, EdwardsProjective) {
    let points: Vec<EdwardsProjective> = (1..=4).map(|k| multiple(7 * k + 2)).collect();
    let scalars: Vec<Fr> =
        (1..=4u64).map(|k| Fr::from(k * 0x9abc_def0) * Fr::from(k + 5).square()).collect();
    let mut expected = EdwardsProjective::default();
    for (p, s) in points.iter().zip(scalars.iter()) {
        expected += p.mul_bigint(s.into_bigint());
    }
    let points_flat = write_points(&points.iter().map(to_point).collect::<Vec<_>>());
    let scalars_flat = flat_scalars(&scalars.iter().map(|s| fr_limbs(*s)).collect::<Vec<_>>());
    (points_flat, scalars_flat, expected)
}

#[test]
fn the_window_size_can_be_chosen_at_run_time() {
    let (points_flat, scalars_flat, expected) = small_instance();
    assert_eq!(split_dynamic(12, &scalars_flat), split::<Split12>(&scalars_flat));
    for w in [8u32, 9, 10, 11, 12, 13, 14, 15, 16] {
        let out = msm_end_to_end_dynamic(w, &scalars_flat, &points_flat).unwrap();
        assert_eq!(out, affine_limbs(&expected), "width {}", w);
    }
}

#[test]
fn windows_of_twenty_bits_give_the_same_product() {
    let (points_flat, scalars_flat, expected) = small_instance();
    let out = msm_end_to_end_dynamic(20, &scalars_flat, &points_flat).unwrap();
    assert_eq!(out, affine_limbs(&expected));
}

#[test]
fn the_sums_of_the_windows_are_folded_from_flat_arrays() {
    // the sums of two windows of eight bits: 3 + 256 * 2
    let sums = write_points(&[to_point(&multiple(3)), to_point(&multiple(2))]);
    let mut padded = sums.clone();
    for _ in 2..32 {
        padded.extend_from_slice(&write_points(&[msm_wgpu::bytes::EdwardsPoint::zero()]));
    }
    assert_eq!(inter_bucket_reduce_last::<Split8>(&padded).unwrap(), affine_limbs(&multiple(515)));
    assert_eq!(inter_bucket_reduce_last_dynamic(8, &padded).unwrap(), affine_limbs(&multiple(515)));
    // sixteen windows of two buckets each: bucket 1 of window j holds j + 1 times the generator
    let mut raw = Vec::new();
    let mut separate = Vec::new();
    let mut total = EdwardsProjective::default();
    for j in (0..16u64).rev() {
        for _ in 0..16 {
            total = total + total;
        }
        total += multiple(j + 1);
    }
    for j in 0..16u64 {
        let window = write_points(&[to_point(&multiple(1000)), to_point(&multiple(j + 1))]);
        raw.extend_from_slice(&window);
        separate.push(window);
    }
    assert_eq!(inter_bucket_reduce::<Split16>(&raw).unwrap(), affine_limbs(&total));
    assert_eq!(inter_bucket_reduce_dynamic(16, &raw).unwrap(), affine_limbs(&total));
    assert_eq!(inter_bucket_reduce_16(&separate).unwrap(), affine_limbs(&total));
}
