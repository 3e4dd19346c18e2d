use ark_ec::{CurveGroup, Group};
use ark_ed_on_bls12_377::{EdwardsProjective, Fq, Fr};
use ark_ff::{Field, PrimeField};
use msm_wgpu::bytes::{check_all_reduced, read_pod_points, write_fq, write_points, EdwardsPoint};
use msm_wgpu::cpu::{check_all_wf, compute_msm as naive_msm, msm_end_to_end};
use msm_wgpu::field::is_residue;
use msm_wgpu::u256::U256;
use msm_wgpu::msm::{
    check_accepts, compute_msm, compute_msm_by, BucketImplementation, BucketSumImplementation,
    IntraBucketStrategy, Options, N_BUCKETS, N_WINDOWS, WINDOW_SIZE,
};
use msm_wgpu::split::Split16;

fn words(v: Fq) -> [u64; 4] {
    v.into_bigint().0
}

fn to_point(p: &EdwardsProjective) -> EdwardsPoint {
    EdwardsPoint { x: words(p.x), y: words(p.y), t: words(p.t), z: words(p.z) }
}

fn multiple(k: u64) -> EdwardsProjective {
    EdwardsProjective::generator().mul_bigint([k])
}

fn affine_limbs(p: &EdwardsProjective) -> [u32; 16] {
    let a = p.into_affine();
    let mut out = [0u32; 16];
    out[..8].copy_from_slice(&write_fq(&words(a.x)));
    out[8..].copy_from_slice(&write_fq(&words(a.y)));
    out
}

fn limbs(s: Fr) -> [u32; 8] {
    write_fq(&s.into_bigint().0)
}

fn host_only() -> Options {
    Options { bucket_impl: BucketImplementation::Cpu, bucket_sum_impl: BucketSumImplementation::Cpu }
}

fn device_buckets() -> Options {
    Options { bucket_impl: BucketImplementation::Gpu, bucket_sum_impl: BucketSumImplementation::Cpu }
}

fn device_only() -> Options {
    Options { bucket_impl: BucketImplementation::Gpu, bucket_sum_impl: BucketSumImplementation::Gpu }
}

fn instance(n: u64) -> (Vec<u32>, Vec<u32>, EdwardsProjective) {
    let points: Vec<EdwardsProjective> = (0..n).map(|k| multiple(5 * k + 3)).collect();
    let scalars: Vec<Fr> =
        (0..n).map(|k| (Fr::from(k + 0x1234_5678_9abc_def0) * Fr::from(k + 7)).square()).collect();
    let mut expected = EdwardsProjective::default();
    for (p, s) in points.iter().zip(scalars.iter()) {
        expected += p.mul_bigint(s.into_bigint());
    }
    let points_flat = write_points(&points.iter().map(to_point).collect::<Vec<_>>());
    let scalars_flat: Vec<u32> = scalars.iter().flat_map(|s| limbs(*s)).collect();
    (points_flat, scalars_flat, expected)
}

#[test]
fn the_driver_cuts_windows_of_16_bits() {
    assert_eq!(WINDOW_SIZE, 16);
    assert_eq!(N_WINDOWS, 16);
    assert_eq!(N_BUCKETS, 1 << 16);
}

#[test]
fn the_host_gives_the_sum_of_the_multiples() {
    let (points_flat, scalars_flat, expected) = instance(5);
    let out = compute_msm(&points_flat, &scalars_flat, host_only()).unwrap();
    assert_eq!(out, affine_limbs(&expected));
}

#[test]
fn the_device_gives_the_sum_of_the_multiples() {
    let (points_flat, scalars_flat, expected) = instance(5);
    let out = compute_msm(&points_flat, &scalars_flat, device_only()).unwrap();
    assert_eq!(out, affine_limbs(&expected));
}

#[test]
fn buckets_of_the_device_summed_on_the_host_give_the_sum_of_the_multiples() {
    let (points_flat, scalars_flat, expected) = instance(5);
    let options = Options {
        bucket_impl: BucketImplementation::Gpu,
        bucket_sum_impl: BucketSumImplementation::Cpu,
    };
    let out = compute_msm(&points_flat, &scalars_flat, options).unwrap();
    assert_eq!(out, affine_limbs(&expected));
}

#[test]
fn buckets_of_the_host_summed_on_the_device_give_the_sum_of_the_multiples() {
    let (points_flat, scalars_flat, expected) = instance(5);
    let options = Options {
        bucket_impl: BucketImplementation::Cpu,
        bucket_sum_impl: BucketSumImplementation::Gpu,
    };
    let out = compute_msm(&points_flat, &scalars_flat, options).unwrap();
    assert_eq!(out, affine_limbs(&expected));
}

#[test]
fn the_ways_agree_with_one_another_and_with_the_host() {
    let (points_flat, scalars_flat, _) = instance(9);
    let host = compute_msm(&points_flat, &scalars_flat, host_only()).unwrap();
    let device = compute_msm(&points_flat, &scalars_flat, device_only()).unwrap();
    assert_eq!(host, device);
    assert_eq!(msm_end_to_end::<Split16>(&scalars_flat, &points_flat).unwrap(), host.to_vec());
    assert_eq!(naive_msm(&points_flat, &scalars_flat).unwrap(), host.to_vec());
}

#[test]
fn one_point_gives_its_multiple() {
    let points_flat = write_points(&[to_point(&multiple(5))]);
    let scalar = Fr::from(0xdead_beef_cafe_f00du64).square();
    let expected = multiple(5).mul_bigint(scalar.into_bigint());
    for options in [host_only(), device_buckets()] {
        let out = compute_msm(&points_flat, &limbs(scalar), options).unwrap();
        assert_eq!(out, affine_limbs(&expected));
    }
}

#[test]
fn zero_scalars_give_the_neutral_point() {
    let points_flat = write_points(&[to_point(&multiple(5)), to_point(&multiple(6))]);
    let mut expected = [0u32; 16];
    expected[15] = 1;
    for options in [host_only(), device_buckets()] {
        assert_eq!(compute_msm(&points_flat, &[0u32; 16], options).unwrap(), expected);
    }
}

#[test]
fn the_order_of_the_group_less_one_gives_the_negative() {
    let p = multiple(5);
    let points_flat = write_points(&[to_point(&p)]);
    let scalar = -Fr::from(1u64);
    for options in [host_only(), device_buckets()] {
        let out = compute_msm(&points_flat, &limbs(scalar), options).unwrap();
        assert_eq!(out, affine_limbs(&-p));
    }
}

#[test]
fn a_scalar_of_the_field_prime_less_one_is_multiplied_as_it_stands() {
    let p = multiple(5);
    let points_flat = write_points(&[to_point(&p)]);
    let last = (-Fq::from(1u64)).into_bigint();
    let scalar = write_fq(&last.0);
    let expected = p.mul_bigint(last);
    let options =
        Options { bucket_impl: BucketImplementation::Gpu, bucket_sum_impl: BucketSumImplementation::Cpu };
    assert_eq!(compute_msm(&points_flat, &scalar, options).unwrap(), affine_limbs(&expected));
    // the prime of the field is not the order of the group
    assert_ne!(affine_limbs(&expected), affine_limbs(&-p));
}

#[test]
fn no_points_give_the_neutral_point() {
    let mut expected = [0u32; 16];
    expected[15] = 1;
    for options in [host_only(), device_buckets()] {
        assert_eq!(compute_msm(&[], &[], options).unwrap(), expected);
    }
}

#[test]
fn arrays_of_the_wrong_shape_are_not_accepted() {
    let (points_flat, scalars_flat, _) = instance(2);
    assert!(check_accepts(&points_flat, &scalars_flat));
    assert!(check_accepts(&[], &[]));
    assert!(!check_accepts(&points_flat[..63], &scalars_flat));
    assert!(!check_accepts(&points_flat, &scalars_flat[..8]));
    assert!(!check_accepts(&points_flat, &scalars_flat[..15]));
    let mut large = points_flat.clone();
    large[8..16].copy_from_slice(&[0xffff_ffff; 8]);
    assert!(!check_accepts(&large, &scalars_flat));
    // the prime itself is no residue, the prime less one is
    let prime = [
        0x12ab655e, 0x9a2ca556, 0x60b44d1e, 0x5c37b001, 0x59aa76fe, 0xd0000001, 0x0a118000,
        0x00000001,
    ];
    let mut edge = points_flat.clone();
    edge[32..40].copy_from_slice(&prime);
    assert!(!check_accepts(&edge, &scalars_flat));
    edge[39] = 0;
    assert!(check_accepts(&edge, &scalars_flat));
}

#[test]
fn residues_are_told_from_larger_integers() {
    let prime = U256([
        0x12ab655e, 0x9a2ca556, 0x60b44d1e, 0x5c37b001, 0x59aa76fe, 0xd0000001, 0x0a118000,
        0x00000001,
    ]);
    assert!(!is_residue(&prime));
    let mut last = prime;
    last.0[7] = 0;
    assert!(is_residue(&last));
    assert!(is_residue(&U256([0; 8])));
    assert!(!is_residue(&U256([0xffff_ffff; 8])));
    let point = to_point(&multiple(3));
    assert!(point.is_wf());
    assert!(check_all_wf(&[point, point]));
    let mut large = point;
    large.t = [u64::MAX; 4];
    assert!(!large.is_wf());
    assert!(!check_all_wf(&[point, large]));
    let flat = write_points(&[point]);
    assert!(check_all_reduced(&flat));
    let pod = read_pod_points(&flat);
    assert!(pod[0].is_reduced());
    let mut flat = flat;
    flat[16] = 0xffff_ffff;
    assert!(!check_all_reduced(&flat));
    assert!(!read_pod_points(&flat)[0].is_reduced());
}

#[test]
fn a_result_with_no_affine_point_is_none() {
    // X = Y = T = 1 and Z = 0 is no point of the curve, and nothing can be divided by its Z
    let flat_point = EdwardsPoint { x: [1, 0, 0, 0], y: [1, 0, 0, 0], t: [1, 0, 0, 0], z: [0; 4] };
    assert!(flat_point.into_affine().is_none());
    let points_flat = write_points(&[flat_point]);
    let mut scalar = [0u32; 8];
    scalar[7] = 1;
    assert!(check_accepts(&points_flat, &scalar));
    let options =
        Options { bucket_impl: BucketImplementation::Cpu, bucket_sum_impl: BucketSumImplementation::Cpu };
    assert!(compute_msm(&points_flat, &scalar, options).is_none());
    assert!(msm_end_to_end::<Split16>(&scalar, &points_flat).is_none());
}

#[test]
fn the_device_may_sum_the_buckets_by_the_scan_or_by_the_tree() {
    let (points_flat, scalars_flat, expected) = instance(7);
    let options = Options {
        bucket_impl: BucketImplementation::Gpu,
        bucket_sum_impl: BucketSumImplementation::Cpu,
    };
    let scan =
        compute_msm_by(&points_flat, &scalars_flat, options, IntraBucketStrategy::SegmentedScan);
    let tree = compute_msm_by(&points_flat, &scalars_flat, options, IntraBucketStrategy::PairTree);
    assert_eq!(scan.unwrap(), affine_limbs(&expected));
    assert_eq!(tree.unwrap(), affine_limbs(&expected));
}

#[test]
fn the_scan_is_the_way_of_the_device_unless_told_otherwise() {
    let (points_flat, scalars_flat, _) = instance(3);
    let options = Options {
        bucket_impl: BucketImplementation::Gpu,
        bucket_sum_impl: BucketSumImplementation::Cpu,
    };
    let scan =
        compute_msm_by(&points_flat, &scalars_flat, options, IntraBucketStrategy::SegmentedScan);
    assert_eq!(compute_msm(&points_flat, &scalars_flat, options), scan);
    assert!(scan.is_some());
}
