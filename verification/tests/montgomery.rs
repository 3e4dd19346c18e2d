use ark_ec::Group;
use ark_ed_on_bls12_377::{EdwardsProjective, Fq};
use ark_ff::{BigInt, PrimeField};
use msm_wgpu::bytes::{read_fq, write_fq, EdwardsPoint, PodPoint};
use msm_wgpu::curve::{point_add, point_add_original, MontgomeryPoint};
use msm_wgpu::field::{from_mont, to_mont};
use msm_wgpu::mont::{
    batch_step, check_can_run, point_from_mont, point_to_mont, run_batched, run_kernel,
    staging_size, DeviceLimits, GpuMontgomeryConverter, GpuPadd, GpuPaddOriginal, Kernel,
};
use msm_wgpu::u256::U256;

fn words(v: Fq) -> [u64; 4] {
    v.into_bigint().0
}

fn field(w: [u64; 4]) -> Fq {
    Fq::from_bigint(BigInt(w)).unwrap()
}

fn to_point(p: &EdwardsProjective) -> EdwardsPoint {
    EdwardsPoint { x: words(p.x), y: words(p.y), t: words(p.t), z: words(p.z) }
}

fn to_ark(p: &EdwardsPoint) -> EdwardsProjective {
    EdwardsProjective::new_unchecked(field(p.x), field(p.y), field(p.t), field(p.z))
}

fn pod(p: &EdwardsProjective) -> PodPoint {
    PodPoint {
        x: write_fq(&words(p.x)),
        y: write_fq(&words(p.y)),
        t: write_fq(&words(p.t)),
        z: write_fq(&words(p.z)),
    }
}

fn pod_to_ark(p: &PodPoint) -> EdwardsProjective {
    let f = |l: &[u32; 8]| field(read_fq(l));
    EdwardsProjective::new_unchecked(f(&p.x), f(&p.y), f(&p.t), f(&p.z))
}

fn multiple(k: u64) -> EdwardsProjective {
    EdwardsProjective::generator().mul_bigint([k])
}

fn mont(p: &EdwardsProjective) -> MontgomeryPoint {
    point_to_mont(&pod(p))
}

fn unmont(p: &MontgomeryPoint) -> EdwardsProjective {
    pod_to_ark(&point_from_mont(p))
}

fn limits() -> DeviceLimits {
    DeviceLimits {
        max_storage_buffer_binding_size: 128 << 20,
        max_compute_workgroups_per_dimension: 65535,
        max_buffer_size: 256 << 20,
    }
}

fn tight(points: u32, groups: u32, staged: u64) -> DeviceLimits {
    DeviceLimits {
        max_storage_buffer_binding_size: points * 128,
        max_compute_workgroups_per_dimension: groups,
        max_buffer_size: staged * 128,
    }
}

#[test]
fn a_point_goes_to_montgomery_form_coordinate_by_coordinate() {
    let p = multiple(5);
    let m = mont(&p);
    assert_eq!(m.x.0, to_mont(&U256(write_fq(&words(p.x)))).0);
    assert_eq!(m.z.0, to_mont(&U256(write_fq(&words(p.z)))).0);
    assert_ne!(m.y.0, write_fq(&words(p.y)));
    let back = point_from_mont(&m);
    assert_eq!(back.x, write_fq(&words(p.x)));
    assert_eq!(back.t, write_fq(&words(p.t)));
    assert_eq!(from_mont(&m.y).0, write_fq(&words(p.y)));
}

#[test]
fn the_sum_in_montgomery_form_is_the_sum_of_the_curve() {
    let (p, q) = (multiple(7), multiple(11));
    assert_eq!(unmont(&point_add(&mont(&p), &mont(&q))), multiple(18));
    assert_eq!(unmont(&point_add(&mont(&p), &mont(&p))), multiple(14));
}

#[test]
fn the_neutral_point_is_neutral() {
    let p = multiple(7);
    let zero = MontgomeryPoint::zero();
    assert!(zero.is_zero());
    assert!(!mont(&p).is_zero());
    assert_eq!(unmont(&point_add(&mont(&p), &zero)), p);
    assert_eq!(unmont(&point_add(&zero, &mont(&p))), p);
    assert!(unmont(&point_add(&zero, &zero)).into_affine_is_zero());
}

trait IsZero {
    fn into_affine_is_zero(&self) -> bool;
}

impl IsZero for EdwardsProjective {
    fn into_affine_is_zero(&self) -> bool {
        *self == EdwardsProjective::default()
    }
}

#[test]
fn a_point_and_its_negative_sum_to_the_neutral_point() {
    let p = multiple(7);
    let sum = point_add(&mont(&p), &mont(&-p));
    assert_eq!(unmont(&sum), EdwardsProjective::default());
    let out = point_from_mont(&sum);
    assert_eq!(out.x, [0u32; 8]);
    assert_eq!(out.t, [0u32; 8]);
    assert_eq!(out.y, out.z);
    assert!(sum.is_zero());
}

#[test]
fn the_unified_sum_has_the_coordinates_of_the_curve_library() {
    let (p, q) = (multiple(7), multiple(11));
    let sum = point_from_mont(&point_add_original(&mont(&p), &mont(&q)));
    let expected = p + q;
    assert_eq!(sum.x, write_fq(&words(expected.x)));
    assert_eq!(sum.y, write_fq(&words(expected.y)));
    assert_eq!(sum.t, write_fq(&words(expected.t)));
    assert_eq!(sum.z, write_fq(&words(expected.z)));
}

#[test]
fn the_two_additions_give_one_point() {
    let (p, q) = (multiple(123), multiple(4567));
    let a = unmont(&point_add(&mont(&p), &mont(&q)));
    let b = unmont(&point_add_original(&mont(&p), &mont(&q)));
    assert_eq!(a, b);
    assert_eq!(a, multiple(4690));
}

#[test]
fn each_kernel_puts_out_what_its_name_says() {
    let input = vec![pod(&multiple(3)), pod(&multiple(4))];
    let m = run_kernel(Kernel::ToMont, &input, 1);
    assert_eq!(m.x, mont(&multiple(4)).x.0);
    let back = run_kernel(Kernel::FromMont, &[m], 0);
    assert_eq!(back.x, input[1].x);
    let sum = run_kernel(Kernel::PaddOriginal, &input, 0);
    assert_eq!(pod_to_ark(&sum), multiple(7));
    let minput = vec![
        run_kernel(Kernel::ToMont, &input, 0),
        run_kernel(Kernel::ToMont, &input, 1),
    ];
    let msum = run_kernel(Kernel::Padd, &minput, 0);
    assert_eq!(pod_to_ark(&run_kernel(Kernel::FromMont, &[msum], 0)), multiple(7));
}

#[test]
fn the_batch_is_the_least_of_the_points_and_the_limits() {
    let l = limits();
    assert_eq!(Kernel::ToMont.batch_size(10, &l), 10);
    assert_eq!(Kernel::ToMont.batch_size(1 << 20, &l), 32767);
    assert_eq!(Kernel::FromMont.batch_size(1 << 20, &tight(1000, 65535, 1 << 20)), 1000);
    assert_eq!(Kernel::Padd.batch_size(1 << 20, &l), 65535 * 4);
    assert_eq!(Kernel::Padd.batch_size(1 << 20, &tight(1001, 65535, 1 << 20)), 1000);
    assert_eq!(Kernel::PaddOriginal.batch_size(1 << 24, &l), 1 << 20);
    assert_eq!(Kernel::ToMont.workgroups(5), 10);
    assert_eq!(Kernel::Padd.workgroups(8), 2);
    assert_eq!(Kernel::PaddOriginal.workgroups(256), 2);
    assert_eq!(staging_size(10, &l), 1280);
    assert_eq!(staging_size(1 << 30, &l), 256 << 20);
}

#[test]
fn the_staging_buffer_is_read_out_when_the_next_batch_would_not_fit() {
    // ten points in batches of three, and room for seven results
    let (step, next) = batch_step(Kernel::ToMont, 10, 3, 7 * 128, 0, 0);
    assert_eq!((step.start, step.len, step.staging_offset, step.result_size), (0, 3, 0, 384));
    assert!(!step.needs_mapping);
    assert_eq!(next, 384);
    let (step, next) = batch_step(Kernel::ToMont, 10, 3, 7 * 128, 3, next);
    assert_eq!((step.start, step.len, step.staging_offset), (3, 3, 384));
    assert!(step.needs_mapping);
    assert_eq!(next, 0);
    let (step, next) = batch_step(Kernel::ToMont, 10, 3, 7 * 128, 6, next);
    assert_eq!((step.start, step.len, step.staging_offset), (6, 3, 0));
    assert!(!step.needs_mapping);
    let (step, next) = batch_step(Kernel::ToMont, 10, 3, 7 * 128, 9, next);
    assert_eq!((step.start, step.len, step.staging_offset, step.result_size), (9, 1, 384, 128));
    assert!(step.needs_mapping);
    assert_eq!(next, 0);
    // an addition puts out half as many points as it takes
    let (step, _) = batch_step(Kernel::Padd, 8, 4, 1024, 0, 0);
    assert_eq!((step.len, step.result_size), (4, 256));
}

#[test]
fn results_come_out_once_and_in_order_however_they_are_batched() {
    let input: Vec<PodPoint> = (0..10u64).map(|k| pod(&multiple(k + 1))).collect();
    let whole = run_batched(Kernel::ToMont, &input, 10, 10 * 128);
    assert_eq!(whole.len(), 10);
    for (batch, staged) in [(1usize, 1u64), (3, 3), (3, 7), (4, 100), (10, 10), (64, 64)] {
        let out = run_batched(Kernel::ToMont, &input, batch, staged * 128);
        assert_eq!(out.len(), 10);
        for i in 0..10 {
            assert_eq!(out[i].x, whole[i].x, "batch {} staged {}", batch, staged);
            assert_eq!(out[i].x, mont(&multiple(i as u64 + 1)).x.0);
        }
    }
    let sums = run_batched(Kernel::PaddOriginal, &input, 4, 2 * 128);
    assert_eq!(sums.len(), 5);
    for i in 0..5u64 {
        assert_eq!(pod_to_ark(&sums[i as usize]), multiple(4 * i + 3));
    }
}

#[test]
fn the_converter_goes_there_and_back() {
    let points: Vec<EdwardsPoint> = (0..9u64).map(|k| to_point(&multiple(k + 2))).collect();
    let converter = GpuMontgomeryConverter::new(tight(4, 6, 5));
    assert!(check_can_run(Kernel::ToMont, points.len(), &converter.limits));
    let there = converter.to_mont(&points);
    assert_eq!(there.len(), 9);
    assert_eq!(there[3].x.0, mont(&multiple(5)).x.0);
    let back = converter.from_mont(&there);
    assert_eq!(back.len(), 9);
    for i in 0..9 {
        assert_eq!(back[i].x, points[i].x);
        assert_eq!(back[i].z, points[i].z);
    }
}

#[test]
fn neighbours_are_added() {
    let points: Vec<EdwardsPoint> = (0..8u64).map(|k| to_point(&multiple(k + 1))).collect();
    let l = tight(4, 1, 8);
    assert!(check_can_run(Kernel::PaddOriginal, 8, &l));
    let sums = GpuPaddOriginal::new(l).add(&points);
    assert_eq!(sums.len(), 4);
    for i in 0..4u64 {
        assert_eq!(to_ark(&sums[i as usize]), multiple(4 * i + 3));
    }
    let converter = GpuMontgomeryConverter::new(limits());
    let there = converter.to_mont(&points);
    assert!(check_can_run(Kernel::Padd, 8, &l));
    let sums = GpuPadd::new(l).add(&there);
    assert_eq!(sums.len(), 4);
    let back = converter.from_mont(&sums);
    for i in 0..4u64 {
        assert_eq!(to_ark(&back[i as usize]), multiple(4 * i + 3));
    }
}

#[test]
fn limits_that_leave_no_batch_are_refused() {
    assert!(!check_can_run(Kernel::ToMont, 0, &limits()));
    assert!(!check_can_run(Kernel::ToMont, 5, &tight(0, 100, 100)));
    assert!(!check_can_run(Kernel::ToMont, 5, &tight(100, 1, 100)));
    assert!(!check_can_run(Kernel::ToMont, 5, &tight(4, 100, 3)));
    assert!(!check_can_run(Kernel::Padd, 6, &limits()));
    assert!(!check_can_run(Kernel::PaddOriginal, 7, &limits()));
    assert!(!check_can_run(Kernel::Padd, 8, &tight(2, 100, 100)));
    assert!(check_can_run(Kernel::Padd, 8, &limits()));
    assert!(check_can_run(Kernel::ToMont, 5, &tight(4, 100, 4)));
}
