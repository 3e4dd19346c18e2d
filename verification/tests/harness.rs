use msm_wgpu::harness::{extend_bignum, gen_cmp_u256, get_ref_answer, is_ref_answer};
use msm_wgpu::probe::{ProbeAction, VramProbe, MIN_ALLOCATION};
use msm_wgpu::u256::U256;
use num_bigint::BigUint;

fn value(a: &U256) -> BigUint {
    let mut digits = a.0.to_vec();
    digits.reverse();
    BigUint::new(digits)
}

fn big(s: &str) -> BigUint {
    s.parse().unwrap()
}

#[test]
fn the_answers_are_those_of_the_table() {
    let table = [
        (
            16,
            "4490298471131273381350715833932091894064554978284853693957586604825823442429",
            "207233051598812890797414182362695316831408959017076683749810755208551572458",
        ),
        (
            17,
            "405755281347735151880827575059343698498813029460786026451708154294960743560",
            "7112985356832152643523650125935205310677117771129806490701829425450717492869",
        ),
        (
            18,
            "4020134989704514076121556080357844499902614818105934254331815581426895427831",
            "2694327822589008080344499645494473764166611881342421427746308662023437975766",
        ),
        (
            19,
            "3856727778963570638772781884183843350150969534777451295534564482755471873113",
            "1398750101296346671684024297455637342909036274728274942667983346895370713922",
        ),
        (
            20,
            "5201851187583570844529445080011852189038251929148722905178398320328749074909",
            "3586360219804356686204324370397321114669962278596135149389460948678051407803",
        ),
    ];
    for (power, x, y) in table {
        let (rx, ry) = get_ref_answer(power);
        assert_eq!(value(&rx), big(x));
        assert_eq!(value(&ry), big(y));
    }
}

#[test]
fn an_output_is_held_against_the_answer() {
    let (x, y) = get_ref_answer(17);
    let mut output = [0u32; 16];
    output[..8].copy_from_slice(&x.0);
    output[8..].copy_from_slice(&y.0);
    assert!(is_ref_answer(17, &output));
    assert!(!is_ref_answer(16, &output));
    output[15] ^= 1;
    assert!(!is_ref_answer(17, &output));
    output[15] ^= 1;
    output[0] ^= 1;
    assert!(!is_ref_answer(17, &output));
}

#[test]
fn digits_become_eight_limbs_most_significant_first() {
    let mut flat = vec![9u32];
    extend_bignum(&mut flat, &[1, 2, 3]);
    assert_eq!(flat, vec![9, 0, 0, 0, 0, 0, 3, 2, 1]);
    extend_bignum(&mut flat, &[]);
    assert_eq!(&flat[9..], &[0u32; 8]);
    let mut flat = Vec::new();
    let n = big("4490298471131273381350715833932091894064554978284853693957586604825823442429");
    extend_bignum(&mut flat, &n.to_u32_digits());
    assert_eq!(flat, get_ref_answer(16).0 .0.to_vec());
    let mut flat = Vec::new();
    extend_bignum(&mut flat, &[1, 2, 3, 4, 5, 6, 7, 8, 9]);
    assert_eq!(flat, vec![9, 8, 7, 6, 5, 4, 3, 2, 1]);
}

#[test]
fn the_probe_halves_after_a_failure_and_starts_over_after_a_success() {
    let max = 1u32 << 30;
    let mut probe = VramProbe::new(max);
    assert_eq!(probe.action(), ProbeAction::Allocate(max));
    probe.record(false);
    assert_eq!(probe.action(), ProbeAction::Allocate(max / 2));
    probe.record(true);
    assert_eq!(probe.total, (max / 2) as u64);
    assert_eq!(probe.action(), ProbeAction::Allocate(max));
    probe.record(false);
    probe.record(false);
    probe.record(false);
    probe.record(false);
    assert_eq!(probe.action(), ProbeAction::Allocate(MIN_ALLOCATION));
    probe.record(true);
    assert_eq!(probe.total, (max / 2) as u64 + MIN_ALLOCATION as u64);
    for _ in 0..5 {
        probe.record(false);
    }
    assert_eq!(probe.action(), ProbeAction::Finish((max / 2) as u64 + MIN_ALLOCATION as u64));
}

#[test]
fn a_device_with_less_than_64_mib_is_not_probed() {
    assert_eq!(MIN_ALLOCATION, 64 * 1024 * 1024);
    assert_eq!(VramProbe::new(MIN_ALLOCATION - 1).action(), ProbeAction::Finish(0));
    assert_eq!(VramProbe::new(MIN_ALLOCATION).action(), ProbeAction::Allocate(MIN_ALLOCATION));
}

#[test]
fn a_pair_for_comparison_is_ordered_limb_by_limb() {
    let x = [5u32, 1, 7, 7, 0, 9, 3, 4];
    let y = [2u32, 8, 7, 6, 0, 1, 3, 5];
    let order = [1i8, 1, 0, -1, -1, 0, 1, -1];
    let (a, b) = gen_cmp_u256(&x, &y, &order);
    assert_eq!(a.0, [5, 8, 7, 6, 0, 9, 3, 4]);
    assert_eq!(b.0, [2, 1, 7, 7, 0, 9, 3, 5]);
    let (a, b) = gen_cmp_u256(&x, &y, &[0; 8]);
    assert_eq!(a.0, b.0);
    assert_eq!(a.0, [5, 8, 7, 7, 0, 9, 3, 5]);
}
