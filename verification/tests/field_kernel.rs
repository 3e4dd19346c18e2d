use msm_wgpu::field::{fadd, fmul, from_mont, fsub, modulus_limbs, one_mont, redc, to_mont};
use msm_wgpu::harness::gen_cmp_u256;
use msm_wgpu::u256::{
    add_with_carry, sub_with_borrow, u256_add, u256_cas, u256_cmp, u256_mul, u256_sub, U256, U512,
};
use num_bigint::{BigUint, RandomBits};
use rand::{Rng, SeedableRng};
use rand_chacha::ChaCha20Rng;

const P: &str = "8444461749428370424248824938781546531375899335154063827935233455917409239041";
const R_MOD_P: &str =
    "6014086494747379908336260804527802945383293308637734276299549080986809532403";
const R_INV: &str = "3482466379256973933331601287759811764685972354380176549708408303012390300674";

fn big(s: &str) -> BigUint {
    s.parse().unwrap()
}

fn two_256() -> BigUint {
    BigUint::from(1u32) << 256
}

fn to_big(a: &U256) -> BigUint {
    let mut digits: Vec<u32> = a.0.to_vec();
    digits.reverse();
    BigUint::new(digits)
}

fn from_big(x: &BigUint) -> U256 {
    let mut digits = x.to_u32_digits();
    assert!(digits.len() <= 8);
    digits.resize(8, 0);
    digits.reverse();
    let mut limbs = [0u32; 8];
    limbs.copy_from_slice(&digits);
    U256(limbs)
}

fn wide_to_big(t: &U512) -> BigUint {
    let lo = to_big(&U256(t.0[0..8].try_into().unwrap()));
    let hi = to_big(&U256(t.0[8..16].try_into().unwrap()));
    lo + (hi << 256)
}

fn wide_from_big(x: &BigUint) -> U512 {
    let lo = from_big(&(x % two_256()));
    let hi = from_big(&(x >> 256));
    U512::from_halves(&lo, &hi)
}

fn rng() -> ChaCha20Rng {
    ChaCha20Rng::seed_from_u64(998244353)
}

fn sample(rng: &mut ChaCha20Rng) -> BigUint {
    rng.sample(RandomBits::new(256))
}

/// Pairs whose limbs agree, or differ in either direction, limb by limb.
fn comparable_pair(rng: &mut ChaCha20Rng) -> (U256, U256) {
    let x: [u32; 8] = rng.gen();
    let y: [u32; 8] = rng.gen();
    let mut order = [0i8; 8];
    for o in order.iter_mut() {
        *o = rng.gen_range(-1..=1);
    }
    gen_cmp_u256(&x, &y, &order)
}

#[test]
fn limb_zero_is_most_significant() {
    let a = U256([1, 0, 0, 0, 0, 0, 0, 0]);
    assert_eq!(to_big(&a), BigUint::from(1u32) << 224);
    let doubled = u256_add(&a, &a);
    assert_eq!(doubled.0, [2, 0, 0, 0, 0, 0, 0, 0]);
}

#[test]
fn add_wraps_at_2_256() {
    let max = U256([0xffff_ffff; 8]);
    let one = U256([0, 0, 0, 0, 0, 0, 0, 1]);
    assert_eq!(u256_add(&max, &one).0, [0u32; 8]);
    assert_eq!(u256_add(&max, &max).0, [
        0xffff_ffff,
        0xffff_ffff,
        0xffff_ffff,
        0xffff_ffff,
        0xffff_ffff,
        0xffff_ffff,
        0xffff_ffff,
        0xffff_fffe
    ]);
}

#[test]
fn add_carries_across_limbs() {
    let a = U256([0, 0, 0, 0, 0, 0, 0, 0xffff_ffff]);
    let one = U256([0, 0, 0, 0, 0, 0, 0, 1]);
    assert_eq!(u256_add(&a, &one).0, [0, 0, 0, 0, 0, 0, 1, 0]);
    let (sum, carry) = add_with_carry(&U256([0xffff_ffff; 8]), &U256([0; 8]), 1);
    assert_eq!(sum.0, [0u32; 8]);
    assert_eq!(carry, 1);
}

#[test]
fn add_matches_big_integers() {
    let mut rng = rng();
    for _ in 0..2000 {
        let a = sample(&mut rng);
        let b = sample(&mut rng);
        let expected = (&a + &b) % two_256();
        assert_eq!(to_big(&u256_add(&from_big(&a), &from_big(&b))), expected);
    }
}

#[test]
fn sub_matches_big_integers() {
    let mut rng = rng();
    for _ in 0..2000 {
        let (mut a, mut b) = comparable_pair(&mut rng);
        if to_big(&a) < to_big(&b) {
            std::mem::swap(&mut a, &mut b);
        }
        assert_eq!(to_big(&u256_sub(&a, &b)), to_big(&a) - to_big(&b));
    }
}

#[test]
fn sub_borrows_across_limbs() {
    let a = U256([0, 0, 0, 0, 0, 0, 1, 0]);
    let one = U256([0, 0, 0, 0, 0, 0, 0, 1]);
    assert_eq!(u256_sub(&a, &one).0, [0, 0, 0, 0, 0, 0, 0, 0xffff_ffff]);
    let (diff, borrow) = sub_with_borrow(&U256([0; 8]), &one, 0);
    assert_eq!(diff.0, [0xffff_ffff; 8]);
    assert_eq!(borrow, 1);
}

#[test]
fn cmp_encodes_the_order_in_every_limb() {
    let small = U256([0, 0, 0, 0, 0, 0, 0, 5]);
    let large = U256([0, 0, 0, 1, 0, 0, 0, 0]);
    assert_eq!(u256_cmp(&large, &small).0, [1u32; 8]);
    assert_eq!(u256_cmp(&small, &large).0, [0xffff_ffffu32; 8]);
    assert_eq!(u256_cmp(&small, &small).0, [0u32; 8]);
}

#[test]
fn cmp_is_decided_by_the_first_limb_that_differs() {
    let a = U256([7, 0, 0, 0, 0, 0, 0, 0]);
    let b = U256([6, 0xffff_ffff, 0xffff_ffff, 0xffff_ffff, 9, 9, 9, 9]);
    assert_eq!(u256_cmp(&a, &b).0, [1u32; 8]);
    let mut rng = rng();
    for _ in 0..2000 {
        let (a, b) = comparable_pair(&mut rng);
        let expected = match a.0.cmp(&b.0) {
            std::cmp::Ordering::Greater => [1u32; 8],
            std::cmp::Ordering::Less => [0xffff_ffffu32; 8],
            std::cmp::Ordering::Equal => [0u32; 8],
        };
        assert_eq!(u256_cmp(&a, &b).0, expected);
        let numeric = match to_big(&a).cmp(&to_big(&b)) {
            std::cmp::Ordering::Greater => [1u32; 8],
            std::cmp::Ordering::Less => [0xffff_ffffu32; 8],
            std::cmp::Ordering::Equal => [0u32; 8],
        };
        assert_eq!(expected, numeric);
    }
}

#[test]
fn cas_subtracts_only_when_it_can() {
    let mut rng = rng();
    for _ in 0..2000 {
        let (a, b) = comparable_pair(&mut rng);
        let (x, y) = (to_big(&a), to_big(&b));
        let expected = if x >= y { &x - &y } else { x.clone() };
        assert_eq!(to_big(&u256_cas(&a, &b)), expected);
    }
    let five = U256([0, 0, 0, 0, 0, 0, 0, 5]);
    assert_eq!(u256_cas(&five, &five).0, [0u32; 8]);
}

#[test]
fn mul_gives_the_full_product() {
    let mut rng = rng();
    for _ in 0..1000 {
        let a = sample(&mut rng);
        let b = sample(&mut rng);
        let product = u256_mul(&from_big(&a), &from_big(&b));
        assert_eq!(wide_to_big(&product), &a * &b);
    }
}

#[test]
fn product_has_its_low_half_in_the_first_eight_limbs() {
    let two_32 = U256([0, 0, 0, 0, 0, 0, 1, 0]);
    let three = U256([0, 0, 0, 0, 0, 0, 0, 3]);
    let mut expected = [0u32; 16];
    expected[6] = 3;
    assert_eq!(u256_mul(&two_32, &three).0, expected);
    let high = U256([1, 0, 0, 0, 0, 0, 0, 0]);
    let mut expected = [0u32; 16];
    expected[9] = 1;
    assert_eq!(u256_mul(&high, &high).0, expected);
    let max = U256([0xffff_ffff; 8]);
    let square = u256_mul(&max, &max);
    assert_eq!(wide_to_big(&square), (two_256() - 1u32) * (two_256() - 1u32));
    assert_eq!(square.lo().0, [0, 0, 0, 0, 0, 0, 0, 1]);
    assert_eq!(square.hi().0[7], 0xffff_fffe);
}

#[test]
fn redc_divides_by_r_modulo_p() {
    let p = big(P);
    let r_inv = big(R_INV);
    let bound = two_256() * &p;
    let mut rng = rng();
    for _ in 0..1000 {
        let t: BigUint = rng.sample::<BigUint, _>(RandomBits::new(512)) % &bound;
        let reduced = to_big(&redc(&wide_from_big(&t)));
        assert!(reduced < p);
        assert_eq!(reduced, (&t * &r_inv) % &p);
        assert_eq!((&reduced * two_256()) % &p, &t % &p);
    }
}

#[test]
fn redc_at_the_ends_of_its_range() {
    let p = big(P);
    let r_inv = big(R_INV);
    assert_eq!(redc(&wide_from_big(&BigUint::from(0u32))).0, [0u32; 8]);
    let top = two_256() * &p - 1u32;
    assert_eq!(to_big(&redc(&wide_from_big(&top))), (&top * &r_inv) % &p);
    assert_eq!(to_big(&redc(&wide_from_big(&two_256()))), BigUint::from(1u32));
}

#[test]
fn fmul_multiplies_montgomery_forms() {
    let p = big(P);
    let r = big(R_MOD_P);
    let mut rng = rng();
    for _ in 0..1000 {
        let a = sample(&mut rng) % &p;
        let b = sample(&mut rng) % &p;
        let am = (&a * &r) % &p;
        let bm = (&b * &r) % &p;
        let product = fmul(&from_big(&am), &from_big(&bm));
        assert_eq!(to_big(&product), (&a * &b * &r) % &p);
    }
}

#[test]
fn to_mont_multiplies_by_r() {
    let p = big(P);
    let r = big(R_MOD_P);
    let mut rng = rng();
    for _ in 0..1000 {
        let a = sample(&mut rng) % &p;
        assert_eq!(to_big(&to_mont(&from_big(&a))), (&a * &r) % &p);
    }
    assert_eq!(to_big(&to_mont(&U256([0, 0, 0, 0, 0, 0, 0, 1]))), r);
    assert_eq!(one_mont().0, to_mont(&U256([0, 0, 0, 0, 0, 0, 0, 1])).0);
}

#[test]
fn to_and_from_mont_are_inverses() {
    let p = big(P);
    let mut rng = rng();
    for _ in 0..1000 {
        let a = from_big(&(sample(&mut rng) % &p));
        assert_eq!(from_mont(&to_mont(&a)).0, a.0);
        assert_eq!(to_mont(&from_mont(&a)).0, a.0);
    }
    let last = from_big(&(&p - 1u32));
    assert_eq!(from_mont(&to_mont(&last)).0, last.0);
}

#[test]
fn from_mont_divides_by_r() {
    let p = big(P);
    let r_inv = big(R_INV);
    assert_eq!(to_big(&from_mont(&U256([0, 0, 0, 0, 0, 0, 0, 1]))), r_inv);
    assert_eq!(from_mont(&one_mont()).0, [0, 0, 0, 0, 0, 0, 0, 1]);
    let mut rng = rng();
    for _ in 0..200 {
        let a = sample(&mut rng) % &p;
        assert_eq!(to_big(&from_mont(&from_big(&a))), (&a * &r_inv) % &p);
    }
}

#[test]
fn field_sum_and_difference_stay_below_p() {
    let p = big(P);
    assert_eq!(to_big(&modulus_limbs()), p);
    let mut rng = rng();
    for _ in 0..1000 {
        let a = sample(&mut rng) % &p;
        let b = sample(&mut rng) % &p;
        assert_eq!(to_big(&fadd(&from_big(&a), &from_big(&b))), (&a + &b) % &p);
        assert_eq!(to_big(&fsub(&from_big(&a), &from_big(&b))), (&a + &p - &b) % &p);
    }
    let last = from_big(&(&p - 1u32));
    let one = U256([0, 0, 0, 0, 0, 0, 0, 1]);
    assert_eq!(fadd(&last, &one).0, [0u32; 8]);
    assert_eq!(fsub(&U256([0; 8]), &one).0, last.0);
}
