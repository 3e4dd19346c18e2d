//! Arithmetic modulo the base field prime `p`, in Montgomery form with
//! `R = 2^256`.

use vstd::prelude::*;
use vstd::arithmetic::div_mod::{
    lemma_fundamental_div_mod, lemma_mod_multiples_vanish, lemma_mul_mod_noop_general,
    lemma_small_mod,
};
use crate::limbs::lemma_pow32_values;
use crate::u256::{
    add_with_carry, lemma_u256_bound, lemma_u256_limbs, sub_with_borrow,
    two_256, u256_cas, u256_mul, U256, U512,
};

verus! {

/// The field prime `p`.
pub open spec fn modulus() -> nat {
    8444461749428370424248824938781546531375899335154063827935233455917409239041nat
}

/// `R^-1 mod p`.
pub open spec fn r_inverse() -> nat {
    3482466379256973933331601287759811764685972354380176549708408303012390300674nat
}

/// `N' = -p^-1 mod R`.
pub open spec fn n_prime() -> nat {
    47752251086953357377073236701509605140872345086634869599321669320666611974143nat
}

/// `R mod p`, the Montgomery form of one.
pub open spec fn r_mod_p() -> nat {
    6014086494747379908336260804527802945383293308637734276299549080986809532403nat
}

/// `R^2 mod p`, the Montgomery form of `R`.
pub open spec fn r_squared_mod_p() -> nat {
    508595941311779472113692600146818027278633330499214071737745792929336755579nat
}

/// `t R^-1 mod p`.
pub open spec fn redc_value(t: nat) -> nat {
    (t * r_inverse()) % modulus()
}

/// The Montgomery product `a b R^-1 mod p`.
pub open spec fn mont_product(a: nat, b: nat) -> nat {
    (a * b * r_inverse()) % modulus()
}

/// The Montgomery form `a R mod p` of `a`.
pub open spec fn to_mont_value(a: nat) -> nat {
    (a * two_256()) % modulus()
}

/// The integer `a R^-1 mod p` that `a` is the Montgomery form of.
pub open spec fn from_mont_value(a: nat) -> nat {
    (a * r_inverse()) % modulus()
}

/// `(a + b) mod p`.
pub open spec fn field_sum(a: nat, b: nat) -> nat {
    (a + b) % modulus()
}

/// `(a - b) mod p`.
pub open spec fn field_difference(a: nat, b: nat) -> nat {
    ((a - b) % (modulus() as int)) as nat
}

/// How the constants of the field are related: `R R^-1 = 1 + N' p`, which
/// makes `R^-1` the inverse of `R` modulo `p` and `N'` the negated inverse of
/// `p` modulo `R`.
pub proof fn lemma_field_constants()
    ensures
        two_256() * r_inverse() == 1 + n_prime() * modulus(),
        2 * modulus() < two_256(),
        0 < r_inverse() < modulus(),
        n_prime() < two_256(),
        r_mod_p() == two_256() - 13 * modulus(),
        r_mod_p() < modulus(),
        r_squared_mod_p() < modulus(),
        r_mod_p() * r_mod_p() == r_squared_mod_p() + 0x978_3324_ca44_4dbf_104e_7b89_8ac4_8323_740e_911a_aa78_96ec_eda0_8845_479e_7b2enat * modulus(),
{
}

/// The field prime `p`.
pub fn modulus_limbs() -> (r: U256)
    ensures
        r@ == modulus(),
{
    let r = U256(
        [
            0x12ab655e,
            0x9a2ca556,
            0x60b44d1e,
            0x5c37b001,
            0x59aa76fe,
            0xd0000001,
            0x0a118000,
            0x00000001,
        ],
    );
    proof {
        lemma_u256_limbs(r);
        lemma_pow32_values();
    }
    r
}

/// `N' = -p^-1 mod R`.
pub fn n_prime_limbs() -> (r: U256)
    ensures
        r@ == n_prime(),
{
    let r = U256(
        [
            0x6992d0fa,
            0x68b29556,
            0x249765c3,
            0x4790a000,
            0x452217cc,
            0x90000001,
            0x0a117fff,
            0xffffffff,
        ],
    );
    proof {
        lemma_u256_limbs(r);
        lemma_pow32_values();
    }
    r
}

/// The Montgomery form of one, `R mod p`.
pub fn one_mont() -> (r: U256)
    ensures
        r@ == r_mod_p(),
{
    let r = U256(
        [
            0x0d4bda32,
            0x2bbb9a9d,
            0x16d81575,
            0x512c0fee,
            0x7257f50f,
            0x6ffffff2,
            0x7d1c7fff,
            0xfffffff3,
        ],
    );
    proof {
        lemma_u256_limbs(r);
        lemma_pow32_values();
    }
    r
}

/// `R^2 mod p`, which `to_mont` multiplies by.
pub fn r_squared_limbs() -> (r: U256)
    ensures
        r@ == r_squared_mod_p(),
{
    let r = U256(
        [
            0x011fdae7,
            0xeff1c939,
            0xa7cc008f,
            0xe5dc8593,
            0xcc2c27b5,
            0x8860591f,
            0x25d577ba,
            0xb861857b,
        ],
    );
    proof {
        lemma_u256_limbs(r);
        lemma_pow32_values();
    }
    r
}

/// Congruence modulo `p`.
pub open spec fn congruent(a: int, b: int) -> bool {
    a % (modulus() as int) == b % (modulus() as int)
}

/// Congruent integers stay congruent when both are multiplied by `c`.
pub proof fn lemma_congruent_mul(a: int, b: int, c: int)
    requires
        congruent(a, b),
    ensures
        congruent(a * c, b * c),
        congruent(c * a, c * b),
{
    let p = modulus() as int;
    lemma_mul_mod_noop_general(a, c, p);
    lemma_mul_mod_noop_general(b, c, p);
    assert(a * c == c * a) by (nonlinear_arith);
    assert(b * c == c * b) by (nonlinear_arith);
}

/// Adding a multiple of `p` changes nothing modulo `p`.
pub proof fn lemma_congruent_add_multiple(a: int, k: int)
    ensures
        congruent(a + k * modulus(), a),
{
    let p = modulus() as int;
    lemma_mod_multiples_vanish(k, a, p);
    assert(p * k + a == a + k * p) by (nonlinear_arith);
}

/// `x R R^-1` is congruent to `x`.
pub proof fn lemma_r_inverse_cancels(x: int)
    ensures
        congruent(x * two_256() * r_inverse(), x),
        congruent(x * r_inverse() * two_256(), x),
{
    lemma_field_constants();
    let r = two_256() as int;
    let ri = r_inverse() as int;
    let np = n_prime() as int;
    let p = modulus() as int;
    assert(x * r * ri == x + (x * np) * p) by (nonlinear_arith)
        requires
            r * ri == 1 + np * p,
    ;
    assert(x * ri * r == x + (x * np) * p) by (nonlinear_arith)
        requires
            r * ri == 1 + np * p,
    ;
    lemma_congruent_add_multiple(x, x * np);
}

/// A residue `x` with `x R` congruent to `t` is `t R^-1 mod p`.
pub proof fn lemma_unique_reduction(x: nat, t: nat)
    requires
        x < modulus(),
        congruent((x * two_256()) as int, t as int),
    ensures
        x == redc_value(t),
{
    let ri = r_inverse() as int;
    lemma_congruent_mul((x * two_256()) as int, t as int, ri);
    lemma_r_inverse_cancels(x as int);
    lemma_small_mod(x, modulus());
}

proof fn lemma_redc_multiple(tl: int, th: int, q: int, m: int, np: int, p: int, ri: int, r: int)
    by (nonlinear_arith)
    requires
        tl * np == q * r + m,
        r * ri == 1 + np * p,
    ensures
        (tl + r * th) + m * p == r * (th + tl * ri - q * p),
{
    assert(m * p == tl * np * p - q * r * p);
    assert(tl * np * p == tl * (np * p));
    assert(tl * (np * p) == tl * (r * ri) - tl);
}

proof fn lemma_redc_quotient(s_lo: int, s_hi: int, u: int, r: int)
    by (nonlinear_arith)
    requires
        0 <= s_lo < r,
        s_lo + r * s_hi == r * u,
    ensures
        s_lo == 0,
        s_hi == u,
{
}

/// Montgomery reduction. For `t < R p` the result is the residue
/// `t R^-1 mod p`: it is below `p`, and times `R` it is congruent to `t`.
pub fn redc(t: &U512) -> (r: U256)
    ensures
        t@ < two_256() * modulus() ==> r@ < modulus(),
        t@ < two_256() * modulus() ==> congruent((r@ * two_256()) as int, t@ as int),
        t@ < two_256() * modulus() ==> r@ == redc_value(t@),
{
    let p = modulus_limbs();
    let np = n_prime_limbs();
    let t_lo = t.lo();
    let t_hi = t.hi();
    let m = u256_mul(&t_lo, &np).lo();
    let mp = u256_mul(&m, &p);
    let mp_lo = mp.lo();
    let mp_hi = mp.hi();
    let (s_lo, c) = add_with_carry(&t_lo, &mp_lo, 0);
    let (s_hi, c2) = add_with_carry(&t_hi, &mp_hi, c);
    let r = u256_cas(&s_hi, &p);
    proof {
        if t@ < two_256() * modulus() {
            lemma_field_constants();
            let rr = two_256() as int;
            let pp = modulus() as int;
            let ri = r_inverse() as int;
            let tl = t_lo@ as int;
            let th = t_hi@ as int;
            let q = (tl * n_prime()) / rr;
            lemma_fundamental_div_mod(tl * n_prime(), rr);
            lemma_fundamental_div_mod(t@ as int, rr);
            lemma_fundamental_div_mod(mp@ as int, rr);
            lemma_u256_bound(s_lo);
            lemma_u256_bound(s_hi);
            lemma_u256_bound(m);
            assert(rr * q == q * rr) by (nonlinear_arith);
            lemma_redc_multiple(tl, th, q, m@ as int, n_prime() as int, pp, ri, rr);
            let u = th + tl * ri - q * pp;
            assert(t@ + m@ * pp == rr * u);
            assert(m@ * pp < rr * pp) by (nonlinear_arith)
                requires
                    m@ < rr,
                    pp > 0,
            ;
            assert(rr * pp + rr * pp < rr * rr) by (nonlinear_arith)
                requires
                    2 * pp < rr,
                    rr > 0,
            ;
            assert(s_lo@ + rr * s_hi@ + c2 * (rr * rr) == t@ + m@ * pp) by (nonlinear_arith)
                requires
                    s_lo@ + c * rr == tl + mp_lo@,
                    s_hi@ + c2 * rr == th + mp_hi@ + c,
                    t@ == rr * th + tl,
                    m@ * pp == rr * mp_hi@ + mp_lo@,
            ;
            assert(c2 == 0) by (nonlinear_arith)
                requires
                    s_lo@ + rr * s_hi@ + c2 * (rr * rr) < rr * rr,
                    rr > 0,
                    c2 <= 1,
            ;
            lemma_redc_quotient(s_lo@ as int, s_hi@ as int, u, rr);
            assert(s_hi@ < 2 * pp) by (nonlinear_arith)
                requires
                    rr * s_hi@ < rr * pp + rr * pp,
                    rr > 0,
            ;
            // r is s_hi or s_hi - p, and either times R is t plus a multiple of p
            if s_hi@ >= pp {
                assert(r@ * rr == t@ + (m@ - rr) * pp) by (nonlinear_arith)
                    requires
                        r@ == s_hi@ - pp,
                        rr * s_hi@ == t@ + m@ * pp,
                ;
                lemma_congruent_add_multiple(t@ as int, m@ - rr);
            } else {
                assert(r@ * rr == t@ + m@ * pp) by (nonlinear_arith)
                    requires
                        r@ == s_hi@,
                        rr * s_hi@ == t@ + m@ * pp,
                ;
                lemma_congruent_add_multiple(t@ as int, m@ as int);
            }
            lemma_unique_reduction(r@, t@);
        }
    }
    r
}

/// The Montgomery product. For `a, b < p` it is `a b R^-1 mod p`.
pub fn fmul(a: &U256, b: &U256) -> (r: U256)
    ensures
        a@ < modulus() && b@ < modulus() ==> r@ == mont_product(a@, b@),
        a@ < modulus() && b@ < modulus() ==> r@ < modulus(),
{
    let t = u256_mul(a, b);
    proof {
        if a@ < modulus() && b@ < modulus() {
            lemma_field_constants();
            assert(a@ * b@ < two_256() * modulus()) by (nonlinear_arith)
                requires
                    a@ < modulus(),
                    b@ < modulus(),
                    modulus() < two_256(),
            ;
        }
    }
    redc(&t)
}

/// The Montgomery form of `a`. For `a < p` it is `a R mod p`.
pub fn to_mont(a: &U256) -> (r: U256)
    ensures
        a@ < modulus() ==> r@ == to_mont_value(a@),
        a@ < modulus() ==> r@ < modulus(),
{
    let r2 = r_squared_limbs();
    let r = fmul(a, &r2);
    proof {
        if a@ < modulus() {
            lemma_field_constants();
            let x = a@ as int;
            let rr = two_256() as int;
            let ri = r_inverse() as int;
            let pp = modulus() as int;
            let r2v = r_squared_mod_p() as int;
            // R^2 mod p is congruent to R R
            assert(rr * rr == r2v + (0xd_b652_47b1_02cb_27b9_3947_927e_aa01_523f_4286_02e3_5a78_963d_4813_0845_479e_7a85nat as int) * pp);
            lemma_congruent_add_multiple(r2v, 0xd_b652_47b1_02cb_27b9_3947_927e_aa01_523f_4286_02e3_5a78_963d_4813_0845_479e_7a85nat as int);
            lemma_congruent_mul(r2v, rr * rr, x * ri);
            assert(x * r2v * ri == (x * ri) * r2v) by (nonlinear_arith);
            assert((x * ri) * (rr * rr) == (x * rr) * rr * ri) by (nonlinear_arith);
            lemma_r_inverse_cancels(x * rr);
        }
    }
    r
}

/// The integer that `a` is the Montgomery form of. For `a < p` it is
/// `a R^-1 mod p`.
pub fn from_mont(a: &U256) -> (r: U256)
    ensures
        a@ < modulus() ==> r@ == from_mont_value(a@),
        a@ < modulus() ==> r@ < modulus(),
{
    let zero = U256::zero();
    let t = U512::from_halves(a, &zero);
    proof {
        if a@ < modulus() {
            lemma_field_constants();
            assert(a@ < two_256() * modulus()) by (nonlinear_arith)
                requires
                    a@ < modulus(),
                    two_256() >= 1,
            ;
        }
    }
    redc(&t)
}

/// The sum modulo `p` of two residues.
pub fn fadd(a: &U256, b: &U256) -> (r: U256)
    ensures
        a@ < modulus() && b@ < modulus() ==> r@ == field_sum(a@, b@),
        a@ < modulus() && b@ < modulus() ==> r@ < modulus(),
{
    let p = modulus_limbs();
    let (sum, carry) = add_with_carry(a, b, 0);
    let r = u256_cas(&sum, &p);
    proof {
        if a@ < modulus() && b@ < modulus() {
            lemma_field_constants();
            lemma_u256_bound(sum);
            let pp = modulus() as int;
            if sum@ >= pp {
                vstd::arithmetic::div_mod::lemma_fundamental_div_mod_converse(
                    (a@ + b@) as int,
                    pp,
                    1,
                    r@ as int,
                );
            } else {
                lemma_small_mod(sum@, modulus());
            }
        }
    }
    r
}

/// The difference modulo `p` of two residues.
pub fn fsub(a: &U256, b: &U256) -> (r: U256)
    ensures
        a@ < modulus() && b@ < modulus() ==> r@ == field_difference(a@, b@),
        a@ < modulus() && b@ < modulus() ==> r@ < modulus(),
{
    let p = modulus_limbs();
    let (diff, borrow) = sub_with_borrow(a, b, 0);
    let (wrapped, carry) = add_with_carry(&diff, &p, 0);
    let r = if borrow == 0 {
        diff
    } else {
        wrapped
    };
    proof {
        if a@ < modulus() && b@ < modulus() {
            lemma_field_constants();
            lemma_u256_bound(diff);
            lemma_u256_bound(wrapped);
            let pp = modulus() as int;
            if borrow == 0 {
                lemma_small_mod(diff@, modulus());
            } else {
                vstd::arithmetic::div_mod::lemma_fundamental_div_mod_converse(
                    a@ - b@,
                    pp,
                    -1,
                    r@ as int,
                );
            }
        }
    }
    r
}

/// Multiplying in Montgomery form multiplies what is represented: the
/// Montgomery product of the forms of `a` and `b` is the form of `a b`.
pub proof fn lemma_fmul_of_mont_forms(a: nat, b: nat)
    ensures
        mont_product(to_mont_value(a), to_mont_value(b)) == to_mont_value(a * b),
{
    let pp = modulus() as int;
    let rr = two_256() as int;
    let ri = r_inverse() as int;
    let x = a * rr;
    let y = b * rr;
    lemma_mul_mod_noop_general(x, y, pp);
    // ((x % p) * (y % p)) is congruent to x y, so the same holds times R^-1
    lemma_congruent_mul((x % pp) * (y % pp), x * y, ri);
    assert(x * y * ri == (a * b * rr) * rr * ri) by (nonlinear_arith)
        requires
            x == a * rr,
            y == b * rr,
    ;
    lemma_r_inverse_cancels(a * b * rr);
}

/// Converting to Montgomery form and back, or back and forth, gives the
/// residue one started from.
pub proof fn lemma_mont_round_trip(a: nat)
    requires
        a < modulus(),
    ensures
        from_mont_value(to_mont_value(a)) == a,
        to_mont_value(from_mont_value(a)) == a,
{
    let pp = modulus() as int;
    let rr = two_256() as int;
    let ri = r_inverse() as int;
    lemma_small_mod(a, modulus());
    lemma_mul_mod_noop_general(a * rr, ri, pp);
    lemma_mul_mod_noop_general(a * ri, rr, pp);
    lemma_r_inverse_cancels(a as int);
}

/// Whether `a` is a residue: below `p`.
pub fn is_residue(a: &U256) -> (r: bool)
    ensures
        r == (a@ < modulus()),
{
    let p = modulus_limbs();
    let (diff, borrow) = sub_with_borrow(a, &p, 0);
    proof {
        lemma_u256_bound(*a);
        lemma_u256_bound(p);
        lemma_u256_bound(diff);
    }
    borrow == 1
}

} // verus!
