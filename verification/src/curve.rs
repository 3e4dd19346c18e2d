//! Points of the twisted Edwards curve `-x^2 + y^2 = 1 + 3021 x^2 y^2` in
//! extended coordinates `(X, Y, T, Z)`, and their addition in Montgomery
//! form.

use vstd::prelude::*;
use vstd::arithmetic::div_mod::{
    lemma_add_mod_noop, lemma_mul_mod_noop_general, lemma_small_mod, lemma_sub_mod_noop,
};
use crate::field::{
    fadd, field_difference, field_sum, fmul, from_mont_value, fsub,
    lemma_congruent_add_multiple, lemma_field_constants, modulus, mont_product, one_mont,
    r_inverse, r_mod_p, to_mont_value,
};
use crate::limbs::lemma_pow32_values;
use crate::u256::{lemma_u256_limbs, U256};

verus! {

/// The four coordinates of a point, as integers.
pub struct Coordinates {
    pub x: nat,
    pub y: nat,
    pub t: nat,
    pub z: nat,
}

impl Coordinates {
    /// Each coordinate is a residue modulo `p`.
    pub open spec fn reduced(self) -> bool {
        self.x < modulus() && self.y < modulus() && self.t < modulus() && self.z < modulus()
    }

    /// The coordinates that these are the Montgomery forms of.
    pub open spec fn from_mont(self) -> Coordinates {
        Coordinates {
            x: from_mont_value(self.x),
            y: from_mont_value(self.y),
            t: from_mont_value(self.t),
            z: from_mont_value(self.z),
        }
    }

    /// The Montgomery forms of these coordinates.
    pub open spec fn to_mont(self) -> Coordinates {
        Coordinates {
            x: to_mont_value(self.x),
            y: to_mont_value(self.y),
            t: to_mont_value(self.t),
            z: to_mont_value(self.z),
        }
    }

    /// The neutral point is `X = 0`, `Y = Z`, `T = 0`.
    pub open spec fn is_zero(self) -> bool {
        self.x == 0 && self.y == self.z && self.t == 0
    }
}

/// The curve constant `d`.
pub open spec fn edwards_d() -> nat {
    3021
}

/// The product of two residues.
pub open spec fn field_product(a: nat, b: nat) -> nat {
    (a * b) % modulus()
}

/// The Montgomery form of `d`.
pub open spec fn d_mont() -> nat {
    0x9fd_242c_a7be_5700_0901_3f56_0d10_2582_f0a9_1026_ffff_57d2_d047_ffff_ffff_5e30nat
}

/// The Montgomery form of `2 d`.
pub open spec fn two_d_mont() -> nat {
    0x14e_e2fa_b550_08a9_b14e_318d_bde8_9b04_87a7_a94f_2ffe_afa4_967e_7fff_fffe_bc5fnat
}

/// The sum of two points by the addition with eight multiplications, on
/// residues: `A = (Y1 - X1)(Y2 - X2)`, `B = (Y1 + X1)(Y2 + X2)`,
/// `C = 2 d T1 T2`, `D = 2 Z1 Z2`, `E = B - A`, `F = D - C`, `G = D + C`,
/// `H = B + A`, and the result `(E F, G H, E H, F G)`.
#[verifier::opaque]
pub open spec fn edwards_sum(p: Coordinates, q: Coordinates) -> Coordinates {
    let a = field_product(field_difference(p.y, p.x), field_difference(q.y, q.x));
    let b = field_product(field_sum(p.y, p.x), field_sum(q.y, q.x));
    let c = field_product(field_product(p.t, q.t), 2 * edwards_d());
    let zz = field_product(p.z, q.z);
    let d = field_sum(zz, zz);
    let e = field_difference(b, a);
    let f = field_difference(d, c);
    let g = field_sum(d, c);
    let h = field_sum(b, a);
    Coordinates {
        x: field_product(e, f),
        y: field_product(g, h),
        t: field_product(e, h),
        z: field_product(f, g),
    }
}

/// The same addition on Montgomery forms: each product is a Montgomery
/// product, and `2 d` stands in its Montgomery form.
#[verifier::opaque]
pub open spec fn mont_edwards_sum(p: Coordinates, q: Coordinates) -> Coordinates {
    let a = mont_product(field_difference(p.y, p.x), field_difference(q.y, q.x));
    let b = mont_product(field_sum(p.y, p.x), field_sum(q.y, q.x));
    let c = mont_product(mont_product(p.t, q.t), two_d_mont());
    let zz = mont_product(p.z, q.z);
    let d = field_sum(zz, zz);
    let e = field_difference(b, a);
    let f = field_difference(d, c);
    let g = field_sum(d, c);
    let h = field_sum(b, a);
    Coordinates {
        x: mont_product(e, f),
        y: mont_product(g, h),
        t: mont_product(e, h),
        z: mont_product(f, g),
    }
}

/// The sum of two points by the unified addition with an explicit `d`, on
/// residues: `A = X1 X2`, `B = Y1 Y2`, `C = d T1 T2`, `D = Z1 Z2`,
/// `H = B + A`, `E = (X1 + Y1)(X2 + Y2) - A - B`, `F = D - C`, `G = D + C`,
/// and the result `(E F, G H, E H, F G)`.
#[verifier::opaque]
pub open spec fn unified_sum(p: Coordinates, q: Coordinates) -> Coordinates {
    let a = field_product(p.x, q.x);
    let b = field_product(p.y, q.y);
    let c = field_product(field_product(edwards_d(), p.t), q.t);
    let d = field_product(p.z, q.z);
    let h = field_sum(b, a);
    let e = field_difference(
        field_difference(field_product(field_sum(p.x, p.y), field_sum(q.x, q.y)), a),
        b,
    );
    let f = field_difference(d, c);
    let g = field_sum(d, c);
    Coordinates {
        x: field_product(e, f),
        y: field_product(g, h),
        t: field_product(e, h),
        z: field_product(f, g),
    }
}

/// The unified addition on Montgomery forms.
#[verifier::opaque]
pub open spec fn mont_unified_sum(p: Coordinates, q: Coordinates) -> Coordinates {
    let a = mont_product(p.x, q.x);
    let b = mont_product(p.y, q.y);
    let c = mont_product(mont_product(d_mont(), p.t), q.t);
    let d = mont_product(p.z, q.z);
    let h = field_sum(b, a);
    let e = field_difference(
        field_difference(mont_product(field_sum(p.x, p.y), field_sum(q.x, q.y)), a),
        b,
    );
    let f = field_difference(d, c);
    let g = field_sum(d, c);
    Coordinates {
        x: mont_product(e, f),
        y: mont_product(g, h),
        t: mont_product(e, h),
        z: mont_product(f, g),
    }
}

/// A point whose coordinates stand in Montgomery form.
#[derive(Clone, Copy, Debug)]
pub struct MontgomeryPoint {
    pub x: U256,
    pub y: U256,
    pub t: U256,
    pub z: U256,
}

impl View for MontgomeryPoint {
    type V = Coordinates;

    open spec fn view(&self) -> Coordinates {
        Coordinates { x: self.x@, y: self.y@, t: self.t@, z: self.z@ }
    }
}

/// The Montgomery form of `d`.
pub fn d_mont_limbs() -> (r: U256)
    ensures
        r@ == d_mont(),
{
    let r = U256(
        [
            0x09fd242c,
            0xa7be5700,
            0x09013f56,
            0x0d102582,
            0xf0a91026,
            0xffff57d2,
            0xd047ffff,
            0xffff5e30,
        ],
    );
    proof {
        lemma_u256_limbs(r);
        lemma_pow32_values();
    }
    r
}

/// The Montgomery form of `2 d`.
pub fn two_d_mont_limbs() -> (r: U256)
    ensures
        r@ == two_d_mont(),
{
    let r = U256(
        [
            0x014ee2fa,
            0xb55008a9,
            0xb14e318d,
            0xbde89b04,
            0x87a7a94f,
            0x2ffeafa4,
            0x967e7fff,
            0xfffebc5f,
        ],
    );
    proof {
        lemma_u256_limbs(r);
        lemma_pow32_values();
    }
    r
}

impl MontgomeryPoint {
    /// Each coordinate is a residue modulo `p`.
    pub open spec fn wf(&self) -> bool {
        self@.reduced()
    }

    /// The neutral point `(0, 1, 0, 1)` in Montgomery form.
    pub fn zero() -> (r: MontgomeryPoint)
        ensures
            r.wf(),
            r@ == (Coordinates { x: 0, y: r_mod_p(), t: 0, z: r_mod_p() }),
            r@.is_zero(),
    {
        proof {
            lemma_field_constants();
        }
        MontgomeryPoint { x: U256::zero(), y: one_mont(), t: U256::zero(), z: one_mont() }
    }

    /// Whether this is the neutral point: `X = 0`, `Y = Z`, `T = 0`.
    pub fn is_zero(&self) -> (r: bool)
        ensures
            r == self@.is_zero(),
    {
        let zero = U256::zero();
        self.x.same(&zero) && self.y.same(&self.z) && self.t.same(&zero)
    }
}

/// The sum of two points in Montgomery form, by the addition with eight
/// multiplications.
pub fn point_add(p: &MontgomeryPoint, q: &MontgomeryPoint) -> (r: MontgomeryPoint)
    ensures
        p.wf() && q.wf() ==> r.wf() && r@ == mont_edwards_sum(p@, q@),
{
    let k = two_d_mont_limbs();
    proof {
        reveal(mont_edwards_sum);
        lemma_curve_constants();
    }
    let a = fmul(&fsub(&p.y, &p.x), &fsub(&q.y, &q.x));
    let b = fmul(&fadd(&p.y, &p.x), &fadd(&q.y, &q.x));
    let c = fmul(&fmul(&p.t, &q.t), &k);
    let zz = fmul(&p.z, &q.z);
    let d = fadd(&zz, &zz);
    let e = fsub(&b, &a);
    let f = fsub(&d, &c);
    let g = fadd(&d, &c);
    let h = fadd(&b, &a);
    MontgomeryPoint { x: fmul(&e, &f), y: fmul(&g, &h), t: fmul(&e, &h), z: fmul(&f, &g) }
}

/// The sum of two points in Montgomery form, by the unified addition with an
/// explicit `d`.
pub fn point_add_original(p: &MontgomeryPoint, q: &MontgomeryPoint) -> (r: MontgomeryPoint)
    ensures
        p.wf() && q.wf() ==> r.wf() && r@ == mont_unified_sum(p@, q@),
{
    let dm = d_mont_limbs();
    proof {
        reveal(mont_unified_sum);
        lemma_curve_constants();
    }
    let a = fmul(&p.x, &q.x);
    let b = fmul(&p.y, &q.y);
    let c = fmul(&fmul(&dm, &p.t), &q.t);
    let d = fmul(&p.z, &q.z);
    let h = fadd(&b, &a);
    let e = fsub(&fsub(&fmul(&fadd(&p.x, &p.y), &fadd(&q.x, &q.y)), &a), &b);
    let f = fsub(&d, &c);
    let g = fadd(&d, &c);
    MontgomeryPoint { x: fmul(&e, &f), y: fmul(&g, &h), t: fmul(&e, &h), z: fmul(&f, &g) }
}

/// The Montgomery forms of `d` and `2 d` are residues, and stand for `d` and
/// `2 d`.
pub proof fn lemma_curve_constants()
    ensures
        d_mont() < modulus(),
        two_d_mont() < modulus(),
        from_mont_value(d_mont()) == edwards_d(),
        from_mont_value(two_d_mont()) == 2 * edwards_d(),
{
    let p = modulus() as int;
    assert(d_mont() * r_inverse() == 3021 + 0x41e_8e5c_64f4_26ac_15ff_3ebb_f930_9675_de99_00fb_f0b1_6f07_f722_6f38_0b72_f093nat * modulus());
    assert(two_d_mont() * r_inverse() == 6042 + 0x8a_1b27_a757_8d2b_a879_2595_caae_9ebc_0013_5362_6c63_f59a_ad22_0155_faf6_f524nat * modulus());
    lemma_congruent_add_multiple(3021, 0x41e_8e5c_64f4_26ac_15ff_3ebb_f930_9675_de99_00fb_f0b1_6f07_f722_6f38_0b72_f093nat as int);
    lemma_congruent_add_multiple(6042, 0x8a_1b27_a757_8d2b_a879_2595_caae_9ebc_0013_5362_6c63_f59a_ad22_0155_faf6_f524nat as int);
    lemma_small_mod(3021, modulus());
    lemma_small_mod(6042, modulus());
}

/// Decoding a Montgomery product gives the product of what its factors
/// decode to.
pub proof fn lemma_from_mont_product(a: nat, b: nat)
    ensures
        from_mont_value(mont_product(a, b)) == field_product(
            from_mont_value(a),
            from_mont_value(b),
        ),
{
    let p = modulus() as int;
    let ri = r_inverse() as int;
    lemma_mul_mod_noop_general(a * b * ri, ri, p);
    lemma_mul_mod_noop_general(a * ri, b * ri, p);
    assert((a * b * ri) * ri == (a * ri) * (b * ri)) by (nonlinear_arith);
}

/// Decoding a sum gives the sum of what its terms decode to.
pub proof fn lemma_from_mont_sum(a: nat, b: nat)
    ensures
        from_mont_value(field_sum(a, b)) == field_sum(from_mont_value(a), from_mont_value(b)),
{
    let p = modulus() as int;
    let ri = r_inverse() as int;
    lemma_mul_mod_noop_general((a + b) as int, ri, p);
    lemma_add_mod_noop(a * ri, b * ri, p);
    assert((a + b) * ri == a * ri + b * ri) by (nonlinear_arith);
}

/// Decoding a difference gives the difference of what its terms decode to.
pub proof fn lemma_from_mont_difference(a: nat, b: nat)
    ensures
        from_mont_value(field_difference(a, b)) == field_difference(
            from_mont_value(a),
            from_mont_value(b),
        ),
{
    let p = modulus() as int;
    let ri = r_inverse() as int;
    lemma_mul_mod_noop_general(a - b, ri, p);
    lemma_sub_mod_noop(a * ri, b * ri, p);
    assert((a - b) * ri == a * ri - b * ri) by (nonlinear_arith);
}

/// Adding in Montgomery form adds what the points stand for: the sum of two
/// Montgomery points decodes to the sum of what they decode to.
pub proof fn lemma_point_add_decodes(p: Coordinates, q: Coordinates)
    ensures
        mont_edwards_sum(p, q).from_mont() == edwards_sum(p.from_mont(), q.from_mont()),
{
    reveal(mont_edwards_sum);
    reveal(edwards_sum);
    lemma_curve_constants();
    let ya = field_difference(p.y, p.x);
    let yb = field_difference(q.y, q.x);
    let sa = field_sum(p.y, p.x);
    let sb = field_sum(q.y, q.x);
    let a = mont_product(ya, yb);
    let b = mont_product(sa, sb);
    let tt = mont_product(p.t, q.t);
    let c = mont_product(tt, two_d_mont());
    let zz = mont_product(p.z, q.z);
    let d = field_sum(zz, zz);
    let e = field_difference(b, a);
    let f = field_difference(d, c);
    let g = field_sum(d, c);
    let h = field_sum(b, a);
    lemma_from_mont_difference(p.y, p.x);
    lemma_from_mont_difference(q.y, q.x);
    lemma_from_mont_sum(p.y, p.x);
    lemma_from_mont_sum(q.y, q.x);
    lemma_from_mont_product(ya, yb);
    lemma_from_mont_product(sa, sb);
    lemma_from_mont_product(p.t, q.t);
    lemma_from_mont_product(tt, two_d_mont());
    lemma_from_mont_product(p.z, q.z);
    lemma_from_mont_sum(zz, zz);
    lemma_from_mont_difference(b, a);
    lemma_from_mont_difference(d, c);
    lemma_from_mont_sum(d, c);
    lemma_from_mont_sum(b, a);
    lemma_from_mont_product(e, f);
    lemma_from_mont_product(g, h);
    lemma_from_mont_product(e, h);
    lemma_from_mont_product(f, g);
}

/// The unified addition in Montgomery form adds what the points stand for.
pub proof fn lemma_point_add_original_decodes(p: Coordinates, q: Coordinates)
    ensures
        mont_unified_sum(p, q).from_mont() == unified_sum(p.from_mont(), q.from_mont()),
{
    reveal(mont_unified_sum);
    reveal(unified_sum);
    lemma_curve_constants();
    let a = mont_product(p.x, q.x);
    let b = mont_product(p.y, q.y);
    let dt = mont_product(d_mont(), p.t);
    let c = mont_product(dt, q.t);
    let d = mont_product(p.z, q.z);
    let h = field_sum(b, a);
    let sp = field_sum(p.x, p.y);
    let sq = field_sum(q.x, q.y);
    let m = mont_product(sp, sq);
    let e0 = field_difference(m, a);
    let e = field_difference(e0, b);
    let f = field_difference(d, c);
    let g = field_sum(d, c);
    lemma_from_mont_product(p.x, q.x);
    lemma_from_mont_product(p.y, q.y);
    lemma_from_mont_product(d_mont(), p.t);
    lemma_from_mont_product(dt, q.t);
    lemma_from_mont_product(p.z, q.z);
    lemma_from_mont_sum(b, a);
    lemma_from_mont_sum(p.x, p.y);
    lemma_from_mont_sum(q.x, q.y);
    lemma_from_mont_product(sp, sq);
    lemma_from_mont_difference(m, a);
    lemma_from_mont_difference(e0, b);
    lemma_from_mont_difference(d, c);
    lemma_from_mont_sum(d, c);
    lemma_from_mont_product(e, f);
    lemma_from_mont_product(g, h);
    lemma_from_mont_product(e, h);
    lemma_from_mont_product(f, g);
}

/// The neutral point `(0, 1, 0, 1)`.
pub open spec fn neutral() -> Coordinates {
    Coordinates { x: 0, y: 1, t: 0, z: 1 }
}

/// The double of a point, on residues: `A = X^2`, `B = Y^2`, `C = 2 Z^2`,
/// `D = -A`, `E = (X + Y)^2 - A - B`, `G = D + B`, `F = G - C`, `H = D - B`,
/// and the result `(E F, G H, E H, F G)`.
#[verifier::opaque]
pub open spec fn doubled(p: Coordinates) -> Coordinates {
    let a = field_product(p.x, p.x);
    let b = field_product(p.y, p.y);
    let zz = field_product(p.z, p.z);
    let c = field_sum(zz, zz);
    let d = field_difference(0, a);
    let s = field_sum(p.x, p.y);
    let e = field_difference(field_difference(field_product(s, s), a), b);
    let g = field_sum(d, b);
    let f = field_difference(g, c);
    let h = field_difference(d, b);
    Coordinates {
        x: field_product(e, f),
        y: field_product(g, h),
        t: field_product(e, h),
        z: field_product(f, g),
    }
}

/// A point doubled `n` times.
pub open spec fn doubled_times(p: Coordinates, n: nat) -> Coordinates
    decreases n,
{
    if n == 0 {
        p
    } else {
        doubled(doubled_times(p, (n - 1) as nat))
    }
}

/// The sum of a point and an affine point `(x, y)`, on residues:
/// `A = X1 x`, `B = Y1 y`, `C = d T1 x y`, `D = Z1`,
/// `E = (X1 + Y1)(x + y) - A - B`, `F = D - C`, `G = D + C`, `H = B + A`, and
/// the result `(E F, G H, E H, F G)`.
#[verifier::opaque]
pub open spec fn mixed_sum(p: Coordinates, x: nat, y: nat) -> Coordinates {
    let a = field_product(p.x, x);
    let b = field_product(p.y, y);
    let c = field_product(field_product(field_product(edwards_d(), p.t), x), y);
    let d = p.z;
    let e = field_difference(
        field_difference(field_product(field_sum(p.x, p.y), field_sum(x, y)), a),
        b,
    );
    let f = field_difference(d, c);
    let g = field_sum(d, c);
    let h = field_sum(b, a);
    Coordinates {
        x: field_product(e, f),
        y: field_product(g, h),
        t: field_product(e, h),
        z: field_product(f, g),
    }
}

/// `s` times a point by doubling and adding, from the most significant bit of
/// `s` down.
pub open spec fn scalar_multiple(p: Coordinates, s: nat) -> Coordinates
    decreases s,
{
    if s == 0 {
        neutral()
    } else {
        let half = doubled(scalar_multiple(p, s / 2));
        if s % 2 == 1 {
            unified_sum(half, p)
        } else {
            half
        }
    }
}

} // verus!
