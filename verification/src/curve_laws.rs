//! What the additions of the curve have in common: they give one point, the
//! neutral point changes nothing, and a point and its negative cancel.

use vstd::prelude::*;
use vstd::arithmetic::div_mod::{
    lemma_add_mod_noop, lemma_mod_bound, lemma_mod_twice, lemma_mul_mod_noop_general,
    lemma_small_mod, lemma_sub_mod_noop,
};
use crate::curve::{
    edwards_d, edwards_sum, field_product, neutral, unified_sum, Coordinates,
};
use crate::field::{congruent, field_difference, field_sum, modulus};

verus! {

/// Whether two sets of coordinates stand for one point: `X1 Z2 = X2 Z1` and
/// `Y1 Z2 = Y2 Z1` modulo `p`.
pub open spec fn same_point(a: Coordinates, b: Coordinates) -> bool {
    &&& field_product(a.x, b.z) == field_product(b.x, a.z)
    &&& field_product(a.y, b.z) == field_product(b.y, a.z)
}

/// The negative of a point: `(-X, Y, -T, Z)`.
pub open spec fn negative(p: Coordinates) -> Coordinates {
    Coordinates { x: field_difference(0, p.x), y: p.y, t: field_difference(0, p.t), z: p.z }
}

/// Whether coordinates meet the equation of the curve:
/// `-X^2 + Y^2 = Z^2 + d T^2` modulo `p`.
pub open spec fn on_curve(p: Coordinates) -> bool {
    congruent(
        (p.y as int) * p.y - (p.x as int) * p.x,
        (p.z as int) * p.z + (edwards_d() as int) * ((p.t as int) * p.t),
    )
}

proof fn lemma_product_congruent(a: nat, b: nat, x: int, y: int)
    requires
        congruent(a as int, x),
        congruent(b as int, y),
    ensures
        congruent(field_product(a, b) as int, x * y),
{
    let p = modulus() as int;
    lemma_mul_mod_noop_general(a as int, b as int, p);
    lemma_mul_mod_noop_general(x, y, p);
    lemma_mod_twice((a * b) as int, p);
}

proof fn lemma_sum_congruent(a: nat, b: nat, x: int, y: int)
    requires
        congruent(a as int, x),
        congruent(b as int, y),
    ensures
        congruent(field_sum(a, b) as int, x + y),
{
    let p = modulus() as int;
    lemma_add_mod_noop(a as int, b as int, p);
    lemma_add_mod_noop(x, y, p);
    lemma_mod_twice((a + b) as int, p);
}

proof fn lemma_difference_congruent(a: nat, b: nat, x: int, y: int)
    requires
        congruent(a as int, x),
        congruent(b as int, y),
    ensures
        congruent(field_difference(a, b) as int, x - y),
{
    let p = modulus() as int;
    lemma_sub_mod_noop(a as int, b as int, p);
    lemma_sub_mod_noop(x, y, p);
    lemma_mod_twice(a - b, p);
    lemma_mod_bound(a - b, p);
}

/// Residues that are congruent are equal.
proof fn lemma_residues_equal(a: nat, b: nat)
    requires
        a < modulus(),
        b < modulus(),
        congruent(a as int, b as int),
    ensures
        a == b,
{
    lemma_small_mod(a, modulus());
    lemma_small_mod(b, modulus());
}

/// The four inner values of the addition with eight multiplications, as
/// integers that they are congruent to.
pub struct Inner {
    pub e: int,
    pub f: int,
    pub g: int,
    pub h: int,
}

/// `E = 2 (X1 Y2 + Y1 X2)`, `F = 2 (Z1 Z2 - d T1 T2)`,
/// `G = 2 (Z1 Z2 + d T1 T2)`, `H = 2 (Y1 Y2 + X1 X2)`.
pub open spec fn inner_of(p: Coordinates, q: Coordinates) -> Inner {
    let (x1, y1, t1, z1) = (p.x as int, p.y as int, p.t as int, p.z as int);
    let (x2, y2, t2, z2) = (q.x as int, q.y as int, q.t as int, q.z as int);
    Inner {
        e: 2 * (x1 * y2 + y1 * x2),
        f: 2 * (z1 * z2 - 3021 * (t1 * t2)),
        g: 2 * (z1 * z2 + 3021 * (t1 * t2)),
        h: 2 * (y1 * y2 + x1 * x2),
    }
}

/// The coordinates of the sum by the addition with eight multiplications
/// are congruent to `E F`, `G H`, `E H`, `F G`, and they are residues.
pub proof fn lemma_edwards_sum_inner(p: Coordinates, q: Coordinates)
    ensures
        congruent(edwards_sum(p, q).x as int, inner_of(p, q).e * inner_of(p, q).f),
        congruent(edwards_sum(p, q).y as int, inner_of(p, q).g * inner_of(p, q).h),
        congruent(edwards_sum(p, q).t as int, inner_of(p, q).e * inner_of(p, q).h),
        congruent(edwards_sum(p, q).z as int, inner_of(p, q).f * inner_of(p, q).g),
        edwards_sum(p, q).reduced(),
{
    reveal(edwards_sum);
    let (x1, y1, t1, z1) = (p.x as int, p.y as int, p.t as int, p.z as int);
    let (x2, y2, t2, z2) = (q.x as int, q.y as int, q.t as int, q.z as int);
    let m = modulus() as int;
    let i = inner_of(p, q);
    let ya = field_difference(p.y, p.x);
    let yb = field_difference(q.y, q.x);
    let sa = field_sum(p.y, p.x);
    let sb = field_sum(q.y, q.x);
    lemma_difference_congruent(p.y, p.x, y1, x1);
    lemma_difference_congruent(q.y, q.x, y2, x2);
    lemma_sum_congruent(p.y, p.x, y1, x1);
    lemma_sum_congruent(q.y, q.x, y2, x2);
    let a = field_product(ya, yb);
    let b = field_product(sa, sb);
    lemma_product_congruent(ya, yb, y1 - x1, y2 - x2);
    lemma_product_congruent(sa, sb, y1 + x1, y2 + x2);
    let tt = field_product(p.t, q.t);
    lemma_product_congruent(p.t, q.t, t1, t2);
    let c = field_product(tt, 2 * edwards_d());
    lemma_product_congruent(tt, 2 * edwards_d(), t1 * t2, 6042);
    let zz = field_product(p.z, q.z);
    lemma_product_congruent(p.z, q.z, z1, z2);
    let d = field_sum(zz, zz);
    lemma_sum_congruent(zz, zz, z1 * z2, z1 * z2);
    let e = field_difference(b, a);
    let f = field_difference(d, c);
    let g = field_sum(d, c);
    let h = field_sum(b, a);
    lemma_difference_congruent(b, a, (y1 + x1) * (y2 + x2), (y1 - x1) * (y2 - x2));
    lemma_difference_congruent(d, c, z1 * z2 + z1 * z2, (t1 * t2) * 6042);
    lemma_sum_congruent(d, c, z1 * z2 + z1 * z2, (t1 * t2) * 6042);
    lemma_sum_congruent(b, a, (y1 + x1) * (y2 + x2), (y1 - x1) * (y2 - x2));
    assert((y1 + x1) * (y2 + x2) - (y1 - x1) * (y2 - x2) == i.e) by (nonlinear_arith)
        requires
            i.e == 2 * (x1 * y2 + y1 * x2),
    ;
    assert((y1 + x1) * (y2 + x2) + (y1 - x1) * (y2 - x2) == i.h) by (nonlinear_arith)
        requires
            i.h == 2 * (y1 * y2 + x1 * x2),
    ;
    assert(z1 * z2 + z1 * z2 - (t1 * t2) * 6042 == i.f) by (nonlinear_arith)
        requires
            i.f == 2 * (z1 * z2 - 3021 * (t1 * t2)),
    ;
    assert(z1 * z2 + z1 * z2 + (t1 * t2) * 6042 == i.g) by (nonlinear_arith)
        requires
            i.g == 2 * (z1 * z2 + 3021 * (t1 * t2)),
    ;
    lemma_product_congruent(e, f, i.e, i.f);
    lemma_product_congruent(g, h, i.g, i.h);
    lemma_product_congruent(e, h, i.e, i.h);
    lemma_product_congruent(f, g, i.f, i.g);
    lemma_mod_bound((e * f) as int, m);
    lemma_mod_bound((g * h) as int, m);
    lemma_mod_bound((e * h) as int, m);
    lemma_mod_bound((f * g) as int, m);
}

/// The coordinates of the unified sum are congruent to a quarter of those
/// products: `(E/2)(F/2)`, `(G/2)(H/2)`, `(E/2)(H/2)`, `(F/2)(G/2)`.
pub proof fn lemma_unified_sum_inner(p: Coordinates, q: Coordinates)
    ensures
        congruent(4 * (unified_sum(p, q).x as int), inner_of(p, q).e * inner_of(p, q).f),
        congruent(4 * (unified_sum(p, q).y as int), inner_of(p, q).g * inner_of(p, q).h),
        congruent(4 * (unified_sum(p, q).t as int), inner_of(p, q).e * inner_of(p, q).h),
        congruent(4 * (unified_sum(p, q).z as int), inner_of(p, q).f * inner_of(p, q).g),
{
    reveal(unified_sum);
    let (x1, y1, t1, z1) = (p.x as int, p.y as int, p.t as int, p.z as int);
    let (x2, y2, t2, z2) = (q.x as int, q.y as int, q.t as int, q.z as int);
    let m = modulus() as int;
    let i = inner_of(p, q);
    let a = field_product(p.x, q.x);
    let b = field_product(p.y, q.y);
    lemma_product_congruent(p.x, q.x, x1, x2);
    lemma_product_congruent(p.y, q.y, y1, y2);
    let dt = field_product(edwards_d(), p.t);
    lemma_product_congruent(edwards_d(), p.t, 3021, t1);
    let c = field_product(dt, q.t);
    lemma_product_congruent(dt, q.t, 3021 * t1, t2);
    let d = field_product(p.z, q.z);
    lemma_product_congruent(p.z, q.z, z1, z2);
    let h = field_sum(b, a);
    lemma_sum_congruent(b, a, y1 * y2, x1 * x2);
    let sp = field_sum(p.x, p.y);
    let sq = field_sum(q.x, q.y);
    lemma_sum_congruent(p.x, p.y, x1, y1);
    lemma_sum_congruent(q.x, q.y, x2, y2);
    let pr = field_product(sp, sq);
    lemma_product_congruent(sp, sq, x1 + y1, x2 + y2);
    let e0 = field_difference(pr, a);
    lemma_difference_congruent(pr, a, (x1 + y1) * (x2 + y2), x1 * x2);
    let e = field_difference(e0, b);
    lemma_difference_congruent(e0, b, (x1 + y1) * (x2 + y2) - x1 * x2, y1 * y2);
    let f = field_difference(d, c);
    let g = field_sum(d, c);
    lemma_difference_congruent(d, c, z1 * z2, (3021 * t1) * t2);
    lemma_sum_congruent(d, c, z1 * z2, (3021 * t1) * t2);
    let eo = x1 * y2 + y1 * x2;
    let fo = z1 * z2 - 3021 * (t1 * t2);
    let go = z1 * z2 + 3021 * (t1 * t2);
    let ho = y1 * y2 + x1 * x2;
    assert(((x1 + y1) * (x2 + y2) - x1 * x2) - y1 * y2 == eo) by (nonlinear_arith)
        requires
            eo == x1 * y2 + y1 * x2,
    ;
    assert((3021 * t1) * t2 == 3021 * (t1 * t2)) by (nonlinear_arith);
    lemma_product_congruent(e, f, eo, fo);
    lemma_product_congruent(g, h, go, ho);
    lemma_product_congruent(e, h, eo, ho);
    lemma_product_congruent(f, g, fo, go);
    lemma_scale_four(unified_sum(p, q).x, eo, fo, i.e, i.f);
    lemma_scale_four(unified_sum(p, q).y, go, ho, i.g, i.h);
    lemma_scale_four(unified_sum(p, q).t, eo, ho, i.e, i.h);
    lemma_scale_four(unified_sum(p, q).z, fo, go, i.f, i.g);
}

proof fn lemma_scale_four(v: nat, a: int, b: int, a2: int, b2: int)
    requires
        congruent(v as int, a * b),
        a2 == 2 * a,
        b2 == 2 * b,
    ensures
        congruent(4 * (v as int), a2 * b2),
{
    let p = modulus() as int;
    lemma_mul_mod_noop_general(4, v as int, p);
    lemma_mul_mod_noop_general(4, a * b, p);
    assert(4 * (a * b) == a2 * b2) by (nonlinear_arith)
        requires
            a2 == 2 * a,
            b2 == 2 * b,
    ;
}

proof fn lemma_cross(u: nat, w: nat, ru: int, rw: int, s: nat, v: nat, rs: int, rv: int)
    requires
        congruent(u as int, ru),
        congruent(w as int, rw),
        congruent(s as int, rs),
        congruent(v as int, rv),
        ru * rw == rs * rv,
    ensures
        field_product(u, w) == field_product(s, v),
{
    let p = modulus() as int;
    lemma_mul_mod_noop_general(u as int, w as int, p);
    lemma_mul_mod_noop_general(ru, rw, p);
    lemma_mul_mod_noop_general(s as int, v as int, p);
    lemma_mul_mod_noop_general(rs, rv, p);
}

/// The two additions give one point: the coordinates of the sum with eight
/// multiplications are four times those of the unified sum.
pub proof fn lemma_additions_agree(p: Coordinates, q: Coordinates)
    ensures
        same_point(edwards_sum(p, q), unified_sum(p, q)),
{
    lemma_edwards_sum_inner(p, q);
    lemma_unified_sum_inner(p, q);
    let i = inner_of(p, q);
    let n = edwards_sum(p, q);
    let o = unified_sum(p, q);
    let m = modulus() as int;
    // n.x o.z is congruent to (E F) o.z, and four times o.x n.z to (E F)(F G)
    lemma_times_four(n.x, o.z, o.x, n.z, i.e * i.f, i.f * i.g);
    lemma_times_four(n.y, o.z, o.y, n.z, i.g * i.h, i.f * i.g);
}

/// Where `a` is congruent to `ra`, `d` to `rd`, four times `b` to `rd` and
/// four times `c` to `ra`, the products `a b` and `c d` are congruent.
proof fn lemma_times_four(a: nat, b: nat, c: nat, d: nat, ra: int, rd: int)
    requires
        congruent(a as int, ra),
        congruent(d as int, rd),
        congruent(4 * (b as int), rd),
        congruent(4 * (c as int), ra),
    ensures
        field_product(a, b) == field_product(c, d),
{
    let p = modulus() as int;
    // 4 a b is congruent to ra rd, and so is 4 c d
    lemma_mul_mod_noop_general(a as int, 4 * (b as int), p);
    lemma_mul_mod_noop_general(ra, rd, p);
    lemma_mul_mod_noop_general(4 * (c as int), d as int, p);
    assert(a * (4 * (b as int)) == 4 * ((a * b) as int)) by (nonlinear_arith);
    assert((4 * (c as int)) * d == 4 * ((c * d) as int)) by (nonlinear_arith);
    assert(congruent(4 * ((a * b) as int), 4 * ((c * d) as int)));
    lemma_cancel_four((a * b) as int, (c * d) as int);
}

/// Four can be cancelled modulo `p`: its inverse is `(3 p + 1) / 4`.
proof fn lemma_cancel_four(x: int, y: int)
    requires
        congruent(4 * x, 4 * y),
    ensures
        congruent(x, y),
{
    let p = modulus() as int;
    let quarter = (3 * p + 1) / 4;
    assert(4 * quarter == 3 * p + 1);
    lemma_mul_mod_noop_general(4 * x, quarter, p);
    lemma_mul_mod_noop_general(4 * y, quarter, p);
    assert((4 * x) * quarter == x + p * (3 * x)) by (nonlinear_arith)
        requires
            4 * quarter == 3 * p + 1,
    ;
    assert((4 * y) * quarter == y + p * (3 * y)) by (nonlinear_arith)
        requires
            4 * quarter == 3 * p + 1,
    ;
    vstd::arithmetic::div_mod::lemma_mod_multiples_vanish(3 * x, x, p);
    vstd::arithmetic::div_mod::lemma_mod_multiples_vanish(3 * y, y, p);
}

/// The neutral point changes nothing: the sum of a point and the neutral
/// point is that point.
pub proof fn lemma_neutral_is_neutral(p: Coordinates)
    ensures
        same_point(edwards_sum(p, neutral()), p),
        same_point(unified_sum(p, neutral()), p),
{
    lemma_edwards_sum_inner(p, neutral());
    lemma_unified_sum_inner(p, neutral());
    let i = inner_of(p, neutral());
    let (x, y, z) = (p.x as int, p.y as int, p.z as int);
    assert(i.e == 2 * x && i.f == 2 * z && i.g == 2 * z && i.h == 2 * y) by (nonlinear_arith)
        requires
            i == inner_of(p, neutral()),
            x == p.x,
            y == p.y,
            z == p.z,
            inner_of(p, neutral()).e == 2 * (p.x * 1 + p.y * 0),
            inner_of(p, neutral()).f == 2 * (p.z * 1 - 3021 * (p.t * 0)),
            inner_of(p, neutral()).g == 2 * (p.z * 1 + 3021 * (p.t * 0)),
            inner_of(p, neutral()).h == 2 * (p.y * 1 + p.x * 0),
    ;
    let n = edwards_sum(p, neutral());
    assert((i.e * i.f) * z == x * (i.f * i.g)) by (nonlinear_arith)
        requires
            i.e == 2 * x,
            i.f == 2 * z,
            i.g == 2 * z,
    ;
    assert((i.g * i.h) * z == y * (i.f * i.g)) by (nonlinear_arith)
        requires
            i.h == 2 * y,
            i.f == 2 * z,
            i.g == 2 * z,
    ;
    lemma_cross(n.x, p.z, i.e * i.f, z, p.x, n.z, x, i.f * i.g);
    lemma_cross(n.y, p.z, i.g * i.h, z, p.y, n.z, y, i.f * i.g);
    lemma_additions_agree(p, neutral());
    let o = unified_sum(p, neutral());
    lemma_quarter_cross(o.x, p.z, p.x, o.z, i.e * i.f, z, x, i.f * i.g);
    lemma_quarter_cross(o.y, p.z, p.y, o.z, i.g * i.h, z, y, i.f * i.g);
}

/// Where four times `u` is congruent to `ru` and four times `v` to `rv`,
/// and `ru rw = rs rv`, the products `u w` and `s v` are congruent.
proof fn lemma_quarter_cross(u: nat, w: nat, s: nat, v: nat, ru: int, rw: int, rs: int, rv: int)
    requires
        congruent(4 * (u as int), ru),
        congruent(w as int, rw),
        congruent(s as int, rs),
        congruent(4 * (v as int), rv),
        ru * rw == rs * rv,
    ensures
        field_product(u, w) == field_product(s, v),
{
    let p = modulus() as int;
    lemma_mul_mod_noop_general(4 * (u as int), w as int, p);
    lemma_mul_mod_noop_general(ru, rw, p);
    lemma_mul_mod_noop_general(s as int, 4 * (v as int), p);
    lemma_mul_mod_noop_general(rs, rv, p);
    assert((4 * (u as int)) * w == 4 * ((u * w) as int)) by (nonlinear_arith);
    assert(s * (4 * (v as int)) == 4 * ((s * v) as int)) by (nonlinear_arith);
    lemma_cancel_four((u * w) as int, (s * v) as int);
}

/// A point of the curve and its negative add up to the neutral point.
pub proof fn lemma_negative_cancels(p: Coordinates)
    requires
        on_curve(p),
    ensures
        edwards_sum(p, negative(p)).is_zero(),
{
    let q = negative(p);
    lemma_edwards_sum_inner(p, q);
    reveal(edwards_sum);
    let i = inner_of(p, q);
    let m = modulus() as int;
    let (x, y, t, z) = (p.x as int, p.y as int, p.t as int, p.z as int);
    lemma_difference_congruent(0, p.x, 0, x);
    lemma_difference_congruent(0, p.t, 0, t);
    // the inner values of the sum itself
    let ya = field_difference(p.y, p.x);
    let yb = field_difference(q.y, q.x);
    let sa = field_sum(p.y, p.x);
    let sb = field_sum(q.y, q.x);
    lemma_difference_congruent(p.y, p.x, y, x);
    lemma_difference_congruent(q.y, q.x, y, -x);
    lemma_sum_congruent(p.y, p.x, y, x);
    lemma_sum_congruent(q.y, q.x, y, -x);
    let a = field_product(ya, yb);
    let b = field_product(sa, sb);
    lemma_product_congruent(ya, yb, y - x, y + x);
    lemma_product_congruent(sa, sb, y + x, y - x);
    let tt = field_product(p.t, q.t);
    lemma_product_congruent(p.t, q.t, t, -t);
    let c = field_product(tt, 2 * edwards_d());
    lemma_product_congruent(tt, 2 * edwards_d(), t * (-t), 6042);
    let zz = field_product(p.z, q.z);
    lemma_product_congruent(p.z, q.z, z, z);
    let d = field_sum(zz, zz);
    lemma_sum_congruent(zz, zz, z * z, z * z);
    let e = field_difference(b, a);
    let f = field_difference(d, c);
    let g = field_sum(d, c);
    let h = field_sum(b, a);
    lemma_difference_congruent(b, a, (y + x) * (y - x), (y - x) * (y + x));
    lemma_difference_congruent(d, c, z * z + z * z, (t * (-t)) * 6042);
    lemma_sum_congruent(b, a, (y + x) * (y - x), (y - x) * (y + x));
    assert((y + x) * (y - x) - (y - x) * (y + x) == 0) by (nonlinear_arith);
    lemma_mod_bound(b - a, m);
    lemma_mod_bound(d - c, m);
    lemma_mod_bound((b + a) as int, m);
    lemma_small_mod(0, modulus());
    lemma_residues_equal(e, 0);
    assert(field_product(e, f) == 0 && field_product(e, h) == 0) by {
        assert(0 * f == 0 && 0 * h == 0) by (nonlinear_arith);
    }
    // on the curve H and F are congruent
    assert((y + x) * (y - x) + (y - x) * (y + x) == 2 * (y * y - x * x)) by (nonlinear_arith);
    assert(z * z + z * z - (t * (-t)) * 6042 == 2 * (z * z + 3021 * (t * t))) by (nonlinear_arith);
    lemma_mul_mod_noop_general(2, y * y - x * x, m);
    lemma_mul_mod_noop_general(2, z * z + 3021 * (t * t), m);
    lemma_residues_equal(h, f);
    assert(g * h == f * g) by (nonlinear_arith)
        requires
            h == f,
    ;
}

} // verus!
