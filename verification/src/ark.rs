//! The group operations of the host, computed by the arkworks curve library
//! on residues in 64-bit words.

use vstd::prelude::*;
use ark_ec::{CurveGroup, Group};
use ark_ed_on_bls12_377::{EdwardsAffine, EdwardsProjective, Fq};
use ark_ff::{BigInt, PrimeField};
use crate::bytes::{words_value, EdwardsPoint};
use crate::curve::{
    doubled, field_product, mixed_sum, neutral, scalar_multiple, unified_sum, Coordinates,
};
use crate::field::modulus;

verus! {

/// `Projective::add` of ark-ec on the twisted Edwards curve of
/// ark-ed-on-bls12-377: the unified addition of extended coordinates, each
/// coordinate of the result a residue.
#[verifier::external_body]
fn ark_add(a: &EdwardsPoint, b: &EdwardsPoint) -> (r: EdwardsPoint)
    requires
        a.wf(),
        b.wf(),
    ensures
        r.wf(),
        r@ == unified_sum(a@, b@),
{
    let f = |w: [u64; 4]| Fq::from_bigint(BigInt(w)).unwrap();
    let g = |v: Fq| v.into_bigint().0;
    let pa = EdwardsProjective::new_unchecked(f(a.x), f(a.y), f(a.t), f(a.z));
    let pb = EdwardsProjective::new_unchecked(f(b.x), f(b.y), f(b.t), f(b.z));
    let c = pa + &pb;
    EdwardsPoint { x: g(c.x), y: g(c.y), t: g(c.t), z: g(c.z) }
}

/// `Group::double_in_place` of ark-ec on the same curve: the doubling of
/// extended coordinates, each coordinate of the result a residue.
#[verifier::external_body]
fn ark_double(a: &EdwardsPoint) -> (r: EdwardsPoint)
    requires
        a.wf(),
    ensures
        r.wf(),
        r@ == doubled(a@),
{
    let f = |w: [u64; 4]| Fq::from_bigint(BigInt(w)).unwrap();
    let g = |v: Fq| v.into_bigint().0;
    let mut c = EdwardsProjective::new_unchecked(f(a.x), f(a.y), f(a.t), f(a.z));
    c.double_in_place();
    EdwardsPoint { x: g(c.x), y: g(c.y), t: g(c.t), z: g(c.z) }
}

/// `Group::mul_bigint` of ark-ec on the same curve: doubling and adding from
/// the most significant set bit of the scalar down, starting at the neutral
/// point.
#[verifier::external_body]
fn ark_mul_bigint(a: &EdwardsPoint, scalar: &[u64; 4]) -> (r: EdwardsPoint)
    requires
        a.wf(),
    ensures
        r.wf(),
        r@ == scalar_multiple(a@, words_value(scalar@)),
{
    let f = |w: [u64; 4]| Fq::from_bigint(BigInt(w)).unwrap();
    let g = |v: Fq| v.into_bigint().0;
    let p = EdwardsProjective::new_unchecked(f(a.x), f(a.y), f(a.t), f(a.z));
    let c = p.mul_bigint(BigInt(*scalar));
    EdwardsPoint { x: g(c.x), y: g(c.y), t: g(c.t), z: g(c.z) }
}

/// `Affine + Affine` of ark-ec on the same curve: the first point is taken to
/// extended coordinates as `(x, y, x y, 1)`, and the second is added to it by
/// the mixed addition.
#[verifier::external_body]
fn ark_affine_add(ax: &[u64; 4], ay: &[u64; 4], bx: &[u64; 4], by: &[u64; 4]) -> (r: EdwardsPoint)
    requires
        words_value(ax@) < modulus(),
        words_value(ay@) < modulus(),
        words_value(bx@) < modulus(),
        words_value(by@) < modulus(),
    ensures
        r.wf(),
        r@ == mixed_sum(
            (Coordinates {
                x: words_value(ax@),
                y: words_value(ay@),
                t: field_product(words_value(ax@), words_value(ay@)),
                z: 1,
            }),
            words_value(bx@),
            words_value(by@),
        ),
{
    let f = |w: &[u64; 4]| Fq::from_bigint(BigInt(*w)).unwrap();
    let g = |v: Fq| v.into_bigint().0;
    let c = EdwardsAffine::new_unchecked(f(ax), f(ay)) + EdwardsAffine::new_unchecked(f(bx), f(by));
    EdwardsPoint { x: g(c.x), y: g(c.y), t: g(c.t), z: g(c.z) }
}

/// `CurveGroup::into_affine` of ark-ec on the same curve, for a point with
/// `Z != 0`: `(0, 1)` for the neutral point, `(X, Y)` where `Z = 1`, else
/// `X` and `Y` times the inverse of `Z`. In each case the result is a pair of
/// residues `(x, y)` with `x Z = X` and `y Z = Y` modulo `p`.
#[verifier::external_body]
fn ark_into_affine(a: &EdwardsPoint) -> (r: ([u64; 4], [u64; 4]))
    requires
        a.wf(),
        a@.z != 0,
    ensures
        words_value(r.0@) < modulus(),
        words_value(r.1@) < modulus(),
        field_product(words_value(r.0@), a@.z) == a@.x,
        field_product(words_value(r.1@), a@.z) == a@.y,
{
    let f = |w: [u64; 4]| Fq::from_bigint(BigInt(w)).unwrap();
    let c = EdwardsProjective::new_unchecked(f(a.x), f(a.y), f(a.t), f(a.z)).into_affine();
    (c.x.into_bigint().0, c.y.into_bigint().0)
}

fn words_are_zero(w: &[u64; 4]) -> (r: bool)
    ensures
        r == (words_value(w@) == 0),
{
    w[0] == 0 && w[1] == 0 && w[2] == 0 && w[3] == 0
}

fn words_are_equal(v: &[u64; 4], w: &[u64; 4]) -> (r: bool)
    ensures
        r == (words_value(v@) == words_value(w@)),
{
    v[0] == w[0] && v[1] == w[1] && v[2] == w[2] && v[3] == w[3]
}

impl EdwardsPoint {
    /// The neutral point `(0, 1, 0, 1)`.
    pub fn zero() -> (r: EdwardsPoint)
        ensures
            r.wf(),
            r@ == neutral(),
    {
        EdwardsPoint { x: [0, 0, 0, 0], y: [1, 0, 0, 0], t: [0, 0, 0, 0], z: [1, 0, 0, 0] }
    }

    /// Whether this is the neutral point: `X = 0`, `Y = Z`, `T = 0`.
    pub fn is_zero(&self) -> (r: bool)
        ensures
            r == self@.is_zero(),
    {
        words_are_zero(&self.x) && words_are_equal(&self.y, &self.z) && words_are_zero(&self.t)
    }

    /// Whether `Z` is zero, which it is for no point of the curve.
    pub fn z_is_zero(&self) -> (r: bool)
        ensures
            r == (self@.z == 0),
    {
        words_are_zero(&self.z)
    }

    /// The sum of two points.
    pub fn add(&self, other: &EdwardsPoint) -> (r: EdwardsPoint)
        requires
            self.wf(),
            other.wf(),
        ensures
            r.wf(),
            r@ == unified_sum(self@, other@),
    {
        ark_add(self, other)
    }

    /// The double of a point.
    pub fn double(&self) -> (r: EdwardsPoint)
        requires
            self.wf(),
        ensures
            r.wf(),
            r@ == doubled(self@),
    {
        ark_double(self)
    }

    /// `scalar` times a point.
    pub fn mul_bigint(&self, scalar: &[u64; 4]) -> (r: EdwardsPoint)
        requires
            self.wf(),
        ensures
            r.wf(),
            r@ == scalar_multiple(self@, words_value(scalar@)),
    {
        ark_mul_bigint(self, scalar)
    }

    /// The affine point `(x, y)`, where there is one: the residues with
    /// `x Z = X` and `y Z = Y` modulo `p`, and none for `Z = 0`.
    pub fn into_affine(&self) -> (r: Option<([u64; 4], [u64; 4])>)
        requires
            self.wf(),
        ensures
            r is Some <==> self@.z != 0,
            r is Some ==> {
                let (x, y) = r->Some_0;
                &&& words_value(x@) < modulus()
                &&& words_value(y@) < modulus()
                &&& field_product(words_value(x@), self@.z) == self@.x
                &&& field_product(words_value(y@), self@.z) == self@.y
            },
    {
        if self.z_is_zero() {
            None
        } else {
            Some(ark_into_affine(self))
        }
    }
}

/// The sum of two affine points, in extended coordinates.
pub fn affine_add(ax: &[u64; 4], ay: &[u64; 4], bx: &[u64; 4], by: &[u64; 4]) -> (r: EdwardsPoint)
    requires
        words_value(ax@) < modulus(),
        words_value(ay@) < modulus(),
        words_value(bx@) < modulus(),
        words_value(by@) < modulus(),
    ensures
        r.wf(),
        r@ == mixed_sum(
            (Coordinates {
                x: words_value(ax@),
                y: words_value(ay@),
                t: field_product(words_value(ax@), words_value(ay@)),
                z: 1,
            }),
            words_value(bx@),
            words_value(by@),
        ),
{
    ark_affine_add(ax, ay, bx, by)
}

} // verus!
