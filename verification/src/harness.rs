//! The answers against which the command line tells a result right or
//! wrong, and the limbs of the integers that it reads.

use vstd::prelude::*;
use crate::limbs::{lemma_pow32_values, limbs_value};
use crate::u256::{lemma_u256_limbs, U256};

verus! {

/// The affine `x` of the product of the `2^power` points and scalars that are supplied for `power` from 16 to 20.
pub open spec fn ref_x(power: nat) -> nat {
    if power == 16 {
        4490298471131273381350715833932091894064554978284853693957586604825823442429nat
    } else if power == 17 {
        405755281347735151880827575059343698498813029460786026451708154294960743560nat
    } else if power == 18 {
        4020134989704514076121556080357844499902614818105934254331815581426895427831nat
    } else if power == 19 {
        3856727778963570638772781884183843350150969534777451295534564482755471873113nat
    } else {
        5201851187583570844529445080011852189038251929148722905178398320328749074909nat
    }
}

/// The affine `y` of the same product.
pub open spec fn ref_y(power: nat) -> nat {
    if power == 16 {
        207233051598812890797414182362695316831408959017076683749810755208551572458nat
    } else if power == 17 {
        7112985356832152643523650125935205310677117771129806490701829425450717492869nat
    } else if power == 18 {
        2694327822589008080344499645494473764166611881342421427746308662023437975766nat
    } else if power == 19 {
        1398750101296346671684024297455637342909036274728274942667983346895370713922nat
    } else {
        3586360219804356686204324370397321114669962278596135149389460948678051407803nat
    }
}

/// The affine result for the points and scalars that are supplied for
/// `power`.
pub fn get_ref_answer(power: usize) -> (r: (U256, U256))
    requires
        16 <= power <= 20,
    ensures
        r.0@ == ref_x(power as nat),
        r.1@ == ref_y(power as nat),
{
    let r = if power == 16 {
        (
            U256([0x09ed6b3b, 0x134f041a, 0x00008832, 0xad4949e6, 0x31c8f7b5, 0xbd98c6b8, 0x1aecd71e, 0xe7b075fd]),
            U256([0x00754a2d, 0x189df7e4, 0x4f266012, 0xf99f3b5c, 0x52c0869a, 0x82b0f931, 0xfaed9617, 0xb5f7a3ea]),
        )
    } else if power == 17 {
        (
            U256([0x00e5a63b, 0xda3cbc2d, 0xf4ce23ac, 0xc94edd3d, 0x9bf6d2d0, 0x846a72df, 0x1ee1b6a1, 0x40b96488]),
            U256([0x0fb9ce9a, 0x5a65ab0e, 0xcf5e18c4, 0x37cb64a1, 0x2e4cbdb7, 0x782bd071, 0xacbfebf5, 0x96c33685]),
        )
    } else if power == 18 {
        (
            U256([0x08e350d6, 0x4dd6ad78, 0xd20a7f5a, 0xeb7a9713, 0xedb36079, 0x537547ea, 0x966bdde9, 0xf28e18f7]),
            U256([0x05f4ef7d, 0x50adee1a, 0x8c269999, 0xe0cb1b51, 0xae1cd90a, 0xd4c26049, 0x7de28595, 0xa9f480d6]),
        )
    } else if power == 19 {
        (
            U256([0x0886d49f, 0xfe1a30d8, 0x737697a1, 0x82d6c794, 0xdcfc3e74, 0xb7648ea6, 0xa4458d30, 0x49b41459]),
            U256([0x0317aa1c, 0xca3f727d, 0x3e0535ed, 0xf523ed83, 0x6709fee6, 0xc2dbf3a4, 0x609f8573, 0x79d9fb42]),
        )
    } else {
        (
            U256([0x0b8024b8, 0x330f9482, 0x58fd25a5, 0xb4a586c1, 0x43c9e089, 0xe34cec56, 0xf4f75bcb, 0x5f0fc9dd]),
            U256([0x07edced5, 0xdbd9ab65, 0xabc51114, 0x8257bb78, 0x9b10f7b9, 0x965a97d4, 0x6d82ae6a, 0xdc04a7bb]),
        )
    };
    proof {
        lemma_u256_limbs(r.0);
        lemma_u256_limbs(r.1);
        lemma_pow32_values();
    }
    r
}

/// Whether sixteen limbs, `x` then `y`, are the answer for `power`.
pub fn is_ref_answer(power: usize, output: &[u32; 16]) -> (r: bool)
    requires
        16 <= power <= 20,
    ensures
        r == (limbs_value(output@.subrange(0, 8)) == ref_x(power as nat) && limbs_value(
            output@.subrange(8, 16),
        ) == ref_y(power as nat)),
{
    let (x, y) = get_ref_answer(power);
    let ox = U256(
        [
            output[0],
            output[1],
            output[2],
            output[3],
            output[4],
            output[5],
            output[6],
            output[7],
        ],
    );
    let oy = U256(
        [
            output[8],
            output[9],
            output[10],
            output[11],
            output[12],
            output[13],
            output[14],
            output[15],
        ],
    );
    assert(ox.0@ =~= output@.subrange(0, 8));
    assert(oy.0@ =~= output@.subrange(8, 16));
    ox.same(&x) && oy.same(&y)
}

/// The digits of an integer, least significant first, filled up with zeros
/// to eight where they are fewer.
pub open spec fn padded(digits: Seq<u32>) -> Seq<u32> {
    if digits.len() >= 8 {
        digits
    } else {
        digits + Seq::new((8 - digits.len()) as nat, |i: int| 0u32)
    }
}

/// Appends the limbs of an integer, most significant first, to `vec`. The
/// integer comes as its digits of 32 bits, least significant first; fewer
/// than eight are filled up with zeros.
pub fn extend_bignum(vec: &mut Vec<u32>, digits: &[u32])
    ensures
        final(vec)@ == old(vec)@ + padded(digits@).reverse(),
{
    let n = if digits.len() >= 8 {
        digits.len()
    } else {
        8
    };
    let ghost target = padded(digits@).reverse();
    let mut k: usize = 0;
    while k < n
        invariant
            k <= n,
            n == padded(digits@).len(),
            target == padded(digits@).reverse(),
            vec@ == old(vec)@ + target.subrange(0, k as int),
        decreases n - k,
    {
        let at = n - 1 - k;
        let limb = if at < digits.len() {
            digits[at]
        } else {
            0
        };
        vec.push(limb);
        assert(vec@ =~= old(vec)@ + target.subrange(0, k + 1));
        k += 1;
    }
    assert(target.subrange(0, n as int) =~= target);
}

/// The larger of two limbs.
pub open spec fn larger_limb(x: u32, y: u32) -> u32 {
    if x >= y {
        x
    } else {
        y
    }
}

/// The smaller of two limbs.
pub open spec fn smaller_limb(x: u32, y: u32) -> u32 {
    if x >= y {
        y
    } else {
        x
    }
}

/// A pair of integers for the tests of comparison, from random limbs: limb
/// by limb, the first holds the larger limb and the second the smaller
/// where `order` is 1, the other way round where it is -1, and both hold the
/// larger where it is 0.
pub fn gen_cmp_u256(x: &[u32; 8], y: &[u32; 8], order: &[i8; 8]) -> (r: (U256, U256))
    requires
        forall|i: int| 0 <= i < 8 ==> -1 <= #[trigger] order[i] <= 1,
    ensures
        forall|i: int|
            0 <= i < 8 ==> #[trigger] r.0.0[i] == (if order[i] == -1 {
                smaller_limb(x[i], y[i])
            } else {
                larger_limb(x[i], y[i])
            }),
        forall|i: int|
            0 <= i < 8 ==> #[trigger] r.1.0[i] == (if order[i] == 1 {
                smaller_limb(x[i], y[i])
            } else {
                larger_limb(x[i], y[i])
            }),
{
    let mut a_raw = [0u32; 8];
    let mut b_raw = [0u32; 8];
    let mut i: usize = 0;
    while i < 8
        invariant
            i <= 8,
            forall|k: int| 0 <= k < 8 ==> -1 <= #[trigger] order[k] <= 1,
            forall|k: int|
                0 <= k < i ==> #[trigger] a_raw[k] == (if order[k] == -1 {
                    smaller_limb(x[k], y[k])
                } else {
                    larger_limb(x[k], y[k])
                }),
            forall|k: int|
                0 <= k < i ==> #[trigger] b_raw[k] == (if order[k] == 1 {
                    smaller_limb(x[k], y[k])
                } else {
                    larger_limb(x[k], y[k])
                }),
        decreases 8 - i,
    {
        let (large, small) = if x[i] >= y[i] {
            (x[i], y[i])
        } else {
            (y[i], x[i])
        };
        if order[i] == 1 {
            a_raw[i] = large;
            b_raw[i] = small;
        } else if order[i] == -1 {
            a_raw[i] = small;
            b_raw[i] = large;
        } else {
            a_raw[i] = large;
            b_raw[i] = large;
        }
        i += 1;
    }
    (U256(a_raw), U256(b_raw))
}

} // verus!
