//! 256-bit unsigned integers in eight 32-bit limbs, most significant first,
//! and the 512-bit products of two of them.

use vstd::prelude::*;
use crate::limbs::{
    base, limbs_value, low_value, pow32, lemma_low_value_bound, lemma_low_value_frame,
    lemma_low_value_update, lemma_pow32_add, lemma_pow32_values, lemma_value_concat,
};

verus! {

/// `2^256`.
pub open spec fn two_256() -> nat {
    0x1_0000_0000_0000_0000_0000_0000_0000_0000_0000_0000_0000_0000_0000_0000_0000_0000nat
}

/// A 256-bit unsigned integer. Limb 0 is the most significant.
#[derive(Clone, Copy, Debug)]
pub struct U256(pub [u32; 8]);

impl View for U256 {
    type V = nat;

    open spec fn view(&self) -> nat {
        limbs_value(self.0@)
    }
}

/// A 512-bit unsigned integer as two 256-bit blocks: limbs 0 to 7 are the low
/// half, limbs 8 to 15 the high half, each block most significant limb first.
#[derive(Clone, Copy, Debug)]
pub struct U512(pub [u32; 16]);

impl View for U512 {
    type V = nat;

    open spec fn view(&self) -> nat {
        limbs_value(self.0@.subrange(0, 8)) + two_256() * limbs_value(self.0@.subrange(8, 16))
    }
}

/// Eight limbs reach up to `2^256`.
pub proof fn lemma_pow32_8()
    ensures
        pow32(8) == two_256(),
{
    lemma_pow32_values();
}

/// Every 256-bit integer is below `2^256`.
pub proof fn lemma_u256_bound(a: U256)
    ensures
        a@ < two_256(),
{
    lemma_low_value_bound(a.0@, 8);
    lemma_pow32_8();
}

/// The value of a 256-bit integer, limb by limb.
pub proof fn lemma_u256_limbs(a: U256)
    ensures
        a@ == a.0[7] + a.0[6] * pow32(1) + a.0[5] * pow32(2) + a.0[4] * pow32(3) + a.0[3] * pow32(4)
            + a.0[2] * pow32(5) + a.0[1] * pow32(6) + a.0[0] * pow32(7),
{
    reveal_with_fuel(low_value, 9);
    assert(pow32(0) == 1);
    assert(a.0[7] * 1 == a.0[7]);
}

impl U256 {
    /// The integer zero.
    pub fn zero() -> (r: U256)
        ensures
            r@ == 0,
            r.0@ =~= seq![0u32; 8],
    {
        let r = U256([0u32; 8]);
        proof {
            reveal_with_fuel(low_value, 9);
            assert forall|k: nat| k <= 8 implies low_value(r.0@, k) == 0 by {
                lemma_low_value_zero(r.0@, k);
            }
        }
        r
    }

    /// Whether two integers have the same limbs, which is whether they have
    /// the same value.
    pub fn same(&self, other: &U256) -> (r: bool)
        ensures
            r == (self.0@ == other.0@),
            r == (self@ == other@),
    {
        let mut i: usize = 0;
        let mut all = true;
        while i < 8
            invariant
                i <= 8,
                all == (forall|k: int| 8 - i <= k < 8 ==> self.0[k] == other.0[k]),
            decreases 8 - i,
        {
            if self.0[7 - i] != other.0[7 - i] {
                all = false;
            }
            i += 1;
        }
        proof {
            if all {
                assert(self.0@ =~= other.0@);
            } else if self@ == other@ {
                lemma_value_injective(self.0@, other.0@, 8);
            }
        }
        all
    }
}

proof fn lemma_low_value_zero(s: Seq<u32>, n: nat)
    requires
        n <= s.len(),
        forall|i: int| 0 <= i < s.len() ==> s[i] == 0,
    ensures
        low_value(s, n) == 0,
    decreases n,
{
    if n > 0 {
        lemma_low_value_zero(s, (n - 1) as nat);
        assert(0 * pow32((n - 1) as nat) == 0);
    }
}

/// Limb sequences of one length with the same low value have the same low
/// limbs.
pub proof fn lemma_value_injective(s: Seq<u32>, t: Seq<u32>, n: nat)
    requires
        s.len() == t.len(),
        n <= s.len(),
        low_value(s, n) == low_value(t, n),
    ensures
        forall|i: int| s.len() - n <= i < s.len() ==> s[i] == t[i],
    decreases n,
{
    if n > 0 {
        let m = (n - 1) as nat;
        let w = pow32(m);
        let x = s[s.len() - n] as int;
        let y = t[t.len() - n] as int;
        lemma_low_value_bound(s, m);
        lemma_low_value_bound(t, m);
        let ls = low_value(s, m) as int;
        let lt = low_value(t, m) as int;
        assert(x == y) by (nonlinear_arith)
            requires
                ls + x * w == lt + y * w,
                0 <= ls < w,
                0 <= lt < w,
        ;
        lemma_value_injective(s, t, m);
    }
}

impl U512 {
    /// The low 256 bits.
    pub fn lo(&self) -> (r: U256)
        ensures
            r.0@ == self.0@.subrange(0, 8),
            r@ == self@ % two_256(),
    {
        let r = U256(
            [
                self.0[0],
                self.0[1],
                self.0[2],
                self.0[3],
                self.0[4],
                self.0[5],
                self.0[6],
                self.0[7],
            ],
        );
        proof {
            assert(r.0@ =~= self.0@.subrange(0, 8));
            lemma_u512_halves(*self);
        }
        r
    }

    /// The high 256 bits.
    pub fn hi(&self) -> (r: U256)
        ensures
            r.0@ == self.0@.subrange(8, 16),
            r@ == self@ / two_256(),
    {
        let r = U256(
            [
                self.0[8],
                self.0[9],
                self.0[10],
                self.0[11],
                self.0[12],
                self.0[13],
                self.0[14],
                self.0[15],
            ],
        );
        proof {
            assert(r.0@ =~= self.0@.subrange(8, 16));
            lemma_u512_halves(*self);
        }
        r
    }

    /// The integer `lo + 2^256 hi`.
    pub fn from_halves(lo: &U256, hi: &U256) -> (r: U512)
        ensures
            r@ == lo@ + two_256() * hi@,
            r.0@ == lo.0@ + hi.0@,
    {
        let r = U512(
            [
                lo.0[0],
                lo.0[1],
                lo.0[2],
                lo.0[3],
                lo.0[4],
                lo.0[5],
                lo.0[6],
                lo.0[7],
                hi.0[0],
                hi.0[1],
                hi.0[2],
                hi.0[3],
                hi.0[4],
                hi.0[5],
                hi.0[6],
                hi.0[7],
            ],
        );
        proof {
            assert(r.0@ =~= lo.0@ + hi.0@);
            assert(r.0@.subrange(0, 8) =~= lo.0@);
            assert(r.0@.subrange(8, 16) =~= hi.0@);
        }
        r
    }
}

/// The halves of a 512-bit integer are its remainder and quotient by `2^256`.
pub proof fn lemma_u512_halves(t: U512)
    ensures
        limbs_value(t.0@.subrange(0, 8)) == t@ % two_256(),
        limbs_value(t.0@.subrange(8, 16)) == t@ / two_256(),
        t@ < two_256() * two_256(),
{
    let lo = limbs_value(t.0@.subrange(0, 8));
    let hi = limbs_value(t.0@.subrange(8, 16));
    lemma_low_value_bound(t.0@.subrange(0, 8), 8);
    lemma_low_value_bound(t.0@.subrange(8, 16), 8);
    lemma_pow32_8();
    let r = two_256() as int;
    vstd::arithmetic::div_mod::lemma_fundamental_div_mod_converse(t@ as int, r, hi as int, lo as int);
    assert(lo + r * hi < r * r) by (nonlinear_arith)
        requires
            0 <= lo < r,
            0 <= hi < r,
    ;
}

/// Splits a 64-bit word into its high and low 32 bits.
fn split_word(x: u64) -> (r: (u64, u32))
    ensures
        r.0 == x / 0x1_0000_0000,
        r.1 == x % 0x1_0000_0000,
        x == r.0 * 0x1_0000_0000 + r.1,
        r.0 < 0x1_0000_0000,
{
    (x / 0x1_0000_0000, (x % 0x1_0000_0000) as u32)
}

/// `a + b + carry_in` as a 256-bit sum and a carry out of bit 255.
pub fn add_with_carry(a: &U256, b: &U256, carry_in: u32) -> (r: (U256, u32))
    requires
        carry_in <= 1,
    ensures
        r.0@ + r.1 * two_256() == a@ + b@ + carry_in,
        r.1 <= 1,
{
    let mut out = [0u32; 8];
    let mut carry: u64 = carry_in as u64;
    let mut i: usize = 0;
    assert(pow32(0) == 1);
    while i < 8
        invariant
            i <= 8,
            carry <= 1,
            low_value(out@, i as nat) + carry * pow32(i as nat) == low_value(a.0@, i as nat)
                + low_value(b.0@, i as nat) + carry_in,
        decreases 8 - i,
    {
        let k = 7 - i;
        let s: u64 = a.0[k] as u64 + b.0[k] as u64 + carry;
        let ghost prev = out@;
        let (c2, w) = split_word(s);
        out[k] = w;
        proof {
            lemma_low_value_frame(prev, out@, i as nat);
            let p = pow32(i as nat) as int;
            let x = a.0[k as int] as int;
            let y = b.0[k as int] as int;
            assert(w * p + c2 * (base() * p) == x * p + y * p + carry * p) by (nonlinear_arith)
                requires
                    x + y + carry == c2 * 0x1_0000_0000 + w,
                    base() == 0x1_0000_0000,
            ;
        }
        carry = c2;
        i += 1;
    }
    proof {
        lemma_pow32_8();
    }
    (U256(out), carry as u32)
}

/// `a - b - borrow_in` as a 256-bit difference and a borrow out of bit 255.
pub fn sub_with_borrow(a: &U256, b: &U256, borrow_in: u32) -> (r: (U256, u32))
    requires
        borrow_in <= 1,
    ensures
        r.0@ + b@ + borrow_in == a@ + r.1 * two_256(),
        r.1 <= 1,
{
    let mut out = [0u32; 8];
    let mut borrow: u64 = borrow_in as u64;
    let mut i: usize = 0;
    assert(pow32(0) == 1);
    while i < 8
        invariant
            i <= 8,
            borrow <= 1,
            low_value(out@, i as nat) + low_value(b.0@, i as nat) + borrow_in == low_value(
                a.0@,
                i as nat,
            ) + borrow * pow32(i as nat),
        decreases 8 - i,
    {
        let k = 7 - i;
        let t: u64 = 0x1_0000_0000 + a.0[k] as u64 - b.0[k] as u64 - borrow;
        let ghost prev = out@;
        let (keep, w) = split_word(t);
        out[k] = w;
        let b2: u64 = 1 - keep;
        proof {
            lemma_low_value_frame(prev, out@, i as nat);
            let p = pow32(i as nat) as int;
            let x = a.0[k as int] as int;
            let y = b.0[k as int] as int;
            assert(w * p + y * p + borrow * p == x * p + b2 * (base() * p)) by (nonlinear_arith)
                requires
                    w + y + borrow == x + b2 * 0x1_0000_0000,
                    base() == 0x1_0000_0000,
            ;
        }
        borrow = b2;
        i += 1;
    }
    proof {
        lemma_pow32_8();
    }
    (U256(out), borrow as u32)
}

/// The sum modulo `2^256`: the carry out of bit 255 is dropped.
pub fn u256_add(a: &U256, b: &U256) -> (r: U256)
    ensures
        r@ == (a@ + b@) % two_256(),
{
    let (sum, carry) = add_with_carry(a, b, 0);
    proof {
        lemma_u256_bound(sum);
        let m = two_256() as int;
        vstd::arithmetic::div_mod::lemma_fundamental_div_mod_converse(
            (a@ + b@) as int,
            m,
            carry as int,
            sum@ as int,
        );
    }
    sum
}

/// The difference modulo `2^256`, which is `a - b` whenever `a >= b`.
pub fn u256_sub(a: &U256, b: &U256) -> (r: U256)
    ensures
        r@ == (a@ - b@) % (two_256() as int),
        a@ >= b@ ==> r@ == a@ - b@,
{
    let (diff, borrow) = sub_with_borrow(a, b, 0);
    proof {
        lemma_u256_bound(diff);
        lemma_u256_bound(*a);
        lemma_u256_bound(*b);
        let m = two_256() as int;
        vstd::arithmetic::div_mod::lemma_fundamental_div_mod_converse(
            a@ - b@,
            m,
            -(borrow as int),
            diff@ as int,
        );
    }
    diff
}

/// `a - b` if `a >= b`, else `a`.
pub fn u256_cas(a: &U256, b: &U256) -> (r: U256)
    ensures
        r@ == if a@ >= b@ {
            a@ - b@
        } else {
            a@ as int
        },
        a@ < b@ ==> r.0@ == a.0@,
{
    let (diff, borrow) = sub_with_borrow(a, b, 0);
    proof {
        lemma_u256_bound(diff);
        lemma_u256_bound(*a);
        lemma_u256_bound(*b);
    }
    if borrow == 0 {
        diff
    } else {
        *a
    }
}

/// The order of two limb sequences of one length, read from index `from` on,
/// most significant limb first: 1 where `a` is greater at the first limb
/// that differs, -1 where it is less, 0 where none differs.
pub open spec fn lex_order(a: Seq<u32>, b: Seq<u32>, from: int) -> int
    decreases a.len() - from,
{
    if from >= a.len() {
        0
    } else if a[from] > b[from] {
        1
    } else if a[from] < b[from] {
        -1
    } else {
        lex_order(a, b, from + 1)
    }
}

/// The sign of `a - b`.
pub open spec fn sign_of_difference(a: nat, b: nat) -> int {
    if a > b {
        1
    } else if a < b {
        -1
    } else {
        0
    }
}

/// The word that fills all eight limbs of a comparison's result.
pub open spec fn order_word(sign: int) -> u32 {
    if sign > 0 {
        1
    } else if sign < 0 {
        0xffff_ffff
    } else {
        0
    }
}

/// The order of the values of two limb sequences is their lexicographic
/// order, most significant limb first.
pub proof fn lemma_lex_order_is_numeric(a: Seq<u32>, b: Seq<u32>, n: nat)
    requires
        a.len() == b.len(),
        n <= a.len(),
    ensures
        lex_order(a, b, a.len() - n) == sign_of_difference(low_value(a, n), low_value(b, n)),
    decreases n,
{
    if n > 0 {
        let m = (n - 1) as nat;
        lemma_lex_order_is_numeric(a, b, m);
        lemma_low_value_bound(a, m);
        lemma_low_value_bound(b, m);
        let w = pow32(m) as int;
        let x = a[a.len() - n] as int;
        let y = b[b.len() - n] as int;
        let la = low_value(a, m) as int;
        let lb = low_value(b, m) as int;
        if x > y {
            assert(la + x * w > lb + y * w) by (nonlinear_arith)
                requires
                    x > y,
                    0 <= la,
                    0 <= lb < w,
            ;
        } else if x < y {
            assert(la + x * w < lb + y * w) by (nonlinear_arith)
                requires
                    x < y,
                    0 <= lb,
                    0 <= la < w,
            ;
        }
    }
}

/// The order of two 256-bit integers: 1, 0 or 2 for greater, equal, less.
fn order_of(a: &U256, b: &U256) -> (r: u8)
    ensures
        r == 1 <==> a@ > b@,
        r == 0 <==> a@ == b@,
        r == 2 <==> a@ < b@,
        r <= 2,
{
    let mut res: u8 = 0;
    let mut i: usize = 0;
    while i < 8
        invariant
            i <= 8,
            res <= 2,
            res == 1 <==> lex_order(a.0@, b.0@, 8 - i) == 1,
            res == 0 <==> lex_order(a.0@, b.0@, 8 - i) == 0,
            res == 2 <==> lex_order(a.0@, b.0@, 8 - i) == -1,
        decreases 8 - i,
    {
        let k = 7 - i;
        if a.0[k] > b.0[k] {
            res = 1;
        } else if a.0[k] < b.0[k] {
            res = 2;
        }
        i += 1;
    }
    proof {
        lemma_lex_order_is_numeric(a.0@, b.0@, 8);
    }
    res
}

/// The comparison of two 256-bit integers, in all eight limbs of the result:
/// `1` where `a > b`, `0xffffffff` where `a < b`, `0` where they are equal.
/// The order of the values is the lexicographic order of the limbs.
pub fn u256_cmp(a: &U256, b: &U256) -> (r: U256)
    ensures
        forall|i: int| 0 <= i < 8 ==> r.0[i] == order_word(sign_of_difference(a@, b@)),
        sign_of_difference(a@, b@) == lex_order(a.0@, b.0@, 0),
{
    let code = order_of(a, b);
    let word: u32 = if code == 1 {
        1
    } else if code == 2 {
        0xffff_ffff
    } else {
        0
    };
    proof {
        lemma_lex_order_is_numeric(a.0@, b.0@, 8);
    }
    U256([word; 8])
}

proof fn lemma_mul_step(
    total: int, carry: int, wi: int, wj: int, wij: int, ai: int, bj: int, lowb: int, before: int,
    old_limb: int, new_limb: int, c2: int,
)
    by (nonlinear_arith)
    requires
        wij == wi * wj,
        total + carry * wij == before + ai * wi * lowb,
        old_limb + ai * bj + carry == c2 * 0x1_0000_0000 + new_limb,
    ensures
        (total + new_limb * wij - old_limb * wij) + c2 * (0x1_0000_0000 * wij) == before + ai * wi * (
        lowb + bj * wj),
{
}

/// The full 512-bit product.
pub fn u256_mul(a: &U256, b: &U256) -> (r: U512)
    ensures
        r@ == a@ * b@,
{
    let mut acc = [0u32; 16];
    let mut i: usize = 0;
    proof {
        lemma_low_value_zero(acc@, 16);
        assert(0 * limbs_value(b.0@) == 0);
    }
    while i < 8
        invariant
            i <= 8,
            limbs_value(acc@) == low_value(a.0@, i as nat) * limbs_value(b.0@),
            forall|k: int| 0 <= k < 8 - i ==> acc[k] == 0,
        decreases 8 - i,
    {
        let ai: u64 = a.0[7 - i] as u64;
        let mut carry: u64 = 0;
        let ghost before = limbs_value(acc@);
        let mut j: usize = 0;
        proof {
            assert(ai * pow32(i as nat) * low_value(b.0@, 0) == 0) by (nonlinear_arith)
                requires
                    low_value(b.0@, 0) == 0,
            ;
        }
        while j < 8
            invariant
                j <= 8,
                i < 8,
                carry < 0x1_0000_0000,
                ai == a.0[7 - i],
                limbs_value(acc@) + carry * pow32((i + j) as nat) == before + ai * pow32(i as nat)
                    * low_value(b.0@, j as nat),
                forall|k: int| 0 <= k < 8 - i ==> acc[k] == 0,
            decreases 8 - j,
        {
            let idx = 15 - i - j;
            let bj: u64 = b.0[7 - j] as u64;
            assert(ai * bj <= 0xffff_ffff * 0xffff_ffff) by (nonlinear_arith)
                requires
                    ai <= 0xffff_ffff,
                    bj <= 0xffff_ffff,
            ;
            let t: u64 = acc[idx] as u64 + ai * bj + carry;
            let ghost prev = acc@;
            let (c2, w) = split_word(t);
            acc[idx] = w;
            proof {
                lemma_low_value_update(prev, (i + j) as nat, w, 16);
                lemma_pow32_add(i as nat, j as nat);
                lemma_mul_step(
                    limbs_value(prev) as int,
                    carry as int,
                    pow32(i as nat) as int,
                    pow32(j as nat) as int,
                    pow32((i + j) as nat) as int,
                    ai as int,
                    bj as int,
                    low_value(b.0@, j as nat) as int,
                    before as int,
                    prev[idx as int] as int,
                    w as int,
                    c2 as int,
                );
            }
            carry = c2;
            j += 1;
        }
        let ghost prev = acc@;
        acc[7 - i] = carry as u32;
        proof {
            lemma_low_value_update(prev, (i + 8) as nat, carry as u32, 16);
            let la = low_value(a.0@, i as nat) as int;
            let vb = limbs_value(b.0@) as int;
            let wi = pow32(i as nat) as int;
            let top = pow32((i + 8) as nat) as int;
            assert(prev[7 - i] == 0);
            assert(prev[7 - i] * top == 0);
            assert(limbs_value(acc@) == limbs_value(prev) + carry * top);
            assert(limbs_value(acc@) == before + ai * wi * vb);
            assert(low_value(a.0@, (i + 1) as nat) == la + ai * wi);
            assert(la * vb + ai * wi * vb == (la + ai * wi) * vb) by (nonlinear_arith);
        }
        i += 1;
    }
    let r = U512(
        [
            acc[8],
            acc[9],
            acc[10],
            acc[11],
            acc[12],
            acc[13],
            acc[14],
            acc[15],
            acc[0],
            acc[1],
            acc[2],
            acc[3],
            acc[4],
            acc[5],
            acc[6],
            acc[7],
        ],
    );
    proof {
        let lo = r.0@.subrange(0, 8);
        let hi = r.0@.subrange(8, 16);
        assert(acc@ =~= hi + lo);
        lemma_value_concat(hi, lo);
        lemma_pow32_8();
        assert(limbs_value(hi) * two_256() == two_256() * limbs_value(hi)) by (nonlinear_arith);
    }
    r
}

} // verus!
