//! The value of a sequence of 32-bit limbs stored most significant first.

use vstd::prelude::*;

verus! {

/// The limb base, `2^32`.
pub open spec fn base() -> nat {
    0x1_0000_0000
}

/// `2^(32 k)`.
pub open spec fn pow32(k: nat) -> nat
    decreases k,
{
    if k == 0 {
        1
    } else {
        base() * pow32((k - 1) as nat)
    }
}

/// The value of the `n` least significant limbs of `s`, where `s` is stored
/// most significant limb first: the limb of weight `2^(32 j)` is
/// `s[s.len() - 1 - j]`.
pub open spec fn low_value(s: Seq<u32>, n: nat) -> nat
    decreases n,
{
    if n == 0 {
        0
    } else {
        (low_value(s, (n - 1) as nat) + s[s.len() - n] * pow32((n - 1) as nat)) as nat
    }
}

/// The value of all of `s`.
pub open spec fn limbs_value(s: Seq<u32>) -> nat {
    low_value(s, s.len())
}

/// The powers of the limb base are positive.
pub proof fn lemma_pow32_positive(k: nat)
    ensures
        pow32(k) > 0,
    decreases k,
{
    if k > 0 {
        lemma_pow32_positive((k - 1) as nat);
        assert(base() * pow32((k - 1) as nat) > 0) by (nonlinear_arith)
            requires
                pow32((k - 1) as nat) > 0,
                base() > 0,
        ;
    }
}

/// `2^(32 (a + b)) = 2^(32 a) 2^(32 b)`.
pub proof fn lemma_pow32_add(a: nat, b: nat)
    ensures
        pow32(a + b) == pow32(a) * pow32(b),
    decreases a,
{
    if a == 0 {
        assert(pow32(0) == 1);
        assert(1 * pow32(b) == pow32(b));
    } else {
        lemma_pow32_add((a - 1) as nat, b);
        let x = pow32((a - 1) as nat);
        let y = pow32(b);
        assert(pow32(a + b) == base() * pow32((a - 1 + b) as nat));
        assert(base() * (x * y) == (base() * x) * y) by (nonlinear_arith);
    }
}

/// Two sequences of one length that agree on their `n` last limbs have the
/// same low value.
pub proof fn lemma_low_value_frame(s: Seq<u32>, t: Seq<u32>, n: nat)
    requires
        s.len() == t.len(),
        n <= s.len(),
        forall|i: int| s.len() - n <= i < s.len() ==> s[i] == t[i],
    ensures
        low_value(s, n) == low_value(t, n),
    decreases n,
{
    if n > 0 {
        lemma_low_value_frame(s, t, (n - 1) as nat);
    }
}

/// `n` limbs hold a value below `2^(32 n)`.
pub proof fn lemma_low_value_bound(s: Seq<u32>, n: nat)
    requires
        n <= s.len(),
    ensures
        low_value(s, n) < pow32(n),
    decreases n,
{
    if n > 0 {
        lemma_low_value_bound(s, (n - 1) as nat);
        let lo = low_value(s, (n - 1) as nat);
        let w = pow32((n - 1) as nat);
        let d = s[s.len() - n] as nat;
        assert(lo + d * w < base() * w) by (nonlinear_arith)
            requires
                lo < w,
                d < base(),
                base() == 0x1_0000_0000,
        ;
    }
}

/// Replacing the limb of weight `2^(32 k)` moves the value by the difference
/// of the limbs times that weight.
pub proof fn lemma_low_value_update(s: Seq<u32>, k: nat, v: u32, n: nat)
    requires
        k < s.len(),
        n <= s.len(),
    ensures
        low_value(s.update(s.len() - 1 - k, v), n) == if k < n {
            low_value(s, n) + v * pow32(k) - s[s.len() - 1 - k] * pow32(k)
        } else {
            low_value(s, n) as int
        },
    decreases n,
{
    let t = s.update(s.len() - 1 - k, v);
    if n > 0 {
        lemma_low_value_update(s, k, v, (n - 1) as nat);
        assert(t.len() == s.len());
        if k != n - 1 {
            assert(t[t.len() - n] == s[s.len() - n]);
        }
    }
}

/// The value of a concatenation: the leading part is shifted up by the
/// length of the trailing part.
pub proof fn lemma_value_concat(hi: Seq<u32>, lo: Seq<u32>)
    ensures
        limbs_value(hi + lo) == limbs_value(hi) * pow32(lo.len()) + limbs_value(lo),
{
    let s = hi + lo;
    lemma_low_value_frame_suffix(s, lo, lo.len());
    lemma_concat_high(hi, lo, hi.len());
}

/// The `n` low limbs of `s` are those of any suffix of `s` that holds them.
pub proof fn lemma_low_value_frame_suffix(s: Seq<u32>, t: Seq<u32>, n: nat)
    requires
        t.len() <= s.len(),
        n <= t.len(),
        forall|i: int| 0 <= i < t.len() ==> t[i] == s[s.len() - t.len() + i],
    ensures
        low_value(s, n) == low_value(t, n),
    decreases n,
{
    if n > 0 {
        lemma_low_value_frame_suffix(s, t, (n - 1) as nat);
    }
}

proof fn lemma_concat_high(hi: Seq<u32>, lo: Seq<u32>, n: nat)
    requires
        n <= hi.len(),
    ensures
        low_value(hi + lo, lo.len() + n) == low_value(hi, n) * pow32(lo.len()) + low_value(
            hi + lo,
            lo.len(),
        ),
    decreases n,
{
    let s = hi + lo;
    let m = lo.len();
    if n == 0 {
        assert(low_value(hi, 0) * pow32(m) == 0) by (nonlinear_arith)
            requires
                low_value(hi, 0) == 0,
        ;
    } else {
        lemma_concat_high(hi, lo, (n - 1) as nat);
        lemma_pow32_add((n - 1) as nat, m);
        let d = hi[hi.len() - n] as nat;
        assert(s[s.len() - (m + n)] == hi[hi.len() - n]);
        let a = low_value(hi, (n - 1) as nat);
        let w = pow32((n - 1) as nat);
        let pm = pow32(m);
        assert(pow32((m + n - 1) as nat) == w * pm);
        assert((a + d * w) * pm == a * pm + d * (w * pm)) by (nonlinear_arith);
    }
}

/// The value of eight limbs, limb by limb.
pub proof fn lemma_value_of_8(s: Seq<u32>)
    requires
        s.len() == 8,
    ensures
        limbs_value(s) == s[7] + s[6] * 0x1_0000_0000 + s[5] * 0x1_0000_0000_0000_0000 + s[4]
            * 0x1_0000_0000_0000_0000_0000_0000 + s[3] * 0x1_0000_0000_0000_0000_0000_0000_0000_0000
            + s[2] * 0x1_0000_0000_0000_0000_0000_0000_0000_0000_0000_0000nat + s[1]
            * 0x1_0000_0000_0000_0000_0000_0000_0000_0000_0000_0000_0000_0000nat + s[0]
            * 0x1_0000_0000_0000_0000_0000_0000_0000_0000_0000_0000_0000_0000_0000_0000nat,
{
    reveal_with_fuel(low_value, 9);
    lemma_pow32_values();
}

/// The powers of the limb base up to `2^256`.
pub proof fn lemma_pow32_values()
    ensures
        pow32(0) == 1,
        pow32(1) == 0x1_0000_0000,
        pow32(2) == 0x1_0000_0000_0000_0000,
        pow32(3) == 0x1_0000_0000_0000_0000_0000_0000,
        pow32(4) == 0x1_0000_0000_0000_0000_0000_0000_0000_0000,
        pow32(5) == 0x1_0000_0000_0000_0000_0000_0000_0000_0000_0000_0000nat,
        pow32(6) == 0x1_0000_0000_0000_0000_0000_0000_0000_0000_0000_0000_0000_0000nat,
        pow32(7) == 0x1_0000_0000_0000_0000_0000_0000_0000_0000_0000_0000_0000_0000_0000_0000nat,
        pow32(8)
            == 0x1_0000_0000_0000_0000_0000_0000_0000_0000_0000_0000_0000_0000_0000_0000_0000_0000nat,
{
    assert(pow32(0) == 1);
    assert(pow32(1) == base() * pow32(0));
    assert(pow32(2) == base() * pow32(1));
    assert(pow32(3) == base() * pow32(2));
    assert(pow32(4) == base() * pow32(3));
    assert(pow32(5) == base() * pow32(4));
    assert(pow32(6) == base() * pow32(5));
    assert(pow32(7) == base() * pow32(6));
    assert(pow32(8) == base() * pow32(7));
}

} // verus!
