//! The scalar splitter: a 256-bit scalar cut into windows of `W` bits, window
//! 0 the least significant.

use vstd::prelude::*;
use vstd::arithmetic::div_mod::{
    lemma_div_denominator, lemma_fundamental_div_mod, lemma_fundamental_div_mod_converse,
    lemma_mod_multiples_vanish,
};
use vstd::arithmetic::power2::{lemma2_to64, lemma_pow2_adds, lemma_pow2_pos, pow2};
use vstd::bits::{lemma_u64_shl_is_mul, lemma_u64_shr_is_div};
use crate::limbs::{
    lemma_low_value_bound, lemma_low_value_frame_suffix, lemma_pow32_positive, lemma_value_concat,
    limbs_value, low_value, pow32,
};

verus! {

/// The number of windows of `w` bits that cover 256 bits.
pub open spec fn window_total(w: nat) -> nat {
    ((256 + w - 1) / (w as int)) as nat
}

/// Window `k` of the integer `s` cut into windows of `w` bits: the bits of
/// weight `2^(k w)` to `2^(k w + w - 1)`.
pub open spec fn window_value(s: nat, w: nat, k: nat) -> nat {
    (s / pow2(k * w)) % pow2(w)
}

/// The windows of `s`, window 0 first.
pub open spec fn windows_of(s: nat, w: nat) -> Seq<u32> {
    Seq::new(window_total(w), |k: int| window_value(s, w, k as nat) as u32)
}

proof fn lemma_pow32_is_pow2(j: nat)
    ensures
        pow32(j) == pow2(32 * j),
    decreases j,
{
    lemma2_to64();
    if j > 0 {
        lemma_pow32_is_pow2((j - 1) as nat);
        lemma_pow2_adds(32, (32 * (j - 1)) as nat);
    }
}

/// The value of the limbs above the `n` least significant ones.
pub open spec fn high_value(s: Seq<u32>, n: nat) -> nat {
    if n >= s.len() {
        0
    } else {
        limbs_value(s.subrange(0, s.len() - n))
    }
}

proof fn lemma_high_low(s: Seq<u32>, n: nat)
    requires
        n <= s.len(),
    ensures
        limbs_value(s) == low_value(s, n) + pow32(n) * high_value(s, n),
{
    if n == s.len() {
        assert(pow32(n) * 0 == 0);
    } else {
        let hi = s.subrange(0, s.len() - n);
        let lo = s.subrange(s.len() - n, s.len() as int);
        assert(s =~= hi + lo);
        lemma_value_concat(hi, lo);
        lemma_low_value_frame_suffix(s, lo, n);
        assert(limbs_value(hi) * pow32(n) == pow32(n) * limbs_value(hi)) by (nonlinear_arith);
    }
}

proof fn lemma_window_arithmetic(l: int, m: int, h: int, x: int, po: int, ph: int, pw: int)
    requires
        0 <= l < x,
        0 <= m,
        0 <= h,
        0 < po,
        0 < ph,
        0 < pw,
    ensures
        ((l + m * x + h * x * (po * ph * pw)) / (x * po)) % pw == (m / po) % pw,
{
    let y = po * ph * pw;
    let v = l + m * x + h * x * y;
    assert(0 <= h * x * y && 0 <= m * x) by (nonlinear_arith)
        requires
            0 <= h,
            0 < x,
            0 < po,
            0 < ph,
            0 < pw,
            0 <= m,
            y == po * ph * pw,
    ;
    lemma_div_denominator(v, x, po);
    assert(v == (m + h * y) * x + l) by (nonlinear_arith)
        requires
            v == l + m * x + h * x * y,
    ;
    lemma_fundamental_div_mod_converse(v, x, m + h * y, l);
    lemma_fundamental_div_mod(m, po);
    let mq = m / po;
    let mr = m % po;
    assert(m + h * y == (mq + h * ph * pw) * po + mr) by (nonlinear_arith)
        requires
            m == po * mq + mr,
            y == po * ph * pw,
    ;
    lemma_fundamental_div_mod_converse(m + h * y, po, mq + h * ph * pw, mr);
    lemma_mod_multiples_vanish(h * ph, mq, pw);
    assert(pw * (h * ph) + mq == mq + h * ph * pw) by (nonlinear_arith);
}

/// Window `k` of a scalar lies in two neighbouring limbs: it is the `w` bits
/// from bit `off` on of the 64-bit word that the limbs of weight `2^(32 j)`
/// and `2^(32 j + 32)` make, where `k w = 32 j + off`.
proof fn lemma_window_in_two_limbs(s: Seq<u32>, w: nat, k: nat, j: nat, off: nat)
    requires
        s.len() == 8,
        1 <= w <= 32,
        k * w == 32 * j + off,
        off < 32,
        j < 8,
    ensures
        window_value(limbs_value(s), w, k) == ((s[7 - j] + (if j < 7 {
            s[6 - j] as int
        } else {
            0
        }) * 0x1_0000_0000) / (pow2(off) as int)) % (pow2(w) as int),
{
    let lo = s[7 - j] as int;
    let hi = if j < 7 {
        s[6 - j] as int
    } else {
        0
    };
    let m = lo + hi * 0x1_0000_0000;
    let l = low_value(s, j) as int;
    let x = pow32(j) as int;
    let n = if j < 7 {
        j + 2
    } else {
        8
    };
    let h = high_value(s, n) as int;
    lemma2_to64();
    lemma_pow32_positive(j);
    lemma_low_value_bound(s, j);
    lemma_high_low(s, n);
    lemma_pow32_is_pow2(j);
    lemma_pow2_pos(off);
    lemma_pow2_pos(w);
    lemma_pow2_pos((64 - off - w) as nat);
    lemma_pow2_adds(off, (64 - off - w) as nat);
    lemma_pow2_adds((64 - w) as nat, w);
    lemma_pow2_adds(32 * j, off);
    let po = pow2(off) as int;
    let ph = pow2((64 - off - w) as nat) as int;
    let pw = pow2(w) as int;
    assert(po * ph * pw == 0x1_0000_0000_0000_0000);
    // the value as its low part, the two limbs and what lies above
    reveal_with_fuel(pow32, 3);
    reveal_with_fuel(low_value, 3);
    if j < 7 {
        assert(low_value(s, n) == l + lo * x + hi * (0x1_0000_0000 * x));
        assert(pow32(n) == 0x1_0000_0000 * (0x1_0000_0000 * x));
        assert(limbs_value(s) == l + m * x + h * x * (po * ph * pw)) by (nonlinear_arith)
            requires
                limbs_value(s) == l + lo * x + hi * (0x1_0000_0000 * x) + (0x1_0000_0000 * (
                0x1_0000_0000 * x)) * h,
                m == lo + hi * 0x1_0000_0000,
                po * ph * pw == 0x1_0000_0000_0000_0000,
        ;
    } else {
        assert(low_value(s, 8) == l + lo * x);
        assert(h == 0);
        assert(limbs_value(s) == l + m * x + h * x * (po * ph * pw)) by (nonlinear_arith)
            requires
                limbs_value(s) == l + lo * x,
                m == lo,
                h == 0,
        ;
    }
    lemma_window_arithmetic(l, m, h, x, po, ph, pw);
    assert(pow2(k * w) == x * po);
}

/// Window `k` of `scalar` cut into windows of `w` bits, from at most two
/// limbs by a shift and a mask.
pub fn extract_window(scalar: &[u32; 8], w: usize, k: usize) -> (r: u32)
    requires
        1 <= w <= 32,
        k * w < 256,
    ensures
        r == window_value(limbs_value(scalar@), w as nat, k as nat),
{
    assert(k < 256 && k * w >= 0) by (nonlinear_arith)
        requires
            k * w < 256,
            w >= 1,
    ;
    let bit = k * w;
    let j = bit / 32;
    let off = bit % 32;
    let lo = scalar[7 - j] as u64;
    let hi: u64 = if j < 7 {
        scalar[6 - j] as u64
    } else {
        0
    };
    let word: u64 = lo + hi * 0x1_0000_0000;
    proof {
        lemma2_to64();
        lemma_pow2_pos(w as nat);
        lemma_u64_shr_is_div(word, off as u64);
        lemma_u64_shl_is_mul(1, w as u64);
        vstd::arithmetic::power2::lemma_pow2_strictly_increases(w as nat, 33);
        lemma_window_in_two_limbs(scalar@, w as nat, k as nat, j as nat, off as nat);
    }
    let mask: u64 = 1u64 << (w as u64);
    let window = (word >> (off as u64)) % mask;
    window as u32
}

/// The number of windows of `w` bits that cover 256 bits.
pub fn window_count(w: usize) -> (n: usize)
    requires
        1 <= w <= 32,
    ensures
        n == window_total(w as nat),
        1 <= n <= 256,
        (n - 1) * w < 256,
        n * w >= 256,
{
    let n = (256 + w - 1) / w;
    proof {
        lemma_fundamental_div_mod(256 + w - 1, w as int);
        let q = (256 + w - 1) / (w as int);
        let r = (256 + w - 1) % (w as int);
        assert(q * w == w * q) by (nonlinear_arith);
        assert(q >= 1 && q <= 256) by (nonlinear_arith)
            requires
                256 + w - 1 == w * q + r,
                0 <= r < w,
                1 <= w <= 32,
        ;
        assert((q - 1) * w == w * q - w) by (nonlinear_arith);
    }
    n
}

/// The windows of `scalar`, window 0 (the least significant) first.
pub fn split_scalar(scalar: &[u32; 8], w: usize) -> (out: Vec<u32>)
    requires
        1 <= w <= 32,
    ensures
        out@ == windows_of(limbs_value(scalar@), w as nat),
{
    let n = window_count(w);
    let mut out: Vec<u32> = Vec::with_capacity(n);
    let mut k: usize = 0;
    while k < n
        invariant
            k <= n,
            1 <= w <= 32,
            n == window_total(w as nat),
            (n - 1) * w < 256,
            out.len() == k,
            forall|i: int|
                0 <= i < k ==> out[i] == window_value(limbs_value(scalar@), w as nat, i as nat),
        decreases n - k,
    {
        assert(k * w <= (n - 1) * w) by (nonlinear_arith)
            requires
                k <= n - 1,
                w >= 1,
        ;
        let window = extract_window(scalar, w, k);
        out.push(window);
        k += 1;
    }
    assert(out@ =~= windows_of(limbs_value(scalar@), w as nat));
    out
}

/// A splitter of 256-bit scalars into windows of a fixed size.
pub trait SplitImpl {
    /// The window size in bits.
    spec fn window_bits() -> nat;

    /// The window size in bits.
    fn window_size() -> (w: usize)
        ensures
            w == Self::window_bits(),
            1 <= w <= 32,
    ;

    /// The number of windows.
    fn n_windows() -> (n: usize)
        ensures
            n == window_total(Self::window_bits()),
            1 <= n <= 256,
    ;

    /// The windows of `scalar`, window 0 (the least significant) first.
    fn split(scalar: &[u32; 8]) -> (out: Vec<u32>)
        ensures
            out@ == windows_of(limbs_value(scalar@), Self::window_bits()),
    ;
}

/// The splitter for windows of 8 bits: 32 windows.
pub struct Split8;

impl SplitImpl for Split8 {
    open spec fn window_bits() -> nat {
        8
    }

    fn window_size() -> (w: usize) {
        8
    }

    fn n_windows() -> (n: usize) {
        window_count(8)
    }

    fn split(scalar: &[u32; 8]) -> (out: Vec<u32>) {
        split_scalar(scalar, 8)
    }
}

/// The splitter for windows of 9 bits: 29 windows.
pub struct Split9;

impl SplitImpl for Split9 {
    open spec fn window_bits() -> nat {
        9
    }

    fn window_size() -> (w: usize) {
        9
    }

    fn n_windows() -> (n: usize) {
        window_count(9)
    }

    fn split(scalar: &[u32; 8]) -> (out: Vec<u32>) {
        split_scalar(scalar, 9)
    }
}

/// The splitter for windows of 10 bits: 26 windows.
pub struct Split10;

impl SplitImpl for Split10 {
    open spec fn window_bits() -> nat {
        10
    }

    fn window_size() -> (w: usize) {
        10
    }

    fn n_windows() -> (n: usize) {
        window_count(10)
    }

    fn split(scalar: &[u32; 8]) -> (out: Vec<u32>) {
        split_scalar(scalar, 10)
    }
}

/// The splitter for windows of 11 bits: 24 windows.
pub struct Split11;

impl SplitImpl for Split11 {
    open spec fn window_bits() -> nat {
        11
    }

    fn window_size() -> (w: usize) {
        11
    }

    fn n_windows() -> (n: usize) {
        window_count(11)
    }

    fn split(scalar: &[u32; 8]) -> (out: Vec<u32>) {
        split_scalar(scalar, 11)
    }
}

/// The splitter for windows of 12 bits: 22 windows.
pub struct Split12;

impl SplitImpl for Split12 {
    open spec fn window_bits() -> nat {
        12
    }

    fn window_size() -> (w: usize) {
        12
    }

    fn n_windows() -> (n: usize) {
        window_count(12)
    }

    fn split(scalar: &[u32; 8]) -> (out: Vec<u32>) {
        split_scalar(scalar, 12)
    }
}

/// The splitter for windows of 13 bits: 20 windows.
pub struct Split13;

impl SplitImpl for Split13 {
    open spec fn window_bits() -> nat {
        13
    }

    fn window_size() -> (w: usize) {
        13
    }

    fn n_windows() -> (n: usize) {
        window_count(13)
    }

    fn split(scalar: &[u32; 8]) -> (out: Vec<u32>) {
        split_scalar(scalar, 13)
    }
}

/// The splitter for windows of 14 bits: 19 windows.
pub struct Split14;

impl SplitImpl for Split14 {
    open spec fn window_bits() -> nat {
        14
    }

    fn window_size() -> (w: usize) {
        14
    }

    fn n_windows() -> (n: usize) {
        window_count(14)
    }

    fn split(scalar: &[u32; 8]) -> (out: Vec<u32>) {
        split_scalar(scalar, 14)
    }
}

/// The splitter for windows of 15 bits: 18 windows.
pub struct Split15;

impl SplitImpl for Split15 {
    open spec fn window_bits() -> nat {
        15
    }

    fn window_size() -> (w: usize) {
        15
    }

    fn n_windows() -> (n: usize) {
        window_count(15)
    }

    fn split(scalar: &[u32; 8]) -> (out: Vec<u32>) {
        split_scalar(scalar, 15)
    }
}

/// The splitter for windows of 16 bits: 16 windows.
pub struct Split16;

impl SplitImpl for Split16 {
    open spec fn window_bits() -> nat {
        16
    }

    fn window_size() -> (w: usize) {
        16
    }

    fn n_windows() -> (n: usize) {
        window_count(16)
    }

    fn split(scalar: &[u32; 8]) -> (out: Vec<u32>) {
        split_scalar(scalar, 16)
    }
}

/// The splitter for windows of 20 bits: 13 windows.
pub struct Split20;

impl SplitImpl for Split20 {
    open spec fn window_bits() -> nat {
        20
    }

    fn window_size() -> (w: usize) {
        20
    }

    fn n_windows() -> (n: usize) {
        window_count(20)
    }

    fn split(scalar: &[u32; 8]) -> (out: Vec<u32>) {
        split_scalar(scalar, 20)
    }
}

/// Scalar `i` of a flat array of scalars, eight limbs each.
pub open spec fn scalar_at(flat: Seq<u32>, i: int) -> Seq<u32> {
    flat.subrange(8 * i, 8 * i + 8)
}

/// The place of window `j` of scalar `i` in the split of `n` scalars: the
/// windows of one index stand together.
pub open spec fn flat_index(j: int, n: int, i: int) -> int {
    j * n + i
}

proof fn lemma_flat_index(n: int, windows: int, i: int, j: int, i2: int, j2: int)
    by (nonlinear_arith)
    requires
        0 <= i < n,
        0 <= i2 < n,
        0 <= j < windows,
        0 <= j2 < windows,
    ensures
        0 <= j * n + i < windows * n,
        j * n + i == j2 * n + i2 ==> i == i2 && j == j2,
{
}

/// The eight limbs of scalar `i`.
fn scalar_limbs(flat: &[u32], i: usize) -> (r: [u32; 8])
    requires
        8 * i + 8 <= flat.len(),
    ensures
        r@ == scalar_at(flat@, i as int),
{
    let b = 8 * i;
    let r = [
        flat[b],
        flat[b + 1],
        flat[b + 2],
        flat[b + 3],
        flat[b + 4],
        flat[b + 5],
        flat[b + 6],
        flat[b + 7],
    ];
    assert(r@ =~= scalar_at(flat@, i as int));
    r
}

/// Splits each scalar of a flat array into windows. The result holds window
/// `j` of scalar `i` at `j n + i`, where `n` is the number of scalars.
pub fn split<S: SplitImpl>(scalars_flat: &[u32]) -> (result: Vec<u32>)
    requires
        scalars_flat.len() % 8 == 0,
        (scalars_flat.len() / 8) * window_total(S::window_bits()) <= usize::MAX,
    ensures
        result.len() == (scalars_flat.len() / 8) * window_total(S::window_bits()),
        forall|i: int, j: int|
            0 <= i < scalars_flat.len() / 8 && 0 <= j < window_total(S::window_bits())
                ==> #[trigger] result[flat_index(j, scalars_flat.len() as int / 8, i)]
                == window_value(
                limbs_value(scalar_at(scalars_flat@, i)),
                S::window_bits(),
                j as nat,
            ),
{
    let n_points = scalars_flat.len() / 8;
    let windows = S::n_windows();
    let width = S::window_size();
    let mut result: Vec<u32> = Vec::new();
    let total = n_points * windows;
    let mut fill: usize = 0;
    while fill < total
        invariant
            fill <= total,
            result.len() == fill,
        decreases total - fill,
    {
        result.push(0);
        fill += 1;
    }
    let mut i: usize = 0;
    while i < n_points
        invariant
            i <= n_points,
            n_points == scalars_flat.len() / 8,
            windows == window_total(S::window_bits()),
            1 <= S::window_bits() <= 32,
            result.len() == n_points * windows,
            forall|a: int, b: int|
                0 <= a < i && 0 <= b < windows ==> #[trigger] result[flat_index(
                    b,
                    n_points as int,
                    a,
                )] == window_value(
                    limbs_value(scalar_at(scalars_flat@, a)),
                    S::window_bits(),
                    b as nat,
                ),
        decreases n_points - i,
    {
        let scalar = scalar_limbs(scalars_flat, i);
        let parts = S::split(&scalar);
        let mut j: usize = 0;
        while j < windows
            invariant
                j <= windows,
                i < n_points,
                windows == window_total(S::window_bits()),
                1 <= S::window_bits() <= 32,
                result.len() == n_points * windows,
                parts@ == windows_of(limbs_value(scalar_at(scalars_flat@, i as int)), S::window_bits()),
                forall|a: int, b: int|
                    0 <= a < i && 0 <= b < windows ==> #[trigger] result[flat_index(
                        b,
                        n_points as int,
                        a,
                    )] == window_value(
                        limbs_value(scalar_at(scalars_flat@, a)),
                        S::window_bits(),
                        b as nat,
                    ),
                forall|b: int|
                    0 <= b < j ==> #[trigger] result[flat_index(b, n_points as int, i as int)]
                        == window_value(
                        limbs_value(scalar_at(scalars_flat@, i as int)),
                        S::window_bits(),
                        b as nat,
                    ),
            decreases windows - j,
        {
            proof {
                lemma_flat_index(n_points as int, windows as int, i as int, j as int, 0, 0);
                assert(windows * n_points == n_points * windows) by (nonlinear_arith);
            }
            let at = j * n_points + i;
            let ghost before = result@;
            result[at] = parts[j];
            proof {
                assert(at == flat_index(j as int, n_points as int, i as int));
                assert(result@ == before.update(at as int, parts@[j as int]));
                lemma_window_fits(limbs_value(scalar_at(scalars_flat@, i as int)), S::window_bits(), j as nat);
                assert forall|a: int, b: int| 0 <= a < i && 0 <= b < windows implies #[trigger] result[flat_index(
                    b,
                    n_points as int,
                    a,
                )] == window_value(
                    limbs_value(scalar_at(scalars_flat@, a)),
                    S::window_bits(),
                    b as nat,
                ) by {
                    lemma_flat_index(n_points as int, windows as int, i as int, j as int, a, b);
                    lemma_flat_index(n_points as int, windows as int, a, b, a, b);
                    assert(before[flat_index(b, n_points as int, a)] == window_value(
                        limbs_value(scalar_at(scalars_flat@, a)),
                        S::window_bits(),
                        b as nat,
                    ));
                }
                assert forall|b: int| 0 <= b < j + 1 implies #[trigger] result[flat_index(
                    b,
                    n_points as int,
                    i as int,
                )] == window_value(
                    limbs_value(scalar_at(scalars_flat@, i as int)),
                    S::window_bits(),
                    b as nat,
                ) by {
                    lemma_flat_index(n_points as int, windows as int, i as int, j as int, i as int, b);
                    lemma_flat_index(n_points as int, windows as int, i as int, b, i as int, b);
                    if b < j {
                        assert(before[flat_index(b, n_points as int, i as int)] == window_value(
                            limbs_value(scalar_at(scalars_flat@, i as int)),
                            S::window_bits(),
                            b as nat,
                        ));
                    }
                }
            }
            j += 1;
        }
        i += 1;
    }
    result
}

/// A window of at most 32 bits fits a 32-bit word.
pub proof fn lemma_window_fits(s: nat, w: nat, k: nat)
    requires
        1 <= w <= 32,
    ensures
        window_value(s, w, k) < pow2(w),
        window_value(s, w, k) <= 0xffff_ffff,
{
    lemma2_to64();
    lemma_pow2_pos(w);
    vstd::arithmetic::div_mod::lemma_mod_bound((s / pow2(k * w)) as int, pow2(w) as int);
    if w < 32 {
        vstd::arithmetic::power2::lemma_pow2_strictly_increases(w, 32);
    }
}

/// Splits each scalar into windows of 16 bits.
pub fn split_16(scalars_flat: &[u32]) -> (result: Vec<u32>)
    requires
        scalars_flat.len() % 8 == 0,
        (scalars_flat.len() / 8) * 16 <= usize::MAX,
    ensures
        result.len() == (scalars_flat.len() / 8) * 16,
        forall|i: int, j: int|
            0 <= i < scalars_flat.len() / 8 && 0 <= j < 16 ==> #[trigger] result[flat_index(
                j,
                scalars_flat.len() as int / 8,
                i,
            )] == window_value(limbs_value(scalar_at(scalars_flat@, i)), 16, j as nat),
{
    split::<Split16>(scalars_flat)
}

/// The window sizes that have a splitter: 8 to 16 bits, and 20.
pub open spec fn window_has_splitter(w: nat) -> bool {
    8 <= w <= 16 || w == 20
}

/// Splits each scalar of a flat array into windows of `window_size` bits.
/// The result holds window `j` of scalar `i` at `j n + i`, where `n` is the
/// number of scalars.
pub fn split_dynamic(window_size: u32, scalars_flat: &[u32]) -> (result: Vec<u32>)
    requires
        window_has_splitter(window_size as nat),
        scalars_flat.len() % 8 == 0,
        (scalars_flat.len() / 8) * window_total(window_size as nat) <= usize::MAX,
    ensures
        result.len() == (scalars_flat.len() / 8) * window_total(window_size as nat),
        forall|i: int, j: int|
            0 <= i < scalars_flat.len() / 8 && 0 <= j < window_total(window_size as nat)
                ==> #[trigger] result[flat_index(j, scalars_flat.len() as int / 8, i)]
                == window_value(
                limbs_value(scalar_at(scalars_flat@, i)),
                window_size as nat,
                j as nat,
            ),
{
    if window_size == 8 {
        split::<Split8>(scalars_flat)
    } else if window_size == 9 {
        split::<Split9>(scalars_flat)
    } else if window_size == 10 {
        split::<Split10>(scalars_flat)
    } else if window_size == 11 {
        split::<Split11>(scalars_flat)
    } else if window_size == 12 {
        split::<Split12>(scalars_flat)
    } else if window_size == 13 {
        split::<Split13>(scalars_flat)
    } else if window_size == 14 {
        split::<Split14>(scalars_flat)
    } else if window_size == 15 {
        split::<Split15>(scalars_flat)
    } else if window_size == 16 {
        split::<Split16>(scalars_flat)
    } else {
        split::<Split20>(scalars_flat)
    }
}

} // verus!
