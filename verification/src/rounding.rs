//! Rounding a positive rational number to the nearest single-precision
//! magnitude, ties to even.
//!
//! A *magnitude* is the bit pattern of a non-negative single-precision number
//! read as an integer: magnitudes are ordered as the numbers they stand for,
//! and every finite one is a whole number of units of `2^-149`.

use vstd::arithmetic::power2::*;
use vstd::bits::*;
use vstd::prelude::*;
use vstd::std_specs::bits::*;

verus! {

/// Magnitudes per binade, and the weight of the implicit leading bit.
pub const BINADE: u32 = 0x80_0000;

/// The magnitude of infinity, one past the largest finite magnitude.
pub const INFINITE: u32 = 0x7F80_0000;

/// The number a magnitude stands for, in units of `2^-149`.
///
/// Infinity's magnitude is given the value that continues the sequence, which
/// is what makes overflow an ordinary case of rounding to nearest.
pub open spec fn units(m: int) -> int {
    if m < 2 * BINADE {
        m
    } else {
        (m % BINADE as int + BINADE) * pow2((m / BINADE as int - 1) as nat)
    }
}

/// `r` is the magnitude nearest to `num / den` units, ties to even.
pub open spec fn rounds_to(num: int, den: int, r: int) -> bool {
    &&& 0 <= r <= INFINITE
    &&& r < INFINITE ==> {
        ||| 2 * num < den * (units(r) + units(r + 1))
        ||| 2 * num == den * (units(r) + units(r + 1)) && r % 2 == 0
    }
    &&& r > 0 ==> {
        ||| 2 * num > den * (units(r - 1) + units(r))
        ||| 2 * num == den * (units(r - 1) + units(r)) && r % 2 == 0
    }
}

/// The magnitude nearest to `num / den` units, ties to even.
#[verifier::opaque]
pub open spec fn nearest(num: int, den: int) -> int {
    choose|r: int| rounds_to(num, den, r)
}

/// Exponent of the distance between a magnitude and its successor.
spec fn gap(m: int) -> nat {
    if m < 2 * BINADE {
        0
    } else {
        (m / BINADE as int - 1) as nat
    }
}

proof fn lemma_units_step(m: int)
    requires
        0 <= m < INFINITE,
    ensures
        units(m + 1) == units(m) + pow2(gap(m)),
        units(m) < units(m + 1),
{
    lemma_pow2_pos(gap(m));
    lemma2_to64();
    if m + 1 < 2 * BINADE {
    } else if m < 2 * BINADE {
        assert((m + 1) % BINADE as int == 0);
        assert((m + 1) / BINADE as int == 2);
        assert(units(m + 1) == (0 + BINADE) * pow2(1));
    } else {
        let k = m / BINADE as int;
        let f = m % BINADE as int;
        let g = (k - 1) as nat;
        if f + 1 < BINADE {
            assert((m + 1) / BINADE as int == k && (m + 1) % BINADE as int == f + 1);
            assert((f + 1 + BINADE) * pow2(g) == (f + BINADE) * pow2(g) + pow2(g))
                by (nonlinear_arith);
        } else {
            assert((m + 1) / BINADE as int == k + 1 && (m + 1) % BINADE as int == 0);
            lemma_pow2_unfold(k as nat);
            assert(pow2(k as nat) == 2 * pow2(g));
            assert(units(m + 1) == (0 + BINADE) * pow2(k as nat));
            assert((f + BINADE) * pow2(g) + pow2(g) == BINADE * (2 * pow2(g))) by (nonlinear_arith)
                requires
                    f + 1 == BINADE,
            ;
        }
    }
}

/// Magnitudes are ordered as the numbers they stand for.
pub proof fn lemma_units_increasing(a: int, b: int)
    requires
        0 <= a < b <= INFINITE,
    ensures
        units(a) < units(b),
    decreases b - a,
{
    lemma_units_step(b - 1);
    if a < b - 1 {
        lemma_units_increasing(a, b - 1);
    }
}

pub proof fn lemma_units_nonneg(a: int)
    requires
        0 <= a <= INFINITE,
    ensures
        units(a) >= 0,
        a > 0 ==> units(a) > 0,
{
    if a > 0 {
        lemma_units_increasing(0, a);
    }
}

/// A number has only one nearest magnitude.
pub proof fn lemma_rounds_to_unique(num: int, den: int, a: int, b: int)
    requires
        den > 0,
        rounds_to(num, den, a),
        rounds_to(num, den, b),
    ensures
        a == b,
{
    if a < b {
        lemma_rounds_to_ordered(num, den, a, b);
    } else if b < a {
        lemma_rounds_to_ordered(num, den, b, a);
    }
}

proof fn lemma_rounds_to_ordered(num: int, den: int, a: int, b: int)
    requires
        den > 0,
        rounds_to(num, den, a),
        a < b <= INFINITE,
    ensures
        !rounds_to(num, den, b),
{
    lemma_units_step(a);
    lemma_units_step(b - 1);
    let low = units(a) + units(a + 1);
    let high = units(b - 1) + units(b);
    if a + 1 < b {
        lemma_units_increasing(a, b - 1);
        lemma_units_increasing(a + 1, b);
        assert(low < high);
        assert(den * low < den * high) by (nonlinear_arith)
            requires
                den > 0,
                low < high,
        ;
    } else {
        assert(a % 2 != b % 2);
    }
}

/// Whatever rounds a number rounds it to [`nearest`].
pub proof fn lemma_nearest(num: int, den: int, r: int)
    requires
        den > 0,
        rounds_to(num, den, r),
    ensures
        nearest(num, den) == r,
{
    reveal(nearest);
    lemma_rounds_to_unique(num, den, r, choose|q: int| rounds_to(num, den, q));
}

/// Rounding keeps the order of numbers.
pub proof fn lemma_rounds_to_monotone(x: int, y: int, den: int, a: int, b: int)
    requires
        den > 0,
        x <= y,
        rounds_to(x, den, a),
        rounds_to(y, den, b),
    ensures
        a <= b,
{
    if b < a {
        lemma_units_step(b);
        lemma_units_step(a - 1);
        let low = units(b) + units(b + 1);
        let high = units(a - 1) + units(a);
        if b + 1 < a {
            lemma_units_increasing(b, a - 1);
            lemma_units_increasing(b + 1, a);
            assert(den * low < den * high) by (nonlinear_arith)
                requires
                    den > 0,
                    low < high,
            ;
        }
        if x == y {
            lemma_rounds_to_unique(x, den, a, b);
        }
    }
}

/// Every number has a nearest magnitude.
pub proof fn lemma_nearest_exists(num: int, den: int)
    requires
        num >= 0,
        den > 0,
    ensures
        rounds_to(num, den, nearest(num, den)),
        0 <= nearest(num, den) <= INFINITE,
{
    let r = lemma_search(num, den, INFINITE as int);
    lemma_nearest(num, den, r);
}

proof fn lemma_search(num: int, den: int, m: int) -> (r: int)
    requires
        num >= 0,
        den > 0,
        0 <= m <= INFINITE,
        m < INFINITE ==> 2 * num <= den * (units(m) + units(m + 1)),
        m < INFINITE && m % 2 != 0 ==> 2 * num < den * (units(m) + units(m + 1)),
    ensures
        rounds_to(num, den, r),
    decreases m,
{
    if m == 0 || 2 * num > den * (units(m - 1) + units(m)) || (2 * num == den * (units(m - 1)
        + units(m)) && m % 2 == 0) {
        m
    } else {
        lemma_search(num, den, m - 1)
    }
}

/// `num / den` units of either sign, rounded.
pub open spec fn rounded(num: int, den: int) -> int {
    if num < 0 {
        -units(nearest(-num, den))
    } else {
        units(nearest(num, den))
    }
}

/// Rounding keeps the order of numbers of either sign.
pub proof fn lemma_rounded_monotone(x: int, y: int, den: int)
    requires
        den > 0,
        x <= y,
    ensures
        rounded(x, den) <= rounded(y, den),
{
    let (ax, ay) = (vstd::math::abs(x) as int, vstd::math::abs(y) as int);
    lemma_nearest_exists(ax, den);
    lemma_nearest_exists(ay, den);
    let (a, b) = (nearest(ax, den), nearest(ay, den));
    lemma_units_nonneg(a);
    lemma_units_nonneg(b);
    if x >= 0 {
        lemma_rounds_to_monotone(ax, ay, den, a, b);
        if a < b {
            lemma_units_increasing(a, b);
        }
    } else if y < 0 {
        lemma_rounds_to_monotone(ay, ax, den, b, a);
        if b < a {
            lemma_units_increasing(b, a);
        }
    }
}

/// What a finite magnitude stands for is not changed by rounding.
pub proof fn lemma_rounded_exact(m: int, den: int)
    requires
        0 <= m < INFINITE,
        den > 0,
    ensures
        rounded(units(m) * den, den) == units(m),
        rounded(-(units(m) * den), den) == -units(m),
{
    lemma_rounds_to_exact(m, den);
    lemma_nearest(units(m) * den, den, m);
    lemma_units_nonneg(m);
    assert(units(m) * den >= 0) by (nonlinear_arith)
        requires
            units(m) >= 0,
            den > 0,
    ;
    if units(m) * den == 0 {
        assert(units(m) == 0) by (nonlinear_arith)
            requires
                units(m) * den == 0,
                den > 0,
        ;
    }
}

/// Rounding depends on the number alone, not on the fraction it is written as.
pub proof fn lemma_rounds_to_scale(num: int, den: int, k: int, r: int)
    requires
        k > 0,
    ensures
        rounds_to(num * k, den * k, r) == rounds_to(num, den, r),
{
    if 0 <= r <= INFINITE {
        lemma_scale(num, den, k, units(r) + units(r + 1));
        lemma_scale(num, den, k, units(r - 1) + units(r));
    }
}

proof fn lemma_scale(num: int, den: int, k: int, v: int)
    requires
        k > 0,
    ensures
        2 * num < den * v <==> 2 * (num * k) < (den * k) * v,
        2 * num == den * v <==> 2 * (num * k) == (den * k) * v,
{
    let x = 2 * num;
    let y = den * v;
    assert(2 * (num * k) == x * k && (den * k) * v == y * k) by (nonlinear_arith)
        requires
            x == 2 * num,
            y == den * v,
    ;
    assert(x < y <==> x * k < y * k) by (nonlinear_arith)
        requires
            k > 0,
    ;
    assert(x == y <==> x * k == y * k) by (nonlinear_arith)
        requires
            k > 0,
    ;
}

/// A finite magnitude is its own rounding.
pub proof fn lemma_rounds_to_exact(r: int, den: int)
    requires
        0 <= r < INFINITE,
        den > 0,
    ensures
        rounds_to(units(r) * den, den, r),
{
    lemma_units_step(r);
    if r > 0 {
        lemma_units_step(r - 1);
    }
    let a = units(r);
    let b = units(r + 1);
    let c = units(r - 1);
    assert(2 * (a * den) < den * (a + b)) by (nonlinear_arith)
        requires
            a < b,
            den > 0,
    ;
    if r > 0 {
        assert(2 * (a * den) > den * (c + a)) by (nonlinear_arith)
            requires
                c < a,
                den > 0,
        ;
    }
}

/// The magnitude with significand `sig` at exponent `j`.
proof fn lemma_compose(sig: int, j: int)
    requires
        0 <= j,
        0 <= sig <= 2 * BINADE,
        j > 0 ==> sig >= BINADE,
        sig + j * BINADE <= INFINITE,
    ensures
        units(sig + j * BINADE) == sig * pow2(j as nat),
        sig < 2 * BINADE ==> gap(sig + j * BINADE) == j,
        sig == 2 * BINADE ==> gap(sig + j * BINADE) == j + 1,
        sig > 0 && (sig > BINADE || j == 0) ==> gap(sig + j * BINADE - 1) == j,
        sig == BINADE && j > 0 ==> gap(sig + j * BINADE - 1) == j - 1,
{
    lemma2_to64();
    let m = sig + j * BINADE;
    if sig == 2 * BINADE {
        assert(m == (j + 2) * BINADE);
        assert(m % BINADE as int == 0 && m / BINADE as int == j + 2);
        lemma_pow2_unfold((j + 1) as nat);
        assert(BINADE * (2 * pow2(j as nat)) == (2 * BINADE) * pow2(j as nat))
            by (nonlinear_arith);
        assert((m - 1) / BINADE as int == j + 1);
        assert(units(m) == (0 + BINADE) * pow2((j + 1) as nat));
    } else if j == 0 {
        assert(sig * pow2(0) == sig);
    } else {
        assert(m == (sig - BINADE) + (j + 1) * BINADE);
        assert(m / BINADE as int == j + 1 && m % BINADE as int == sig - BINADE);
        if sig > BINADE {
            assert((m - 1) / BINADE as int == j + 1);
        } else {
            assert((m - 1) / BINADE as int == j);
        }
    }
}

/// `n * 2^k` units is exactly some finite magnitude, when `n` lacks `t` bits
/// of a full significand and `k` can spare them.
pub proof fn lemma_exact_magnitude(n: int, k: int, t: int) -> (m: int)
    requires
        0 <= t <= 23,
        pow2((23 - t) as nat) <= n < 2 * BINADE,
        t < k <= 149,
    ensures
        0 < m < INFINITE,
        units(m) == n * pow2(k as nat),
    decreases t,
{
    lemma2_to64();
    if n >= BINADE {
        lemma_compose(n, k);
        n + k * BINADE
    } else {
        lemma_pow2_unfold((24 - t) as nat);
        lemma_pow2_unfold(k as nat);
        assert((2 * n) * pow2((k - 1) as nat) == n * (2 * pow2((k - 1) as nat)))
            by (nonlinear_arith);
        lemma_exact_magnitude(2 * n, k - 1, t - 1)
    }
}

proof fn lemma_leading_zeros(m: u64)
    requires
        m > 0,
    ensures
        0 <= u64_leading_zeros(m) <= 63,
        pow2((63 - u64_leading_zeros(m)) as nat) <= m,
        m < pow2((64 - u64_leading_zeros(m)) as nat),
    decreases m,
{
    reveal(u64_leading_zeros);
    axiom_u64_leading_zeros(m);
    lemma2_to64();
    if m == 1 {
        assert(u64_leading_zeros(0) == 64);
        assert(u64_leading_zeros(1) == 63);
    } else {
        let h = m / 2;
        axiom_u64_leading_zeros(h);
        lemma_leading_zeros(h);
        lemma_pow2_unfold((64 - u64_leading_zeros(m)) as nat);
        lemma_pow2_unfold((63 - u64_leading_zeros(m)) as nat);
    }
}

/// Numerator of `m * 2^e`.
pub open spec fn scaled_num(m: int, e: int) -> int {
    if e >= 0 {
        m * pow2(e as nat)
    } else {
        m
    }
}

/// Denominator of `m * 2^e`.
pub open spec fn scaled_den(e: int) -> int {
    if e >= 0 {
        1
    } else {
        pow2((-e) as nat) as int
    }
}

proof fn lemma_round_overflow(m: int, e: int, n: int)
    requires
        1 <= n <= 64,
        pow2((n - 1) as nat) <= m,
        n + e > 277,
    ensures
        rounds_to(scaled_num(m, e), scaled_den(e), INFINITE as int),
{
    assert(e > 0);
    let p = pow2(e as nat) as int;
    lemma_pow2_pos(e as nat);
    lemma_pow2_adds((n - 1) as nat, e as nat);
    assert(m * p >= pow2((n - 1) as nat) * p) by (nonlinear_arith)
        requires
            m >= pow2((n - 1) as nat),
            p > 0,
    ;
    if n - 1 + e > 277 {
        lemma_pow2_strictly_increases(277, (n - 1 + e) as nat);
    }
    lemma2_to64();
    lemma_pow2_adds(23, 254);
    lemma_units_step(INFINITE - 1);
    assert(units(INFINITE as int) == (0 + BINADE) * pow2(254));
}

proof fn lemma_round_exact_bound(m: int, n: int, d: int)
    requires
        1 <= n <= 64,
        0 <= d,
        n + d <= 24,
        0 < m < pow2(n as nat),
    ensures
        0 < m * pow2(d as nat) < 2 * BINADE,
{
    lemma2_to64();
    lemma_pow2_pos(d as nat);
    lemma_pow2_adds(n as nat, d as nat);
    let p = pow2(d as nat) as int;
    assert(0 < m * p < pow2(n as nat) * p) by (nonlinear_arith)
        requires
            0 < m < pow2(n as nat),
            p > 0,
    ;
    if n + d < 24 {
        lemma_pow2_strictly_increases((n + d) as nat, 24);
    }
}

proof fn lemma_round_exact(m: int, e: int, n: int, j: int, sig: int)
    requires
        1 <= n <= 64,
        pow2((n - 1) as nat) <= m < pow2(n as nat),
        n + e <= 277,
        j == if n + e > 24 { n + e - 24 } else { 0 },
        j <= e,
        sig == m * pow2((e - j) as nat),
        0 < sig < 2 * BINADE,
    ensures
        rounds_to(scaled_num(m, e), scaled_den(e), sig + j * BINADE),
        sig + j * BINADE < INFINITE,
{
    lemma2_to64();
    let d = (e - j) as nat;
    lemma_pow2_pos(d);
    if j > 0 {
        assert(n + d == 24);
        lemma_pow2_adds((n - 1) as nat, d);
        assert(m * pow2(d) >= pow2((n - 1) as nat) * pow2(d)) by (nonlinear_arith)
            requires
                m >= pow2((n - 1) as nat),
                pow2(d) > 0,
        ;
        assert(sig >= BINADE);
    }
    lemma_compose(sig, j);
    lemma_pow2_adds(d, j as nat);
    assert(sig * pow2(j as nat) == m * pow2(e as nat)) by (nonlinear_arith)
        requires
            sig == m * pow2(d),
            pow2(e as nat) == pow2(d) * pow2(j as nat),
    ;
    lemma_rounds_to_exact(sig + j * BINADE, 1);
}

proof fn lemma_round_shifted(m: int, e: int, n: int, j: int, sig: int)
    requires
        1 <= n <= 64,
        pow2((n - 1) as nat) <= m < pow2(n as nat),
        n + e <= 277,
        j == if n + e > 24 { n + e - 24 } else { 0 },
        j > e,
        0 <= sig,
        nearest_shift(m, j - e, sig),
    ensures
        rounds_to(scaled_num(m, e), scaled_den(e), sig + j * BINADE),
        0 <= sig <= 2 * BINADE,
        sig + j * BINADE <= INFINITE,
{
    lemma2_to64();
    let s = (j - e) as nat;
    let p = pow2(s) as int;
    let a = pow2(j as nat) as int;
    let num = scaled_num(m, e);
    let den = scaled_den(e);
    lemma_pow2_pos(s);
    lemma_pow2_pos(j as nat);
    if e < 0 {
        lemma_pow2_pos((-e) as nat);
    }
    // Where the significand lies.
    lemma_pow2_adds(24, s);
    if n < 24 + s {
        lemma_pow2_strictly_increases(n as nat, 24 + s);
    }
    assert(m < 2 * BINADE * p);
    assert(sig <= 2 * BINADE) by (nonlinear_arith)
        requires
            m < 2 * BINADE * p,
            p > 0,
            2 * m >= (2 * sig - 1) * p,
    ;
    if j > 0 {
        assert(n == 24 + s);
        lemma_pow2_adds(23, s);
        assert(m >= BINADE * p);
        assert(sig >= BINADE) by (nonlinear_arith)
            requires
                m >= BINADE * p,
                p > 0,
                2 * m <= (2 * sig + 1) * p,
        ;
    }
    assert(sig + j * BINADE <= INFINITE);
    lemma_compose(sig, j);
    let r = sig + j * BINADE;
    // num * p == m * a * den
    if e >= 0 {
        lemma_pow2_adds(e as nat, s);
        assert(num * p == m * a * den) by (nonlinear_arith)
            requires
                num == m * pow2(e as nat),
                a == pow2(e as nat) * p,
                den == 1,
        ;
    } else {
        lemma_pow2_adds(j as nat, (-e) as nat);
        assert(num * p == m * a * den) by (nonlinear_arith)
            requires
                num == m,
                p == a * den,
        ;
    }
    if r < INFINITE {
        lemma_units_step(r);
        let g = pow2(gap(r)) as int;
        if sig == 2 * BINADE {
            lemma_pow2_unfold((j + 1) as nat);
        }
        assert(g >= a);
        let v = units(r) + units(r + 1);
        assert(v == 2 * (sig * a) + g);
        lemma_half_way(num, den, m, a, p, 2 * sig + 1);
        assert((2 * sig + 1) * a == 2 * (sig * a) + a) by (nonlinear_arith);
        assert(den * ((2 * sig + 1) * a) <= den * v) by (nonlinear_arith)
            requires
                den > 0,
                (2 * sig + 1) * a <= v,
        ;
        if 2 * m == (2 * sig + 1) * p {
            if sig == 2 * BINADE {
                assert(g > a);
                assert(den * ((2 * sig + 1) * a) < den * v) by (nonlinear_arith)
                    requires
                        den > 0,
                        (2 * sig + 1) * a < v,
                ;
            }
            assert(r % 2 == sig % 2);
        }
    }
    if r > 0 {
        lemma_units_step(r - 1);
        let v = units(r - 1) + units(r);
        assert((2 * sig - 1) * a == 2 * (sig * a) - a) by (nonlinear_arith);
        if sig > BINADE || j == 0 {
            assert(v == 2 * (sig * a) - a);
            lemma_half_way(num, den, m, a, p, 2 * sig - 1);
            assert(r % 2 == sig % 2);
        } else {
            lemma_pow2_pos((j - 1) as nat);
            assert(v < 2 * (sig * a));
            lemma_half_way(num, den, m, a, p, 2 * sig);
            assert((2 * sig) * a == 2 * (sig * a)) by (nonlinear_arith);
            assert(2 * m >= (2 * sig) * p) by (nonlinear_arith)
                requires
                    m >= BINADE * p,
                    sig == BINADE,
            ;
            assert(den * v < den * ((2 * sig) * a)) by (nonlinear_arith)
                requires
                    den > 0,
                    v < (2 * sig) * a,
            ;
        }
    }
}

/// Comparing `2 * num / den` with `c * a` is comparing `2 * m` with `c * p`.
proof fn lemma_half_way(num: int, den: int, m: int, a: int, p: int, c: int)
    requires
        den > 0,
        a > 0,
        p > 0,
        num * p == m * a * den,
    ensures
        2 * m < c * p <==> 2 * num < den * (c * a),
        2 * m == c * p <==> 2 * num == den * (c * a),
        2 * m > c * p <==> 2 * num > den * (c * a),
{
    let k = a * den;
    let x = 2 * m;
    let y = c * p;
    let u = 2 * num;
    let w = den * (c * a);
    assert(k > 0) by (nonlinear_arith)
        requires
            a > 0,
            den > 0,
            k == a * den,
    ;
    assert(x * k == u * p) by (nonlinear_arith)
        requires
            x == 2 * m,
            u == 2 * num,
            k == a * den,
            num * p == m * a * den,
    ;
    assert(y * k == w * p) by (nonlinear_arith)
        requires
            y == c * p,
            w == den * (c * a),
            k == a * den,
    ;
    lemma_order_by_products(x, y, k, u, w, p);
    lemma_order_by_products(y, x, k, w, u, p);
}

proof fn lemma_order_by_products(x: int, y: int, k: int, u: int, w: int, p: int)
    requires
        k > 0,
        p > 0,
        x * k == u * p,
        y * k == w * p,
    ensures
        x < y <==> u < w,
{
    assert(x < y <==> x * k < y * k) by (nonlinear_arith)
        requires
            k > 0,
    ;
    assert(u < w <==> u * p < w * p) by (nonlinear_arith)
        requires
            p > 0,
    ;
}

/// `sig` is `m / 2^s` rounded to the nearest integer, ties to even.
spec fn nearest_shift(m: int, s: int, sig: int) -> bool {
    let p = pow2(s as nat) as int;
    &&& 2 * m < (2 * sig + 1) * p || 2 * m == (2 * sig + 1) * p && sig % 2 == 0
    &&& 2 * m > (2 * sig - 1) * p || 2 * m == (2 * sig - 1) * p && sig % 2 == 0
}

/// `m / 2^s` rounded to the nearest integer, ties to even.
fn shift_round(m: u64, s: u32) -> (sig: u64)
    requires
        m > 0,
        s > 0,
    ensures
        nearest_shift(m as int, s as int, sig as int),
{
    proof {
        lemma2_to64();
        lemma2_to64_rest();
        lemma_pow2_unfold(64);
    }
    if s > 64 {
        proof {
            lemma_pow2_unfold(65);
            if s > 65 {
                lemma_pow2_strictly_increases(65, s as nat);
            }
            let p = pow2(s as nat) as int;
            assert((2 * 0 + 1) * p == p && (2 * 0 - 1) * p == -p) by (nonlinear_arith);
        }
        0
    } else if s == 64 {
        proof {
            let p = pow2(64) as int;
            assert((2 * 0 + 1) * p == p && (2 * 0 - 1) * p == -p) by (nonlinear_arith);
            assert((2 * 1 + 1) * p == 3 * p && (2 * 1 - 1) * p == p) by (nonlinear_arith);
        }
        if m > 0x8000_0000_0000_0000 {
            1
        } else {
            0
        }
    } else {
        proof {
            lemma_pow2_unfold(s as nat);
            lemma_u64_pow2_no_overflow(s as nat);
            lemma_u64_shl_is_mul(1, s as u64);
        }
        let p: u64 = 1u64 << (s as u64);
        let q: u64 = m / p;
        let rem: u64 = m % p;
        let half: u64 = p / 2;
        proof {
            assert(m == q * p + rem) by (nonlinear_arith)
                requires
                    p > 0,
                    q == m / p,
                    rem == m % p,
            ;
            assert(p == pow2(s as nat));
            assert((2 * q + 1) * p == 2 * (q * p) + p) by (nonlinear_arith);
            assert((2 * q - 1) * p == 2 * (q * p) - p) by (nonlinear_arith);
            assert((2 * (q + 1) + 1) * p == 2 * (q * p) + 3 * p) by (nonlinear_arith);
            assert((2 * (q + 1) - 1) * p == 2 * (q * p) + p) by (nonlinear_arith);
        }
        if rem > half || (rem == half && q % 2 == 1) {
            assert(q < 0x8000_0000_0000_0000) by (nonlinear_arith)
                requires
                    p >= 2,
                    q == m / p,
            ;
            q + 1
        } else {
            q
        }
    }
}

/// The magnitude nearest to `m * 2^e` units.
pub fn round_scaled(m: u64, e: i32) -> (r: u32)
    requires
        m > 0,
        -1000 <= e <= 1000,
    ensures
        rounds_to(scaled_num(m as int, e as int), scaled_den(e as int), r as int),
{
    let zeros: u32 = m.leading_zeros();
    proof {
        lemma_leading_zeros(m);
        lemma2_to64();
        lemma2_to64_rest();
    }
    let n: i32 = 64 - zeros as i32;
    let top: i32 = n + e;
    if top > 277 {
        proof {
            lemma_round_overflow(m as int, e as int, n as int);
        }
        return INFINITE;
    }
    let j: i32 = if top > 24 {
        top - 24
    } else {
        0
    };
    let s: i32 = j - e;
    if s <= 0 {
        proof {
            lemma_round_exact_bound(m as int, n as int, (-s) as int);
            lemma_u64_shl_is_mul(m, (-s) as u64);
        }
        let sig: u64 = m << ((-s) as u64);
        proof {
            lemma_round_exact(m as int, e as int, n as int, j as int, sig as int);
        }
        sig as u32 + j as u32 * BINADE
    } else {
        let sig: u64 = shift_round(m, s as u32);
        proof {
            lemma_round_shifted(m as int, e as int, n as int, j as int, sig as int);
        }
        sig as u32 + j as u32 * BINADE
    }
}

proof fn lemma_gap_monotone(m: int)
    requires
        0 < m < INFINITE,
    ensures
        gap(m - 1) <= gap(m) <= gap(m - 1) + 1,
{
}

/// A magnitude is a whole number of its own gaps, and of smaller ones.
proof fn lemma_units_multiple(m: int, k: nat) -> (c: int)
    requires
        0 <= m <= INFINITE,
        k <= gap(m),
    ensures
        units(m) == c * pow2(k),
{
    lemma2_to64();
    let g = gap(m);
    let sig = if m < 2 * BINADE {
        m
    } else {
        m % BINADE as int + BINADE
    };
    assert(units(m) == sig * pow2(g)) by {
        assert(sig * 1 == sig);
    }
    lemma_pow2_adds((g - k) as nat, k);
    let c = sig * pow2((g - k) as nat);
    assert(sig * pow2(g) == c * pow2(k)) by (nonlinear_arith)
        requires
            pow2(g) == pow2((g - k) as nat) * pow2(k),
            c == sig * pow2((g - k) as nat),
    ;
    c
}

/// A magnitude of at least `2^(k + 23)` units is a whole number of `2^k` units.
pub proof fn lemma_units_on_grid(m: int, k: nat) -> (c: int)
    requires
        0 <= m <= INFINITE,
        units(m) >= pow2(k + 23),
    ensures
        units(m) == c * pow2(k),
{
    lemma2_to64();
    let g = gap(m);
    if g < k {
        let sig = if m < 2 * BINADE {
            m
        } else {
            m % BINADE as int + BINADE
        };
        assert(units(m) == sig * pow2(g)) by {
            assert(sig * 1 == sig);
        }
        lemma_pow2_adds(24, g);
        lemma_pow2_pos(g);
        if g + 24 < k + 23 {
            lemma_pow2_strictly_increases(g + 24, k + 23);
        }
        assert(sig * pow2(g) < 0x100_0000 * pow2(g)) by (nonlinear_arith)
            requires
                sig < 0x100_0000,
                pow2(g) > 0,
        ;
    }
    lemma_units_multiple(m, k)
}

/// Rounding a fraction of at most 1 moves it by at most half of `2^126` units.
pub proof fn lemma_rounding_error(num: int, den: int)
    requires
        den > 0,
        0 <= num <= den * pow2(149),
    ensures
        0 <= nearest(num, den) < INFINITE,
        2 * (den * units(nearest(num, den)) - num) <= den * pow2(126),
        2 * (num - den * units(nearest(num, den))) <= den * pow2(126),
{
    lemma_rounding_error_below(num, den, 0);
}

/// Rounding a fraction of at most `2^e` moves it by at most half of
/// `2^(126 + e)` units.
pub proof fn lemma_rounding_error_below(num: int, den: int, e: int)
    requires
        den > 0,
        -100 <= e <= 100,
        0 <= num <= den * pow2((149 + e) as nat),
    ensures
        0 <= nearest(num, den) < INFINITE,
        2 * (den * units(nearest(num, den)) - num) <= den * pow2((126 + e) as nat),
        2 * (num - den * units(nearest(num, den))) <= den * pow2((126 + e) as nat),
{
    lemma2_to64();
    let g = (126 + e) as nat;
    let limit = BINADE + g * BINADE;
    lemma_compose(BINADE as int, g as int);
    lemma_pow2_adds(23, g);
    lemma_pow2_pos(g);
    lemma_rounds_to_exact(limit, den);
    lemma_nearest_exists(num, den);
    let r = nearest(num, den);
    assert(units(limit) * den == den * pow2((149 + e) as nat)) by (nonlinear_arith)
        requires
            units(limit) == pow2((149 + e) as nat),
    ;
    lemma_rounds_to_monotone(num, units(limit) * den, den, r, limit);
    lemma_units_step(r);
    lemma_gap_at_most(r, limit);
    let (low, mid, high, p) = (units(r - 1), units(r), units(r + 1), pow2(g) as int);
    assert(den * (mid + high) <= 2 * (den * mid) + den * p) by (nonlinear_arith)
        requires
            high - mid <= p,
            den > 0,
    ;
    if r > 0 {
        lemma_units_step(r - 1);
        lemma_gap_at_most(r - 1, limit);
        assert(den * (low + mid) >= 2 * (den * mid) - den * p) by (nonlinear_arith)
            requires
                mid - low <= p,
                den > 0,
        ;
    } else {
        assert(den * mid == 0 && den * p >= 0) by (nonlinear_arith)
            requires
                mid == 0,
                den > 0,
                p > 0,
        ;
    }
}

/// Rounding a number that is not tiny changes it by at most its `2^24`th part.
pub proof fn lemma_relative_error(num: int, den: int)
    requires
        den > 0,
        den * BINADE <= num,
        nearest(num, den) < INFINITE,
    ensures
        0x100_0000 * (den * units(nearest(num, den)) - num) <= num,
        0x100_0000 * (num - den * units(nearest(num, den))) <= num,
{
    assert(0 <= den * BINADE) by (nonlinear_arith)
        requires
            den > 0,
    ;
    lemma_nearest_exists(num, den);
    let r = nearest(num, den);
    let u = units(r);
    if r < BINADE {
        lemma_units_increasing(r, r + 1);
        if r + 1 < BINADE {
            lemma_units_increasing(r + 1, BINADE as int);
        }
        assert(2 * num > den * (u + units(r + 1))) by (nonlinear_arith)
            requires
                den * BINADE <= num,
                u < BINADE,
                units(r + 1) <= BINADE,
                den > 0,
        ;
        assert(false);
    }
    lemma_units_step(r);
    lemma_wide_gap(r);
    let g = pow2(gap(r)) as int;
    assert(0x100_0000 * (num - den * u) <= num) by (nonlinear_arith)
        requires
            2 * num <= den * (u + (u + g)),
            BINADE * g <= u,
            BINADE == 0x80_0000,
            den > 0,
            g > 0,
    ;
    if r > BINADE {
        lemma_units_step(r - 1);
        lemma_wide_gap(r - 1);
        let (w, h) = (units(r - 1), pow2(gap(r - 1)) as int);
        assert(0x100_0000 * (den * u - num) <= num) by (nonlinear_arith)
            requires
                2 * num >= den * (w + u),
                u == w + h,
                BINADE * h <= w,
                BINADE == 0x80_0000,
                den > 0,
                h > 0,
        ;
    } else {
        assert(u == BINADE);
    }
}

/// A magnitude that is not tiny has room for `2^23` steps of its own size.
proof fn lemma_wide_gap(m: int)
    requires
        BINADE <= m < INFINITE,
    ensures
        BINADE * pow2(gap(m)) <= units(m),
        pow2(gap(m)) > 0,
{
    lemma_pow2_pos(gap(m));
    lemma2_to64();
    if m >= 2 * BINADE {
        let (a, g) = (m % BINADE as int, pow2(gap(m)) as int);
        assert(BINADE * g <= (a + BINADE) * g) by (nonlinear_arith)
            requires
                a >= 0,
                g > 0,
        ;
    }
}

/// Rounding never doubles a number.
pub proof fn lemma_rounded_at_most_double(num: int, den: int)
    requires
        num >= 0,
        den > 0,
    ensures
        den * units(nearest(num, den)) <= 2 * num,
        units(nearest(num, den)) >= 0,
{
    lemma_nearest_exists(num, den);
    let r = nearest(num, den);
    lemma_units_nonneg(r);
    let (low, mid) = (units(r - 1), units(r));
    if r > 0 {
        lemma_units_nonneg(r - 1);
        assert(den * (low + mid) >= den * mid) by (nonlinear_arith)
            requires
                low >= 0,
                den > 0,
        ;
    } else {
        assert(den * mid == 0) by (nonlinear_arith)
            requires
                mid == 0,
        ;
    }
}

/// A number far below the largest finite one rounds to a finite one.
pub proof fn lemma_nearest_finite(num: int)
    requires
        0 <= num <= pow2(200),
    ensures
        0 <= nearest(num, 1) < INFINITE,
{
    lemma2_to64();
    let m = BINADE + 177 * BINADE;
    lemma_compose(BINADE as int, 177);
    lemma_pow2_adds(23, 177);
    lemma_rounds_to_exact(m, 1);
    lemma_nearest_exists(num, 1);
    lemma_rounds_to_monotone(num, units(m) * 1, 1, nearest(num, 1), m);
}

proof fn lemma_gap_at_most(a: int, b: int)
    requires
        0 <= a <= b <= INFINITE,
    ensures
        gap(a) <= gap(b),
        pow2(gap(a)) <= pow2(gap(b)),
{
    if gap(a) < gap(b) {
        lemma_pow2_strictly_increases(gap(a), gap(b));
    }
}

/// The sum of neighbouring magnitudes is a whole number of smaller gaps.
proof fn lemma_midpoint_multiple(m: int, k: nat) -> (c: int)
    requires
        0 <= m < INFINITE,
        k <= gap(m),
    ensures
        units(m) + units(m + 1) == c * pow2(k),
{
    let a = lemma_units_multiple(m, k);
    lemma_units_step(m);
    lemma_pow2_adds((gap(m) - k) as nat, k);
    let b = pow2((gap(m) - k) as nat) as int;
    assert(2 * (a * pow2(k)) + b * pow2(k) == (2 * a + b) * pow2(k)) by (nonlinear_arith);
    2 * a + b
}

/// What lies strictly between two consecutive multiples of a fine step rounds
/// as the middle of the two does: one sticky bit is enough to round with.
proof fn lemma_sticky(num: int, den: int, q: int, e: int, r: int)
    requires
        den > 0,
        q >= 0x400_0000,
        -2000 <= e <= 2000,
        2 * q * scaled_num(1, e) * den < num * scaled_den(e),
        num * scaled_den(e) < (2 * q + 2) * scaled_num(1, e) * den,
        rounds_to(scaled_num(2 * q + 1, e), scaled_den(e), r),
    ensures
        rounds_to(num, den, r),
{
    lemma2_to64();
    let p = scaled_num(1, e);
    let w = scaled_den(e);
    if e >= 0 {
        lemma_pow2_pos(e as nat);
    } else {
        lemma_pow2_pos((-e) as nat);
    }
    assert(p > 0 && w > 0);
    assert(scaled_num(2 * q + 1, e) == (2 * q + 1) * p);
    if r < INFINITE {
        lemma_sticky_gap(q, e, r);
        let v = units(r) + units(r + 1);
        let c = lemma_sticky_multiple(r, e);
        lemma_sticky_side(num, den, q, p, w, v, c);
    }
    if r > 0 {
        let v = units(r - 1) + units(r);
        if r < INFINITE || e <= 251 {
            if r == INFINITE {
                assert(gap(r - 1) == 253);
            }
            let c = lemma_sticky_multiple(r - 1, e);
            lemma_sticky_side(num, den, q, p, w, v, c);
        } else {
            // Far past the largest finite magnitude.
            if e > 252 {
                lemma_pow2_strictly_increases(252, e as nat);
            }
            lemma_pow2_adds(25, 252);
            lemma_pow2_adds(23, 254);
            lemma_units_step(r - 1);
            assert(units(r) == (0 + BINADE) * pow2(254));
            assert(v < 2 * pow2(277));
            assert(w == 1);
            assert(num > 2 * q * p * den);
            assert(2 * q * p >= pow2(277)) by (nonlinear_arith)
                requires
                    q >= 0x400_0000,
                    p >= pow2(252),
                    pow2(277) == 0x200_0000 * pow2(252),
            ;
            assert(2 * num > den * v) by (nonlinear_arith)
                requires
                    den > 0,
                    num > (2 * q * p) * den,
                    2 * q * p >= pow2(277),
                    v < 2 * pow2(277),
            ;
        }
    }
}

/// Near `2 * q * 2^e` the gaps are at least `2^(e + 2)`.
proof fn lemma_sticky_gap(q: int, e: int, r: int)
    requires
        q >= 0x400_0000,
        -2000 <= e <= 2000,
        0 <= r < INFINITE,
        rounds_to(scaled_num(2 * q + 1, e), scaled_den(e), r),
    ensures
        e + 2 <= gap(r),
        r > 0 ==> e + 2 <= gap(r - 1),
{
    lemma2_to64();
    let m = 2 * q + 1;
    if r > 0 {
        lemma_gap_monotone(r);
    }
    let low = if r > 0 {
        gap(r - 1) as int
    } else {
        0
    };
    if low < e + 2 {
        // Then twice the number is at most twice the next magnitude, which is small.
        let g = gap(r);
        lemma_units_step(r);
        lemma_small_units(r);
        lemma_pow2_pos(g);
        assert(g <= e + 2);
        assert(e + 2 > 0);
        let k = (e + 2) as nat;
        if g < k {
            lemma_pow2_strictly_increases(g, k);
        }
        lemma_pow2_pos(k);
        assert(units(r) + units(r + 1) <= 2 * (2 * BINADE * pow2(k)));
        if e >= 0 {
            lemma_pow2_adds(e as nat, 2);
            assert(2 * (m * pow2(e as nat)) > 2 * (2 * BINADE * pow2(k))) by (nonlinear_arith)
                requires
                    m > 0x800_0000,
                    pow2(k) == pow2(e as nat) * 4,
                    pow2(k) > 0,
            ;
        } else {
            assert(e == -1);
            assert(pow2(k) == 2);
            assert(2 * m > 2 * (units(r) + units(r + 1)));
        }
        assert(false);
    }
}

proof fn lemma_small_units(m: int)
    requires
        0 <= m <= INFINITE,
    ensures
        units(m) <= (2 * BINADE - 1) * pow2(gap(m)),
{
    lemma2_to64();
    if m >= 2 * BINADE {
        let f = m % BINADE as int;
        let p = pow2(gap(m)) as int;
        lemma_pow2_pos(gap(m));
        assert((f + BINADE) * p <= (2 * BINADE - 1) * p) by (nonlinear_arith)
            requires
                f <= BINADE - 1,
                p > 0,
        ;
    } else {
        let c: int = 2 * BINADE - 1;
        assert(c * pow2(0) == c);
    }
}

proof fn lemma_sticky_multiple(m: int, e: int) -> (c: int)
    requires
        0 <= m < INFINITE,
        -2000 <= e <= 2000,
        e + 2 <= gap(m),
    ensures
        (units(m) + units(m + 1)) * scaled_den(e) == 4 * c * scaled_num(1, e),
{
    lemma2_to64();
    let v = units(m) + units(m + 1);
    if e >= 0 {
        let c = lemma_midpoint_multiple(m, (e + 2) as nat);
        lemma_pow2_adds(e as nat, 2);
        assert(c * pow2((e + 2) as nat) == 4 * c * (1 * pow2(e as nat))) by (nonlinear_arith)
            requires
                pow2((e + 2) as nat) == pow2(e as nat) * 4,
        ;
        assert(v * 1 == v);
        c
    } else if e == -1 {
        let c = lemma_midpoint_multiple(m, 1);
        assert(c * pow2(1) == c * 2);
        assert(v * pow2(1) == v * 2);
        c
    } else {
        lemma_pow2_adds((-e - 2) as nat, 2);
        let c = v * pow2((-e - 2) as nat);
        assert(v * pow2((-e) as nat) == 4 * c) by (nonlinear_arith)
            requires
                pow2((-e) as nat) == pow2((-e - 2) as nat) * 4,
                c == v * pow2((-e - 2) as nat),
        ;
        c
    }
}

proof fn lemma_sticky_side(num: int, den: int, q: int, p: int, w: int, v: int, c: int)
    requires
        den > 0,
        p > 0,
        w > 0,
        v * w == 4 * c * p,
        2 * q * p * den < num * w,
        num * w < (2 * q + 2) * p * den,
    ensures
        2 * ((2 * q + 1) * p) < w * v ==> 2 * num < den * v,
        2 * ((2 * q + 1) * p) > w * v ==> 2 * num > den * v,
        2 * ((2 * q + 1) * p) != w * v,
{
    let k = p * den;
    assert(k > 0) by (nonlinear_arith)
        requires
            p > 0,
            den > 0,
            k == p * den,
    ;
    assert(w * v == (4 * c) * p && 2 * ((2 * q + 1) * p) == (4 * q + 2) * p) by (nonlinear_arith)
        requires
            v * w == 4 * c * p,
    ;
    assert(2 * q * p * den == (2 * q) * k && (2 * q + 2) * p * den == (2 * q + 2) * k)
        by (nonlinear_arith)
        requires
            k == p * den,
    ;
    assert((den * v) * w == (4 * c) * k) by (nonlinear_arith)
        requires
            v * w == 4 * c * p,
            k == p * den,
    ;
    assert((4 * q + 2) * p != (4 * c) * p) by (nonlinear_arith)
        requires
            p > 0,
            4 * q + 2 != 4 * c,
    ;
    if (4 * q + 2) * p < (4 * c) * p {
        assert(q + 1 <= c) by (nonlinear_arith)
            requires
                p > 0,
                (4 * q + 2) * p < (4 * c) * p,
        ;
        assert((2 * q + 2) * k <= (2 * c) * k) by (nonlinear_arith)
            requires
                k > 0,
                q + 1 <= c,
        ;
        assert(2 * num < den * v) by (nonlinear_arith)
            requires
                w > 0,
                num * w < (2 * c) * k,
                (den * v) * w == (4 * c) * k,
        ;
    } else {
        assert(c <= q) by (nonlinear_arith)
            requires
                p > 0,
                (4 * q + 2) * p >= (4 * c) * p,
        ;
        assert((2 * c) * k <= (2 * q) * k) by (nonlinear_arith)
            requires
                k > 0,
                c <= q,
        ;
        assert(2 * num > den * v) by (nonlinear_arith)
            requires
                w > 0,
                num * w > (2 * c) * k,
                (den * v) * w == (4 * c) * k,
        ;
    }
}

/// The magnitude nearest to `a / b * 2^k` units.
pub fn round_quotient(a: u64, b: u64, k: i32) -> (r: u32)
    requires
        0 < a < 0x4000_0000_0000_0000,
        0 < b <= 0xFFFF_FFFF,
        -700 <= k <= 700,
    ensures
        rounds_to(scaled_num(a as int, k as int), b * scaled_den(k as int), r as int),
{
    let zeros: u32 = a.leading_zeros();
    proof {
        lemma_leading_zeros(a);
        lemma2_to64();
        lemma2_to64_rest();
        lemma_normal_form(a as int, u64_leading_zeros(a));
    }
    let z: u64 = (zeros - 1) as u64;
    proof {
        lemma_u64_shl_is_mul(a, z);
    }
    let top: u64 = a << z;
    let q: u64 = top / b;
    let rem: u64 = top % b;
    let e: i32 = k - z as i32 - 1;
    assert(top == q * b + rem && q >= 0x2000_0000) by (nonlinear_arith)
        requires
            q == top / b,
            rem == top % b,
            0 < b <= 0xFFFF_FFFF,
            top >= 0x4000_0000_0000_0000,
    ;
    assert(q <= top) by (nonlinear_arith)
        requires
            q == top / b,
            b > 0,
    ;
    if rem == 0 {
        let r: u32 = round_scaled(2 * q, e);
        proof {
            lemma_quotient_exact(a as int, b as int, k as int, z as int, q as int, r as int);
        }
        r
    } else {
        let r: u32 = round_scaled(2 * q + 1, e);
        proof {
            lemma_quotient_between(
                a as int,
                b as int,
                k as int,
                z as int,
                q as int,
                rem as int,
            );
            lemma_sticky(
                scaled_num(a as int, k as int),
                b * scaled_den(k as int),
                q as int,
                e as int,
                r as int,
            );
        }
        r
    }
}

proof fn lemma_normal_form(a: int, zeros: int)
    requires
        0 < a < 0x4000_0000_0000_0000,
        0 <= zeros <= 63,
        pow2((63 - zeros) as nat) <= a < pow2((64 - zeros) as nat),
    ensures
        zeros >= 1,
        0x4000_0000_0000_0000 <= a * pow2((zeros - 1) as nat) < 0x8000_0000_0000_0000,
{
    lemma2_to64();
    lemma2_to64_rest();
    let z = (zeros - 1) as nat;
    if zeros == 0 {
        assert(false);
    }
    lemma_pow2_adds((63 - zeros) as nat, z);
    lemma_pow2_adds((64 - zeros) as nat, z);
    lemma_pow2_pos(z);
    assert(pow2((63 - zeros) as nat) * pow2(z) <= a * pow2(z) < pow2((64 - zeros) as nat) * pow2(z))
        by (nonlinear_arith)
        requires
            pow2((63 - zeros) as nat) <= a < pow2((64 - zeros) as nat),
            pow2(z) > 0,
    ;
}

/// `2^(e + 1 + z)` and `2^k` as fractions, for `e == k - z - 1`.
proof fn lemma_quotient_scale(k: int, z: int)
    requires
        0 <= z <= 63,
        -700 <= k <= 700,
    ensures
        ({
            let e = k - z - 1;
            &&& scaled_num(1, e) > 0
            &&& scaled_den(e) > 0
            &&& scaled_den(k) > 0
            &&& scaled_num(1, k) * scaled_den(e) == 2 * pow2(z as nat) * scaled_num(1, e)
                * scaled_den(k)
        }),
{
    lemma2_to64();
    let e = k - z - 1;
    lemma_pow2_unfold((z + 1) as nat);
    let t = pow2((z + 1) as nat) as int;
    assert(t == 2 * pow2(z as nat));
    if k >= 0 {
        lemma_pow2_pos(k as nat);
    } else {
        lemma_pow2_pos((-k) as nat);
    }
    if e >= 0 {
        lemma_pow2_pos(e as nat);
        lemma_pow2_adds((z + 1) as nat, e as nat);
    } else {
        lemma_pow2_pos((-e) as nat);
        if k >= 0 {
            lemma_pow2_adds(k as nat, (-e) as nat);
        } else {
            lemma_pow2_adds((z + 1) as nat, (-k) as nat);
        }
    }
}

proof fn lemma_scaled_num(a: int, k: int)
    ensures
        scaled_num(a, k) == a * scaled_num(1, k),
{
}

proof fn lemma_quotient_exact(a: int, b: int, k: int, z: int, q: int, r: int)
    requires
        0 <= z <= 63,
        -700 <= k <= 700,
        b > 0,
        a * pow2(z as nat) == q * b,
        rounds_to(scaled_num(2 * q, k - z - 1), scaled_den(k - z - 1), r),
    ensures
        rounds_to(scaled_num(a, k), b * scaled_den(k), r),
{
    let e = k - z - 1;
    lemma_quotient_scale(k, z);
    lemma_scaled_num(a, k);
    lemma_scaled_num(2 * q, e);
    let p = scaled_num(1, e);
    let w = scaled_den(e);
    let n = scaled_num(1, k);
    let d = scaled_den(k);
    let t = pow2(z as nat) as int;
    let bd = b * d;
    assert(bd > 0) by (nonlinear_arith)
        requires
            bd == b * d,
            b > 0,
            d > 0,
    ;
    lemma_rounds_to_scale(2 * q * p, w, bd, r);
    lemma_rounds_to_scale(a * n, bd, w, r);
    let pd = p * d;
    assert((2 * q * p) * bd == 2 * (q * b) * pd) by (nonlinear_arith)
        requires
            bd == b * d,
            pd == p * d,
    ;
    assert(n * w == 2 * t * pd) by (nonlinear_arith)
        requires
            n * w == 2 * t * p * d,
            pd == p * d,
    ;
    assert((a * n) * w == a * (n * w) && a * (2 * t * pd) == 2 * (a * t) * pd) by (nonlinear_arith);
    assert(w * bd == bd * w) by (nonlinear_arith);
}

proof fn lemma_quotient_between(a: int, b: int, k: int, z: int, q: int, rem: int)
    requires
        0 <= z <= 63,
        -700 <= k <= 700,
        0 < rem < b,
        a * pow2(z as nat) == q * b + rem,
    ensures
        ({
            let e = k - z - 1;
            let num = scaled_num(a, k);
            let den = b * scaled_den(k);
            &&& den > 0
            &&& 2 * q * scaled_num(1, e) * den < num * scaled_den(e)
            &&& num * scaled_den(e) < (2 * q + 2) * scaled_num(1, e) * den
        }),
{
    let e = k - z - 1;
    lemma_quotient_scale(k, z);
    lemma_scaled_num(a, k);
    let p = scaled_num(1, e);
    let w = scaled_den(e);
    let n = scaled_num(1, k);
    let d = scaled_den(k);
    let t = pow2(z as nat) as int;
    let pd = p * d;
    assert(pd > 0) by (nonlinear_arith)
        requires
            pd == p * d,
            p > 0,
            d > 0,
    ;
    assert(b * d > 0) by (nonlinear_arith)
        requires
            b > 0,
            d > 0,
    ;
    assert((a * n) * w == 2 * (q * b + rem) * pd) by (nonlinear_arith)
        requires
            pd == p * d,
            a * t == q * b + rem,
            n * w == 2 * t * p * d,
    ;
    assert(2 * q * p * (b * d) == (2 * q * b) * pd) by (nonlinear_arith)
        requires
            pd == p * d,
    ;
    assert((2 * q + 2) * p * (b * d) == (2 * q * b + 2 * b) * pd) by (nonlinear_arith)
        requires
            pd == p * d,
    ;
    assert((2 * q * b) * pd < 2 * (q * b + rem) * pd < (2 * q * b + 2 * b) * pd)
        by (nonlinear_arith)
        requires
            pd > 0,
            0 < rem < b,
    ;
}

/// A number that differs from a magnitude by far less than its gap rounds to it.
pub proof fn lemma_rounds_to_absorb(sig: int, j: int, v: int)
    requires
        BINADE <= sig < 2 * BINADE,
        0 < j,
        sig + j * BINADE < INFINITE,
        4 * v < pow2(j as nat),
        -4 * v < pow2(j as nat),
    ensures
        rounds_to(sig * pow2(j as nat) + v, 1, sig + j * BINADE),
{
    let r = sig + j * BINADE;
    lemma_compose(sig, j);
    lemma_units_step(r);
    lemma_units_step(r - 1);
    lemma_pow2_unfold(j as nat);
}

} // verus!
