//! What the flow meter's readings mean: a rate is a volume over a time, for
//! every pulse rate that is configured.

use crate::flow_meter::{latest, total, window_rate, FlowModel};
use crate::rounding::{nearest, rounded, units};
use crate::settings::MachineSettings;
use crate::single::Single;
use vstd::arithmetic::power2::*;
use vstd::prelude::*;

verus! {

/// `a` differs from `b` by at most `k` parts in `2^24`.
pub open spec fn close(a: int, b: int, k: int) -> bool {
    &&& 0 <= a
    &&& 0 <= b
    &&& 0x100_0000 * (a - b) <= k * b
    &&& 0x100_0000 * (b - a) <= k * b
}

proof fn lemma_close_then(a: int, b: int, c: int, j: int, k: int)
    requires
        close(a, b, j),
        close(b, c, k),
        0 <= j <= 100,
        0 <= k <= 100,
    ensures
        close(a, c, j + k + 1),
{
    assert(j * b <= j * c + c && (j + k + 1) * c == j * c + k * c + c) by (nonlinear_arith)
        requires
            0x100_0000 * (b - c) <= k * c,
            0 <= j <= 100,
            0 <= k <= 100,
            0 <= b,
            0 <= c,
    ;
}

proof fn lemma_close_scaled(a: int, b: int, k: int, s: int)
    requires
        close(a, b, k),
        0 <= s,
    ensures
        close(a * s, b * s, k),
        close(s * a, s * b, k),
{
    assert(close(a * s, b * s, k) && a * s == s * a && b * s == s * b) by (nonlinear_arith)
        requires
            0 <= a,
            0 <= b,
            0x100_0000 * (a - b) <= k * b,
            0x100_0000 * (b - a) <= k * b,
            0 <= s,
    ;
}

proof fn lemma_close_unscaled(a: int, b: int, k: int, s: int)
    requires
        close(a * s, b * s, k),
        0 < s,
    ensures
        close(a, b, k),
{
    assert(close(a, b, k)) by (nonlinear_arith)
        requires
            0 <= a * s,
            0 <= b * s,
            0x100_0000 * (a * s - b * s) <= k * (b * s),
            0x100_0000 * (b * s - a * s) <= k * (b * s),
            0 < s,
    ;
}

proof fn lemma_close_back(a: int, b: int)
    requires
        close(a, b, 1),
    ensures
        close(b, a, 2),
{
}

/// A rounded quotient times its divisor is close to what was divided.
proof fn lemma_rounded_close(num: int, den: int)
    requires
        den > 0,
        den * pow2(23) <= num <= den * pow2(249),
    ensures
        close(den * rounded(num, den), num, 1),
        0 <= nearest(num, den) < crate::rounding::INFINITE,
        rounded(num, den) >= 0,
{
    lemma2_to64();
    assert(den * pow2(23) >= 0) by (nonlinear_arith)
        requires
            den > 0,
            pow2(23) >= 0,
    ;
    crate::rounding::lemma_rounding_error_below(num, den, 100);
    crate::rounding::lemma_relative_error(num, den);
    let u = units(nearest(num, den));
    crate::rounding::lemma_units_nonneg(nearest(num, den));
    assert(den * u >= 0) by (nonlinear_arith)
        requires
            den > 0,
            u >= 0,
    ;
}

/// How far `2^k` units are from each other.
proof fn lemma_powers(a: nat, b: nat)
    ensures
        pow2(a) * pow2(b) == pow2(a + b),
        pow2(a) > 0,
        pow2(b) > 0,
{
    lemma_pow2_adds(a, b);
    lemma_pow2_pos(a);
    lemma_pow2_pos(b);
}

/// `x` lies between `2^low` and `2^high`.
pub open spec fn between(x: int, low: nat, high: nat) -> bool {
    pow2(low) <= x <= pow2(high)
}

proof fn lemma_between_wider(x: int, a: nat, b: nat, c: nat, d: nat)
    requires
        between(x, b, c),
        a <= b,
        c <= d,
    ensures
        between(x, a, d),
{
    if a < b {
        lemma_pow2_strictly_increases(a, b);
    }
    if c < d {
        lemma_pow2_strictly_increases(c, d);
    }
}

proof fn lemma_between_times(x: int, a: nat, b: nat, y: int, c: nat, d: nat)
    requires
        between(x, a, b),
        between(y, c, d),
    ensures
        between(x * y, a + c, b + d),
{
    lemma_powers(a, c);
    lemma_powers(b, d);
    let (pa, pb, pc, pd) = (pow2(a) as int, pow2(b) as int, pow2(c) as int, pow2(d) as int);
    assert(pa * pc <= x * y <= pb * pd) by (nonlinear_arith)
        requires
            0 < pa <= x <= pb,
            0 < pc <= y <= pd,
    ;
}

/// Rounding a quotient of numbers whose sizes are known.
proof fn lemma_quotient(num: int, a: nat, b: nat, den: int, c: nat, d: nat)
    requires
        between(num, a, b),
        between(den, c, d),
        d + 24 <= a,
        c <= b + 1 <= c + 249,
    ensures
        close(den * rounded(num, den), num, 1),
        0 <= nearest(num, den) < crate::rounding::INFINITE,
        between(rounded(num, den), (a - d - 1) as nat, (b + 1 - c) as nat),
{
    lemma_powers(c, 249);
    lemma_powers(d, 23);
    lemma_between_wider(pow2(b) as int, 0, b, b, c + 249);
    lemma_between_wider(pow2((d + 23) as nat) as int, 0, d + 23, d + 23, a);
    let (pc, pd) = (pow2(c) as int, pow2(d) as int);
    let (low, high) = (pow2(23) as int, pow2(249) as int);
    assert(den * low <= pd * low) by (nonlinear_arith)
        requires
            den <= pd,
            low > 0,
    ;
    assert(pc * high <= den * high) by (nonlinear_arith)
        requires
            pc <= den,
            high > 0,
    ;
    lemma_rounded_close(num, den);
    let r = rounded(num, den);
    let (lo, hi) = ((a - d - 1) as nat, (b + 1 - c) as nat);
    lemma_powers(lo, d + 1);
    lemma_powers(hi, c);
    lemma_pow2_unfold(d + 1);
    lemma_pow2_unfold(b + 1);
    let (pl, ph) = (pow2(lo) as int, pow2(hi) as int);
    assert(pl <= r) by (nonlinear_arith)
        requires
            0x100_0000 * (num - den * r) <= 1 * num,
            pl * (2 * pd) <= num,
            0 < den <= pd,
            pl > 0,
    ;
    assert(r <= ph) by (nonlinear_arith)
        requires
            0x100_0000 * (den * r - num) <= 1 * num,
            2 * num <= ph * pc,
            den >= pc > 0,
            ph > 0,
    ;
}

/// The pulse rate in force: the configured one, or 98324 pulses per liter where
/// none is configured.
pub open spec fn pulse_rate(machine: MachineSettings) -> Single {
    if Single::whole(0).less(machine.flow_pulses_per_liter) {
        machine.flow_pulses_per_liter
    } else {
        Single::whole(98_324)
    }
}

/// How long the last `n` half-periods took, in counts: two more each than was
/// counted.
pub open spec fn span(counts: Seq<u32>, n: int) -> int
    decreases n,
{
    if n <= 0 {
        0
    } else {
        span(counts, n - 1) + counts[counts.len() - n] + 2
    }
}

/// Counts that the state machine can deliver.
pub open spec fn countable(counts: Seq<u32>) -> bool {
    forall|i: int| 0 <= i < counts.len() ==> #[trigger] counts[i] + 2 <= u32::MAX
}

proof fn lemma_span(window: Seq<u32>, counts: Seq<u32>, n: int)
    requires
        0 <= n == window.len() <= counts.len(),
        forall|i: int|
            0 <= i < n ==> #[trigger] window[i] == counts[counts.len() - n + i] + 2,
    ensures
        total(window) == span(counts, n),
        2 * n <= total(window) <= n * 0xFFFF_FFFF,
    decreases n,
{
    if n > 0 {
        let rest = window.skip(1);
        assert forall|i: int| 0 <= i < n - 1 implies #[trigger] rest[i] == counts[counts.len() - (n
            - 1) + i] + 2 by {
            assert(rest[i] == window[i + 1]);
        }
        lemma_span(rest, counts, n - 1);
        assert(window[0] == counts[counts.len() - n + 0] + 2);
        assert((n - 1) * 0xFFFF_FFFF + 0xFFFF_FFFF == n * 0xFFFF_FFFF) by (nonlinear_arith);
    }
}

/// The window holds the last four counts, or as many as there were.
proof fn lemma_window(machine: MachineSettings, counts: Seq<u32>, n: int)
    requires
        0 < counts.len(),
        countable(counts),
        n == if counts.len() < 4 {
            counts.len() as int
        } else {
            4
        },
    ensures
        ({
            let window = FlowModel::boot(machine).with_counts(counts).window;
            &&& window.len() == n
            &&& total(window) == span(counts, n)
            &&& 2 <= total(window) <= 4 * 0xFFFF_FFFF
        }),
{
    let f = |c: u32| (c + crate::flow_meter::PIO_TICK_OFFSET) as u32;
    let all = counts.map_values(f);
    assert(Seq::<u32>::empty() + all =~= all);
    let window = latest(all);
    assert forall|i: int| 0 <= i < n implies #[trigger] window[i] == counts[counts.len() - n + i]
        + 2 by {
        assert(counts[counts.len() - n + i] + 2 <= u32::MAX);
        assert(window[i] == all[counts.len() - n + i]);
    }
    lemma_span(window, counts, n);
}

/// The rate is the volume over the time. With `c` pulses to the liter, the last
/// `n` half-periods, four or as many as there were, are `1000 n / c` ml; they
/// took `t` counts of a 75 millionth of a second. The rate published times the
/// time is that volume, to a millionth part. Stated on products: `c` times the
/// rate times `t` against 1000 times 75 million times `n`, for every pulse rate
/// from `2^-54` to `2^100`.
pub proof fn law_rate_is_volume_over_time(machine: MachineSettings, counts: Seq<u32>)
    requires
        0 < counts.len(),
        countable(counts),
        pulse_rate(machine).finite(),
        between(pulse_rate(machine).value(), 95, 249),
    ensures
        ({
            let meter = FlowModel::boot(machine).with_counts(counts);
            let n = if counts.len() < 4 {
                counts.len() as int
            } else {
                4
            };
            let c = pulse_rate(machine).value();
            let t = span(counts, n);
            let exact = 75_000_000 * n * (1000 * pow2(149) * pow2(149));
            &&& window_rate(meter.window, meter.flow_numerator) matches Some(rate) && {
                &&& rate.finite()
                &&& 0x10_0000 * (c * rate.value() * t - exact) <= exact
                &&& 0x10_0000 * (exact - c * rate.value() * t) <= exact
            }
        }),
{
    let n = if counts.len() < 4 {
        counts.len() as int
    } else {
        4
    };
    lemma_window(machine, counts, n);
    let meter = FlowModel::boot(machine).with_counts(counts);
    let t = span(counts, n);
    let rate = pulse_rate(machine);
    let c = rate.value();
    let p = pow2(149) as int;
    assert(machine.flow_pulses_per_liter.positive() <==> Single::whole(0).less(
        machine.flow_pulses_per_liter,
    )) by {
        Single::lemma_whole_exact(0);
        assert(0 * pow2(149) == 0);
    }
    lemma2_to64();
    // The volume of a pulse.
    let ml = Single::whole(1000).over(rate);
    Single::lemma_whole_exact(1000);
    lemma_pow2_pos(95);
    lemma_pow2_pos(149);
    Single::whole(1000).lemma_over_value(rate);
    let a = (1000 * p) * p;
    lemma_between_times(1000, 9, 10, p, 149, 149);
    lemma_between_times(1000 * p, 158, 159, p, 149, 149);
    lemma_quotient(a, 307, 308, c, 95, 249);
    let m = ml.value();
    assert(between(m, 57, 214));
    ml.lemma_finite_below(a, c);
    // Counts per second.
    let clock = Single::whole(150_000_000);
    lemma_whole_close(150_000_000, 27, 28);
    let two = Single::whole(2);
    Single::lemma_whole_exact(2);
    lemma_pow2_unfold(150);
    lemma_pow2_unfold(33);
    lemma_pow2_unfold(34);
    clock.lemma_over_value(two);
    let w = clock.value();
    lemma_between_times(w, 175, 178, p, 149, 149);
    lemma_quotient(w * p, 324, 327, 2 * p, 150, 150);
    let half = clock.over(two);
    let h = half.value();
    half.lemma_finite_below(w * p, 2 * p);
    assert(between(h, 173, 178));
    // The numerator.
    half.lemma_times_value(ml);
    lemma_between_times(h, 173, 178, m, 57, 214);
    lemma_quotient(h * m, 230, 392, p, 149, 149);
    let numerator = half.times(ml);
    let f = numerator.value();
    numerator.lemma_finite_below(h * m, p);
    assert(between(f, 80, 244));
    assert(meter.flow_numerator == numerator);
    // Times the samples.
    let k = Single::whole(n);
    Single::lemma_whole_exact(n);
    numerator.lemma_times_value(k);
    lemma_between_times(n, 0, 2, p, 149, 149);
    lemma_between_times(f, 80, 244, n * p, 149, 151);
    lemma_quotient(f * (n * p), 229, 395, p, 149, 149);
    let x = numerator.times(k);
    x.lemma_finite_below(f * (n * p), p);
    let xv = x.value();
    assert(between(xv, 79, 247));
    // Over the counts.
    let time = Single::whole(t);
    lemma_whole_close(t, 1, 34);
    x.lemma_over_value(time);
    let tv = time.value();
    lemma_between_times(xv, 79, 247, p, 149, 149);
    lemma_quotient(xv * p, 228, 396, tv, 149, 184);
    let r = x.over(time);
    r.lemma_finite_below(xv * p, tv);
    lemma_rate_chain(c, r.value(), t, tv, xv, f, n, h, m, w, p);
}

/// A whole number is close to what it is written for.
proof fn lemma_whole_close(n: int, a: nat, b: nat)
    requires
        between(n, a, b),
        a >= 1,
        b <= 90,
    ensures
        close(Single::whole(n).value(), n * pow2(149), 1),
        Single::whole(n).finite(),
        between(Single::whole(n).value(), (148 + a) as nat, 150 + b),
{
    let p = pow2(149) as int;
    lemma_pow2_pos(149);
    lemma_between_times(n, a, b, p, 149, 149);
    lemma2_to64();
    lemma_quotient(n * p, a + 149, b + 149, 1, 0, 0);
    let v = Single::whole(n);
    assert(v.value() == rounded(n * p, 1) && !v.nan()) by {
        Single::lemma_whole_is_a_number(n);
        Single::lemma_whole_value(n);
    }
    v.lemma_finite_below(n * p, 1);
    assert(1 * rounded(n * p, 1) == rounded(n * p, 1));
}

/// The roundings between the counts and the rate, put together.
proof fn lemma_rate_chain(
    c: int,
    r: int,
    t: int,
    tv: int,
    xv: int,
    f: int,
    n: int,
    h: int,
    m: int,
    w: int,
    p: int,
)
    requires
        p > 0,
        c > 0,
        n > 0,
        t > 0,
        r >= 0,
        h >= 0,
        f >= 0,
        xv >= 0,
        m >= 0,
        close(c * m, (1000 * p) * p, 1),
        close(w, 150_000_000 * p, 1),
        close((2 * p) * h, w * p, 1),
        close(p * f, h * m, 1),
        close(p * xv, f * (n * p), 1),
        close(tv, t * p, 1),
        close(tv * r, xv * p, 1),
    ensures
        ({
            let exact = 75_000_000 * n * (1000 * p * p);
            &&& 0x10_0000 * (c * r * t - exact) <= exact
            &&& 0x10_0000 * (exact - c * r * t) <= exact
        }),
{
    let a = (1000 * p) * p;
    assert((2 * p) * h == (2 * h) * p) by (nonlinear_arith);
    lemma_close_unscaled(2 * h, w, 1, p);
    lemma_close_then(2 * h, w, 150_000_000 * p, 1, 1);
    // Clock and volume.
    assert(c * m >= 0 && a >= 0) by (nonlinear_arith)
        requires
            c > 0,
            m >= 0,
            p > 0,
            a == (1000 * p) * p,
    ;
    lemma_close_scaled(2 * h, 150_000_000 * p, 3, c * m);
    lemma_close_scaled(c * m, a, 1, 150_000_000 * p);
    lemma_close_then((2 * h) * (c * m), (150_000_000 * p) * (c * m), (150_000_000 * p) * a, 3, 1);
    let goal = (150_000_000 * p) * a;
    // The numerator.
    lemma_close_scaled(p * f, h * m, 1, 2 * c);
    assert((h * m) * (2 * c) == (2 * h) * (c * m)) by (nonlinear_arith);
    lemma_close_then((p * f) * (2 * c), (2 * h) * (c * m), goal, 1, 5);
    lemma_close_scaled((p * f) * (2 * c), goal, 7, n);
    // The samples.
    lemma_close_scaled(p * xv, f * (n * p), 1, 2 * c);
    assert((f * (n * p)) * (2 * c) == ((p * f) * (2 * c)) * n) by (nonlinear_arith);
    lemma_close_then((p * xv) * (2 * c), ((p * f) * (2 * c)) * n, goal * n, 1, 7);
    // The time.
    lemma_close_scaled(tv * r, xv * p, 1, 2 * c);
    assert((xv * p) * (2 * c) == (p * xv) * (2 * c)) by (nonlinear_arith);
    lemma_close_then((tv * r) * (2 * c), (p * xv) * (2 * c), goal * n, 1, 9);
    lemma_close_back(tv, t * p);
    assert(r * (2 * c) >= 0) by (nonlinear_arith)
        requires
            r >= 0,
            c > 0,
    ;
    lemma_close_scaled(t * p, tv, 2, r * (2 * c));
    assert(tv * (r * (2 * c)) == (tv * r) * (2 * c)) by (nonlinear_arith);
    lemma_close_then((t * p) * (r * (2 * c)), (tv * r) * (2 * c), goal * n, 2, 11);
    let exact = 75_000_000 * n * (1000 * p * p);
    assert((t * p) * (r * (2 * c)) == (c * r * t) * (2 * p)) by (nonlinear_arith);
    assert(goal * n == exact * (2 * p)) by (nonlinear_arith)
        requires
            goal == (150_000_000 * p) * ((1000 * p) * p),
            exact == 75_000_000 * n * (1000 * p * p),
    ;
    lemma_close_unscaled(c * r * t, exact, 14, 2 * p);
}

/// What a burst of counts does is what they do one after the other: counts that
/// come in two bursts give the rate and the volume factor of all together.
pub proof fn law_bursts_join(machine: MachineSettings, first: Seq<u32>, second: Seq<u32>)
    ensures
        FlowModel::boot(machine).with_counts(first).with_counts(second) == FlowModel::boot(
            machine,
        ).with_counts(first + second),
{
    let f = |c: u32| (c + crate::flow_meter::PIO_TICK_OFFSET) as u32;
    let (a, b) = (first.map_values(f), second.map_values(f));
    let none = Seq::<u32>::empty();
    assert((first + second).map_values(f) =~= a + b);
    assert(none + a =~= a && none + (a + b) =~= a + b);
    assert(latest(latest(a) + b) =~= latest(a + b));
}

/// One pulse is a thousandth part of as many as the configured rate has to the
/// liter, and pulses are worth their number of it; neither counts nor a stop
/// change that.
pub proof fn law_pulse_is_worth_its_share(
    machine: MachineSettings,
    counts: Seq<u32>,
    volume_ml: Single,
    pulses: int,
)
    ensures
        ({
            let boot = FlowModel::boot(machine);
            let share = Single::whole(1000).over(pulse_rate(machine));
            &&& boot.poured(volume_ml, pulses) == volume_ml.plus(
                share.times(Single::whole(pulses)),
            )
            &&& boot.with_counts(counts).poured(volume_ml, pulses) == volume_ml.plus(
                share.times(Single::whole(pulses)),
            )
        }),
{
    Single::lemma_whole_exact(0);
    assert(0 * pow2(149) == 0);
}

} // verus!
