//! What the analog readings are: averages between what was converted, filtered
//! by their shares.

use crate::adc::{average, count_of, sum_of, AdcModel};
use crate::single::Single;
use vstd::arithmetic::power2::*;
use vstd::prelude::*;

verus! {

/// The conversions ahead of those that are averaged do not matter, and a failed
/// one counts as 0.
pub proof fn law_early_conversions_are_discarded(
    early: Seq<Option<u16>>,
    kept: Seq<Option<u16>>,
    counts: Seq<Option<u16>>,
)
    requires
        counts.len() == kept.len(),
        forall|i: int|
            0 <= i < kept.len() ==> #[trigger] counts[i] == if kept[i] is Some {
                kept[i]
            } else {
                Some(0u16)
            },
    ensures
        average(early + kept, kept.len() as int) == average(kept, kept.len() as int),
        average(counts, kept.len() as int) == average(kept, kept.len() as int),
{
    assert((early + kept).skip(early.len() as int) =~= kept);
    assert(kept.skip(0) =~= kept);
    assert(counts.skip(0) =~= counts);
    lemma_same_sum(kept, counts);
}

proof fn lemma_same_sum(a: Seq<Option<u16>>, b: Seq<Option<u16>>)
    requires
        a.len() == b.len(),
        forall|i: int|
            0 <= i < a.len() ==> #[trigger] b[i] == if a[i] is Some {
                a[i]
            } else {
                Some(0u16)
            },
    ensures
        sum_of(a) == sum_of(b),
    decreases a.len(),
{
    if a.len() > 0 {
        let (x, y) = (a.drop_last(), b.drop_last());
        assert forall|i: int| 0 <= i < x.len() implies #[trigger] y[i] == if x[i] is Some {
            x[i]
        } else {
            Some(0u16)
        } by {
            assert(y[i] == b[i]);
        }
        lemma_same_sum(x, y);
        assert(b[a.len() - 1] == b.last());
    }
}

proof fn lemma_sum_between(samples: Seq<Option<u16>>, low: int, high: int)
    requires
        0 <= low <= high,
        forall|i: int|
            0 <= i < samples.len() ==> low <= count_of(#[trigger] samples[i]) <= high,
    ensures
        low * samples.len() <= sum_of(samples) <= high * samples.len(),
    decreases samples.len(),
{
    if samples.len() > 0 {
        let rest = samples.drop_last();
        let n = samples.len() as int;
        assert forall|i: int| 0 <= i < rest.len() implies low <= count_of(#[trigger] rest[i])
            <= high by {
            assert(rest[i] == samples[i]);
        }
        lemma_sum_between(rest, low, high);
        assert(low <= count_of(samples[n - 1]) <= high);
        assert(low * n == low * (n - 1) + low && high * n == high * (n - 1) + high)
            by (nonlinear_arith);
    }
}

/// A reading lies between the least and the greatest of the counts it averages,
/// and equal counts average to themselves.
pub proof fn law_reading_lies_between_its_counts(
    samples: Seq<Option<u16>>,
    keep: int,
    low: int,
    high: int,
)
    requires
        0 < keep <= 256,
        keep <= samples.len(),
        0 <= low <= high < 0x1_0000,
        forall|i: int|
            samples.len() - keep <= i < samples.len() ==> low <= count_of(#[trigger] samples[i])
                <= high,
    ensures
        Single::whole(low).at_most(average(samples, keep)),
        average(samples, keep).at_most(Single::whole(high)),
{
    let kept = samples.skip(samples.len() - keep);
    assert forall|i: int| 0 <= i < kept.len() implies low <= count_of(#[trigger] kept[i])
        <= high by {
        assert(kept[i] == samples[samples.len() - keep + i]);
    }
    lemma_sum_between(kept, low, high);
    let sum = sum_of(kept);
    lemma_average_exact(low, keep);
    lemma_average_exact(high, keep);
    Single::lemma_whole_exact(low);
    Single::lemma_whole_exact(high);
    assert(0 <= low * keep && high * keep < 0x100_0000) by (nonlinear_arith)
        requires
            0 <= low,
            0 <= high < 0x1_0000,
            0 < keep <= 256,
    ;
    Single::lemma_whole_exact(low * keep);
    Single::lemma_whole_exact(high * keep);
    Single::lemma_whole_exact(sum);
    Single::lemma_whole_monotone(low * keep, sum);
    Single::lemma_whole_monotone(sum, high * keep);
    let n = Single::whole(keep);
    Single::lemma_whole_exact(keep);
    lemma_pow2_pos(149);
    assert(keep * pow2(149) > 0) by (nonlinear_arith)
        requires
            keep > 0,
            pow2(149) > 0,
    ;
    Single::whole(low * keep).lemma_over_monotone(Single::whole(sum), n);
    Single::whole(sum).lemma_over_monotone(Single::whole(high * keep), n);
}

proof fn lemma_average_exact(v: int, n: int)
    requires
        0 <= v < 0x1_0000,
        0 < n <= 256,
    ensures
        ({
            let mean = Single::whole(v * n).over(Single::whole(n));
            &&& mean.finite()
            &&& mean.value() == Single::whole(v).value()
        }),
{
    let p = pow2(149) as int;
    lemma_pow2_pos(149);
    assert(0 <= v * n < 0x100_0000) by (nonlinear_arith)
        requires
            0 <= v < 0x1_0000,
            0 < n <= 256,
    ;
    Single::lemma_whole_exact(v);
    Single::lemma_whole_exact(n);
    Single::lemma_whole_exact(v * n);
    assert(n * p > 0) by (nonlinear_arith)
        requires
            n > 0,
            p > 0,
    ;
    Single::whole(v * n).lemma_over_value(Single::whole(n));
    let mean = Single::whole(v * n).over(Single::whole(n));
    assert(((v * n) * p) * p == (v * p) * (n * p)) by (nonlinear_arith);
    mean.lemma_rounded_exactly(v, 149, n * p);
}

/// A count in the converter's range.
pub open spec fn convertible(x: Single) -> bool {
    x.finite() && 0 <= x.value() <= 4096 * pow2(149)
}

/// The first reading is taken over as it is. Each later one moves the filtered
/// pressure a hundredth of the way towards it, and the filtered temperature a
/// fifth, to within an eighth of a count of the way.
pub proof fn law_filters_move_by_their_shares(filter: AdcModel, raw_p: Single, raw_t: Single)
    requires
        convertible(raw_p),
        convertible(raw_t),
        filter.initialized ==> convertible(filter.p_ema) && convertible(filter.t_ema),
    ensures
        ({
            let next = filter.filtered(raw_p, raw_t);
            let unit = pow2(149) as int;
            let p_gap = 100 * (next.p_ema.value() - filter.p_ema.value()) - (raw_p.value()
                - filter.p_ema.value());
            let t_gap = 5 * (next.t_ema.value() - filter.t_ema.value()) - (raw_t.value()
                - filter.t_ema.value());
            &&& next.initialized
            &&& !filter.initialized ==> next.p_ema == raw_p && next.t_ema == raw_t
            &&& filter.initialized ==> -unit <= 8 * p_gap <= unit && -unit <= 8 * t_gap <= unit
        }),
{
    if filter.initialized {
        lemma_share(filter.p_ema, raw_p, 1, 100);
        Single::lemma_fraction_reduced(1, 5, 2);
        lemma_share(filter.t_ema, raw_t, 1, 5);
    }
}

proof fn lemma_share(ema: Single, raw: Single, n: int, d: int)
    requires
        convertible(ema),
        convertible(raw),
        n == 1,
        d == 100 || d == 5,
    ensures
        ({
            let next = ema.plus(Single::fraction(n, d).times(raw.minus(ema)));
            let gap = d * (next.value() - ema.value()) - (raw.value() - ema.value());
            -(pow2(149) as int) <= 8 * gap <= pow2(149)
        }),
{
    let p = pow2(149) as int;
    lemma2_to64();
    lemma_pow2_pos(149);
    lemma_pow2_adds(12, 149);
    lemma_pow2_adds(13, 149);
    lemma_pow2_adds(23, 126);
    lemma_pow2_adds(12, 126);
    lemma_pow2_adds(13, 126);
    let t = pow2(126) as int;
    assert(p == 0x80_0000 * t);
    let share = Single::fraction(n, d);
    Single::lemma_fraction_value(n, d);
    Single::lemma_fraction_error(n, d);
    let s = share.value();
    ema.lemma_negated();
    raw.lemma_plus_value(ema.negated());
    let away = raw.minus(ema);
    let x = raw.value() - ema.value();
    assert(1 * pow2(161) == pow2(161) && 1 * pow2(138) == pow2(138));
    away.lemma_rounded_within(x, 1, 12);
    let y = away.value();
    assert(1 * y == y);
    assert(-(0x800 * t) <= y - x <= 0x800 * t);
    assert(-(4097 * p) <= y <= 4097 * p);
    share.lemma_times_value(away);
    let z = s * y;
    assert(-(p * (4097 * p)) <= z <= p * (4097 * p)) by (nonlinear_arith)
        requires
            z == s * y,
            0 <= s <= p,
            -(4097 * p) <= y <= 4097 * p,
            p > 0,
    ;
    let moved = share.times(away);
    away.lemma_times_share(share);
    assert(p * (4097 * p) <= p * pow2(162)) by (nonlinear_arith)
        requires
            pow2(162) == 0x2000 * p,
            p > 0,
    ;
    // The product itself is smaller, by the share.
    lemma_small_product(s, y, d, t, p);
    let e = if d == 100 {
        6int
    } else {
        10int
    };
    lemma_pow2_adds(6, 149);
    lemma_pow2_adds(10, 149);
    lemma_pow2_adds(6, 126);
    lemma_pow2_adds(10, 126);
    moved.lemma_rounded_within(z, p, e);
    let w = moved.value();
    let g = pow2((126 + e) as nat) as int;
    assert(2 * (d * w * p - d * z) <= d * (p * g) && 2 * (d * z - d * w * p) <= d * (p * g))
        by (nonlinear_arith)
        requires
            2 * (p * w - z) <= p * g,
            2 * (z - p * w) <= p * g,
            d > 0,
    ;
    ema.lemma_plus_value(moved);
    let next = ema.plus(moved);
    assert(1 * pow2(162) == pow2(162) && 1 * pow2(139) == pow2(139));
    assert(-(4097 * p) <= w <= 4097 * p);
    next.lemma_rounded_within(ema.value() + w, 1, 13);
    let v = next.value();
    assert(1 * v == v);
    assert(-(0x1000 * t) <= v - (ema.value() + w) <= 0x1000 * t);
    // d s y is y, up to the share's own error.
    assert(2 * (d * z - p * y) <= d * t * 4097 * p && 2 * (p * y - d * z) <= d * t * 4097 * p)
        by (nonlinear_arith)
        requires
            z == s * y,
            2 * (d * s - p) <= d * t,
            2 * (p - d * s) <= d * t,
            -(4097 * p) <= y <= 4097 * p,
            d > 0,
            t > 0,
            p > 0,
    ;
    assert(2 * (d * w - y) <= d * g + d * t * 4097 && 2 * (y - d * w) <= d * g + d * t * 4097)
        by (nonlinear_arith)
        requires
            2 * (d * w * p - d * z) <= d * (p * g),
            2 * (d * z - d * w * p) <= d * (p * g),
            2 * (d * z - p * y) <= d * t * 4097 * p,
            2 * (p * y - d * z) <= d * t * 4097 * p,
            p > 0,
    ;
    if d == 100 {
        assert(g == 64 * t);
    } else {
        assert(g == 1024 * t);
    }
}

proof fn lemma_small_product(s: int, y: int, d: int, t: int, p: int)
    requires
        d == 100 || d == 5,
        p == 0x80_0000 * t,
        t > 0,
        s >= 0,
        2 * (d * s - p) <= d * t,
        -(4097 * p) <= y <= 4097 * p,
    ensures
        d == 100 ==> -(p * (64 * p)) <= s * y <= p * (64 * p),
        d == 5 ==> -(p * (1024 * p)) <= s * y <= p * (1024 * p),
{
    if d == 100 {
        assert(65 * s <= p);
        assert(-(p * (64 * p)) <= s * y <= p * (64 * p)) by (nonlinear_arith)
            requires
                0 <= s,
                65 * s <= p,
                -(4097 * p) <= y <= 4097 * p,
                p > 0,
        ;
    } else {
        assert(49 * s <= 10 * p);
        assert(-(p * (1024 * p)) <= s * y <= p * (1024 * p)) by (nonlinear_arith)
            requires
                0 <= s,
                49 * s <= 10 * p,
                -(4097 * p) <= y <= 4097 * p,
                p > 0,
        ;
    }
}

} // verus!
