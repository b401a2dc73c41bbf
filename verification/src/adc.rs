//! Analog sensor acquisition: averages the oversampled pressure and
//! boiler-temperature channels and filters them. The counts that come out are
//! converted to physical units by the board's calibration.

use crate::single::Single;
use vstd::prelude::*;

verus! {

/// Conversions taken per reading.
pub const SAMPLES: usize = 10;

/// Conversions of a reading that are averaged.
pub const KEPT_SAMPLES: usize = 5;

/// A conversion's count; one that failed counts as 0.
pub open spec fn count_of(sample: Option<u16>) -> int {
    match sample {
        Some(v) => v as int,
        None => 0,
    }
}

pub open spec fn sum_of(samples: Seq<Option<u16>>) -> int
    decreases samples.len(),
{
    if samples.len() == 0 {
        0
    } else {
        sum_of(samples.drop_last()) + count_of(samples.last())
    }
}

/// The average of the last `keep` of some conversions.
pub open spec fn average(samples: Seq<Option<u16>>, keep: int) -> Single {
    Single::whole(sum_of(samples.skip(samples.len() - keep))).over(Single::whole(keep))
}

/// Discards all but the last `keep` of some conversions (letting the
/// sample-and-hold cap settle) and returns the average of the rest.
pub fn sample_avg(samples: &[Option<u16>], keep: usize) -> (r: Single)
    requires
        keep <= samples@.len(),
        keep <= 0x1_0000,
    ensures
        r == average(samples@, keep as int),
{
    let discard: usize = samples.len() - keep;
    let ghost kept = samples@.skip(discard as int);
    let mut sum: u32 = 0;
    let mut i: usize = discard;
    while i < samples.len()
        invariant
            discard == samples@.len() - keep,
            keep <= 0x1_0000,
            discard <= i <= samples@.len(),
            kept == samples@.skip(discard as int),
            sum == sum_of(kept.take(i - discard)),
            sum <= (i - discard) * 0xFFFF,
        decreases samples@.len() - i,
    {
        assert(kept.take(i + 1 - discard).drop_last() =~= kept.take(i - discard));
        let v: u32 = match samples[i] {
            Some(v) => v as u32,
            None => 0,
        };
        sum = sum + v;
        i = i + 1;
    }
    assert(kept.take(keep as int) =~= kept);
    Single::from_u32(sum).div(Single::from_u32(keep as u32))
}

/// Low-pass filters of both channels, in counts.
pub struct AdcFilter {
    p_ema: Single,
    t_ema: Single,
    initialized: bool,
}

/// What an [`AdcFilter`] holds.
pub struct AdcModel {
    pub p_ema: Single,
    pub t_ema: Single,
    pub initialized: bool,
}

impl View for AdcFilter {
    type V = AdcModel;

    closed spec fn view(&self) -> AdcModel {
        AdcModel { p_ema: self.p_ema, t_ema: self.t_ema, initialized: self.initialized }
    }
}

/// The pressure filter's share, 0.01: about 0.8 Hz cutoff, which rejects the
/// 200 ms beat from unsynced ADC and pump sampling.
pub open spec fn alpha_p() -> Single {
    Single::fraction(1, 100)
}

/// The temperature filter's share, 0.2: about 20 Hz cutoff.
pub open spec fn alpha_t() -> Single {
    Single::fraction(2, 10)
}

impl AdcModel {
    /// The first reading is taken as it is, each later one moves the filter
    /// towards itself.
    pub open spec fn filtered(self, raw_p: Single, raw_t: Single) -> AdcModel {
        if self.initialized {
            AdcModel {
                p_ema: self.p_ema.plus(alpha_p().times(raw_p.minus(self.p_ema))),
                t_ema: self.t_ema.plus(alpha_t().times(raw_t.minus(self.t_ema))),
                ..self
            }
        } else {
            AdcModel { p_ema: raw_p, t_ema: raw_t, initialized: true }
        }
    }
}

impl AdcFilter {
    pub fn new() -> (r: AdcFilter)
        ensures
            r@ == (AdcModel {
                p_ema: Single::whole(0),
                t_ema: Single::whole(0),
                initialized: false,
            }),
    {
        AdcFilter {
            p_ema: Single::from_u32(0),
            t_ema: Single::from_u32(0),
            initialized: false,
        }
    }

    /// Takes in one reading of each channel, and returns the filtered pressure
    /// and temperature counts.
    pub fn update(&mut self, raw_p: Single, raw_t: Single) -> (r: (Single, Single))
        ensures
            final(self)@ == old(self)@.filtered(raw_p, raw_t),
            r == (final(self)@.p_ema, final(self)@.t_ema),
    {
        if !self.initialized {
            self.p_ema = raw_p;
            self.t_ema = raw_t;
            self.initialized = true;
        } else {
            self.p_ema = self.p_ema.add(Single::ratio(1, 100).mul(raw_p.sub(self.p_ema)));
            self.t_ema = self.t_ema.add(Single::ratio(2, 10).mul(raw_t.sub(self.t_ema)));
        }
        (self.p_ema, self.t_ema)
    }
}

/// A filter never overshoots: it ends up between where it was and the reading.
pub proof fn law_filter_does_not_overshoot(filter: AdcModel, raw_p: Single, raw_t: Single)
    requires
        filter.initialized,
        filter.p_ema.finite(),
        filter.t_ema.finite(),
        raw_p.finite(),
        raw_t.finite(),
        raw_p.minus(filter.p_ema).finite(),
        raw_t.minus(filter.t_ema).finite(),
    ensures
        ({
            let next = filter.filtered(raw_p, raw_t);
            &&& filter.p_ema.at_most(raw_p) ==> filter.p_ema.at_most(next.p_ema)
                && next.p_ema.at_most(raw_p)
            &&& raw_p.at_most(filter.p_ema) ==> raw_p.at_most(next.p_ema) && next.p_ema.at_most(
                filter.p_ema,
            )
            &&& filter.t_ema.at_most(raw_t) ==> filter.t_ema.at_most(next.t_ema)
                && next.t_ema.at_most(raw_t)
            &&& raw_t.at_most(filter.t_ema) ==> raw_t.at_most(next.t_ema) && next.t_ema.at_most(
                filter.t_ema,
            )
        }),
{
    Single::lemma_fraction_at_most_quarter(1, 100);
    Single::lemma_fraction_at_most_quarter(2, 10);
    filter.p_ema.lemma_smoothed(raw_p, alpha_p());
    filter.t_ema.lemma_smoothed(raw_t, alpha_t());
}

} // verus!
