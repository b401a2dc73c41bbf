//! Generic PID controller shared by the pump and temperature loops.

use crate::single::Single;
use vstd::prelude::*;

verus! {

/// A controller's gains and memory.
pub struct PidController {
    kp: Single,
    ki: Single,
    kd: Single,
    i_term: Single,
    prev_measurement: Single,
    /// Time of the last update, in microseconds since boot.
    last_time: Option<u64>,
}

/// What a [`PidController`] holds, as its contracts speak of it.
pub struct PidModel {
    pub kp: Single,
    pub ki: Single,
    pub kd: Single,
    pub i_term: Single,
    pub prev_measurement: Single,
    pub last_time: Option<u64>,
}

impl View for PidController {
    type V = PidModel;

    closed spec fn view(&self) -> PidModel {
        PidModel {
            kp: self.kp,
            ki: self.ki,
            kd: self.kd,
            i_term: self.i_term,
            prev_measurement: self.prev_measurement,
            last_time: self.last_time,
        }
    }
}

/// The terms of one update.
pub struct PidTerms {
    /// Proportional plus derivative term.
    pub base: Single,
    /// What the integral would change by.
    pub delta: Single,
    /// The integral that results.
    pub i_term: Single,
    pub output: Single,
}

impl PidModel {
    pub open spec fn fresh(kp: Single, ki: Single, kd: Single) -> PidModel {
        PidModel {
            kp,
            ki,
            kd,
            i_term: Single::whole(0),
            prev_measurement: Single::whole(0),
            last_time: None,
        }
    }

    pub open spec fn cleared(self) -> PidModel {
        PidModel { i_term: Single::whole(0), last_time: None, ..self }
    }

    /// Cleared when the setpoint goes from zero to something else.
    pub open spec fn reactivated(self, previous: Single, next: Single) -> PidModel {
        if previous.same(Single::whole(0)) && !next.same(Single::whole(0)) {
            self.cleared()
        } else {
            self
        }
    }

    pub open spec fn with_coeffs(self, kp: Single, ki: Single, kd: Single) -> PidModel {
        PidModel { kp, ki, kd, ..self }
    }

    /// Whether an update may happen at `now`: time does not run backwards.
    pub open spec fn ready(self, now: u64) -> bool {
        self.last_time matches Some(last) ==> last <= now
    }

    /// Seconds since the last update, kept between 10 ms and 2 s; 20 ms for
    /// the first one.
    pub open spec fn interval(self, now: u64) -> Single {
        match self.last_time {
            Some(last) => Single::whole(now - last).over(Single::whole(1_000_000)).clamped(
                Single::fraction(1, 100),
                Single::whole(2),
            ),
            None => Single::fraction(2, 100),
        }
    }

    pub open spec fn terms(self, target: Single, measurement: Single, now: u64) -> PidTerms {
        let dt = self.interval(now);
        let previous = if self.last_time is Some {
            self.prev_measurement
        } else {
            measurement
        };
        let error = target.minus(measurement);
        let base = self.kp.times(error).plus(self.kd.times(previous.minus(measurement)).over(dt));
        let delta = self.ki.times(error).times(dt);
        let i_term = PidModel::integrated(self.i_term, base.plus(self.i_term), delta);
        PidTerms {
            base,
            delta,
            i_term,
            output: base.plus(i_term).clamped(Single::whole(0), Single::whole(100)),
        }
    }

    /// The integral after one step: held where it would push an output that is
    /// already past a limit further past it, else moved by `delta` and kept
    /// between -20 and 100.
    pub open spec fn integrated(i_term: Single, ideal: Single, delta: Single) -> Single {
        let worse_high = Single::whole(100).at_most(ideal) && Single::whole(0).less(delta);
        let worse_low = ideal.at_most(Single::whole(0)) && delta.less(Single::whole(0));
        if worse_high || worse_low {
            i_term
        } else {
            i_term.plus(delta).clamped(Single::whole(20).negated(), Single::whole(100))
        }
    }

    /// The measurement an update compares with: for the first one, its own.
    pub open spec fn previous(self, measurement: Single) -> Single {
        if self.last_time is Some {
            self.prev_measurement
        } else {
            measurement
        }
    }

    /// The derivative term of an update.
    pub open spec fn d_term(self, measurement: Single, now: u64) -> Single {
        self.kd.times(self.previous(measurement).minus(measurement)).over(self.interval(now))
    }

    /// No step of an update leaves the finite numbers.
    pub open spec fn tame(self, target: Single, measurement: Single, now: u64) -> bool {
        let error = target.minus(measurement);
        let change = self.previous(measurement).minus(measurement);
        &&& measurement.finite()
        &&& error.finite()
        &&& self.kp.times(error).finite()
        &&& self.ki.times(error).finite()
        &&& change.finite()
        &&& self.kd.times(change).finite()
        &&& self.d_term(measurement, now).finite()
        &&& self.terms(target, measurement, now).delta.finite()
        &&& self.terms(target, measurement, now).base.finite()
        &&& self.terms(target, measurement, now).base.plus(self.i_term).finite()
    }

    /// Gains a controller is meant to have: finite, and none negative.
    pub open spec fn sound(self) -> bool {
        &&& self.kp.finite() && self.kp.value() >= 0
        &&& self.ki.finite() && self.ki.value() >= 0
        &&& self.kd.finite() && self.kd.value() >= 0
    }

    pub open spec fn updated(self, target: Single, measurement: Single, now: u64) -> PidModel {
        PidModel {
            i_term: self.terms(target, measurement, now).i_term,
            prev_measurement: measurement,
            last_time: Some(now),
            ..self
        }
    }
}

impl PidController {
    pub fn new(kp: Single, ki: Single, kd: Single) -> (r: PidController)
        ensures
            r@ == PidModel::fresh(kp, ki, kd),
    {
        PidController {
            kp,
            ki,
            kd,
            i_term: Single::from_u32(0),
            prev_measurement: Single::from_u32(0),
            last_time: None,
        }
    }

    pub fn reset(&mut self)
        ensures
            final(self)@ == old(self)@.cleared(),
    {
        self.i_term = Single::from_u32(0);
        self.last_time = None;
    }

    /// Resets the integral term when the setpoint activates from idle (0 ->
    /// non-zero), so a fresh engagement doesn't inherit stale wind-up.
    pub fn reset_if_reactivated(&mut self, previous: Single, next: Single)
        ensures
            final(self)@ == old(self)@.reactivated(previous, next),
    {
        let zero: Single = Single::from_u32(0);
        if previous == zero && !(next == zero) {
            self.reset();
        }
    }

    pub fn set_coeffs(&mut self, kp: Single, ki: Single, kd: Single)
        ensures
            final(self)@ == old(self)@.with_coeffs(kp, ki, kd),
    {
        self.kp = kp;
        self.ki = ki;
        self.kd = kd;
    }

    /// One step towards `target`, which the caller provides on every call
    /// since it may recompute it right before each update. `now` is in
    /// microseconds since boot.
    pub fn update(&mut self, target: Single, measurement: Single, now: u64) -> (output: Single)
        requires
            old(self)@.ready(now),
        ensures
            final(self)@ == old(self)@.updated(target, measurement, now),
            output == old(self)@.terms(target, measurement, now).output,
    {
        let zero: Single = Single::from_u32(0);
        let output_max: Single = Single::from_u32(100);
        let dt: Single = match self.last_time {
            Some(last) => Single::from_u64(now - last).div(Single::from_u32(1_000_000)).clamp(
                Single::ratio(1, 100),
                Single::from_u32(2),
            ),
            None => {
                self.prev_measurement = measurement;
                Single::ratio(2, 100)
            },
        };
        self.last_time = Some(now);

        let error: Single = target.sub(measurement);

        // D on measurement: opposes rate of change.
        let d_term: Single = self.kd.mul(self.prev_measurement.sub(measurement)).div(dt);
        self.prev_measurement = measurement;

        let p_term: Single = self.kp.mul(error);

        let base_output: Single = p_term.add(d_term);
        let ideal_output: Single = base_output.add(self.i_term);

        // Conditional integration (anti-windup): only block the direction that
        // would *worsen* saturation, always allow unwinding back into range.
        let delta: Single = self.ki.mul(error).mul(dt);
        let would_worsen_high: bool = ideal_output.ge(output_max) && delta.gt(zero);
        let would_worsen_low: bool = ideal_output.le(zero) && delta.lt(zero);
        if !would_worsen_high && !would_worsen_low {
            self.i_term = self.i_term.add(delta).clamp(Single::from_u32(20).neg(), output_max);
        }
        base_output.add(self.i_term).clamp(zero, output_max)
    }
}

/// The integral's range.
pub open spec fn integral_in_range(i_term: Single) -> bool {
    Single::whole(20).negated().at_most(i_term) && i_term.at_most(Single::whole(100))
}

/// An output that is a number is a duty between 0 and 100 %.
pub proof fn law_output_is_a_duty(pid: PidModel, target: Single, measurement: Single, now: u64)
    ensures
        ({
            let output = pid.terms(target, measurement, now).output;
            output.nan() || (Single::whole(0).at_most(output) && output.at_most(
                Single::whole(100),
            ))
        }),
{
    Single::lemma_whole_ordered(0, 100);
    let t = pid.terms(target, measurement, now);
    let raw = t.base.plus(t.i_term);
    if !raw.nan() {
        raw.lemma_clamped(Single::whole(0), Single::whole(100));
    }
}

/// An integral in range stays in range, or becomes a not-a-number.
pub proof fn law_integral_stays_in_range(
    pid: PidModel,
    target: Single,
    measurement: Single,
    now: u64,
)
    requires
        integral_in_range(pid.i_term),
    ensures
        ({
            let i_term = pid.updated(target, measurement, now).i_term;
            i_term.nan() || integral_in_range(i_term)
        }),
{
    Single::lemma_whole_exact(20);
    Single::lemma_whole_exact(100);
    Single::whole(20).lemma_negated();
    vstd::arithmetic::power2::lemma_pow2_pos(149);
    let t = pid.terms(target, measurement, now);
    let moved = pid.i_term.plus(t.delta);
    if !moved.nan() {
        assert(Single::whole(20).negated().at_most(Single::whole(100)));
        moved.lemma_clamped(Single::whole(20).negated(), Single::whole(100));
    }
}

/// While the output is at its upper limit the integral never rises: saturation
/// is not wound up further.
pub proof fn law_no_windup_at_the_top(pid: PidModel, target: Single, measurement: Single, now: u64)
    requires
        integral_in_range(pid.i_term),
        Single::whole(100).at_most(
            pid.terms(target, measurement, now).base.plus(pid.i_term),
        ),
        !pid.terms(target, measurement, now).delta.nan(),
    ensures
        pid.updated(target, measurement, now).i_term.at_most(pid.i_term),
{
    Single::lemma_whole_exact(0);
    Single::lemma_whole_exact(20);
    Single::lemma_whole_exact(100);
    Single::whole(20).lemma_negated();
    vstd::arithmetic::power2::lemma_pow2_pos(149);
    let delta = pid.terms(target, measurement, now).delta;
    if delta.value() <= 0 {
        pid.i_term.lemma_finite_between(Single::whole(20).negated(), Single::whole(100));
        pid.i_term.lemma_plus_at_most(delta);
    }
}

/// While the output is at its lower limit the integral never falls.
pub proof fn law_no_windup_at_the_bottom(
    pid: PidModel,
    target: Single,
    measurement: Single,
    now: u64,
)
    requires
        integral_in_range(pid.i_term),
        pid.terms(target, measurement, now).base.plus(pid.i_term).at_most(Single::whole(0)),
        !pid.terms(target, measurement, now).delta.nan(),
    ensures
        pid.i_term.at_most(pid.updated(target, measurement, now).i_term),
{
    Single::lemma_whole_exact(0);
    Single::lemma_whole_exact(20);
    Single::lemma_whole_exact(100);
    Single::whole(20).lemma_negated();
    vstd::arithmetic::power2::lemma_pow2_pos(149);
    let delta = pid.terms(target, measurement, now).delta;
    if delta.value() >= 0 {
        pid.i_term.lemma_finite_between(Single::whole(20).negated(), Single::whole(100));
        pid.i_term.lemma_plus_at_least(delta);
    }
}

/// The interval is a positive number of seconds, at most two.
pub proof fn lemma_interval(pid: PidModel, now: u64)
    requires
        pid.ready(now),
    ensures
        pid.interval(now).finite(),
        pid.interval(now).value() >= 0,
        pid.interval(now).magnitude() > 0,
{
    let (low, high) = (Single::fraction(1, 100), Single::whole(2));
    Single::lemma_fraction_value(1, 100);
    Single::lemma_fraction_value(2, 100);
    Single::lemma_fraction_error(1, 100);
    Single::lemma_fraction_error(2, 100);
    Single::lemma_whole_exact(2);
    Single::lemma_whole_positive(1_000_000);
    Single::whole(1_000_000).lemma_positive();
    vstd::arithmetic::power2::lemma_pow2_pos(126);
    vstd::arithmetic::power2::lemma_pow2_adds(23, 126);
    vstd::arithmetic::power2::lemma2_to64();
    assert(low.value() > 0 && Single::fraction(2, 100).value() > 0);
    low.lemma_positive();
    Single::fraction(2, 100).lemma_positive();
    if let Some(last) = pid.last_time {
        let elapsed = Single::whole(now - last);
        Single::lemma_whole_is_a_number(now - last);
        elapsed.lemma_over_is_a_number(Single::whole(1_000_000));
        let seconds = elapsed.over(Single::whole(1_000_000));
        assert(low.at_most(high));
        seconds.lemma_clamped(low, high);
        pid.interval(now).lemma_finite_between(low, high);
        pid.interval(now).lemma_positive();
    }
}

/// The interval is at most two seconds.
pub proof fn lemma_interval_short(pid: PidModel, now: u64)
    requires
        pid.ready(now),
    ensures
        pid.interval(now).value() <= 2 * vstd::arithmetic::power2::pow2(149),
{
    let (low, high) = (Single::fraction(1, 100), Single::whole(2));
    Single::lemma_fraction_value(1, 100);
    Single::lemma_fraction_value(2, 100);
    Single::lemma_whole_exact(2);
    if let Some(last) = pid.last_time {
        let elapsed = Single::whole(now - last);
        Single::lemma_whole_is_a_number(now - last);
        Single::lemma_whole_positive(1_000_000);
        Single::whole(1_000_000).lemma_positive();
        elapsed.lemma_over_is_a_number(Single::whole(1_000_000));
        elapsed.over(Single::whole(1_000_000)).lemma_clamped(low, high);
    }
}

/// The interval is positive.
proof fn lemma_interval_value(pid: PidModel, now: u64)
    requires
        pid.ready(now),
    ensures
        pid.interval(now).finite(),
        pid.interval(now).value() > 0,
{
    lemma_interval(pid, now);
    pid.interval(now).lemma_zero();
    Single::lemma_whole_exact(0);
    assert(0 * vstd::arithmetic::power2::pow2(149) == 0);
}

/// A larger measurement never gets more duty: of two measurements against one
/// setpoint, the larger governs.
pub proof fn law_larger_measurement_gets_no_more_duty(
    pid: PidModel,
    target: Single,
    low: Single,
    high: Single,
    now: u64,
)
    requires
        pid.ready(now),
        pid.sound(),
        integral_in_range(pid.i_term),
        target.finite(),
        low.at_most(high),
        pid.tame(target, low, now),
        pid.tame(target, high, now),
    ensures
        pid.terms(target, high, now).output.at_most(pid.terms(target, low, now).output),
{
    let (ea, eb) = (target.minus(high), target.minus(low));
    let dt = pid.interval(now);
    lemma_interval_value(pid, now);
    low.lemma_negated();
    high.lemma_negated();
    target.lemma_plus_ordered(target, high.negated(), low.negated());
    let (ca, cb) = (pid.previous(high).minus(high), pid.previous(low).minus(low));
    if pid.last_time is Some {
        let previous = pid.prev_measurement;
        if previous.finite() {
            previous.lemma_plus_ordered(previous, high.negated(), low.negated());
        } else {
            reveal(Single::plus);
        }
    } else {
        high.lemma_minus_itself();
        low.lemma_minus_itself();
        ca.lemma_zero();
        cb.lemma_zero();
    }
    pid.kd.lemma_times_monotone(ca, cb);
    pid.kd.times(ca).lemma_over_monotone(pid.kd.times(cb), dt);
    lemma_terms_ordered(pid, target, high, target, low, now);
}

/// A higher setpoint never gets less duty.
pub proof fn law_higher_target_gets_no_less_duty(
    pid: PidModel,
    low: Single,
    high: Single,
    measurement: Single,
    now: u64,
)
    requires
        pid.ready(now),
        pid.sound(),
        integral_in_range(pid.i_term),
        low.finite(),
        high.finite(),
        low.at_most(high),
        pid.tame(low, measurement, now),
        pid.tame(high, measurement, now),
    ensures
        pid.terms(low, measurement, now).output.at_most(pid.terms(high, measurement, now).output),
{
    measurement.lemma_negated();
    low.lemma_plus_ordered(high, measurement.negated(), measurement.negated());
    lemma_terms_ordered(pid, low, measurement, high, measurement, now);
}

/// Errors and derivative terms in order give outputs in order.
proof fn lemma_terms_ordered(
    pid: PidModel,
    target_a: Single,
    a_m: Single,
    target_b: Single,
    b_m: Single,
    now: u64,
)
    requires
        pid.ready(now),
        pid.sound(),
        integral_in_range(pid.i_term),
        pid.tame(target_a, a_m, now),
        pid.tame(target_b, b_m, now),
        target_a.minus(a_m).at_most(target_b.minus(b_m)),
        pid.d_term(a_m, now).at_most(pid.d_term(b_m, now)),
    ensures
        pid.terms(target_a, a_m, now).output.at_most(pid.terms(target_b, b_m, now).output),
{
    let (a, b) = (pid.terms(target_a, a_m, now), pid.terms(target_b, b_m, now));
    let (ea, eb) = (target_a.minus(a_m), target_b.minus(b_m));
    let dt = pid.interval(now);
    lemma_interval(pid, now);
    pid.kp.lemma_times_monotone(ea, eb);
    pid.ki.lemma_times_monotone(ea, eb);
    pid.kp.times(ea).lemma_plus_ordered(
        pid.kp.times(eb),
        pid.d_term(a_m, now),
        pid.d_term(b_m, now),
    );
    dt.lemma_times_monotone(pid.ki.times(ea), pid.ki.times(eb));
    assert(a.base.at_most(b.base));
    assert(a.delta.at_most(b.delta));
    let (zero, full) = (Single::whole(0), Single::whole(100));
    Single::lemma_whole_exact(0);
    Single::lemma_whole_exact(20);
    Single::lemma_whole_exact(100);
    Single::whole(20).lemma_negated();
    Single::lemma_whole_ordered(0, 100);
    vstd::arithmetic::power2::lemma_pow2_pos(149);
    let least = Single::whole(20).negated();
    let i = pid.i_term;
    i.lemma_finite_between(least, full);
    a.base.lemma_plus_ordered(b.base, i, i);
    lemma_moved(i, a.delta);
    lemma_moved(i, b.delta);
    i.lemma_plus_ordered(i, a.delta, b.delta);
    let (ia, ib) = (i.plus(a.delta), i.plus(b.delta));
    assert(ia.clamped(least, full).at_most(ib.clamped(least, full)));
    law_integral_stays_in_range(pid, target_a, a_m, now);
    law_integral_stays_in_range(pid, target_b, b_m, now);
    a.i_term.lemma_finite_between(least, full);
    b.i_term.lemma_finite_between(least, full);
    a.base.lemma_plus_value(a.i_term);
    b.base.lemma_plus_value(b.i_term);
    let (ideal_a, ideal_b) = (a.base.plus(i), b.base.plus(i));
    let (oa, ob) = (a.base.plus(a.i_term), b.base.plus(b.i_term));
    let held_b = full.at_most(ideal_b) && zero.less(b.delta);
    let held_a = ideal_a.at_most(zero) && a.delta.less(zero);
    if held_b {
        // The one that gets more is at full duty already.
        assert(ob.clamped(zero, full).same(full));
        oa.lemma_clamped(zero, full);
    } else if held_a {
        // The one that gets less has none.
        assert(oa.clamped(zero, full).same(zero));
        ob.lemma_clamped(zero, full);
    } else {
        if a.i_term.at_most(b.i_term) {
            a.base.lemma_plus_ordered(b.base, a.i_term, b.i_term);
        } else if b.i_term == i {
            // Held at the bottom, where a smaller delta would be held too.
            i.lemma_plus_at_most(a.delta);
            assert(a.i_term.at_most(b.i_term));
        } else {
            // Held at the top, where a larger delta would be held too.
            i.lemma_plus_at_least(b.delta);
            assert(a.i_term.at_most(b.i_term));
        }
    }
}

/// An integral in range, moved by a finite step, is a number.
proof fn lemma_moved(i: Single, delta: Single)
    requires
        integral_in_range(i),
        delta.finite(),
    ensures
        !i.plus(delta).nan(),
{
    Single::lemma_whole_exact(20);
    Single::lemma_whole_exact(100);
    Single::whole(20).lemma_negated();
    i.lemma_finite_between(Single::whole(20).negated(), Single::whole(100));
    i.lemma_plus_value(delta);
}

} // verus!
