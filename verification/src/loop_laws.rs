//! What the control loop is for, stated of what goes into a tick and what comes
//! out of it.

use crate::control::{ControlModel, PumpMode, Signals, TickInput, POWER_TO_DELAY_LUT};
use crate::pid::PidModel;
use crate::settings::{ControlSettings, PidSettings};
use crate::single::Single;
use vstd::arithmetic::power2::*;
use vstd::prelude::*;

verus! {

// ==========================================
// PUMP
// ==========================================

/// In every pump mode the triac is fired exactly on the ticks whose reported
/// duty is positive, and then between 0.20 and 0.80 of the filtered half-wave.
pub proof fn law_triac_follows_the_duty(control: ControlModel, input: TickInput, signals: Signals)
    requires
        Single::whole(7_500).at_most(control.ac_ema),
        control.ac_ema.at_most(Single::whole(11_500)),
    ensures
        ({
            let (after, out) = control.ticked(input, signals);
            let duty = out.telemetry.pump_duty;
            &&& out.triac_delay_us is Some <==> !duty.nan() && duty.value() > 0
            &&& out.triac_delay_us matches Some(delay) ==> {
                &&& Single::fraction(2, 10).times(after.ac_ema).whole_part(0xFFFF_FFFF) <= delay
                &&& delay <= Single::fraction(8, 10).times(after.ac_ema).whole_part(0xFFFF_FFFF)
            }
        }),
{
    let (after, out) = control.ticked(input, signals);
    let duty = out.telemetry.pump_duty;
    let ema = after.ac_ema;
    crate::control::law_filtered_period_stays_plausible(control, input.period_us);
    Single::lemma_whole_exact(7_500);
    Single::lemma_whole_exact(11_500);
    lemma_pow2_pos(149);
    ema.lemma_finite_between(Single::whole(7_500), Single::whole(11_500));
    if duty.positive() {
        crate::control::law_delay_stays_in_the_window(duty);
        let fraction = crate::control::delay_fraction(duty);
        let (low, high) = (Single::fraction(2, 10), Single::fraction(8, 10));
        Single::lemma_fraction_value(2, 10);
        Single::lemma_fraction_value(8, 10);
        fraction.lemma_finite_between(low, high);
        ema.lemma_times_monotone(low, fraction);
        ema.lemma_times_monotone(fraction, high);
        low.times(ema).lemma_whole_part_ordered(fraction.times(ema), 0xFFFF_FFFF);
        fraction.times(ema).lemma_whole_part_ordered(high.times(ema), 0xFFFF_FFFF);
        fraction.times(ema).lemma_whole_part_range(0xFFFF_FFFF);
    }
}

/// The table is symmetric about half power, which fires at the half of the
/// half-wave: as much more power fires as much earlier as less power fires
/// later. Towards the half its steps do not grow.
pub proof fn law_delay_table_is_a_dimmers(i: int)
    requires
        0 <= i <= 100,
    ensures
        POWER_TO_DELAY_LUT[i] + POWER_TO_DELAY_LUT[100 - i] == 10_000,
        POWER_TO_DELAY_LUT[50] == 5_000,
        POWER_TO_DELAY_LUT[0] == 8_000,
        i < 49 ==> (POWER_TO_DELAY_LUT[i] - POWER_TO_DELAY_LUT[i + 1]) + 1
            >= POWER_TO_DELAY_LUT[i + 1] - POWER_TO_DELAY_LUT[i + 2],
{
}

/// Where the duty is a whole percentage the triac fires at exactly the table's
/// fraction of the filtered half-wave, rounded down to a microsecond.
pub proof fn law_whole_duty_fires_at_its_entry(
    control: ControlModel,
    input: TickInput,
    signals: Signals,
    n: int,
)
    requires
        0 < n <= 100,
        control.ticked(input, signals).1.telemetry.pump_duty == Single::whole(n),
    ensures
        ({
            let (after, out) = control.ticked(input, signals);
            let delay = Single::fraction(POWER_TO_DELAY_LUT[n] as int, 10_000).times(after.ac_ema);
            out.triac_delay_us == Some(delay.whole_part(0xFFFF_FFFF) as u32)
        }),
{
    let duty = Single::whole(n);
    let (zero, full) = (Single::whole(0), Single::whole(100));
    Single::lemma_whole_exact(0);
    Single::lemma_whole_exact(n);
    Single::lemma_whole_exact(100);
    let p = pow2(149) as int;
    lemma_pow2_pos(149);
    assert(0 < n * p <= 100 * p) by (nonlinear_arith)
        requires
            0 < n <= 100,
            p > 0,
    ;
    assert(duty.clamped(zero, full) == duty);
    assert(duty.whole_part(0xFFFF_FFFF) == n) by {
        reveal(Single::whole_part);
        assert((n * p) / p == n) by {
            vstd::arithmetic::div_mod::lemma_div_multiples_vanish(n, p);
            assert(n * p == p * n) by (nonlinear_arith);
        }
    }
    if n < 100 {
        let lower = crate::control::delay_entry(n);
        let upper = crate::control::delay_entry(n + 1);
        crate::control::law_delay_table_falls(n);
        crate::control::lemma_entries_apart(n);
        duty.lemma_minus_itself();
        let d = upper.minus(lower);
        duty.minus(duty).lemma_nothing(d);
        Single::lemma_fraction_value(POWER_TO_DELAY_LUT[n] as int, 10_000);
        lower.lemma_fraction_magnitude(POWER_TO_DELAY_LUT[n] as int, 10_000);
        lower.lemma_plus_nothing_bits(d.times(duty.minus(duty)));
    }
}

/// A tick reports what it was given, and counts.
pub proof fn law_tick_reports_its_inputs(control: ControlModel, input: TickInput, signals: Signals)
    ensures
        ({
            let (after, out) = control.ticked(input, signals);
            let t = out.telemetry;
            &&& t.tick == control.tick
            &&& after.tick == if control.tick < u32::MAX {
                control.tick + 1
            } else {
                0
            }
            &&& t.pressure_bar == input.sensors.pressure_bar
            &&& t.temp_c == input.sensors.temp_c
            &&& t.flow_rate_ml_s == input.flow_ml_s
            &&& t.volume_ml == input.volume_ml
        }),
{
}

/// The mode in force is the one signalled last, and the tick that takes a mode
/// acts on it: its ceilings are those reported; raw power is the duty, kept
/// between 0 and 100 %; and a mode without a positive ceiling, as idle is,
/// leaves the pump off.
pub proof fn law_mode_is_obeyed(control: ControlModel, input: TickInput, signals: Signals)
    ensures
        ({
            let (after, out) = control.ticked(input, signals);
            let t = out.telemetry;
            let mode = match signals.pump_mode {
                Some(m) => m,
                None => control.mode,
            };
            let zero = Single::whole(0);
            &&& after.mode == mode
            &&& match mode {
                PumpMode::Idle => {
                    &&& t.pump_duty == zero
                    &&& t.target_bar == zero
                    &&& t.flow_limit_ml_s == zero
                    &&& t.effective_target_bar == zero
                    &&& !t.flow_controlled
                },
                PumpMode::DirectPump(power) => {
                    &&& t.pump_duty == if power.less(zero) {
                        zero
                    } else if Single::whole(100).less(power) {
                        Single::whole(100)
                    } else {
                        power
                    }
                    &&& t.target_bar == zero
                    &&& t.flow_limit_ml_s == zero
                    &&& t.effective_target_bar == zero
                    &&& !t.flow_controlled
                },
                PumpMode::Pressure { bar, flow_limit_ml_s } => {
                    &&& t.target_bar == bar
                    &&& t.flow_limit_ml_s == flow_limit_ml_s
                    &&& t.effective_target_bar == if bar.positive() {
                        bar
                    } else {
                        zero
                    }
                    &&& !bar.positive() && !flow_limit_ml_s.positive() ==> t.pump_duty == zero
                    &&& !bar.positive() ==> t.flow_controlled == flow_limit_ml_s.positive()
                },
            }
        }),
{
    Single::lemma_whole_exact(0);
    assert(0 * pow2(149) == 0);
}

/// A controller as it stands for a tick: with the settings' gains where it was
/// given something new, and without memory where it starts.
pub open spec fn tuned(old: PidModel, gains: Option<PidSettings>, starts: bool) -> PidModel {
    PidModel {
        kp: match gains {
            Some(g) => g.kp,
            None => old.kp,
        },
        ki: match gains {
            Some(g) => g.ki,
            None => old.ki,
        },
        kd: match gains {
            Some(g) => g.kd,
            None => old.kd,
        },
        i_term: if starts {
            Single::whole(0)
        } else {
            old.i_term
        },
        last_time: if starts {
            None
        } else {
            old.last_time
        },
        prev_measurement: old.prev_measurement,
    }
}

/// A mode asks for some pressure or flow.
pub open spec fn pumps(mode: PumpMode) -> bool {
    mode matches PumpMode::Pressure { bar, flow_limit_ml_s } && (bar.positive()
        || flow_limit_ml_s.positive())
}

/// The flow a mode asks for; 0 where it asks for none.
pub open spec fn flow_of(mode: PumpMode) -> Single {
    match mode {
        PumpMode::Pressure { flow_limit_ml_s, .. } => flow_limit_ml_s,
        _ => Single::whole(0),
    }
}

/// With a pressure ceiling the pump is driven by the pressure gains towards 1,
/// from the larger of `1 + 7.5 (pressure / bar - 1)` and, where there is a flow
/// ceiling, `1 + (flow / limit - 1)`. With a flow ceiling alone it is driven by
/// the flow gains towards that flow. The controller in charge, and no other,
/// takes the measurement in. A shot that starts clears its memory.
pub proof fn law_pump_is_driven_towards_its_ceilings(
    control: ControlModel,
    input: TickInput,
    signals: Signals,
    bar: Single,
    limit: Single,
)
    requires
        (match signals.pump_mode {
            Some(m) => m,
            None => control.mode,
        }) == (PumpMode::Pressure { bar, flow_limit_ml_s: limit }),
    ensures
        ({
            let (after, out) = control.ticked(input, signals);
            let one = Single::whole(1);
            let new = signals.pump_mode is Some;
            let pump = tuned(
                control.pump_pid,
                if new {
                    Some(input.settings.press_pid)
                } else {
                    None
                },
                new && !pumps(control.mode) && (bar.positive() || limit.positive()),
            );
            let flow = tuned(
                control.flow_pid,
                if new {
                    Some(input.settings.flow_pid)
                } else {
                    None
                },
                new && flow_of(control.mode).same(Single::whole(0)) && !limit.same(
                    Single::whole(0),
                ),
            );
            let by_pressure = one.plus(
                Single::fraction(75, 10).times(input.sensors.pressure_bar.over(bar).minus(one)),
            );
            let by_flow = one.plus(one.times(input.flow_ml_s.over(limit).minus(one)));
            let flow_leads = limit.positive() && !by_flow.nan() && !by_flow.less(by_pressure);
            let measured = if flow_leads {
                by_flow
            } else {
                by_pressure
            };
            &&& bar.positive() && by_pressure.finite() ==> {
                &&& out.telemetry.pump_duty == pump.terms(one, measured, input.now).output
                &&& after.pump_pid == pump.updated(one, measured, input.now)
                &&& after.flow_pid == flow
            }
            &&& !bar.positive() && limit.positive() ==> {
                &&& out.telemetry.pump_duty == flow.terms(
                    limit,
                    input.flow_ml_s,
                    input.now,
                ).output
                &&& after.flow_pid == flow.updated(limit, input.flow_ml_s, input.now)
                &&& after.pump_pid == pump
            }
        }),
{
    let by_pressure = Single::whole(1).plus(
        Single::fraction(75, 10).times(
            input.sensors.pressure_bar.over(bar).minus(Single::whole(1)),
        ),
    );
    Single::lemma_whole_exact(0);
    assert(crate::control::lowest().infinite() && crate::control::lowest().negative());
    if by_pressure.finite() {
        by_pressure.lemma_finite_below_lowest(crate::control::lowest());
    }
}

/// A shot that starts with the pressure at its ceiling asks for no power, and
/// the triac is not fired, whatever the gains.
pub proof fn law_pressure_at_its_ceiling_needs_no_power(
    control: ControlModel,
    input: TickInput,
    signals: Signals,
    bar: Single,
)
    requires
        signals.pump_mode == Some(
            PumpMode::Pressure { bar, flow_limit_ml_s: Single::whole(0) },
        ),
        !pumps(control.mode),
        bar.finite(),
        bar.positive(),
        input.settings.press_pid.kp.finite(),
        input.settings.press_pid.ki.finite(),
        input.settings.press_pid.ki.value() >= 0,
        input.settings.press_pid.kd.finite(),
        input.sensors.pressure_bar == bar,
    ensures
        control.ticked(input, signals).1.telemetry.pump_duty.same(Single::whole(0)),
        control.ticked(input, signals).1.triac_delay_us is None,
{
    let (after, out) = control.ticked(input, signals);
    let (zero, one, full) = (Single::whole(0), Single::whole(1), Single::whole(100));
    Single::lemma_whole_exact(0);
    Single::lemma_whole_exact(1);
    Single::lemma_whole_exact(20);
    Single::lemma_whole_exact(100);
    Single::whole(20).lemma_negated();
    lemma_pow2_pos(149);
    bar.lemma_positive();
    zero.lemma_zero();
    Single::lemma_fraction_finite(75, 10);
    bar.lemma_weighted_excess_of_itself(Single::fraction(75, 10));
    law_pump_is_driven_towards_its_ceilings(control, input, signals, bar, zero);
    let pid = tuned(control.pump_pid, Some(input.settings.press_pid), true);
    let t = pid.terms(one, one, input.now);
    // No error and no change: every term is nothing.
    one.lemma_minus_itself();
    let nothing = one.minus(one);
    nothing.lemma_nothing(pid.kp);
    nothing.lemma_nothing(pid.kd);
    nothing.lemma_nothing(pid.ki);
    Single::lemma_fraction_value(2, 100);
    Single::lemma_fraction_error(2, 100);
    lemma_pow2_pos(126);
    lemma_pow2_adds(23, 126);
    lemma2_to64();
    let dt = Single::fraction(2, 100);
    dt.lemma_positive();
    pid.kd.times(nothing).lemma_nothing(dt);
    pid.ki.times(nothing).lemma_nothing(dt);
    let base = t.base;
    pid.kp.times(nothing).lemma_nothings_add(pid.kd.times(nothing).over(dt));
    base.lemma_nothings_add(zero);
    zero.lemma_nothings_add(t.delta);
    zero.lemma_zero();
    t.delta.lemma_zero();
    base.plus(zero).lemma_zero();
    zero.plus(t.delta).lemma_zero();
    let i = t.i_term;
    assert(i.magnitude() == 0);
    base.lemma_nothings_add(i);
    base.plus(i).lemma_zero();
}

// ==========================================
// MAINS
// ==========================================

/// A half-wave measured between 7.5 and 11.5 ms moves the filtered one a tenth
/// of the way towards it; any other measurement, and none, leaves it alone.
pub proof fn law_mains_period_is_tracked(control: ControlModel, input: TickInput, signals: Signals)
    ensures
        ({
            let after = control.ticked(input, signals).0.ac_ema;
            match input.period_us {
                Some(raw) if 7_500 < raw < 11_500 => after == control.ac_ema.plus(
                    Single::fraction(1, 10).times(
                        Single::whole(raw as int).minus(control.ac_ema),
                    ),
                ),
                _ => after == control.ac_ema,
            }
        }),
{
    Single::lemma_fraction_reduced(1, 10, 10);
    Single::lemma_whole_exact(7_500);
    Single::lemma_whole_exact(11_500);
    lemma_pow2_pos(149);
    let p = pow2(149) as int;
    if let Some(raw) = input.period_us {
        if raw < 0x100_0000 {
            Single::lemma_whole_exact(raw as int);
            assert(7_500 < raw <==> 7_500 * p < raw * p) by (nonlinear_arith)
                requires
                    p > 0,
            ;
            assert(raw < 11_500 <==> raw * p < 11_500 * p) by (nonlinear_arith)
                requires
                    p > 0,
            ;
        } else {
            Single::lemma_whole_monotone(11_500, raw as int);
        }
    }
}

// ==========================================
// HEATER
// ==========================================

/// The setpoint in force is the one signalled last. While a brew runs, and only
/// then, it is raised by the flow times `0.021 (percents / 100) (setpoint - 20)`,
/// by at least 0 and at most 20 degrees; the gain is that of the settings when
/// the setpoint was signalled.
pub proof fn law_setpoint_and_feed_forward(
    control: ControlModel,
    input: TickInput,
    signals: Signals,
)
    ensures
        ({
            let (after, out) = control.ticked(input, signals);
            let t = out.telemetry;
            let target = match signals.target_temp {
                Some(x) => x,
                None => control.target_t,
            };
            let brewing = match signals.brew_active {
                Some(b) => b,
                None => control.brew_active,
            };
            let gain = match signals.target_temp {
                Some(x) => Single::fraction(21, 1000).times(
                    input.settings.machine.feed_forward_percents.over(Single::whole(100)),
                ).times(x.minus(Single::whole(20))),
                None => control.feed_forward,
            };
            let boost = input.flow_ml_s.times(gain);
            &&& t.target_temp == target
            &&& after.target_t == target
            &&& after.brew_active == brewing
            &&& after.feed_forward == gain
            &&& !brewing ==> t.effective_target_temp == target
            &&& brewing && boost.less(Single::whole(0)) ==> t.effective_target_temp == target.plus(
                Single::whole(0),
            )
            &&& brewing && Single::whole(20).less(boost) ==> t.effective_target_temp
                == target.plus(Single::whole(20))
            &&& brewing && Single::whole(0).at_most(boost) && boost.at_most(Single::whole(20))
                ==> t.effective_target_temp == target.plus(boost)
        }),
{
    Single::lemma_whole_exact(0);
    Single::lemma_whole_exact(20);
    lemma_pow2_pos(149);
}

/// The temperature controller as it stands for a tick: a new setpoint brings
/// the settings' gains, and one that ends a time without heating clears its
/// memory.
pub open spec fn boiler_controller(
    control: ControlModel,
    input: TickInput,
    signals: Signals,
) -> PidModel {
    match signals.target_temp {
        Some(x) => tuned(
            control.temp_pid,
            Some(input.settings.temp_pid),
            control.target_t.same(Single::whole(0)) && !x.same(Single::whole(0)),
        ),
        None => control.temp_pid,
    }
}

/// The temperature controller ran on a tick: the duty reported is its answer to
/// that tick's effective setpoint and temperature.
pub open spec fn boiler_controlled(
    control: ControlModel,
    input: TickInput,
    signals: Signals,
) -> bool {
    let (after, out) = control.ticked(input, signals);
    let pid = boiler_controller(control, input, signals);
    let target = out.telemetry.effective_target_temp;
    &&& out.telemetry.heater_duty == pid.terms(target, input.sensors.temp_c, input.now).output
    &&& after.temp_pid == pid.updated(target, input.sensors.temp_c, input.now)
    &&& after.heater_duty == out.telemetry.heater_duty
}

/// A tick on which the temperature controller did not run keeps the duty.
pub open spec fn boiler_left_alone(
    control: ControlModel,
    input: TickInput,
    signals: Signals,
) -> bool {
    let (after, out) = control.ticked(input, signals);
    &&& out.telemetry.heater_duty == control.heater_duty
    &&& after.heater_duty == control.heater_duty
    &&& after.temp_pid == boiler_controller(control, input, signals)
}

/// The loop after some ticks.
pub open spec fn after_ticks(control: ControlModel, ticks: Seq<(TickInput, Signals)>) -> ControlModel
    decreases ticks.len(),
{
    if ticks.len() == 0 {
        control
    } else {
        let before = after_ticks(control, ticks.drop_last());
        before.ticked(ticks.last().0, ticks.last().1).0
    }
}

/// The temperature controller runs on every tenth tick, counted from boot, and
/// the duty stays what it said in between.
pub proof fn law_boiler_is_controlled_every_tenth_tick(
    control: ControlModel,
    input: TickInput,
    signals: Signals,
)
    ensures
        control.tick % 10 == 0 ==> boiler_controlled(control, input, signals),
        control.tick % 10 != 0 ==> boiler_left_alone(control, input, signals),
{
}

proof fn lemma_tick_number(control: ControlModel, ticks: Seq<(TickInput, Signals)>)
    ensures
        after_ticks(control, ticks).tick == (control.tick + ticks.len()) % 0x1_0000_0000,
    decreases ticks.len(),
{
    if ticks.len() > 0 {
        lemma_tick_number(control, ticks.drop_last());
    }
}

/// The numbers of any ten ticks in a row have a multiple of ten among them, also
/// where they wrap around to 0.
proof fn lemma_tenth_tick_ahead(control: ControlModel, ticks: Seq<(TickInput, Signals)>) -> (i: int)
    requires
        ticks.len() == 10,
    ensures
        0 <= i < 10,
        after_ticks(control, ticks.take(i)).tick % 10 == 0,
{
    let t = control.tick as int;
    let ahead = (10 - t % 10) % 10;
    let left = 0x1_0000_0000 - t;
    let i = if ahead < left {
        ahead
    } else {
        left
    };
    lemma_tick_number(control, ticks.take(i));
    i
}

/// Of any ten ticks in a row, one sets the heater's duty to the temperature
/// controller's answer to that tick.
pub proof fn law_duty_follows_the_boiler(control: ControlModel, ticks: Seq<(TickInput, Signals)>)
    requires
        ticks.len() == 10,
    ensures
        exists|i: int|
            0 <= i < 10 && #[trigger] boiler_controlled(
                after_ticks(control, ticks.take(i)),
                ticks[i].0,
                ticks[i].1,
            ),
{
    let i = lemma_tenth_tick_ahead(control, ticks);
    law_boiler_is_controlled_every_tenth_tick(
        after_ticks(control, ticks.take(i)),
        ticks[i].0,
        ticks[i].1,
    );
}

/// The heater is fired on exactly the ticks on which what it is owed, this
/// tick's duty included, makes a full chunk of 100, and that is then taken off.
pub proof fn law_heater_is_fired_when_owed(control: ControlModel, input: TickInput, signals: Signals)
    ensures
        ({
            let (after, out) = control.ticked(input, signals);
            let owed = control.heater_accumulator.plus(out.telemetry.heater_duty);
            &&& out.heater_on <==> Single::whole(100).at_most(owed)
            &&& out.heater_on ==> after.heater_accumulator == owed.minus(Single::whole(100))
            &&& !out.heater_on ==> after.heater_accumulator == owed
        }),
{
}

/// How often the heater is fired over some ticks.
pub open spec fn fired(control: ControlModel, ticks: Seq<(TickInput, Signals)>) -> int
    decreases ticks.len(),
{
    if ticks.len() == 0 {
        0
    } else {
        let before = after_ticks(control, ticks.drop_last());
        fired(control, ticks.drop_last()) + if before.ticked(
            ticks.last().0,
            ticks.last().1,
        ).1.heater_on {
            1int
        } else {
            0int
        }
    }
}

/// The duties reported over some ticks, summed up in percent, where each is a
/// whole number of it.
pub open spec fn duties_in_percent(
    control: ControlModel,
    ticks: Seq<(TickInput, Signals)>,
    duties: Seq<int>,
) -> bool {
    &&& duties.len() == ticks.len()
    &&& forall|i: int|
        0 <= i < ticks.len() ==> 0 <= #[trigger] duties[i] <= 100 && after_ticks(
            control,
            ticks.take(i),
        ).ticked(ticks[i].0, ticks[i].1).1.telemetry.heater_duty == Single::whole(duties[i])
}

pub open spec fn sum_of(duties: Seq<int>) -> int
    decreases duties.len(),
{
    if duties.len() == 0 {
        0
    } else {
        sum_of(duties.drop_last()) + duties.last()
    }
}

/// Over any ticks, the heater is fired once for every hundred percent of the
/// duties that the telemetry reports for them.
pub proof fn law_heater_is_fired_in_proportion(
    control: ControlModel,
    ticks: Seq<(TickInput, Signals)>,
    duties: Seq<int>,
)
    requires
        control.heater_accumulator == Single::whole(0),
        duties_in_percent(control, ticks, duties),
    ensures
        fired(control, ticks) == sum_of(duties) / 100,
        after_ticks(control, ticks).heater_accumulator == Single::whole(sum_of(duties) % 100),
        sum_of(duties) >= 0,
    decreases ticks.len(),
{
    if ticks.len() > 0 {
        let (rest, given) = (ticks.drop_last(), duties.drop_last());
        let last = ticks.len() - 1;
        assert(duties_in_percent(control, rest, given)) by {
            assert forall|i: int| 0 <= i < rest.len() implies 0 <= #[trigger] given[i] <= 100
                && after_ticks(control, rest.take(i)).ticked(
                rest[i].0,
                rest[i].1,
            ).1.telemetry.heater_duty == Single::whole(given[i]) by {
                assert(0 <= duties[i] <= 100);
                assert(rest.take(i) =~= ticks.take(i));
            }
        }
        law_heater_is_fired_in_proportion(control, rest, given);
        assert(0 <= duties[last] <= 100);
        assert(ticks.take(last) =~= rest);
        let before = after_ticks(control, rest);
        law_heater_is_fired_when_owed(before, ticks.last().0, ticks.last().1);
        let (a, n) = (sum_of(given) % 100, duties[last]);
        lemma_owed(a, n);
    }
}

/// Whole percentages owed add up exactly.
proof fn lemma_owed(a: int, n: int)
    requires
        0 <= a < 100,
        0 <= n <= 100,
    ensures
        Single::whole(a).plus(Single::whole(n)) == Single::whole(a + n),
        Single::whole(100).at_most(Single::whole(a + n)) <==> a + n >= 100,
        a + n >= 100 ==> Single::whole(a + n).minus(Single::whole(100)) == Single::whole(
            a + n - 100,
        ),
{
    Single::law_small_whole_arithmetic_is_exact(a, n);
    Single::law_small_whole_arithmetic_is_exact(a + n, 100);
    Single::lemma_whole_exact(a + n);
    Single::lemma_whole_exact(100);
    let p = pow2(149) as int;
    lemma_pow2_pos(149);
    assert(100 * p <= (a + n) * p <==> 100 <= a + n) by (nonlinear_arith)
        requires
            p > 0,
    ;
}

// ==========================================
// THE CONTROLLERS
// ==========================================

/// What a controller answers, written out: the gain times the error, plus the
/// integral, plus the other gain times how fast the measurement falls, kept
/// between 0 and 100. The time is what passed since the last update, in
/// seconds, at least a hundredth and at most two; a fiftieth for the first one,
/// which sees no change. The integral grows by its gain times the error times
/// the time, between -20 and 100, unless that would push an answer at its
/// limit further past it.
pub proof fn law_controller_is_pid(pid: PidModel, target: Single, measurement: Single, now: u64)
    requires
        pid.ready(now),
    ensures
        ({
            let (zero, full) = (Single::whole(0), Single::whole(100));
            let dt = match pid.last_time {
                Some(last) => {
                    let s = Single::whole(now - last).over(Single::whole(1_000_000));
                    if s.less(Single::fraction(1, 100)) {
                        Single::fraction(1, 100)
                    } else if Single::whole(2).less(s) {
                        Single::whole(2)
                    } else {
                        s
                    }
                },
                None => Single::fraction(2, 100),
            };
            let error = target.minus(measurement);
            let fall = match pid.last_time {
                Some(_) => pid.prev_measurement.minus(measurement),
                None => measurement.minus(measurement),
            };
            let base = pid.kp.times(error).plus(pid.kd.times(fall).over(dt));
            let step = pid.ki.times(error).times(dt);
            let ideal = base.plus(pid.i_term);
            let held = (full.at_most(ideal) && zero.less(step)) || (ideal.at_most(zero)
                && step.less(zero));
            let moved = pid.i_term.plus(step);
            let integral = if held {
                pid.i_term
            } else if moved.less(Single::whole(20).negated()) {
                Single::whole(20).negated()
            } else if full.less(moved) {
                full
            } else {
                moved
            };
            let answer = base.plus(integral);
            let t = pid.terms(target, measurement, now);
            let after = pid.updated(target, measurement, now);
            &&& t.output == if answer.less(zero) {
                zero
            } else if full.less(answer) {
                full
            } else {
                answer
            }
            &&& after == (PidModel {
                i_term: integral,
                prev_measurement: measurement,
                last_time: Some(now),
                ..pid
            })
        }),
{
}

/// The gains a controller is made with, and those it is given later, are those
/// it uses, each in its place; giving gains forgets nothing.
pub proof fn law_gains_are_kept_apart(pid: PidModel, kp: Single, ki: Single, kd: Single)
    ensures
        pid.with_coeffs(kp, ki, kd).kp == kp,
        pid.with_coeffs(kp, ki, kd).ki == ki,
        pid.with_coeffs(kp, ki, kd).kd == kd,
        pid.with_coeffs(kp, ki, kd).i_term == pid.i_term,
        pid.with_coeffs(kp, ki, kd).last_time == pid.last_time,
        pid.with_coeffs(kp, ki, kd).prev_measurement == pid.prev_measurement,
        PidModel::fresh(kp, ki, kd).kp == kp,
        PidModel::fresh(kp, ki, kd).ki == ki,
        PidModel::fresh(kp, ki, kd).kd == kd,
        PidModel::fresh(kp, ki, kd).i_term == Single::whole(0),
        PidModel::fresh(kp, ki, kd).last_time is None,
{
}

/// A loop starts with each controller on its own gains, the pump idle, the
/// brew temperature as setpoint and nothing owed to the heater.
pub proof fn law_loop_starts_from_the_settings(s: ControlSettings)
    ensures
        ({
            let c = ControlModel::boot(s);
            &&& c.pump_pid == PidModel::fresh(s.press_pid.kp, s.press_pid.ki, s.press_pid.kd)
            &&& c.temp_pid == PidModel::fresh(s.temp_pid.kp, s.temp_pid.ki, s.temp_pid.kd)
            &&& c.flow_pid == PidModel::fresh(s.flow_pid.kp, s.flow_pid.ki, s.flow_pid.kd)
            &&& c.mode is Idle
            &&& c.target_t == s.machine.brew_temp
            &&& !c.brew_active
            &&& c.tick == 0
            &&& c.heater_duty == Single::whole(0)
            &&& c.heater_accumulator == Single::whole(0)
            &&& c.ac_ema == Single::whole(10_000)
            &&& c.feed_forward == Single::whole(0)
        }),
{
}

// ==========================================
// A HOT BOILER
// ==========================================

/// A temperature the sensors can give.
pub open spec fn boiler_range(x: Single) -> bool {
    Single::whole(0).at_most(x) && x.at_most(Single::whole(1000))
}

/// A controller without a derivative gain and without an integral, with
/// ordinary gains.
pub open spec fn proportional(pid: PidModel) -> bool {
    &&& pid.kd.magnitude() == 0
    &&& pid.i_term.magnitude() == 0
    &&& boiler_range(pid.kp)
    &&& boiler_range(pid.ki)
    &&& pid.last_time is Some ==> boiler_range(pid.prev_measurement)
}

/// Asked about a boiler at or above its setpoint, such a controller answers 0
/// and stays as it is.
pub proof fn law_hot_boiler_gets_no_heat(
    pid: PidModel,
    target: Single,
    temp_c: Single,
    now: u64,
)
    requires
        pid.ready(now),
        proportional(pid),
        boiler_range(target),
        boiler_range(temp_c),
        target.at_most(temp_c),
    ensures
        pid.terms(target, temp_c, now).output.same(Single::whole(0)),
        proportional(pid.updated(target, temp_c, now)),
{
    let (zero, full, least) = (Single::whole(0), Single::whole(100), Single::whole(20).negated());
    Single::lemma_whole_exact(0);
    Single::lemma_whole_exact(20);
    Single::lemma_whole_exact(100);
    Single::lemma_whole_exact(1000);
    Single::whole(20).lemma_negated();
    zero.lemma_zero();
    lemma_pow2_pos(149);
    let t = pid.terms(target, temp_c, now);
    let dt = pid.interval(now);
    crate::pid::lemma_interval(pid, now);
    crate::pid::lemma_interval_short(pid, now);
    let error = target.minus(temp_c);
    lemma_small_difference(target, temp_c);
    let previous = pid.previous(temp_c);
    lemma_small_difference(previous, temp_c);
    let change = previous.minus(temp_c);
    pid.kd.lemma_nothing(change);
    pid.kd.times(change).lemma_nothing(dt);
    let d_term = pid.kd.times(change).over(dt);
    d_term.lemma_zero();
    lemma_small_product(pid.kp, error);
    lemma_small_product(pid.ki, error);
    let p_term = pid.kp.times(error);
    assert(p_term.value() <= 0);
    p_term.lemma_plus_at_most(d_term);
    p_term.lemma_plus_value(d_term);
    p_term.lemma_value_rounded(1);
    let base = t.base;
    assert(base.value() == p_term.value());
    base.lemma_finite_by_size(p_term);
    let step = t.delta;
    lemma_short_product(pid.ki.times(error), dt);
    pid.i_term.lemma_zero();
    base.lemma_plus_value(pid.i_term);
    base.lemma_value_rounded(1);
    let ideal = base.plus(pid.i_term);
    assert(ideal.value() == base.value());
    if step.value() == 0 {
        step.lemma_zero();
        pid.i_term.lemma_nothings_add(step);
        pid.i_term.plus(step).lemma_zero();
    }
    assert(t.i_term.magnitude() == 0);
    t.i_term.lemma_zero();
    base.lemma_plus_value(t.i_term);
    assert(base.plus(t.i_term).value() == base.value());
}

proof fn lemma_small_difference(a: Single, b: Single)
    requires
        boiler_range(a),
        boiler_range(b),
    ensures
        a.minus(b).finite(),
        a.at_most(b) ==> a.minus(b).value() <= 0,
        -(1000 * pow2(149)) <= a.minus(b).value() <= 1000 * pow2(149),
{
    let full = Single::whole(1000);
    Single::lemma_whole_exact(0);
    Single::lemma_whole_exact(1000);
    assert(0 * pow2(149) == 0);
    a.lemma_finite_between(Single::whole(0), full);
    b.lemma_finite_between(Single::whole(0), full);
    b.lemma_negated();
    a.lemma_plus_value(b.negated());
    full.lemma_negated();
    full.lemma_value_rounded(1);
    full.negated().lemma_value_rounded(1);
    let d = a.value() - b.value();
    crate::rounding::lemma_rounded_monotone(d, full.value(), 1);
    crate::rounding::lemma_rounded_monotone(-full.value(), d, 1);
    Single::whole(0).lemma_value_rounded(1);
    if d <= 0 {
        crate::rounding::lemma_rounded_monotone(d, 0, 1);
    }
    a.minus(b).lemma_finite_by_size(full);
}

proof fn lemma_small_product(a: Single, b: Single)
    requires
        boiler_range(a),
        b.finite(),
        -(1000 * pow2(149)) <= b.value() <= 1000 * pow2(149),
    ensures
        a.times(b).finite(),
        b.value() <= 0 ==> a.times(b).value() <= 0,
        -(1_000_000 * pow2(149)) <= a.times(b).value() <= 1_000_000 * pow2(149),
{
    let full = Single::whole(1_000_000);
    Single::lemma_whole_exact(0);
    Single::lemma_whole_exact(1000);
    Single::lemma_whole_exact(1_000_000);
    a.lemma_finite_between(Single::whole(0), Single::whole(1000));
    a.lemma_times_value(b);
    let (x, y, p) = (a.value(), b.value(), pow2(149) as int);
    lemma_pow2_pos(149);
    assert(0 * p == 0);
    assert(-((1_000_000 * p) * p) <= x * y <= (1_000_000 * p) * p) by (nonlinear_arith)
        requires
            0 <= x <= 1000 * p,
            -(1000 * p) <= y <= 1000 * p,
            p > 0,
    ;
    full.lemma_value_rounded(p);
    full.lemma_negated();
    full.negated().lemma_value_rounded(p);
    assert((-(1_000_000 * p)) * p == -((1_000_000 * p) * p)) by (nonlinear_arith);
    crate::rounding::lemma_rounded_monotone(x * y, (1_000_000 * p) * p, p);
    crate::rounding::lemma_rounded_monotone(-((1_000_000 * p) * p), x * y, p);
    if y <= 0 {
        assert(x * y <= 0) by (nonlinear_arith)
            requires
                x >= 0,
                y <= 0,
        ;
        Single::whole(0).lemma_value_rounded(p);
        crate::rounding::lemma_rounded_monotone(x * y, 0, p);
    }
    a.times(b).lemma_finite_by_size(full);
}

proof fn lemma_short_product(a: Single, dt: Single)
    requires
        a.finite(),
        -(1_000_000 * pow2(149)) <= a.value() <= 1_000_000 * pow2(149),
        dt.finite(),
        0 <= dt.value() <= 2 * pow2(149),
    ensures
        a.times(dt).finite(),
        a.value() <= 0 ==> a.times(dt).value() <= 0,
{
    let full = Single::whole(2_000_000);
    Single::lemma_whole_exact(0);
    Single::lemma_whole_exact(2_000_000);
    a.lemma_times_value(dt);
    let (x, y, p) = (a.value(), dt.value(), pow2(149) as int);
    lemma_pow2_pos(149);
    assert(0 * p == 0);
    assert(-((2_000_000 * p) * p) <= x * y <= (2_000_000 * p) * p) by (nonlinear_arith)
        requires
            -(1_000_000 * p) <= x <= 1_000_000 * p,
            0 <= y <= 2 * p,
            p > 0,
    ;
    full.lemma_value_rounded(p);
    full.lemma_negated();
    full.negated().lemma_value_rounded(p);
    assert((-(2_000_000 * p)) * p == -((2_000_000 * p) * p)) by (nonlinear_arith);
    crate::rounding::lemma_rounded_monotone(x * y, (2_000_000 * p) * p, p);
    crate::rounding::lemma_rounded_monotone(-((2_000_000 * p) * p), x * y, p);
    if x <= 0 {
        assert(x * y <= 0) by (nonlinear_arith)
            requires
                x <= 0,
                y >= 0,
        ;
        Single::whole(0).lemma_value_rounded(p);
        crate::rounding::lemma_rounded_monotone(x * y, 0, p);
    }
    a.times(dt).lemma_finite_by_size(full);
}

/// A tick leaves a boiler without need of heat as it should: at or above the
/// setpoint that it reports, with no new setpoint.
pub open spec fn hot_tick(control: ControlModel, input: TickInput, signals: Signals) -> bool {
    let target = control.ticked(input, signals).1.telemetry.effective_target_temp;
    &&& signals.target_temp is None
    &&& control.temp_pid.ready(input.now)
    &&& boiler_range(target)
    &&& boiler_range(input.sensors.temp_c)
    &&& target.at_most(input.sensors.temp_c)
}

/// A boiler that stays at or above its effective setpoint for ten ticks has no
/// duty any more.
pub proof fn law_hot_boiler_has_no_duty_after_ten_ticks(
    control: ControlModel,
    ticks: Seq<(TickInput, Signals)>,
)
    requires
        ticks.len() == 10,
        proportional(control.temp_pid),
        forall|i: int|
            0 <= i < 10 ==> #[trigger] hot_tick(
                after_ticks(control, ticks.take(i)),
                ticks[i].0,
                ticks[i].1,
            ),
    ensures
        after_ticks(control, ticks).heater_duty.same(Single::whole(0)),
{
    law_duty_follows_the_boiler(control, ticks);
    let k = choose|i: int|
        0 <= i < 10 && #[trigger] boiler_controlled(
            after_ticks(control, ticks.take(i)),
            ticks[i].0,
            ticks[i].1,
        );
    lemma_stays_proportional(control, ticks, k);
    let c = after_ticks(control, ticks.take(k));
    let (input, signals) = ticks[k];
    assert(hot_tick(c, input, signals));
    let out = c.ticked(input, signals).1;
    law_hot_boiler_gets_no_heat(
        c.temp_pid,
        out.telemetry.effective_target_temp,
        input.sensors.temp_c,
        input.now,
    );
    assert(ticks.take(k + 1).drop_last() =~= ticks.take(k));
    assert(ticks.take(k + 1).last() == ticks[k]);
    lemma_duty_stays_zero(control, ticks, k + 1, 10);
    assert(ticks.take(10) =~= ticks);
}

proof fn lemma_hot_tick(control: ControlModel, input: TickInput, signals: Signals)
    requires
        proportional(control.temp_pid),
        hot_tick(control, input, signals),
    ensures
        proportional(control.ticked(input, signals).0.temp_pid),
        control.heater_duty.same(Single::whole(0)) ==> control.ticked(
            input,
            signals,
        ).0.heater_duty.same(Single::whole(0)),
{
    law_boiler_is_controlled_every_tenth_tick(control, input, signals);
    law_hot_boiler_gets_no_heat(
        control.temp_pid,
        control.ticked(input, signals).1.telemetry.effective_target_temp,
        input.sensors.temp_c,
        input.now,
    );
}

proof fn lemma_stays_proportional(
    control: ControlModel,
    ticks: Seq<(TickInput, Signals)>,
    k: int,
)
    requires
        0 <= k <= ticks.len(),
        proportional(control.temp_pid),
        forall|i: int|
            0 <= i < ticks.len() ==> #[trigger] hot_tick(
                after_ticks(control, ticks.take(i)),
                ticks[i].0,
                ticks[i].1,
            ),
    ensures
        proportional(after_ticks(control, ticks.take(k)).temp_pid),
    decreases k,
{
    if k > 0 {
        lemma_stays_proportional(control, ticks, k - 1);
        let c = after_ticks(control, ticks.take(k - 1));
        assert(hot_tick(c, ticks[k - 1].0, ticks[k - 1].1));
        lemma_hot_tick(c, ticks[k - 1].0, ticks[k - 1].1);
        assert(ticks.take(k).drop_last() =~= ticks.take(k - 1));
        assert(ticks.take(k).last() == ticks[k - 1]);
    }
}

proof fn lemma_duty_stays_zero(
    control: ControlModel,
    ticks: Seq<(TickInput, Signals)>,
    from: int,
    to: int,
)
    requires
        0 <= from <= to <= ticks.len(),
        proportional(control.temp_pid),
        forall|i: int|
            0 <= i < ticks.len() ==> #[trigger] hot_tick(
                after_ticks(control, ticks.take(i)),
                ticks[i].0,
                ticks[i].1,
            ),
        after_ticks(control, ticks.take(from)).heater_duty.same(Single::whole(0)),
    ensures
        after_ticks(control, ticks.take(to)).heater_duty.same(Single::whole(0)),
    decreases to - from,
{
    if from < to {
        lemma_stays_proportional(control, ticks, from);
        let c = after_ticks(control, ticks.take(from));
        assert(hot_tick(c, ticks[from].0, ticks[from].1));
        lemma_hot_tick(c, ticks[from].0, ticks[from].1);
        assert(ticks.take(from + 1).drop_last() =~= ticks.take(from));
        assert(ticks.take(from + 1).last() == ticks[from]);
        lemma_duty_stays_zero(control, ticks, from + 1, to);
    }
}

} // verus!
