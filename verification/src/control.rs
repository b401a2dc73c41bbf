//! The real-time control loop and the shared vocabulary used to drive it.
//!
//! [`ControlLoop::tick`] decides what the triac and heater FIFOs get: it tracks
//! the mains period, runs the pressure, flow and temperature PIDs, and
//! delta-sigma modulates the heater. Everything else in this module is the
//! surface other tasks use to steer that loop: signals, plus guards that
//! release the pump and brew flags.

use crate::pid::{PidController, PidModel};
use crate::settings::ControlSettings;
use crate::single::Single;
use crate::state::{SensorReading, Telemetry};
use vstd::prelude::*;

verus! {

// ==========================================
// STEERING
// ==========================================

#[derive(Clone, Copy, Debug, PartialEq, Eq, Structural)]
pub enum TargetTempMode {
    Brew,
    Steam,
    Off,
}

/// How the pump should be driven, sent as a single message.
#[derive(Clone, Copy, Debug, PartialEq)]
pub enum PumpMode {
    Idle,
    DirectPump(Single),
    /// Both fields are ceilings, and whichever binds first governs the pump.
    /// A `bar` of 0.0 means "no pressure ceiling", which selects the plain flow
    /// loop; any non-zero `bar` selects the unified normalised controller.
    Pressure { bar: Single, flow_limit_ml_s: Single },
}

/// The messages to the control loop. Each is a single slot: a newer message
/// replaces one that was not taken yet.
#[derive(Clone, Copy, Debug)]
pub struct Signals {
    pub target_temp: Option<Single>,
    pub pump_mode: Option<PumpMode>,
    pub brew_active: Option<bool>,
}

impl Signals {
    /// Nothing signalled.
    pub open spec fn none() -> Signals {
        Signals { target_temp: None, pump_mode: None, brew_active: None }
    }

    pub fn new() -> (r: Signals)
        ensures
            r == Signals::none(),
    {
        Signals { target_temp: None, pump_mode: None, brew_active: None }
    }
}

impl TargetTempMode {
    /// The boiler setpoint a mode stands for.
    pub open spec fn setpoint(self, s: ControlSettings, session_temp: Single) -> Single {
        match self {
            TargetTempMode::Brew => session_temp.plus(s.machine.temp_offset),
            TargetTempMode::Steam => s.machine.steam_temp,
            TargetTempMode::Off => Single::whole(0),
        }
    }
}

/// Signals the setpoint that `mode` stands for. `session_temp` is the session
/// brew temperature at the puck.
pub fn set_target_temp(
    signals: &mut Signals,
    published: Option<ControlSettings>,
    session_temp: Single,
    mode: TargetTempMode,
)
    ensures
        *final(signals) == (Signals {
            target_temp: Some(
                mode.setpoint(crate::settings::current_control(published), session_temp),
            ),
            ..*old(signals)
        }),
{
    let s: ControlSettings = ControlSettings::current(published);
    let temp: Single = match mode {
        TargetTempMode::Brew => session_temp.add(s.machine.temp_offset),
        TargetTempMode::Steam => s.machine.steam_temp,
        TargetTempMode::Off => Single::from_u32(0),
    };
    signals.target_temp = Some(temp);
}

impl PumpMode {
    pub open spec fn ceilings(self) -> (Single, Single) {
        match self {
            PumpMode::Pressure { bar, flow_limit_ml_s } => (bar, flow_limit_ml_s),
            _ => (Single::whole(0), Single::whole(0)),
        }
    }

    /// (bar, flow_limit_ml_s) for Pressure mode, or (0.0, 0.0) otherwise —
    /// lets the control loop treat "not in Pressure mode" the same as "no
    /// pressure target" without a separate match everywhere it's needed.
    pub fn pressure_and_flow_limit(&self) -> (r: (Single, Single))
        ensures
            r == self.ceilings(),
    {
        match *self {
            PumpMode::Pressure { bar, flow_limit_ml_s } => (bar, flow_limit_ml_s),
            _ => (Single::from_u32(0), Single::from_u32(0)),
        }
    }

    /// Signals the mode directly, for callers outside a [`PumpGuard`].
    pub fn apply(self, signals: &mut Signals)
        ensures
            *final(signals) == (Signals { pump_mode: Some(self), ..*old(signals) }),
    {
        signals.pump_mode = Some(self);
    }
}

/// One thing an operation does to the machine.
#[derive(Clone, Copy, Debug)]
pub enum Effect {
    /// The pump was signalled a mode.
    Pump(PumpMode),
    /// The control loop was signalled whether a brew is active.
    Brew(bool),
    /// The solenoid valve was opened or closed.
    Valve(bool),
}

/// What an operation acts on, and what it did to it, in order.
pub struct Outputs {
    pub signals: Signals,
    pub valve_open: bool,
    pub trace: Ghost<Seq<Effect>>,
}

impl Outputs {
    /// The outputs once an effect has taken place.
    pub open spec fn after(self, effect: Effect) -> Outputs {
        Outputs {
            signals: match effect {
                Effect::Pump(mode) => Signals { pump_mode: Some(mode), ..self.signals },
                Effect::Brew(active) => Signals { brew_active: Some(active), ..self.signals },
                Effect::Valve(_) => self.signals,
            },
            valve_open: match effect {
                Effect::Valve(open) => open,
                _ => self.valve_open,
            },
            trace: Ghost(self.trace@.push(effect)),
        }
    }

    /// Outputs to which nothing has been done yet.
    pub fn new(signals: Signals, valve_open: bool) -> (r: Outputs)
        ensures
            r.signals == signals,
            r.valve_open == valve_open,
            r.trace@ == Seq::<Effect>::empty(),
    {
        Outputs { signals, valve_open, trace: Ghost(Seq::empty()) }
    }

    fn set_pump(&mut self, mode: PumpMode)
        ensures
            *final(self) == old(self).after(Effect::Pump(mode)),
    {
        mode.apply(&mut self.signals);
        self.trace = Ghost(self.trace@.push(Effect::Pump(mode)));
    }

    fn set_brew(&mut self, active: bool)
        ensures
            *final(self) == old(self).after(Effect::Brew(active)),
    {
        self.signals.brew_active = Some(active);
        self.trace = Ghost(self.trace@.push(Effect::Brew(active)));
    }

    fn set_valve(&mut self, open: bool)
        ensures
            *final(self) == old(self).after(Effect::Valve(open)),
    {
        self.valve_open = open;
        self.trace = Ghost(self.trace@.push(Effect::Valve(open)));
    }
}

/// Guard for the pump: applies `mode` when created or changed, and returns the
/// pump to idle when released. Only [`PumpGuard::engage`] makes one.
#[must_use]
pub struct PumpGuard {
    engaged: (),
}

impl PumpGuard {
    pub fn engage(out: &mut Outputs, mode: PumpMode) -> (r: PumpGuard)
        ensures
            *final(out) == old(out).after(Effect::Pump(mode)),
    {
        out.set_pump(mode);
        PumpGuard { engaged: () }
    }

    /// Switches an already-engaged pump to a new mode (e.g. between profile
    /// steps) without affecting the reset on release.
    pub fn set_mode(&mut self, out: &mut Outputs, mode: PumpMode)
        ensures
            *final(out) == old(out).after(Effect::Pump(mode)),
    {
        out.set_pump(mode);
    }

    pub fn release(self, out: &mut Outputs)
        ensures
            *final(out) == old(out).after(Effect::Pump(PumpMode::Idle)),
    {
        out.set_pump(PumpMode::Idle);
    }
}

/// Guard marking that a real brew profile (not cooldown flush, hot water, or a
/// raw direct-pump command) is running. While it is armed, the control loop
/// adds a flow-proportional feed-forward term to the *temperature setpoint*:
/// cold water entering the boiler drags the measured temperature down faster
/// than feedback alone can answer, so the target is raised in proportion to
/// the flow to compensate. The PID itself keeps running normally; only its
/// setpoint moves.
///
/// The other pumping operations deliberately do not get that boost. They run
/// at the temperature their machine state implies — often `Off`, to let cold
/// water cool the boiler as fast as possible — and raising their setpoint just
/// because the pump is flowing would fight the point of the operation.
///
/// Only [`BrewActiveGuard::engage`] makes one.
#[must_use]
pub struct BrewActiveGuard {
    engaged: (),
}

impl BrewActiveGuard {
    pub fn engage(out: &mut Outputs) -> (r: BrewActiveGuard)
        ensures
            *final(out) == old(out).after(Effect::Brew(true)),
    {
        out.set_brew(true);
        BrewActiveGuard { engaged: () }
    }

    pub fn release(self, out: &mut Outputs)
        ensures
            *final(out) == old(out).after(Effect::Brew(false)),
    {
        out.set_brew(false);
    }
}

/// Guard for the solenoid valve: opens it when created and closes it again
/// when released. Only made for operations that actually open the valve, by
/// [`SolenoidGuard::open`].
#[must_use]
pub struct SolenoidGuard {
    engaged: (),
}

impl SolenoidGuard {
    pub fn open(out: &mut Outputs) -> (r: SolenoidGuard)
        ensures
            *final(out) == old(out).after(Effect::Valve(true)),
    {
        out.set_valve(true);
        SolenoidGuard { engaged: () }
    }

    pub fn release(self, out: &mut Outputs)
        ensures
            *final(out) == old(out).after(Effect::Valve(false)),
    {
        out.set_valve(false);
    }
}

// ==========================================
// TRIAC
// ==========================================

/// Pump power percentage to the triac's firing delay, in ten-thousandths of
/// the half-wave measured by the trigger SM. Non-linear because a phase-angle
/// dimmer's delivered power follows the integral of the sine, not the delay:
/// the table is the inverse of `P(a)/P_full = [(pi - a) + sin(2a)/2] / pi`,
/// sampled so that each 1% step is an equal step in *delivered power*.
/// The endpoints set the usable pump range: 0% fires at 0.80 of the half-wave
/// (144 deg, 4.9% power), 100% at 0.20 (36 deg, 95.1% power), so
/// `P(x%) = 4.86% + x * 0.903%`.
pub const POWER_TO_DELAY_LUT: [u32; 101] = [
    8000, 7876, 7763, 7659, 7562, 7471, 7385, 7302, 7224, 7148, 7076, 7005,
    6937, 6871, 6807, 6744, 6683, 6623, 6564, 6507, 6450, 6395, 6340, 6286,
    6233, 6181, 6130, 6078, 6028, 5978, 5929, 5880, 5831, 5783, 5735, 5688,
    5640, 5594, 5547, 5501, 5454, 5408, 5363, 5317, 5271, 5226, 5181, 5135,
    5090, 5045, 5000, 4955, 4910, 4865, 4819, 4774, 4729, 4683, 4637, 4592,
    4546, 4499, 4453, 4406, 4360, 4312, 4265, 4217, 4169, 4120, 4071, 4022,
    3972, 3922, 3870, 3819, 3767, 3714, 3660, 3605, 3550, 3493, 3436, 3377,
    3317, 3256, 3193, 3129, 3063, 2995, 2924, 2852, 2776, 2698, 2615, 2529,
    2438, 2341, 2237, 2124, 2000,
];

/// An entry of the table, as a fraction.
pub open spec fn delay_entry(i: int) -> Single {
    Single::fraction(POWER_TO_DELAY_LUT[i] as int, 10_000)
}

/// The firing delay for a power: linear between the table's entries.
pub open spec fn delay_fraction(power_percent: Single) -> Single {
    let p = power_percent.clamped(Single::whole(0), Single::whole(100));
    let index = p.whole_part(0xFFFF_FFFF);
    if index >= 100 {
        delay_entry(100)
    } else {
        let lower = delay_entry(index);
        let upper = delay_entry(index + 1);
        lower.plus(upper.minus(lower).times(p.minus(Single::whole(index))))
    }
}

pub fn get_delay_fraction(power_percent: Single) -> (r: Single)
    ensures
        r == delay_fraction(power_percent),
{
    let p: Single = power_percent.clamp(Single::from_u32(0), Single::from_u32(100));
    let index: u32 = p.to_u32();
    if index >= 100 {
        return Single::ratio(POWER_TO_DELAY_LUT[100], 10_000);
    }
    let remainder: Single = p.sub(Single::from_u32(index));
    let lower: Single = Single::ratio(POWER_TO_DELAY_LUT[index as usize], 10_000);
    let upper: Single = Single::ratio(POWER_TO_DELAY_LUT[index as usize + 1], 10_000);
    lower.add(upper.sub(lower).mul(remainder))
}

// ==========================================
// THE LOOP
// ==========================================

/// What one pass of the loop reads, once, so that the control decision and the
/// telemetry row describe the same instant.
#[derive(Clone, Copy, Debug)]
pub struct TickInput {
    /// The most recent half-wave measurement, in microseconds; absent when the
    /// trigger SM delivered none in time.
    pub period_us: Option<u32>,
    pub sensors: SensorReading,
    pub settings: ControlSettings,
    pub flow_ml_s: Single,
    pub volume_ml: Single,
    /// Microseconds since boot.
    pub now: u64,
}

/// What one pass of the loop hands to the hardware and publishes.
#[derive(Clone, Copy, Debug)]
pub struct TickOutput {
    /// Phase delay for the triac, in microseconds; absent leaves it unfired.
    pub triac_delay_us: Option<u32>,
    /// Fire the heater for this chunk.
    pub heater_on: bool,
    pub telemetry: Telemetry,
}

/// The loop's memory.
pub struct ControlLoop {
    /// Filtered half-wave period.
    ac_ema: Single,
    /// Drives the pump whenever a step names a pressure ceiling, from the
    /// normalised measurement.
    pump_pid: PidController,
    temp_pid: PidController,
    /// Drives pump duty straight from the flow error. Used for steps that name
    /// no pressure ceiling, where the OPV is the pressure backstop rather than
    /// the sensor.
    flow_pid: PidController,
    mode: PumpMode,
    target_t: Single,
    feed_forward: Single,
    brew_active: bool,
    tick: u32,
    heater_duty: Single,
    heater_accumulator: Single,
}

/// What a [`ControlLoop`] holds.
pub struct ControlModel {
    pub ac_ema: Single,
    pub pump_pid: PidModel,
    pub temp_pid: PidModel,
    pub flow_pid: PidModel,
    pub mode: PumpMode,
    pub target_t: Single,
    pub feed_forward: Single,
    pub brew_active: bool,
    pub tick: u32,
    pub heater_duty: Single,
    pub heater_accumulator: Single,
}

impl View for ControlLoop {
    type V = ControlModel;

    closed spec fn view(&self) -> ControlModel {
        ControlModel {
            ac_ema: self.ac_ema,
            pump_pid: self.pump_pid@,
            temp_pid: self.temp_pid@,
            flow_pid: self.flow_pid@,
            mode: self.mode,
            target_t: self.target_t,
            feed_forward: self.feed_forward,
            brew_active: self.brew_active,
            tick: self.tick,
            heater_duty: self.heater_duty,
            heater_accumulator: self.heater_accumulator,
        }
    }
}

/// What the pump does on one tick.
pub struct PumpStep {
    /// Triac duty, 0-100.
    pub duty: Single,
    /// Setpoint the pressure channel chased, 0 whenever it isn't running.
    pub effective_bar: Single,
    /// The flow channel is the one holding the pump back.
    pub flow_controlled: bool,
    pub pump_pid: PidModel,
    pub flow_pid: PidModel,
}

/// A measurement on the dimensionless axis where its own ceiling is 1.0. The
/// mapping is affine rather than a plain ratio so the fixed point stays at the
/// ceiling for any weight.
pub open spec fn normalised(weight: Single, measurement: Single, ceiling: Single) -> Single {
    Single::whole(1).plus(weight.times(measurement.over(ceiling).minus(Single::whole(1))))
}

/// The pressure channel's weight, 7.5.
pub open spec fn pressure_weight() -> Single {
    Single::fraction(75, 10)
}

/// The flow channel's weight, 1.0.
pub open spec fn flow_weight() -> Single {
    Single::whole(1)
}

pub open spec fn lowest() -> Single {
    Single::signed(true, crate::rounding::INFINITE as int)
}

/// The pressure and the flow, each normalised to its ceiling. An absent flow
/// ceiling must never win.
pub open spec fn channels(
    pressure: Single,
    target_p: Single,
    flow_ml_s: Single,
    flow_limit: Single,
) -> (Single, Single) {
    (
        normalised(pressure_weight(), pressure, target_p),
        if flow_limit.positive() {
            normalised(flow_weight(), flow_ml_s, flow_limit)
        } else {
            lowest()
        },
    )
}

impl ControlModel {
    pub open spec fn boot(s: ControlSettings) -> ControlModel {
        ControlModel {
            ac_ema: Single::whole(10_000),
            pump_pid: PidModel::fresh(s.press_pid.kp, s.press_pid.ki, s.press_pid.kd),
            temp_pid: PidModel::fresh(s.temp_pid.kp, s.temp_pid.ki, s.temp_pid.kd),
            flow_pid: PidModel::fresh(s.flow_pid.kp, s.flow_pid.ki, s.flow_pid.kd),
            mode: PumpMode::Idle,
            target_t: s.machine.brew_temp,
            feed_forward: Single::whole(0),
            brew_active: false,
            tick: 0,
            heater_duty: Single::whole(0),
            heater_accumulator: Single::whole(0),
        }
    }

    /// Time has not run backwards since any of the controllers was updated.
    pub open spec fn ready(self, now: u64) -> bool {
        self.pump_pid.ready(now) && self.temp_pid.ready(now) && self.flow_pid.ready(now)
    }

    /// A plausible period (about 10 ms for 50 Hz, 8.3 ms for 60 Hz) moves the
    /// filtered one a tenth of the way.
    pub open spec fn with_period(self, period_us: Option<u32>) -> ControlModel {
        match period_us {
            Some(raw) if Single::whole(7_500).less(Single::whole(raw as int)) && Single::whole(
                raw as int,
            ).less(Single::whole(11_500)) => ControlModel {
                ac_ema: self.ac_ema.plus(
                    Single::fraction(10, 100).times(Single::whole(raw as int).minus(self.ac_ema)),
                ),
                ..self
            },
            _ => self,
        }
    }

    /// A new mode brings the current gains, and clears a controller's memory
    /// where the shot starts.
    pub open spec fn with_mode(self, s: ControlSettings, mode: Option<PumpMode>) -> ControlModel {
        match mode {
            Some(new_mode) => {
                let (bar, limit) = self.mode.ceilings();
                let (new_bar, new_limit) = new_mode.ceilings();
                let pump = self.pump_pid.with_coeffs(
                    s.press_pid.kp,
                    s.press_pid.ki,
                    s.press_pid.kd,
                );
                ControlModel {
                    pump_pid: if !(bar.positive() || limit.positive()) && (new_bar.positive()
                        || new_limit.positive()) {
                        pump.cleared()
                    } else {
                        pump
                    },
                    flow_pid: self.flow_pid.with_coeffs(
                        s.flow_pid.kp,
                        s.flow_pid.ki,
                        s.flow_pid.kd,
                    ).reactivated(limit, new_limit),
                    mode: new_mode,
                    ..self
                }
            },
            None => self,
        }
    }

    pub open spec fn with_brew_active(self, brew_active: Option<bool>) -> ControlModel {
        match brew_active {
            Some(b) => ControlModel { brew_active: b, ..self },
            None => self,
        }
    }

    /// A new setpoint brings the current gains and the feed-forward gain, in
    /// degrees per ml/s, that goes with it.
    pub open spec fn with_target(self, s: ControlSettings, target: Option<Single>) -> ControlModel {
        match target {
            Some(t) => ControlModel {
                temp_pid: self.temp_pid.with_coeffs(
                    s.temp_pid.kp,
                    s.temp_pid.ki,
                    s.temp_pid.kd,
                ).reactivated(self.target_t, t),
                target_t: t,
                feed_forward: Single::fraction(21, 1000).times(
                    s.machine.feed_forward_percents.over(Single::whole(100)),
                ).times(t.minus(Single::whole(20))),
                ..self
            },
            None => self,
        }
    }

    /// The loop once the period and the signals of this tick are taken in.
    pub open spec fn steered(self, input: TickInput, signals: Signals) -> ControlModel {
        self.with_period(input.period_us).with_mode(
            input.settings,
            signals.pump_mode,
        ).with_brew_active(signals.brew_active).with_target(input.settings, signals.target_temp)
    }

    /// The duty the mode asks for. Direct power needs no control. A pressure
    /// ceiling puts the unified controller in charge: taking the larger of the
    /// normalised measurements yields the smaller of the duties, so the
    /// tighter constraint governs. With no pressure ceiling the flow error
    /// drives duty directly.
    pub open spec fn pump_step(self, pressure: Single, flow_ml_s: Single, now: u64) -> PumpStep {
        let (target_p, flow_limit) = self.mode.ceilings();
        let rest = PumpStep {
            duty: Single::whole(0),
            effective_bar: Single::whole(0),
            flow_controlled: false,
            pump_pid: self.pump_pid,
            flow_pid: self.flow_pid,
        };
        if self.mode is DirectPump {
            PumpStep {
                duty: self.mode->DirectPump_0.clamped(Single::whole(0), Single::whole(100)),
                ..rest
            }
        } else if target_p.positive() {
            let (u_p, u_q) = channels(pressure, target_p, flow_ml_s, flow_limit);
            PumpStep {
                duty: self.pump_pid.terms(Single::whole(1), u_q.larger(u_p), now).output,
                effective_bar: target_p,
                flow_controlled: u_p.at_most(u_q),
                pump_pid: self.pump_pid.updated(Single::whole(1), u_q.larger(u_p), now),
                ..rest
            }
        } else if flow_limit.positive() {
            PumpStep {
                duty: self.flow_pid.terms(flow_limit, flow_ml_s, now).output,
                flow_controlled: true,
                flow_pid: self.flow_pid.updated(flow_limit, flow_ml_s, now),
                ..rest
            }
        } else {
            rest
        }
    }

    /// The setpoint plus the brew-flow feed-forward of at most 20 degrees.
    pub open spec fn effective_target(self, flow_ml_s: Single) -> Single {
        if self.brew_active {
            self.target_t.plus(
                flow_ml_s.times(self.feed_forward).clamped(Single::whole(0), Single::whole(20)),
            )
        } else {
            self.target_t
        }
    }

    /// The temperature controller, which runs on every tenth tick.
    pub open spec fn heated(self, effective: Single, temp_c: Single, now: u64) -> ControlModel {
        if self.tick % 10 == 0 {
            ControlModel {
                heater_duty: self.temp_pid.terms(effective, temp_c, now).output,
                temp_pid: self.temp_pid.updated(effective, temp_c, now),
                ..self
            }
        } else {
            self
        }
    }

    /// What the heater owes, with this tick's duty added.
    pub open spec fn owed(self) -> Single {
        self.heater_accumulator.plus(self.heater_duty)
    }

    /// The heater fires for a whole chunk once a full chunk is owed.
    pub open spec fn fires(self) -> bool {
        Single::whole(100).at_most(self.owed())
    }

    pub open spec fn modulated(self) -> ControlModel {
        ControlModel {
            heater_accumulator: if self.fires() {
                self.owed().minus(Single::whole(100))
            } else {
                self.owed()
            },
            ..self
        }
    }

    /// One pass of the loop.
    pub open spec fn ticked(self, input: TickInput, signals: Signals) -> (
        ControlModel,
        TickOutput,
    ) {
        let s = self.steered(input, signals);
        let step = s.pump_step(input.sensors.pressure_bar, input.flow_ml_s, input.now);
        let effective = s.effective_target(input.flow_ml_s);
        let h = s.heated(effective, input.sensors.temp_c, input.now);
        (
            ControlModel {
                pump_pid: step.pump_pid,
                flow_pid: step.flow_pid,
                tick: crate::state::ticket_after(self.tick, 1),
                ..h.modulated()
            },
            TickOutput {
                triac_delay_us: if step.duty.positive() {
                    Some(
                        delay_fraction(step.duty).times(s.ac_ema).whole_part(0xFFFF_FFFF) as u32,
                    )
                } else {
                    None
                },
                heater_on: h.fires(),
                telemetry: Telemetry {
                    tick: self.tick,
                    pressure_bar: input.sensors.pressure_bar,
                    temp_c: input.sensors.temp_c,
                    target_bar: s.mode.ceilings().0,
                    effective_target_bar: step.effective_bar,
                    target_temp: s.target_t,
                    effective_target_temp: effective,
                    flow_limit_ml_s: s.mode.ceilings().1,
                    flow_rate_ml_s: input.flow_ml_s,
                    volume_ml: input.volume_ml,
                    flow_controlled: step.flow_controlled,
                    heater_duty: h.heater_duty,
                    pump_duty: step.duty,
                },
            },
        )
    }
}

fn normalise(weight: Single, measurement: Single, ceiling: Single) -> (r: Single)
    ensures
        r == normalised(weight, measurement, ceiling),
{
    let one: Single = Single::from_u32(1);
    one.add(weight.mul(measurement.div(ceiling).sub(one)))
}

impl ControlLoop {
    pub fn new(s: ControlSettings) -> (r: ControlLoop)
        ensures
            r@ == ControlModel::boot(s),
    {
        ControlLoop {
            ac_ema: Single::from_u32(10_000),
            pump_pid: PidController::new(s.press_pid.kp, s.press_pid.ki, s.press_pid.kd),
            temp_pid: PidController::new(s.temp_pid.kp, s.temp_pid.ki, s.temp_pid.kd),
            flow_pid: PidController::new(s.flow_pid.kp, s.flow_pid.ki, s.flow_pid.kd),
            mode: PumpMode::Idle,
            target_t: s.machine.brew_temp,
            feed_forward: Single::from_u32(0),
            brew_active: false,
            tick: 0,
            heater_duty: Single::from_u32(0),
            heater_accumulator: Single::from_u32(0),
        }
    }

    /// Zero-cross tracking: takes in a plausible half-wave measurement.
    fn track_period(&mut self, period_us: Option<u32>)
        ensures
            final(self)@ == old(self)@.with_period(period_us),
    {
        if let Some(raw) = period_us {
            let half_wave_us: Single = Single::from_u32(raw);
            if half_wave_us.gt(Single::from_u32(7_500)) && half_wave_us.lt(
                Single::from_u32(11_500),
            ) {
                let alpha_ac: Single = Single::ratio(10, 100);
                self.ac_ema = self.ac_ema.add(alpha_ac.mul(half_wave_us.sub(self.ac_ema)));
            }
        }
    }

    /// Takes whatever was signalled since the last tick.
    fn take_signals(&mut self, s: &ControlSettings, signals: &mut Signals)
        ensures
            final(self)@ == old(self)@.with_mode(*s, old(signals).pump_mode).with_brew_active(
                old(signals).brew_active,
            ).with_target(*s, old(signals).target_temp),
            *final(signals) == Signals::none(),
    {
        let (target_p, flow_limit) = self.mode.pressure_and_flow_limit();
        if let Some(new_mode) = signals.pump_mode {
            let (new_bar, new_fl) = new_mode.pressure_and_flow_limit();
            self.pump_pid.set_coeffs(s.press_pid.kp, s.press_pid.ki, s.press_pid.kd);
            // The normalised setpoint is always 1.0, so `reset_if_reactivated`
            // can never see the 0 -> non-zero edge it looks for. Key the reset
            // off the pump itself instead, preserving "only the start of a
            // shot clears the integral".
            let was_active: bool = target_p.is_positive() || flow_limit.is_positive();
            let now_active: bool = new_bar.is_positive() || new_fl.is_positive();
            if !was_active && now_active {
                self.pump_pid.reset();
            }
            self.flow_pid.set_coeffs(s.flow_pid.kp, s.flow_pid.ki, s.flow_pid.kd);
            // Only the start of a shot clears the integral.
            self.flow_pid.reset_if_reactivated(flow_limit, new_fl);
            self.mode = new_mode;
        }
        if let Some(ba) = signals.brew_active {
            self.brew_active = ba;
        }
        if let Some(tt) = signals.target_temp {
            self.temp_pid.set_coeffs(s.temp_pid.kp, s.temp_pid.ki, s.temp_pid.kd);
            self.temp_pid.reset_if_reactivated(self.target_t, tt);
            self.target_t = tt;
            // Balance for the boiler/brew group.
            let const_ff: Single = Single::ratio(21, 1000);
            self.feed_forward = const_ff.mul(
                s.machine.feed_forward_percents.div(Single::from_u32(100)),
            ).mul(tt.sub(Single::from_u32(20)));
        }
        *signals = Signals::new();
    }

    /// The pump's duty on this tick, the setpoint the pressure channel chased
    /// (0 whenever it isn't running, so telemetry never reports a stale target
    /// left over from the previous shot), and whether the flow channel is the
    /// one holding the pump back.
    fn drive_pump(&mut self, pressure: Single, flow_ml_s: Single, now: u64) -> (r: (
        Single,
        Single,
        bool,
    ))
        requires
            old(self)@.ready(now),
        ensures
            ({
                let step = old(self)@.pump_step(pressure, flow_ml_s, now);
                &&& r == (step.duty, step.effective_bar, step.flow_controlled)
                &&& final(self)@ == (ControlModel {
                    pump_pid: step.pump_pid,
                    flow_pid: step.flow_pid,
                    ..old(self)@
                })
            }),
    {
        let zero: Single = Single::from_u32(0);
        let (target_p, flow_limit) = self.mode.pressure_and_flow_limit();
        match self.mode {
            PumpMode::DirectPump(power) => {
                return (power.clamp(zero, Single::from_u32(100)), zero, false);
            },
            _ => {},
        }
        if target_p.is_positive() {
            let u_p: Single = normalise(Single::ratio(75, 10), pressure, target_p);
            let u_q: Single = if flow_limit.is_positive() {
                normalise(Single::from_u32(1), flow_ml_s, flow_limit)
            } else {
                Single::negative_infinity()
            };
            let flow_controlled: bool = u_q.ge(u_p);
            let duty: Single = self.pump_pid.update(Single::from_u32(1), u_q.max(u_p), now);
            (duty, target_p, flow_controlled)
        } else if flow_limit.is_positive() {
            let duty: Single = self.flow_pid.update(flow_limit, flow_ml_s, now);
            (duty, zero, true)
        } else {
            (zero, zero, false)
        }
    }

    /// One pass of the loop, run on every mains cycle.
    pub fn tick(&mut self, input: &TickInput, signals: &mut Signals) -> (output: TickOutput)
        requires
            old(self)@.ready(input.now),
        ensures
            (final(self)@, output) == old(self)@.ticked(*input, *old(signals)),
            *final(signals) == Signals::none(),
            final(self)@.ready(input.now),
    {
        self.track_period(input.period_us);
        self.take_signals(&input.settings, signals);
        let (target_p, flow_limit) = self.mode.pressure_and_flow_limit();

        // --- Pump control (triac phase angle) ---
        let (p_output, active_target_p, flow_controlled) = self.drive_pump(
            input.sensors.pressure_bar,
            input.flow_ml_s,
            input.now,
        );
        let triac_delay_us: Option<u32> = if p_output.is_positive() {
            Some(get_delay_fraction(p_output).mul(self.ac_ema).to_u32())
        } else {
            None
        };

        // --- Temperature PID (every 10 ticks) ---
        // The effective target is recomputed every tick even though the PID
        // consumes it every tenth, so telemetry reports the setpoint implied
        // by the current flow rather than one up to 200 ms stale.
        let effective_target_t: Single = if self.brew_active {
            self.target_t.add(
                input.flow_ml_s.mul(self.feed_forward).clamp(
                    Single::from_u32(0),
                    Single::from_u32(20),
                ),
            )
        } else {
            self.target_t
        };
        if self.tick % 10 == 0 {
            self.heater_duty = self.temp_pid.update(
                effective_target_t,
                input.sensors.temp_c,
                input.now,
            );
        }

        // --- Heater flag (delta-sigma decision) ---
        let full: Single = Single::from_u32(100);
        self.heater_accumulator = self.heater_accumulator.add(self.heater_duty);
        let heater_on: bool = self.heater_accumulator.ge(full);
        if heater_on {
            self.heater_accumulator = self.heater_accumulator.sub(full);
        }

        let telemetry: Telemetry = Telemetry {
            tick: self.tick,
            pressure_bar: input.sensors.pressure_bar,
            temp_c: input.sensors.temp_c,
            target_bar: target_p,
            effective_target_bar: active_target_p,
            target_temp: self.target_t,
            effective_target_temp: effective_target_t,
            flow_limit_ml_s: flow_limit,
            flow_rate_ml_s: input.flow_ml_s,
            volume_ml: input.volume_ml,
            flow_controlled,
            heater_duty: self.heater_duty,
            pump_duty: p_output,
        };
        self.tick = self.tick.wrapping_add(1);
        TickOutput { triac_delay_us, heater_on, telemetry }
    }
}

// ==========================================
// LAWS
// ==========================================

/// The pump's duty is between 0 and 100 %, unless it is not a number.
pub proof fn law_pump_duty_is_bounded(
    control: ControlModel,
    pressure: Single,
    flow_ml_s: Single,
    now: u64,
)
    ensures
        ({
            let duty = control.pump_step(pressure, flow_ml_s, now).duty;
            duty.nan() || (Single::whole(0).at_most(duty) && duty.at_most(Single::whole(100)))
        }),
{
    Single::lemma_whole_exact(0);
    Single::lemma_whole_ordered(0, 100);
    let (target_p, flow_limit) = control.mode.ceilings();
    let (u_p, u_q) = channels(pressure, target_p, flow_ml_s, flow_limit);
    crate::pid::law_output_is_a_duty(
        control.pump_pid,
        Single::whole(1),
        u_q.larger(u_p),
        now,
    );
    crate::pid::law_output_is_a_duty(control.flow_pid, flow_limit, flow_ml_s, now);
    if let PumpMode::DirectPump(power) = control.mode {
        if !power.nan() {
            power.lemma_clamped(Single::whole(0), Single::whole(100));
        }
    }
}

/// A pump told to be idle is not fired on the very tick that takes the
/// message.
pub proof fn law_idle_pump_is_not_fired(control: ControlModel, input: TickInput, signals: Signals)
    requires
        signals.pump_mode == Some(PumpMode::Idle) || (signals.pump_mode is None
            && control.mode is Idle),
    ensures
        control.ticked(input, signals).1.triac_delay_us is None,
{
    Single::lemma_whole_exact(0);
}

/// A flow ceiling that is not set never governs: the pump follows the pressure
/// alone.
pub proof fn law_absent_flow_ceiling_never_governs(
    control: ControlModel,
    pressure: Single,
    flow_ml_s: Single,
    now: u64,
)
    requires
        !(control.mode is DirectPump),
        control.mode.ceilings().0.positive(),
        !control.mode.ceilings().1.positive(),
        normalised(pressure_weight(), pressure, control.mode.ceilings().0).finite(),
    ensures
        ({
            let step = control.pump_step(pressure, flow_ml_s, now);
            let u_p = normalised(pressure_weight(), pressure, control.mode.ceilings().0);
            &&& !step.flow_controlled
            &&& step.duty == control.pump_pid.terms(Single::whole(1), u_p, now).output
        }),
{
    let u_p = normalised(pressure_weight(), pressure, control.mode.ceilings().0);
    if !lowest().less(u_p) {
        u_p.lemma_finite_below_lowest(lowest());
    }
}

/// With two ceilings the tighter one governs: the pump gets no more duty than
/// either of them alone would let it have.
pub proof fn law_tighter_ceiling_governs(
    control: ControlModel,
    pressure: Single,
    flow_ml_s: Single,
    now: u64,
)
    requires
        control.mode is Pressure,
        control.mode.ceilings().0.positive(),
        control.mode.ceilings().1.positive(),
        control.pump_pid.ready(now),
        crate::pid::integral_in_range(control.pump_pid.i_term),
        control.pump_pid.sound(),
        control.pump_pid.tame(
            Single::whole(1),
            normalised(pressure_weight(), pressure, control.mode.ceilings().0),
            now,
        ),
        control.pump_pid.tame(
            Single::whole(1),
            normalised(flow_weight(), flow_ml_s, control.mode.ceilings().1),
            now,
        ),
    ensures
        ({
            let (bar, limit) = control.mode.ceilings();
            let duty = control.pump_step(pressure, flow_ml_s, now).duty;
            let alone = |u: Single| control.pump_pid.terms(Single::whole(1), u, now).output;
            &&& duty.at_most(alone(normalised(pressure_weight(), pressure, bar)))
            &&& duty.at_most(alone(normalised(flow_weight(), flow_ml_s, limit)))
        }),
{
    let (bar, limit) = control.mode.ceilings();
    let (u_p, u_q) = channels(pressure, bar, flow_ml_s, limit);
    let one = Single::whole(1);
    Single::lemma_whole_exact(1);
    let pid = control.pump_pid;
    let larger = u_q.larger(u_p);
    crate::pid::law_larger_measurement_gets_no_more_duty(pid, one, u_p, larger, now);
    crate::pid::law_larger_measurement_gets_no_more_duty(pid, one, u_q, larger, now);
}

/// How far a channel is past its ceiling, weighted: what the normalised
/// measurement has above 1.
pub open spec fn excess(weight: Single, measurement: Single, ceiling: Single) -> Single {
    weight.times(measurement.over(ceiling).minus(Single::whole(1)))
}

/// A tick's signals with a pressure ceiling and a flow ceiling.
pub open spec fn with_ceilings(signals: Signals, bar: Single, limit: Single) -> Signals {
    Signals {
        pump_mode: Some(PumpMode::Pressure { bar, flow_limit_ml_s: limit }),
        ..signals
    }
}

/// Both fields of a pressure mode are ceilings. Of two ticks that differ in the
/// flow ceiling alone, the one that has it gives the pump no more duty than the
/// one without, and the same where the pressure is further past its ceiling
/// than the flow. The flow channel is reported in charge where its normalised
/// measurement is the larger or they are equal, never without a flow ceiling,
/// and always where the flow is at least as far past its ceiling as the
/// pressure. The duty is between 0 and 100 %.
pub proof fn law_flow_ceiling_only_takes_away(
    control: ControlModel,
    input: TickInput,
    signals: Signals,
    bar: Single,
    limit: Single,
)
    requires
        bar.positive(),
        limit.positive(),
        control.ready(input.now),
        crate::pid::integral_in_range(control.pump_pid.i_term),
        ({
            let pid = control.steered(input, with_ceilings(signals, bar, limit)).pump_pid;
            let p = input.sensors.pressure_bar;
            &&& pid.sound()
            &&& pid.tame(Single::whole(1), normalised(pressure_weight(), p, bar), input.now)
            &&& pid.tame(
                Single::whole(1),
                normalised(flow_weight(), input.flow_ml_s, limit),
                input.now,
            )
        }),
    ensures
        ({
            let with = control.ticked(input, with_ceilings(signals, bar, limit)).1.telemetry;
            let without = control.ticked(
                input,
                with_ceilings(signals, bar, Single::whole(0)),
            ).1.telemetry;
            let p = input.sensors.pressure_bar;
            let x_p = excess(pressure_weight(), p, bar);
            let x_q = excess(flow_weight(), input.flow_ml_s, limit);
            let u_p = normalised(pressure_weight(), p, bar);
            let u_q = normalised(flow_weight(), input.flow_ml_s, limit);
            &&& with.pump_duty.at_most(without.pump_duty)
            &&& x_q.less(x_p) ==> with.pump_duty.same(without.pump_duty)
            &&& with.flow_controlled <==> u_p.at_most(u_q)
            &&& x_p.at_most(x_q) ==> with.flow_controlled
            &&& !without.flow_controlled
            &&& Single::whole(0).at_most(with.pump_duty)
            &&& with.pump_duty.at_most(Single::whole(100))
        }),
{
    let one = Single::whole(1);
    Single::lemma_whole_exact(0);
    Single::lemma_whole_exact(1);
    Single::lemma_whole_exact(20);
    Single::lemma_whole_exact(100);
    Single::lemma_whole_ordered(0, 100);
    Single::whole(20).lemma_negated();
    vstd::arithmetic::power2::lemma_pow2_pos(149);
    let p = input.sensors.pressure_bar;
    let a = control.steered(input, with_ceilings(signals, bar, limit));
    let b = control.steered(input, with_ceilings(signals, bar, Single::whole(0)));
    assert(a.pump_pid == b.pump_pid);
    let pid = a.pump_pid;
    assert(pid.ready(input.now));
    assert(crate::pid::integral_in_range(pid.i_term));
    let u_p = normalised(pressure_weight(), p, bar);
    let u_q = normalised(flow_weight(), input.flow_ml_s, limit);
    let (x_p, x_q) = (
        excess(pressure_weight(), p, bar),
        excess(flow_weight(), input.flow_ml_s, limit),
    );
    one.lemma_plus_finite(x_p);
    one.lemma_plus_finite(x_q);
    let larger = u_q.larger(u_p);
    u_p.lemma_finite_below_lowest(lowest());
    assert(lowest().larger(u_p) == u_p);
    crate::pid::law_larger_measurement_gets_no_more_duty(pid, one, u_p, larger, input.now);
    if x_q.less(x_p) {
        one.lemma_plus_ordered(one, x_q, x_p);
        crate::pid::law_larger_measurement_gets_no_more_duty(pid, one, larger, u_p, input.now);
    }
    if x_p.at_most(x_q) {
        one.lemma_plus_ordered(one, x_p, x_q);
    }
    law_pump_duty_is_bounded(a, p, input.flow_ml_s, input.now);
}

/// On either channel, a measurement at its ceiling normalises to exactly 1,
/// the setpoint of the unified controller, whatever the weight.
pub proof fn law_ceiling_is_the_fixed_point(weight: Single, ceiling: Single)
    requires
        weight.finite(),
        ceiling.finite(),
        ceiling.positive(),
    ensures
        normalised(weight, ceiling, ceiling) == Single::whole(1),
{
    ceiling.lemma_positive();
    ceiling.lemma_weighted_excess_of_itself(weight);
}

/// No table entry delays longer than the one before it: more power, less
/// delay.
pub proof fn law_delay_table_falls(i: int)
    requires
        0 <= i < 100,
    ensures
        2000 <= POWER_TO_DELAY_LUT[i + 1] < POWER_TO_DELAY_LUT[i] <= 8000,
        POWER_TO_DELAY_LUT[i] - POWER_TO_DELAY_LUT[i + 1] <= 124,
        POWER_TO_DELAY_LUT[0] == 8000,
        POWER_TO_DELAY_LUT[100] == 2000,
{
}

/// While no brew profile runs, the temperature controller chases the setpoint
/// itself. While one does, the feed-forward only ever raises it.
pub proof fn law_feed_forward_only_raises(control: ControlModel, flow_ml_s: Single)
    requires
        control.target_t.finite(),
        !flow_ml_s.times(control.feed_forward).nan(),
    ensures
        !control.brew_active ==> control.effective_target(flow_ml_s) == control.target_t,
        control.target_t.at_most(control.effective_target(flow_ml_s)),
        control.effective_target(flow_ml_s).at_most(control.target_t.plus(Single::whole(20))),
{
    Single::lemma_whole_exact(0);
    Single::lemma_whole_exact(20);
    Single::lemma_whole_ordered(0, 20);
    let boost = flow_ml_s.times(control.feed_forward).clamped(Single::whole(0), Single::whole(20));
    flow_ml_s.times(control.feed_forward).lemma_clamped(Single::whole(0), Single::whole(20));
    boost.lemma_finite_between(Single::whole(0), Single::whole(20));
    control.target_t.lemma_plus_at_least(boost);
    control.target_t.lemma_plus_at_least(Single::whole(20));
    control.target_t.lemma_plus_value(boost);
    control.target_t.lemma_plus_value(Single::whole(20));
    crate::rounding::lemma_rounded_monotone(
        control.target_t.value() + boost.value(),
        control.target_t.value() + Single::whole(20).value(),
        1,
    );
}

/// A feed-forward of 0 percent is none: even a brew chases the setpoint itself.
pub proof fn law_feed_forward_can_be_disabled(
    control: ControlModel,
    s: ControlSettings,
    target: Single,
    flow_ml_s: Single,
)
    requires
        s.machine.feed_forward_percents.same(Single::whole(0)),
        target.finite(),
        target.minus(Single::whole(20)).finite(),
        flow_ml_s.finite(),
    ensures
        control.with_target(s, Some(target)).effective_target(flow_ml_s).same(target),
{
    let c = control.with_target(s, Some(target));
    let (zero, hundred) = (Single::whole(0), Single::whole(100));
    let percents = s.machine.feed_forward_percents;
    Single::lemma_whole_positive(100);
    hundred.lemma_positive();
    percents.lemma_zero();
    percents.lemma_nothing(hundred);
    Single::lemma_fraction_value(21, 1000);
    let gain = Single::fraction(21, 1000);
    percents.over(hundred).lemma_nothing(gain);
    let product = gain.times(percents.over(hundred));
    product.lemma_nothing(target.minus(Single::whole(20)));
    c.feed_forward.lemma_nothing(flow_ml_s);
    let raw = flow_ml_s.times(c.feed_forward);
    raw.lemma_zero();
    Single::lemma_whole_exact(0);
    Single::lemma_whole_exact(20);
    Single::lemma_whole_ordered(0, 20);
    let boost = raw.clamped(zero, Single::whole(20));
    assert(boost.magnitude() == 0);
    assert(boost.value() == 0);
    target.lemma_plus_value(boost);
    target.lemma_value_rounded(1);
}

/// What is owed to the heater.
pub open spec fn chunk_or_less(x: Single) -> bool {
    Single::whole(0).at_most(x) && x.at_most(Single::whole(100))
}

/// The heater is never owed more than one chunk nor less than nothing, so its
/// firing follows the duty without drifting. A full duty fires on every tick,
/// and no duty fires nothing while less than a chunk is owed.
pub proof fn law_heater_debt_is_bounded(control: ControlModel)
    requires
        chunk_or_less(control.heater_accumulator),
        chunk_or_less(control.heater_duty),
    ensures
        chunk_or_less(control.modulated().heater_accumulator),
        control.heater_duty.same(Single::whole(100)) ==> control.fires(),
        control.heater_duty.same(Single::whole(0)) && control.heater_accumulator.less(
            Single::whole(100),
        ) ==> !control.fires(),
{
    let (zero, full, two) = (Single::whole(0), Single::whole(100), Single::whole(200));
    Single::lemma_whole_exact(0);
    Single::lemma_whole_exact(100);
    Single::lemma_whole_exact(200);
    let (acc, duty) = (control.heater_accumulator, control.heater_duty);
    acc.lemma_finite_between(zero, full);
    duty.lemma_finite_between(zero, full);
    let owed = control.owed();
    acc.lemma_plus_value(duty);
    acc.lemma_value_rounded(1);
    duty.lemma_value_rounded(1);
    zero.lemma_value_rounded(1);
    full.lemma_value_rounded(1);
    two.lemma_value_rounded(1);
    let p = vstd::arithmetic::power2::pow2(149) as int;
    assert(100 * p + 100 * p == 200 * p);
    crate::rounding::lemma_rounded_monotone(0, acc.value() + duty.value(), 1);
    crate::rounding::lemma_rounded_monotone(acc.value() + duty.value(), 200 * p, 1);
    crate::rounding::lemma_rounded_monotone(duty.value(), acc.value() + duty.value(), 1);
    owed.lemma_finite_between(zero, two);
    full.lemma_negated();
    owed.lemma_plus_value(full.negated());
    if control.fires() {
        crate::rounding::lemma_rounded_monotone(0, owed.value() - full.value(), 1);
        crate::rounding::lemma_rounded_monotone(owed.value() - full.value(), 100 * p, 1);
    }
}

impl ControlModel {
    /// The loop after some ticks with the given duties, as far as the heater
    /// goes.
    pub open spec fn heated_by(self, duties: Seq<Single>) -> ControlModel
        decreases duties.len(),
    {
        if duties.len() == 0 {
            self
        } else {
            self.owing(duties).modulated()
        }
    }

    /// The loop as it decides on the last of some duties.
    pub open spec fn owing(self, duties: Seq<Single>) -> ControlModel
        decreases duties.len(), 0int,
        when duties.len() > 0
    {
        ControlModel { heater_duty: duties.last(), ..self.heated_by(duties.drop_last()) }
    }

    /// How often the heater fires over some duties.
    pub open spec fn firings(self, duties: Seq<Single>) -> int
        decreases duties.len(),
    {
        if duties.len() == 0 {
            0
        } else {
            self.firings(duties.drop_last()) + if self.owing(duties).fires() {
                1int
            } else {
                0int
            }
        }
    }

    /// No sum along the way is rounded.
    pub open spec fn sums_exactly(self, duties: Seq<Single>) -> bool
        decreases duties.len(),
    {
        duties.len() == 0 || {
            let c = self.owing(duties);
            &&& self.sums_exactly(duties.drop_last())
            &&& c.owed().value() == c.heater_accumulator.value() + c.heater_duty.value()
            &&& c.fires() ==> c.owed().minus(Single::whole(100)).value() == c.owed().value()
                - Single::whole(100).value()
        }
    }
}

pub open spec fn summed(duties: Seq<Single>) -> int
    decreases duties.len(),
{
    if duties.len() == 0 {
        0
    } else {
        summed(duties.drop_last()) + duties.last().value()
    }
}

proof fn lemma_firings(control: ControlModel, duties: Seq<Single>)
    requires
        control.heater_accumulator.same(Single::whole(0)),
        forall|i: int| 0 <= i < duties.len() ==> chunk_or_less(#[trigger] duties[i]),
        control.sums_exactly(duties),
    ensures
        ({
            let after = control.heated_by(duties).heater_accumulator;
            let full = Single::whole(100).value();
            &&& chunk_or_less(after)
            &&& 0 <= after.value() < full
            &&& after.value() + full * control.firings(duties) == summed(duties)
        }),
    decreases duties.len(),
{
    let full = Single::whole(100);
    Single::lemma_whole_exact(0);
    Single::lemma_whole_exact(100);
    Single::lemma_whole_ordered(0, 100);
    vstd::arithmetic::power2::lemma_pow2_pos(149);
    assert(0 * vstd::arithmetic::power2::pow2(149) == 0);
    if duties.len() == 0 {
        assert(full.value() * 0 == 0);
    } else {
        let rest = duties.drop_last();
        assert forall|i: int| 0 <= i < rest.len() implies chunk_or_less(#[trigger] rest[i]) by {
            assert(chunk_or_less(duties[i]));
        }
        assert(chunk_or_less(duties[duties.len() - 1]));
        lemma_firings(control, rest);
        let c = control.owing(duties);
        law_heater_debt_is_bounded(c);
        let n = control.firings(rest);
        assert(full.value() * (n + 1) == full.value() * n + full.value()) by (nonlinear_arith);
        c.heater_accumulator.lemma_finite_between(Single::whole(0), full);
        c.heater_duty.lemma_finite_between(Single::whole(0), full);
        c.heater_accumulator.lemma_plus_value(c.heater_duty);
    }
}

/// The heater fires in proportion to the duty: as long as no sum is rounded, it
/// has fired one chunk for every full hundred of the duties summed up, and owes
/// the rest.
pub proof fn law_heater_fires_in_proportion(control: ControlModel, duties: Seq<Single>)
    requires
        control.heater_accumulator.same(Single::whole(0)),
        forall|i: int| 0 <= i < duties.len() ==> chunk_or_less(#[trigger] duties[i]),
        control.sums_exactly(duties),
    ensures
        control.firings(duties) == summed(duties) / Single::whole(100).value(),
        control.heated_by(duties).heater_accumulator.value() == summed(duties) % Single::whole(
            100,
        ).value(),
{
    lemma_firings(control, duties);
    vstd::arithmetic::div_mod::lemma_fundamental_div_mod_converse(
        summed(duties),
        Single::whole(100).value(),
        control.firings(duties),
        control.heated_by(duties).heater_accumulator.value(),
    );
}

/// Duties in whole percent.
pub open spec fn percents(duties: Seq<int>) -> Seq<Single> {
    duties.map_values(|n: int| Single::whole(n))
}

pub open spec fn total_percent(duties: Seq<int>) -> int
    decreases duties.len(),
{
    if duties.len() == 0 {
        0
    } else {
        total_percent(duties.drop_last()) + duties.last()
    }
}

/// With duties in whole percent nothing is ever rounded, and the heater has
/// fired one chunk for every hundred percent.
pub proof fn law_whole_duties_fire_exactly(control: ControlModel, duties: Seq<int>)
    requires
        control.heater_accumulator == Single::whole(0),
        forall|i: int| 0 <= i < duties.len() ==> 0 <= #[trigger] duties[i] <= 100,
    ensures
        control.sums_exactly(percents(duties)),
        control.firings(percents(duties)) == total_percent(duties) / 100,
        control.heated_by(percents(duties)).heater_accumulator == Single::whole(
            total_percent(duties) % 100,
        ),
        total_percent(duties) >= 0,
    decreases duties.len(),
{
    if duties.len() > 0 {
        let rest = duties.drop_last();
        let n = duties.last();
        assert(0 <= duties[duties.len() - 1] <= 100);
        assert forall|i: int| 0 <= i < rest.len() implies 0 <= #[trigger] rest[i] <= 100 by {
            assert(0 <= duties[i] <= 100);
        }
        law_whole_duties_fire_exactly(control, rest);
        assert(percents(duties).drop_last() =~= percents(rest));
        assert(percents(duties).last() == Single::whole(n));
        let t = total_percent(rest);
        let a = t % 100;
        let c = control.owing(percents(duties));
        assert(c.heater_accumulator == Single::whole(a));
        Single::law_small_whole_arithmetic_is_exact(a, n);
        Single::lemma_whole_exact(a);
        Single::lemma_whole_exact(n);
        Single::lemma_whole_exact(a + n);
        Single::lemma_whole_exact(100);
        let p = vstd::arithmetic::power2::pow2(149) as int;
        vstd::arithmetic::power2::lemma_pow2_pos(149);
        assert((a + n) * p == a * p + n * p) by (nonlinear_arith);
        assert(c.fires() <==> a + n >= 100) by {
            assert(100 * p <= (a + n) * p <==> 100 <= a + n) by (nonlinear_arith)
                requires
                    p > 0,
            ;
        }
        if a + n >= 100 {
            Single::law_small_whole_arithmetic_is_exact(a + n, 100);
            Single::lemma_whole_exact(a + n - 100);
            assert((a + n - 100) * p == (a + n) * p - 100 * p) by (nonlinear_arith);
        }
    }
}

/// A plausible mains period.
pub open spec fn plausible_period(x: Single) -> bool {
    Single::whole(7_500).at_most(x) && x.at_most(Single::whole(11_500))
}

/// The filtered mains period stays plausible, whatever the trigger delivers.
pub proof fn law_filtered_period_stays_plausible(control: ControlModel, period_us: Option<u32>)
    requires
        plausible_period(control.ac_ema),
    ensures
        plausible_period(control.with_period(period_us).ac_ema),
{
    let (low, high, ema) = (Single::whole(7_500), Single::whole(11_500), control.ac_ema);
    Single::lemma_whole_exact(7_500);
    Single::lemma_whole_exact(11_500);
    ema.lemma_finite_between(low, high);
    if let Some(raw) = period_us {
        let half_wave = Single::whole(raw as int);
        if low.less(half_wave) && half_wave.less(high) {
            lemma_filter_step(ema, half_wave);
        }
    }
}

proof fn lemma_filter_step(ema: Single, x: Single)
    requires
        plausible_period(ema),
        plausible_period(x),
    ensures
        plausible_period(ema.plus(Single::fraction(10, 100).times(x.minus(ema)))),
{
    let (low, high) = (Single::whole(7_500), Single::whole(11_500));
    Single::lemma_whole_exact(7_500);
    Single::lemma_whole_exact(11_500);
    ema.lemma_finite_between(low, high);
    x.lemma_finite_between(low, high);
    ema.lemma_negated();
    x.lemma_plus_value(ema.negated());
    high.lemma_value_rounded(1);
    high.lemma_negated();
    high.negated().lemma_value_rounded(1);
    vstd::arithmetic::power2::lemma_pow2_pos(149);
    crate::rounding::lemma_rounded_monotone(x.value() - ema.value(), high.value(), 1);
    crate::rounding::lemma_rounded_monotone(-high.value(), x.value() - ema.value(), 1);
    x.minus(ema).lemma_finite_between(high.negated(), high);
    Single::lemma_fraction_at_most_quarter(10, 100);
    ema.lemma_smoothed(x, Single::fraction(10, 100));
}

/// Whatever the power, the triac fires between 0.20 and 0.80 of the half-wave.
pub proof fn law_delay_stays_in_the_window(power_percent: Single)
    requires
        !power_percent.nan(),
    ensures
        Single::fraction(2, 10).at_most(delay_fraction(power_percent)),
        delay_fraction(power_percent).at_most(Single::fraction(8, 10)),
{
    let (zero, full) = (Single::whole(0), Single::whole(100));
    Single::lemma_whole_exact(0);
    Single::lemma_whole_exact(100);
    Single::lemma_whole_ordered(0, 100);
    power_percent.lemma_clamped(zero, full);
    let p = power_percent.clamped(zero, full);
    assert(p.clamped(zero, full) == p);
    let index = p.whole_part(0xFFFF_FFFF);
    lemma_delay_bounds(p, index);
    Single::lemma_fraction_reduced(2, 10, 1000);
    Single::lemma_fraction_reduced(8, 10, 1000);
    let (i, j) = if index < 100 {
        (index, index + 1)
    } else {
        (100int, 100int)
    };
    lemma_table_order(i, j);
    Single::lemma_fraction_ordered(2000, POWER_TO_DELAY_LUT[j] as int, 10_000);
    Single::lemma_fraction_ordered(POWER_TO_DELAY_LUT[i] as int, 8000, 10_000);
}

/// Linear interpolation between two entries stays between them.
proof fn lemma_between_entries(a: int, b: int, share: Single)
    requires
        2000 <= b <= a <= 8000,
        a - b <= 124,
        share.finite(),
        0 <= share.value() <= vstd::arithmetic::power2::pow2(149),
    ensures
        ({
            let (lower, upper) = (Single::fraction(a, 10_000), Single::fraction(b, 10_000));
            let r = lower.plus(upper.minus(lower).times(share));
            &&& upper.at_most(r)
            &&& r.at_most(lower)
            &&& upper.minus(lower).finite()
            &&& upper.minus(lower).value() <= 0
            &&& upper.minus(lower).times(share).finite()
            &&& lower.finite()
        }),
{
    let (lower, upper) = (Single::fraction(a, 10_000), Single::fraction(b, 10_000));
    Single::lemma_fraction_value(a, 10_000);
    Single::lemma_fraction_value(b, 10_000);
    Single::lemma_fraction_ordered(b, a, 10_000);
    lemma_entry_difference(a, b);
    let d = upper.minus(lower);
    d.lemma_times_share(share);
    let t = d.times(share);
    lower.lemma_plus_value(t);
    upper.lemma_value_rounded(1);
    lower.lemma_value_rounded(1);
    crate::rounding::lemma_rounded_monotone(upper.value(), lower.value() + t.value(), 1);
    crate::rounding::lemma_rounded_monotone(lower.value() + t.value(), lower.value(), 1);
}

/// The difference of two neighbouring entries is finite.
pub proof fn lemma_entries_apart(i: int)
    requires
        0 <= i < 100,
    ensures
        delay_entry(i + 1).minus(delay_entry(i)).finite(),
{
    law_delay_table_falls(i);
    lemma_entry_difference(POWER_TO_DELAY_LUT[i] as int, POWER_TO_DELAY_LUT[i + 1] as int);
}

/// No later entry delays longer than an earlier one.
proof fn lemma_table_order(i: int, j: int)
    requires
        0 <= i <= j <= 100,
    ensures
        2000 <= POWER_TO_DELAY_LUT[j] <= POWER_TO_DELAY_LUT[i] <= 8000,
    decreases j - i,
{
    if i < j {
        law_delay_table_falls(j - 1);
        lemma_table_order(i, j - 1);
    } else if i < 100 {
        law_delay_table_falls(i);
    } else {
        law_delay_table_falls(99);
    }
}

/// The delay for a power between two entries lies between theirs.
proof fn lemma_delay_bounds(p: Single, index: int)
    requires
        Single::whole(0).at_most(p),
        p.at_most(Single::whole(100)),
        index == p.whole_part(0xFFFF_FFFF),
    ensures
        0 <= index,
        index < 100 ==> delay_entry(index + 1).at_most(delay_fraction(p)) && delay_fraction(
            p,
        ).at_most(delay_entry(index)),
        index >= 100 ==> delay_fraction(p) == delay_entry(100),
{
    Single::lemma_whole_exact(0);
    Single::lemma_whole_exact(100);
    p.lemma_whole_part_range(0xFFFF_FFFF);
    assert(p.clamped(Single::whole(0), Single::whole(100)) == p);
    if index < 100 {
        law_delay_table_falls(index);
        p.lemma_finite_between(Single::whole(0), Single::whole(100));
        p.lemma_remainder(index);
        lemma_between_entries(
            POWER_TO_DELAY_LUT[index] as int,
            POWER_TO_DELAY_LUT[index + 1] as int,
            p.minus(Single::whole(index)),
        );
    }
}

/// More power never means a longer delay.
pub proof fn law_more_power_fires_no_later(less: Single, more: Single)
    requires
        less.at_most(more),
    ensures
        delay_fraction(more).at_most(delay_fraction(less)),
{
    let (zero, full) = (Single::whole(0), Single::whole(100));
    Single::lemma_whole_exact(0);
    Single::lemma_whole_exact(100);
    Single::lemma_whole_ordered(0, 100);
    less.lemma_clamped(zero, full);
    more.lemma_clamped(zero, full);
    let (p, q) = (less.clamped(zero, full), more.clamped(zero, full));
    assert(p.clamped(zero, full) == p && q.clamped(zero, full) == q);
    let (i, j) = (p.whole_part(0xFFFF_FFFF), q.whole_part(0xFFFF_FFFF));
    lemma_delay_bounds(p, i);
    lemma_delay_bounds(q, j);
    p.lemma_whole_part_ordered(q, 0xFFFF_FFFF);
    assert(delay_fraction(less) == delay_fraction(p));
    assert(delay_fraction(more) == delay_fraction(q));
    if j >= 100 {
        lemma_table_order(if i < 100 { i + 1 } else { 100 }, 100);
        Single::lemma_fraction_ordered(
            POWER_TO_DELAY_LUT[100] as int,
            POWER_TO_DELAY_LUT[if i < 100 { i + 1 } else { 100 }] as int,
            10_000,
        );
    } else if i < j {
        lemma_table_order(i + 1, j);
        Single::lemma_fraction_ordered(
            POWER_TO_DELAY_LUT[j] as int,
            POWER_TO_DELAY_LUT[i + 1] as int,
            10_000,
        );
    } else {
        // Within one interval: a larger share of a fall.
        law_delay_table_falls(i);
        p.lemma_finite_between(zero, full);
        q.lemma_finite_between(zero, full);
        p.lemma_remainder(i);
        q.lemma_remainder(i);
        let (a, b) = (POWER_TO_DELAY_LUT[i] as int, POWER_TO_DELAY_LUT[i + 1] as int);
        let w = Single::whole(i);
        Single::lemma_whole_exact(i);
        w.lemma_negated();
        let (x, y) = (p.minus(w), q.minus(w));
        p.lemma_plus_ordered(q, w.negated(), w.negated());
        lemma_between_entries(a, b, x);
        lemma_between_entries(a, b, y);
        let lower = delay_entry(i);
        let d = delay_entry(i + 1).minus(lower);
        d.lemma_times_reversed(x, y);
        lower.lemma_plus_ordered(lower, d.times(y), d.times(x));
    }
}

/// Neighbouring entries are so close that their difference is exact.
proof fn lemma_entry_difference(a: int, b: int)
    requires
        2000 <= b <= a <= 8000,
        a - b <= 124,
    ensures
        ({
            let (lower, upper) = (Single::fraction(a, 10_000), Single::fraction(b, 10_000));
            &&& upper.minus(lower).finite()
            &&& upper.minus(lower).value() == upper.value() - lower.value()
        }),
{
    let (lower, upper) = (Single::fraction(a, 10_000), Single::fraction(b, 10_000));
    vstd::arithmetic::power2::lemma2_to64();
    vstd::arithmetic::power2::lemma_pow2_pos(123);
    vstd::arithmetic::power2::lemma_pow2_adds(3, 123);
    vstd::arithmetic::power2::lemma_pow2_adds(26, 123);
    vstd::arithmetic::power2::lemma_pow2_adds(23, 123);
    let p = vstd::arithmetic::power2::pow2(123) as int;
    Single::lemma_fraction_value(a, 10_000);
    Single::lemma_fraction_value(b, 10_000);
    Single::lemma_fraction_error(a, 10_000);
    Single::lemma_fraction_error(b, 10_000);
    let (u, v) = (lower.value(), upper.value());
    assert(v >= 0x80_0000 * p && u >= 0x80_0000 * p) by (nonlinear_arith)
        requires
            2 * (a * (0x400_0000 * p) - 10_000 * u) <= 10_000 * (8 * p),
            2 * (b * (0x400_0000 * p) - 10_000 * v) <= 10_000 * (8 * p),
            a >= 2000,
            b >= 2000,
            p > 0,
    ;
    let x = upper.lemma_on_grid(123);
    let y = lower.lemma_on_grid(123);
    assert(-0x100_0000 < x - y < 0x100_0000) by {
        assert(10_000 * (u - v) <= (a - b) * (0x400_0000 * p) + 10_000 * (8 * p))
            by (nonlinear_arith)
            requires
                2 * (10_000 * u - a * (0x400_0000 * p)) <= 10_000 * (8 * p),
                2 * (b * (0x400_0000 * p) - 10_000 * v) <= 10_000 * (8 * p),
        ;
        assert(10_000 * (u - v) <= 124 * (0x400_0000 * p) + 10_000 * (8 * p)) by (nonlinear_arith)
            requires
                10_000 * (u - v) <= (a - b) * (0x400_0000 * p) + 10_000 * (8 * p),
                a - b <= 124,
                p > 0,
        ;
        assert(10_000 * (v - u) <= 10_000 * (8 * p)) by (nonlinear_arith)
            requires
                2 * (10_000 * v - b * (0x400_0000 * p)) <= 10_000 * (8 * p),
                2 * (a * (0x400_0000 * p) - 10_000 * u) <= 10_000 * (8 * p),
                b <= a,
                p > 0,
        ;
        assert(x - y < 0x100_0000 && y - x < 0x100_0000) by (nonlinear_arith)
            requires
                u == y * p,
                v == x * p,
                10_000 * (u - v) <= 124 * (0x400_0000 * p) + 10_000 * (8 * p),
                10_000 * (v - u) <= 10_000 * (8 * p),
                p > 0,
        ;
    }
    upper.lemma_minus_exact(lower, x, y, 123);
}

} // verus!
