//! Machine operations (brew profile, steam, cooldown flush, hot water, raw
//! pump) and how they run.
//!
//! An operation is begun by [`execute`] and then polled: it says whether it
//! still runs, and when it wants to be polled next. Cancelling it is
//! [`Run::cancel`]. Both ends release everything it holds, the valve last.
//!
//! Operations never set the heater target: that is a pure function of the
//! machine's state, applied by the coordinator when it enters the state. An
//! operation therefore cannot leave a setpoint behind when it is cancelled.

use crate::control::{
    BrewActiveGuard, Effect, Outputs, PumpGuard, PumpMode, Signals, SolenoidGuard,
};
use crate::profiles::{steps_as_slice, BrewProfile, BrewProfileStep, ProfileModel};
use crate::settings::MachineSettings;
use crate::single::Single;
use vstd::prelude::*;

verus! {

/// Pump power used for flush and cooldown operations (%).
pub const PUMP_POWER: u32 = 30;

/// Pump power used for hot water (%).
pub const HOT_WATER_POWER: u32 = 80;

/// Safety ceiling for the pump-only operations (flush, raw direct pump,
/// cooldown flush). These have no target to stop them — they run until the
/// user says stop — and the buttons are edge-triggered, so a single press
/// would otherwise pump until the tank ran dry. Auto-sleep cannot rescue them
/// either: it only fires while Idle. Set well above any plausible manual use
/// so it never interferes with normal operation.
pub const MAX_PUMP_RUN_S: u64 = 60;

/// Hot water gets a longer ceiling than a flush — filling a mug at a few ml/s
/// is legitimately slower than rinsing the group head.
pub const MAX_HOT_WATER_S: u64 = 120;

/// Per-step ceiling, racing whatever limits the step set for itself. Catches a
/// step whose declared time exceeds this, and is the *only* bound on a
/// volume-only step whose target is never reached — which is why such a step
/// needs no default duration of its own.
pub const STEP_SAFETY_S: u64 = 120;

/// How often the volume is looked at, in milliseconds.
pub const VOLUME_POLL_MS: u64 = 50;

/// How often a cooldown flush looks at the temperature, in milliseconds.
pub const COOLDOWN_POLL_MS: u64 = 100;

/// A hardware sequence the coordinator has decided to run.
pub enum Operation {
    Profile(BrewProfile),
    Steam,
    CooldownFlush,
    DirectPump(Single),
    HotWater,
}

/// What an [`Operation`] holds.
pub enum OperationModel {
    Profile(ProfileModel),
    Steam,
    CooldownFlush,
    DirectPump(Single),
    HotWater,
}

impl View for Operation {
    type V = OperationModel;

    open spec fn view(&self) -> OperationModel {
        match *self {
            Operation::Profile(p) => OperationModel::Profile(p@),
            Operation::Steam => OperationModel::Steam,
            Operation::CooldownFlush => OperationModel::CooldownFlush,
            Operation::DirectPump(power) => OperationModel::DirectPump(power),
            Operation::HotWater => OperationModel::HotWater,
        }
    }
}

impl OperationModel {
    pub open spec fn opens_valve(self) -> bool {
        self is Profile || self is DirectPump
    }
}

impl Operation {
    pub fn name(&self) -> (r: &'static str)
        ensures
            r@ == (match self@ {
                OperationModel::Profile(_) => "Profile"@,
                OperationModel::Steam => "Steam"@,
                OperationModel::CooldownFlush => "Cooldown flush"@,
                OperationModel::DirectPump(_) => "Direct pump"@,
                OperationModel::HotWater => "Hot water"@,
            }),
    {
        match self {
            Operation::Profile(_) => "Profile",
            Operation::Steam => "Steam",
            Operation::CooldownFlush => "Cooldown flush",
            Operation::DirectPump(_) => "Direct pump",
            Operation::HotWater => "Hot water",
        }
    }

    /// Whether this operation needs the solenoid valve open (pressurizing the
    /// group head) while it runs. The rest leave it alone — it is already
    /// closed, since every operation that opened it closed it again.
    pub fn opens_valve(&self) -> (r: bool)
        ensures
            r == self@.opens_valve(),
    {
        match self {
            Operation::Profile(_) | Operation::DirectPump(_) => true,
            Operation::Steam | Operation::CooldownFlush | Operation::HotWater => false,
        }
    }
}

/// What a running operation looks at.
#[derive(Clone, Copy, Debug)]
pub struct Senses {
    /// Volume poured since the operation started, cumulative across the whole
    /// profile, not per step.
    pub volume_ml: Single,
    pub temp_c: Single,
    /// Microseconds since boot.
    pub now: u64,
}

/// The moment `count` times `unit` microseconds after `now`; the end of time
/// for one past it.
pub open spec fn moment_after(now: u64, count: int, unit: int) -> u64 {
    if now + count * unit <= u64::MAX {
        (now + count * unit) as u64
    } else {
        u64::MAX
    }
}

fn later(now: u64, count: u64, unit: u64) -> (r: u64)
    ensures
        r == moment_after(now, count as int, unit as int),
{
    match count.checked_mul(unit) {
        Some(d) => match now.checked_add(d) {
            Some(t) => t,
            None => u64::MAX,
        },
        None => u64::MAX,
    }
}

pub open spec fn after_ms(now: u64, ms: int) -> u64 {
    moment_after(now, ms, 1_000)
}

pub open spec fn after_s(now: u64, s: int) -> u64 {
    moment_after(now, s, 1_000_000)
}

// ==========================================
// PROFILE STEPS
// ==========================================

/// What a profile step waits for.
#[derive(Clone, Copy, Debug, PartialEq)]
pub struct StepWait {
    /// When its time limit is reached, where it has one.
    pub time_until: Option<u64>,
    /// Its volume limit, where it has one, and when the volume is looked at
    /// next.
    pub volume: Option<(Single, u64)>,
    /// When the safety ceiling is reached.
    pub safety: u64,
}

/// A step's field, absent meaning 0.
pub open spec fn or_zero(x: Option<Single>) -> Single {
    match x {
        Some(v) => v,
        None => Single::whole(0),
    }
}

/// Neither a time nor a volume limit: nothing would ever end the step but the
/// safety ceiling.
pub open spec fn skipped(step: BrewProfileStep) -> bool {
    or_zero(step.time_s).at_most(Single::whole(0)) && or_zero(step.volume).at_most(
        Single::whole(0),
    )
}

/// How a step drives the pump: 10 bar and more is raw power.
pub open spec fn mode_of(step: BrewProfileStep) -> PumpMode {
    if Single::whole(10).at_most(or_zero(step.pressure)) {
        PumpMode::DirectPump(or_zero(step.pressure))
    } else {
        PumpMode::Pressure { bar: or_zero(step.pressure), flow_limit_ml_s: or_zero(step.flow) }
    }
}

/// A volume limit that is already reached when the step begins.
pub open spec fn full_at_start(step: BrewProfileStep, volume_ml: Single) -> bool {
    !or_zero(step.volume).at_most(Single::whole(0)) && !volume_ml.less(or_zero(step.volume))
}

/// What a step that begins at `now` waits for.
pub open spec fn wait_of(step: BrewProfileStep, now: u64) -> StepWait {
    StepWait {
        time_until: if or_zero(step.time_s).at_most(Single::whole(0)) {
            None
        } else {
            Some(
                after_ms(
                    now,
                    or_zero(step.time_s).times(Single::whole(1000)).whole_part(u64::MAX as int),
                ),
            )
        },
        volume: if or_zero(step.volume).at_most(Single::whole(0)) {
            None
        } else {
            Some((or_zero(step.volume), after_ms(now, VOLUME_POLL_MS as int)))
        },
        safety: after_s(now, STEP_SAFETY_S as int),
    }
}

impl StepWait {
    pub open spec fn time_over(self, now: u64) -> bool {
        self.time_until is Some && self.time_until->0 <= now
    }

    /// The volume is due to be looked at.
    pub open spec fn volume_due(self, now: u64) -> bool {
        self.volume is Some && (self.volume->0).1 <= now
    }

    /// One of the step's limits is reached.
    pub open spec fn ended(self, senses: Senses) -> bool {
        ||| self.time_over(senses.now)
        ||| self.volume_due(senses.now) && !senses.volume_ml.less((self.volume->0).0)
        ||| self.safety <= senses.now
    }

    /// The wait once the volume was looked at, where it was due.
    pub open spec fn looked(self, now: u64) -> StepWait {
        if self.volume_due(now) {
            StepWait {
                volume: Some(((self.volume->0).0, after_ms(now, VOLUME_POLL_MS as int))),
                ..self
            }
        } else {
            self
        }
    }

    /// When the step wants to be polled next.
    pub open spec fn wake_at(self) -> u64 {
        let a = match self.time_until {
            Some(t) if t < self.safety => t,
            _ => self.safety,
        };
        match self.volume {
            Some((_, t)) if t < a => t,
            _ => a,
        }
    }

    fn deadline(&self) -> (r: u64)
        ensures
            r == self.wake_at(),
    {
        let mut r: u64 = self.safety;
        if let Some(t) = self.time_until {
            if t < r {
                r = t;
            }
        }
        if let Some((_, t)) = self.volume {
            if t < r {
                r = t;
            }
        }
        r
    }
}

/// The first step from `i` on that does not end as it begins, if any is left.
pub open spec fn settled(steps: Seq<BrewProfileStep>, i: int, volume_ml: Single) -> int
    decreases steps.len() - i,
{
    if i < 0 || i >= steps.len() {
        steps.len() as int
    } else if skipped(steps[i]) || full_at_start(steps[i], volume_ml) {
        settled(steps, i + 1, volume_ml)
    } else {
        i
    }
}

/// The pump mode of the last step begun out of the steps from `i` up to and
/// including `j`; `mode` where none was.
pub open spec fn last_mode(
    steps: Seq<BrewProfileStep>,
    i: int,
    j: int,
    mode: Option<PumpMode>,
) -> Option<PumpMode>
    decreases j - i + 1,
{
    if i < 0 || i > j || i >= steps.len() {
        mode
    } else if skipped(steps[i]) {
        last_mode(steps, i + 1, j, mode)
    } else {
        last_mode(steps, i + 1, j, Some(mode_of(steps[i])))
    }
}

fn unwrap_or_zero(x: Option<Single>) -> (r: Single)
    ensures
        r == or_zero(x),
{
    match x {
        Some(v) => v,
        None => Single::from_u32(0),
    }
}

// ==========================================
// RUNNING OPERATIONS
// ==========================================

/// An operation in flight, with the guards of what it holds.
pub enum Run {
    /// Waiting in step `index`.
    Profile {
        profile: BrewProfile,
        index: usize,
        wait: StepWait,
        pump: PumpGuard,
        brew: BrewActiveGuard,
        solenoid: SolenoidGuard,
    },
    Steam { until: u64 },
    Cooldown { stop_at: Single, check_at: u64, until: u64, pump: PumpGuard },
    /// Raw pump with the valve open, or hot water with it closed.
    Pump { power: Single, until: u64, pump: PumpGuard, valve: Option<SolenoidGuard> },
}

/// What a [`Run`] holds.
pub enum RunModel {
    Profile { profile: ProfileModel, index: int, wait: StepWait },
    Steam { until: u64 },
    Cooldown { stop_at: Single, check_at: u64, until: u64 },
    Pump { hot_water: bool, power: Single, until: u64 },
}

impl View for Run {
    type V = RunModel;

    open spec fn view(&self) -> RunModel {
        match *self {
            Run::Profile { profile, index, wait, .. } => RunModel::Profile {
                profile: profile@,
                index: index as int,
                wait,
            },
            Run::Steam { until } => RunModel::Steam { until },
            Run::Cooldown { stop_at, check_at, until, .. } => RunModel::Cooldown {
                stop_at,
                check_at,
                until,
            },
            Run::Pump { power, until, valve, .. } => RunModel::Pump {
                hot_water: valve is None,
                power,
                until,
            },
        }
    }
}

/// The boiler temperature a cooldown flush stops at.
pub open spec fn cooled_at(machine: MachineSettings) -> Single {
    machine.brew_temp.plus(machine.temp_offset.times(Single::whole(2)))
}

impl RunModel {
    pub open spec fn wf(self) -> bool {
        self matches RunModel::Profile { profile, index, .. } ==> 0 <= index < profile.steps.len()
            && profile.steps.len() <= crate::profiles::MAX_STEPS
    }

    /// The operation that runs.
    pub open spec fn operation(self) -> OperationModel {
        match self {
            RunModel::Profile { profile, .. } => OperationModel::Profile(profile),
            RunModel::Steam { .. } => OperationModel::Steam,
            RunModel::Cooldown { .. } => OperationModel::CooldownFlush,
            RunModel::Pump { hot_water, power, .. } => if hot_water {
                OperationModel::HotWater
            } else {
                OperationModel::DirectPump(power)
            },
        }
    }

    /// When the operation wants to be polled next.
    pub open spec fn wake_at(self) -> u64 {
        match self {
            RunModel::Profile { wait, .. } => wait.wake_at(),
            RunModel::Steam { until } => until,
            RunModel::Cooldown { check_at, until, .. } => if check_at < until {
                check_at
            } else {
                until
            },
            RunModel::Pump { until, .. } => until,
        }
    }

    /// What is left of the operation after a poll, and the signals it left.
    pub open spec fn polled(self, senses: Senses, signals: Signals) -> (Option<RunModel>, Signals) {
        match self {
            RunModel::Profile { profile, index, wait } => if wait.ended(senses) {
                profile_from(profile, index + 1, senses, signals)
            } else {
                (
                    Some(RunModel::Profile { profile, index, wait: wait.looked(senses.now) }),
                    signals,
                )
            },
            RunModel::Steam { until } => if until <= senses.now {
                (None, signals)
            } else {
                (Some(self), signals)
            },
            RunModel::Cooldown { stop_at, check_at, until } => {
                let due = check_at <= senses.now;
                if (due && senses.temp_c.at_most(stop_at)) || until <= senses.now {
                    (None, released(OperationModel::CooldownFlush, signals))
                } else {
                    (
                        Some(
                            RunModel::Cooldown {
                                stop_at,
                                check_at: if due {
                                    after_ms(senses.now, COOLDOWN_POLL_MS as int)
                                } else {
                                    check_at
                                },
                                until,
                            },
                        ),
                        signals,
                    )
                }
            },
            RunModel::Pump { hot_water, power, until } => if until <= senses.now {
                (None, released(self.operation(), signals))
            } else {
                (Some(self), signals)
            },
        }
    }
}

/// What an operation leaves when it ends, naturally or not: the pump idle and
/// no brew running. Steam touches neither.
pub open spec fn released(op: OperationModel, signals: Signals) -> Signals {
    match op {
        OperationModel::Profile(_) => Signals {
            brew_active: Some(false),
            pump_mode: Some(PumpMode::Idle),
            ..signals
        },
        OperationModel::Steam => signals,
        _ => Signals { pump_mode: Some(PumpMode::Idle), ..signals },
    }
}

/// A profile that goes on with step `i`.
pub open spec fn profile_from(
    profile: ProfileModel,
    i: int,
    senses: Senses,
    signals: Signals,
) -> (Option<RunModel>, Signals) {
    let j = settled(profile.steps, i, senses.volume_ml);
    if j < profile.steps.len() {
        (
            Some(
                RunModel::Profile {
                    profile,
                    index: j,
                    wait: wait_of(profile.steps[j], senses.now),
                },
            ),
            Signals {
                pump_mode: last_mode(profile.steps, i, j, signals.pump_mode),
                ..signals
            },
        )
    } else {
        (None, released(OperationModel::Profile(profile), signals))
    }
}

/// What is left of an operation once it has begun, and the signals it left.
pub open spec fn begun(
    op: OperationModel,
    machine: MachineSettings,
    senses: Senses,
    signals: Signals,
) -> (Option<RunModel>, Signals) {
    let now = senses.now;
    match op {
        OperationModel::Profile(p) => profile_from(
            p,
            0,
            senses,
            Signals { brew_active: Some(true), pump_mode: Some(PumpMode::Idle), ..signals },
        ),
        OperationModel::Steam => (
            Some(
                RunModel::Steam {
                    until: after_s(now, machine.steam_time_limit_s.whole_part(u64::MAX as int)),
                },
            ),
            signals,
        ),
        OperationModel::CooldownFlush => if senses.temp_c.at_most(cooled_at(machine)) {
            (None, released(op, signals))
        } else {
            (
                Some(
                    RunModel::Cooldown {
                        stop_at: cooled_at(machine),
                        check_at: after_ms(now, COOLDOWN_POLL_MS as int),
                        until: after_s(now, MAX_PUMP_RUN_S as int),
                    },
                ),
                Signals {
                    pump_mode: Some(PumpMode::DirectPump(Single::whole(PUMP_POWER as int))),
                    ..signals
                },
            )
        },
        OperationModel::DirectPump(power) => (
            Some(
                RunModel::Pump {
                    hot_water: false,
                    power,
                    until: after_s(now, MAX_PUMP_RUN_S as int),
                },
            ),
            Signals { pump_mode: Some(PumpMode::DirectPump(power)), ..signals },
        ),
        OperationModel::HotWater => (
            Some(
                RunModel::Pump {
                    hot_water: true,
                    power: Single::whole(HOT_WATER_POWER as int),
                    until: after_s(now, MAX_HOT_WATER_S as int),
                },
            ),
            Signals {
                pump_mode: Some(PumpMode::DirectPump(Single::whole(HOT_WATER_POWER as int))),
                ..signals
            },
        ),
    }
}

/// What an operation does as it begins: the valve opens before the pump is
/// told anything.
pub open spec fn engaged(op: OperationModel) -> Seq<Effect> {
    match op {
        OperationModel::Profile(_) => seq![
            Effect::Valve(true),
            Effect::Pump(PumpMode::Idle),
            Effect::Brew(true),
        ],
        OperationModel::Steam => seq![],
        OperationModel::CooldownFlush => seq![
            Effect::Pump(PumpMode::DirectPump(Single::whole(PUMP_POWER as int))),
        ],
        OperationModel::DirectPump(power) => seq![
            Effect::Valve(true),
            Effect::Pump(PumpMode::DirectPump(power)),
        ],
        OperationModel::HotWater => seq![
            Effect::Pump(PumpMode::DirectPump(Single::whole(HOT_WATER_POWER as int))),
        ],
    }
}

/// What an operation does as it ends: the pump is idle before the valve closes.
pub open spec fn disengaged(op: OperationModel) -> Seq<Effect> {
    match op {
        OperationModel::Profile(_) => seq![
            Effect::Brew(false),
            Effect::Pump(PumpMode::Idle),
            Effect::Valve(false),
        ],
        OperationModel::Steam => seq![],
        OperationModel::CooldownFlush => seq![Effect::Pump(PumpMode::Idle)],
        OperationModel::DirectPump(_) => seq![Effect::Pump(PumpMode::Idle), Effect::Valve(false)],
        OperationModel::HotWater => seq![Effect::Pump(PumpMode::Idle)],
    }
}

/// The pump modes of the steps begun out of those from `i` up to, but not
/// including, `j`.
pub open spec fn modes_begun(steps: Seq<BrewProfileStep>, i: int, j: int) -> Seq<Effect>
    decreases j - i,
{
    if i >= j {
        seq![]
    } else if skipped(steps[j - 1]) {
        modes_begun(steps, i, j - 1)
    } else {
        modes_begun(steps, i, j - 1).push(Effect::Pump(mode_of(steps[j - 1])))
    }
}

/// What a profile does that goes on with step `i`.
pub open spec fn profile_effects(profile: ProfileModel, i: int, senses: Senses) -> Seq<Effect> {
    let j = settled(profile.steps, i, senses.volume_ml);
    if j < profile.steps.len() {
        modes_begun(profile.steps, i, j + 1)
    } else {
        modes_begun(profile.steps, i, j) + disengaged(OperationModel::Profile(profile))
    }
}

/// What an operation does once it has begun, in order.
pub open spec fn begun_effects(
    op: OperationModel,
    machine: MachineSettings,
    senses: Senses,
) -> Seq<Effect> {
    match op {
        OperationModel::Profile(p) => engaged(op) + profile_effects(p, 0, senses),
        OperationModel::CooldownFlush => if senses.temp_c.at_most(cooled_at(machine)) {
            engaged(op) + disengaged(op)
        } else {
            engaged(op)
        },
        _ => engaged(op),
    }
}

impl RunModel {
    /// The operation is over with this poll, as far as it is no profile.
    pub open spec fn expires(self, senses: Senses) -> bool {
        match self {
            RunModel::Profile { .. } => false,
            RunModel::Steam { until } => until <= senses.now,
            RunModel::Cooldown { stop_at, check_at, until } => (check_at <= senses.now
                && senses.temp_c.at_most(stop_at)) || until <= senses.now,
            RunModel::Pump { until, .. } => until <= senses.now,
        }
    }

    /// What a poll does, in order.
    pub open spec fn polled_effects(self, senses: Senses) -> Seq<Effect> {
        match self {
            RunModel::Profile { profile, index, wait } => if wait.ended(senses) {
                profile_effects(profile, index + 1, senses)
            } else {
                seq![]
            },
            _ => if self.expires(senses) {
                disengaged(self.operation())
            } else {
                seq![]
            },
        }
    }
}

/// Goes on with step `from` of a profile whose guards are engaged.
fn execute_profile(
    profile: BrewProfile,
    from: usize,
    pump: PumpGuard,
    brew: BrewActiveGuard,
    solenoid: SolenoidGuard,
    senses: &Senses,
    out: &mut Outputs,
) -> (r: Option<Run>)
    requires
        from <= profile@.steps.len(),
    ensures
        ({
            let (left, after) = profile_from(profile@, from as int, *senses, old(out).signals);
            &&& final(out).signals == after
            &&& final(out).valve_open == (left is Some && old(out).valve_open)
            &&& final(out).trace@ == old(out).trace@ + profile_effects(
                profile@,
                from as int,
                *senses,
            )
            &&& r is Some == left is Some
            &&& r matches Some(run) ==> run@ == left->0 && run@.wf()
        }),
{
    let mut pump: PumpGuard = pump;
    let zero: Single = Single::from_u32(0);
    let steps: &[BrewProfileStep] = steps_as_slice(&profile.steps);
    let ghost all = profile@.steps;
    let ghost first = out.signals.pump_mode;
    let ghost begun_with = out.trace@;
    let mut i: usize = from;
    assert(begun_with + modes_begun(all, from as int, from as int) =~= begun_with);
    while i < steps.len()
        invariant
            steps@ == all,
            all == profile@.steps,
            all.len() <= 5,
            zero == Single::whole(0),
            from <= i <= all.len(),
            settled(all, from as int, senses.volume_ml) == settled(
                all,
                i as int,
                senses.volume_ml,
            ),
            forall|j: int|
                i <= j ==> #[trigger] last_mode(all, from as int, j, first) == last_mode(
                    all,
                    i as int,
                    j,
                    out.signals.pump_mode,
                ),
            out.signals == (Signals { pump_mode: out.signals.pump_mode, ..old(out).signals }),
            out.valve_open == old(out).valve_open,
            first == old(out).signals.pump_mode,
            begun_with == old(out).trace@,
            out.trace@ == begun_with + modes_begun(all, from as int, i as int),
        decreases all.len() - i,
    {
        let step: BrewProfileStep = steps[i];
        let time_s: Single = unwrap_or_zero(step.time_s);
        let volume: Single = unwrap_or_zero(step.volume);
        let pressure: Single = unwrap_or_zero(step.pressure);
        let flow: Single = unwrap_or_zero(step.flow);

        if time_s.le(zero) && volume.le(zero) {
            i = i + 1;
            continue;
        }
        let ghost before = out.trace@;
        if pressure.ge(Single::from_u32(10)) {
            pump.set_mode(out, PumpMode::DirectPump(pressure));
        } else {
            pump.set_mode(out, PumpMode::Pressure { bar: pressure, flow_limit_ml_s: flow });
        }
        assert(out.trace@ =~= begun_with + modes_begun(all, from as int, i + 1));
        if !volume.le(zero) && !senses.volume_ml.lt(volume) {
            i = i + 1;
            continue;
        }
        let wait: StepWait = StepWait {
            time_until: if time_s.le(zero) {
                None
            } else {
                Some(later(senses.now, time_s.mul(Single::from_u32(1000)).to_u64(), 1_000))
            },
            volume: if volume.le(zero) {
                None
            } else {
                Some((volume, later(senses.now, VOLUME_POLL_MS, 1_000)))
            },
            safety: later(senses.now, STEP_SAFETY_S, 1_000_000),
        };
        assert(last_mode(all, i + 1, i as int, out.signals.pump_mode) == out.signals.pump_mode);
        assert(last_mode(all, from as int, i as int, first) == Some(mode_of(step)));
        return Some(Run::Profile { profile, index: i, wait, pump, brew, solenoid });
    }
    brew.release(out);
    pump.release(out);
    solenoid.release(out);
    assert(out.trace@ =~= begun_with + profile_effects(profile@, from as int, *senses));
    None
}

/// Begins an operation. `None` means that it is over already.
///
/// Every operation is bounded: by the limits of a profile's steps, the
/// configured steam time, or a fixed ceiling.
pub fn execute(
    op: Operation,
    machine: &MachineSettings,
    senses: &Senses,
    out: &mut Outputs,
) -> (r: Option<Run>)
    ensures
        ({
            let (left, after) = begun(op@, *machine, *senses, old(out).signals);
            &&& final(out).signals == after
            &&& final(out).valve_open == if op@.opens_valve() {
                left is Some
            } else {
                old(out).valve_open
            }
            &&& final(out).trace@ == old(out).trace@ + begun_effects(op@, *machine, *senses)
            &&& r is Some == left is Some
            &&& r matches Some(run) ==> run@ == left->0 && run@.wf()
        }),
{
    let ghost before = out.trace@;
    match op {
        Operation::Profile(profile) => {
            let solenoid: SolenoidGuard = SolenoidGuard::open(out);
            let pump: PumpGuard = PumpGuard::engage(out, PumpMode::Idle);
            let brew: BrewActiveGuard = BrewActiveGuard::engage(out);
            assert(out.trace@ =~= before + engaged(op@));
            let r: Option<Run> = execute_profile(profile, 0, pump, brew, solenoid, senses, out);
            assert(out.trace@ =~= before + begun_effects(op@, *machine, *senses));
            r
        },
        Operation::Steam => {
            // The target itself comes from entering the steaming state; this
            // only bounds how long the machine stays there.
            let limit_s: u64 = machine.steam_time_limit_s.to_u64();
            assert(out.trace@ =~= before + engaged(op@));
            Some(Run::Steam { until: later(senses.now, limit_s, 1_000_000) })
        },
        Operation::CooldownFlush => {
            let pump: PumpGuard = PumpGuard::engage(
                out,
                PumpMode::DirectPump(Single::from_u32(PUMP_POWER)),
            );
            assert(out.trace@ =~= before + engaged(op@));
            let stop_at: Single = machine.brew_temp.add(
                machine.temp_offset.mul(Single::from_u32(2)),
            );
            if senses.temp_c.le(stop_at) {
                pump.release(out);
                assert(out.trace@ =~= before + begun_effects(op@, *machine, *senses));
                return None;
            }
            // Bounded like the other pump-only operations — this one stops on
            // a sensor reading, so a stuck-high temperature would otherwise
            // pump indefinitely.
            Some(
                Run::Cooldown {
                    stop_at,
                    check_at: later(senses.now, COOLDOWN_POLL_MS, 1_000),
                    until: later(senses.now, MAX_PUMP_RUN_S, 1_000_000),
                    pump,
                },
            )
        },
        Operation::DirectPump(power) => {
            let solenoid: SolenoidGuard = SolenoidGuard::open(out);
            let pump: PumpGuard = PumpGuard::engage(out, PumpMode::DirectPump(power));
            assert(out.trace@ =~= before + engaged(op@));
            Some(
                Run::Pump {
                    power,
                    until: later(senses.now, MAX_PUMP_RUN_S, 1_000_000),
                    pump,
                    valve: Some(solenoid),
                },
            )
        },
        Operation::HotWater => {
            let power: Single = Single::from_u32(HOT_WATER_POWER);
            let pump: PumpGuard = PumpGuard::engage(out, PumpMode::DirectPump(power));
            assert(out.trace@ =~= before + engaged(op@));
            Some(
                Run::Pump {
                    power,
                    until: later(senses.now, MAX_HOT_WATER_S, 1_000_000),
                    pump,
                    valve: None,
                },
            )
        },
    }
}

/// Releases the valve where it is held.
fn release_solenoid(solenoid: Option<SolenoidGuard>, out: &mut Outputs)
    ensures
        *final(out) == (match solenoid {
            Some(_) => old(out).after(Effect::Valve(false)),
            None => *old(out),
        }),
{
    if let Some(guard) = solenoid {
        guard.release(out);
    }
}

impl Run {
    /// When the operation wants to be polled next.
    pub fn deadline(&self) -> (r: u64)
        ensures
            r == self@.wake_at(),
    {
        match self {
            Run::Profile { wait, .. } => wait.deadline(),
            Run::Steam { until } => *until,
            Run::Cooldown { check_at, until, .. } => if *check_at < *until {
                *check_at
            } else {
                *until
            },
            Run::Pump { until, .. } => *until,
        }
    }

    /// Whether the operation holds the solenoid valve open.
    pub fn holds_valve(&self) -> (r: bool)
        ensures
            r == self@.operation().opens_valve(),
    {
        match self {
            Run::Profile { .. } => true,
            Run::Pump { valve, .. } => valve.is_some(),
            _ => false,
        }
    }

    /// Looks whether the operation is over. One that is has released
    /// everything it held, the valve last.
    pub fn poll(self, senses: &Senses, out: &mut Outputs) -> (r: Option<Run>)
        requires
            self@.wf(),
        ensures
            ({
                let (left, after) = self@.polled(*senses, old(out).signals);
                &&& final(out).signals == after
                &&& final(out).valve_open == if left is None && self@.operation().opens_valve() {
                    false
                } else {
                    old(out).valve_open
                }
                &&& final(out).trace@ == old(out).trace@ + self@.polled_effects(*senses)
                &&& r is Some == left is Some
                &&& r matches Some(run) ==> run@ == left->0 && run@.wf()
            }),
    {
        let now: u64 = senses.now;
        let ghost before = out.trace@;
        assert(before + Seq::<Effect>::empty() =~= before);
        match self {
            Run::Profile { profile, index, wait, pump, brew, solenoid } => {
                let time_over: bool = match wait.time_until {
                    Some(t) => t <= now,
                    None => false,
                };
                let mut next: StepWait = wait;
                let mut volume_reached: bool = false;
                if let Some((limit, check_at)) = wait.volume {
                    if check_at <= now {
                        if senses.volume_ml.lt(limit) {
                            next.volume = Some((limit, later(now, VOLUME_POLL_MS, 1_000)));
                        } else {
                            volume_reached = true;
                        }
                    }
                }
                if time_over || volume_reached || wait.safety <= now {
                    execute_profile(profile, index + 1, pump, brew, solenoid, senses, out)
                } else {
                    Some(Run::Profile { profile, index, wait: next, pump, brew, solenoid })
                }
            },
            Run::Steam { until } => if until <= now {
                None
            } else {
                Some(Run::Steam { until })
            },
            Run::Cooldown { stop_at, check_at, until, pump } => {
                let due: bool = check_at <= now;
                if (due && senses.temp_c.le(stop_at)) || until <= now {
                    pump.release(out);
                    assert(out.trace@ =~= before + self@.polled_effects(*senses));
                    return None;
                }
                let check_at: u64 = if due {
                    later(now, COOLDOWN_POLL_MS, 1_000)
                } else {
                    check_at
                };
                Some(Run::Cooldown { stop_at, check_at, until, pump })
            },
            Run::Pump { power, until, pump, valve } => if until <= now {
                pump.release(out);
                release_solenoid(valve, out);
                assert(out.trace@ =~= before + self@.polled_effects(*senses));
                None
            } else {
                Some(Run::Pump { power, until, pump, valve })
            },
        }
    }

    /// Abandons the operation, releasing everything it held, the valve last.
    pub fn cancel(self, out: &mut Outputs)
        ensures
            final(out).signals == released(self@.operation(), old(out).signals),
            final(out).valve_open == (old(out).valve_open && !self@.operation().opens_valve()),
            final(out).trace@ == old(out).trace@ + disengaged(self@.operation()),
    {
        let ghost before = out.trace@;
        match self {
            Run::Profile { pump, brew, solenoid, .. } => {
                brew.release(out);
                pump.release(out);
                solenoid.release(out);
            },
            Run::Steam { .. } => {},
            Run::Cooldown { pump, .. } => pump.release(out),
            Run::Pump { pump, valve, .. } => {
                pump.release(out);
                release_solenoid(valve, out);
            },
        }
        assert(out.trace@ =~= before + disengaged(self@.operation()));
    }
}

// ==========================================
// LAWS
// ==========================================

proof fn lemma_settled(steps: Seq<BrewProfileStep>, i: int, volume_ml: Single)
    requires
        0 <= i <= steps.len(),
    ensures
        i <= settled(steps, i, volume_ml) <= steps.len(),
        settled(steps, i, volume_ml) < steps.len() ==> !skipped(
            steps[settled(steps, i, volume_ml)],
        ),
    decreases steps.len() - i,
{
    if i < steps.len() {
        lemma_settled(steps, i + 1, volume_ml);
    }
}

impl RunModel {
    /// When the operation, or the step a profile is in, is ended at the latest.
    pub open spec fn ceiling(self) -> u64 {
        match self {
            RunModel::Profile { wait, .. } => wait.safety,
            RunModel::Steam { until } => until,
            RunModel::Cooldown { until, .. } => until,
            RunModel::Pump { until, .. } => until,
        }
    }

    /// How many ceilings are left to reach.
    pub open spec fn ceilings_left(self) -> int {
        match self {
            RunModel::Profile { profile, index, .. } => profile.steps.len() - index,
            _ => 1,
        }
    }

    /// What is left of the operation after some polls, each at or past the
    /// ceiling that holds then.
    pub open spec fn left_after(self, polls: Seq<Senses>, signals: Signals) -> Option<RunModel>
        decreases polls.len(),
    {
        if polls.len() == 0 || polls[0].now < self.ceiling() {
            Some(self)
        } else {
            let (left, after) = self.polled(polls[0], signals);
            match left {
                Some(run) => run.left_after(polls.skip(1), after),
                None => None,
            }
        }
    }

    /// Every poll is at or past the ceiling that holds then.
    pub open spec fn overdue(self, polls: Seq<Senses>, signals: Signals) -> bool
        decreases polls.len(),
    {
        polls.len() == 0 || (polls[0].now >= self.ceiling() && {
            let (left, after) = self.polled(polls[0], signals);
            left matches Some(run) ==> run.overdue(polls.skip(1), after)
        })
    }
}

/// An operation polled at its ceiling is over, or a profile goes on with a
/// later step. No step and no operation runs on for want of a limit.
pub proof fn law_every_operation_ends(run: RunModel, senses: Senses, signals: Signals)
    requires
        run.wf(),
        senses.now >= run.ceiling(),
    ensures
        match run.polled(senses, signals).0 {
            None => true,
            Some(left) => run is Profile && left is Profile && left->index > run->index
                && left.operation() == run.operation() && left.wf(),
        },
{
    if let RunModel::Profile { profile, index, wait } = run {
        lemma_settled(profile.steps, index + 1, senses.volume_ml);
    }
}

/// An operation is over once as many ceilings have passed as it has steps
/// left: one for each step of a profile, a single one for any other.
pub proof fn law_operation_is_over_after_its_ceilings(
    run: RunModel,
    polls: Seq<Senses>,
    signals: Signals,
)
    requires
        run.wf(),
        run.overdue(polls, signals),
        polls.len() >= run.ceilings_left(),
    ensures
        run.left_after(polls, signals) is None,
    decreases polls.len(),
{
    law_every_operation_ends(run, polls[0], signals);
    let (left, after) = run.polled(polls[0], signals);
    if let Some(next) = left {
        law_operation_is_over_after_its_ceilings(next, polls.skip(1), after);
    }
}

/// The ceilings, counted from the moment an operation or a profile's step
/// begins: two minutes for a step and for hot water, a minute for the other
/// pump-only operations.
pub proof fn law_ceilings(
    op: OperationModel,
    machine: MachineSettings,
    senses: Senses,
    signals: Signals,
)
    ensures
        match begun(op, machine, senses, signals).0 {
            Some(RunModel::Profile { wait, .. }) => wait.safety <= senses.now + 120_000_000,
            Some(RunModel::Cooldown { until, .. }) => until <= senses.now + 60_000_000,
            Some(RunModel::Pump { hot_water, until, .. }) => until <= senses.now + if hot_water {
                120_000_000int
            } else {
                60_000_000int
            },
            _ => true,
        },
{
}

/// An operation that is over has put the pump back to idle, and a profile its
/// brew flag down; only steam, which has neither, leaves them as they were.
pub proof fn law_operation_ends_released(
    run: RunModel,
    op: OperationModel,
    machine: MachineSettings,
    senses: Senses,
    signals: Signals,
)
    ensures
        run.polled(senses, signals).0 is None && !(run is Steam) ==> run.polled(
            senses,
            signals,
        ).1.pump_mode == Some(PumpMode::Idle),
        run.polled(senses, signals).0 is None && run is Profile ==> run.polled(
            senses,
            signals,
        ).1.brew_active == Some(false),
        begun(op, machine, senses, signals).0 is None ==> begun(
            op,
            machine,
            senses,
            signals,
        ).1 == released(op, begun(op, machine, senses, signals).1),
{
}

/// What runs is the operation that was begun, from its beginning to its end.
pub proof fn law_operation_stays_itself(
    op: OperationModel,
    run: RunModel,
    machine: MachineSettings,
    senses: Senses,
    signals: Signals,
)
    ensures
        begun(op, machine, senses, signals).0 matches Some(begins) ==> begins.operation() == op,
        run.polled(senses, signals).0 matches Some(left) ==> left.operation() == run.operation(),
{
}

/// Only a brew profile raises the brew flag, and no operation touches the
/// setpoint.
pub proof fn law_only_profiles_brew(
    op: OperationModel,
    run: RunModel,
    machine: MachineSettings,
    senses: Senses,
    signals: Signals,
)
    ensures
        !(op is Profile) ==> begun(op, machine, senses, signals).1.brew_active
            == signals.brew_active,
        begun(op, machine, senses, signals).1.target_temp == signals.target_temp,
        run.polled(senses, signals).1.target_temp == signals.target_temp,
        released(op, signals).target_temp == signals.target_temp,
{
}

/// A step without a time or a volume limit is never waited in.
pub proof fn law_unlimited_step_is_skipped(
    profile: ProfileModel,
    from: int,
    senses: Senses,
    signals: Signals,
)
    requires
        0 <= from <= profile.steps.len(),
    ensures
        profile_from(profile, from, senses, signals).0 matches Some(run) ==> run is Profile
            && from <= run->index < profile.steps.len() && !skipped(profile.steps[run->index]),
{
    lemma_settled(profile.steps, from, senses.volume_ml);
}

/// A step ends at the first of its limits: the time it declares, counted from
/// its start; a look at the volume, 50 ms after its start and after each look
/// before, that finds its volume reached; and two minutes. `last_look` is when
/// the volume was looked at last.
pub proof fn law_step_ends_at_its_first_limit(
    step: BrewProfileStep,
    start: u64,
    last_look: u64,
    senses: Senses,
)
    ensures
        ({
            let (time_s, volume) = (or_zero(step.time_s), or_zero(step.volume));
            let timed = !time_s.at_most(Single::whole(0));
            let measured = !volume.at_most(Single::whole(0));
            let begun = wait_of(step, start);
            let wait = StepWait {
                volume: if measured {
                    Some((volume, after_ms(last_look, 50)))
                } else {
                    None
                },
                ..begun
            };
            let ms = time_s.times(Single::whole(1000)).whole_part(u64::MAX as int);
            &&& last_look == start ==> wait == begun
            &&& wait.ended(senses) <==> {
                ||| timed && after_ms(start, ms) <= senses.now
                ||| measured && after_ms(last_look, 50) <= senses.now && !senses.volume_ml.less(
                    volume,
                )
                ||| after_s(start, 120) <= senses.now
            }
            &&& wait.looked(senses.now) == if measured && after_ms(last_look, 50) <= senses.now {
                StepWait { volume: Some((volume, after_ms(senses.now, 50))), ..wait }
            } else {
                wait
            }
        }),
{
}

/// Two minutes, in microseconds.
pub open spec fn two_minutes() -> int {
    120_000_000
}

impl RunModel {
    /// When a profile is over at the latest: two minutes for each step that is
    /// left after the present one.
    pub open spec fn latest_end(self) -> int {
        self.ceiling() + two_minutes() * (self.ceilings_left() - 1)
    }

    /// What is left of the operation after some polls.
    pub open spec fn after_polls(self, polls: Seq<Senses>) -> Option<RunModel>
        decreases polls.len(),
    {
        if polls.len() == 0 {
            Some(self)
        } else {
            match self.polled(polls[0], Signals::none()).0 {
                Some(run) => run.after_polls(polls.skip(1)),
                None => None,
            }
        }
    }

    /// How late some polls come, all together: each counts by how long after
    /// the ceiling that holds then it comes.
    pub open spec fn lateness(self, polls: Seq<Senses>) -> int
        decreases polls.len(),
    {
        if polls.len() == 0 {
            0
        } else {
            let late = late_by(polls[0].now, self.ceiling());
            match self.polled(polls[0], Signals::none()).0 {
                Some(run) => late + run.lateness(polls.skip(1)),
                None => late,
            }
        }
    }

    /// No poll comes later than the ceiling that holds then.
    pub open spec fn prompt(self, polls: Seq<Senses>) -> bool
        decreases polls.len(),
    {
        polls.len() == 0 || (polls[0].now <= self.ceiling() && (self.polled(
            polls[0],
            Signals::none(),
        ).0 matches Some(run) ==> run.prompt(polls.skip(1))))
    }
}

/// How long after a moment another one comes; 0 for one before it.
pub open spec fn late_by(now: u64, due: u64) -> int {
    if now > due {
        now - due
    } else {
        0
    }
}

proof fn lemma_latest_end(run: RunModel, senses: Senses)
    requires
        run.wf(),
        run is Profile,
        run.latest_end() + late_by(senses.now, run.ceiling()) <= u64::MAX,
    ensures
        run.polled(senses, Signals::none()).0 matches Some(left) ==> {
            &&& left.wf()
            &&& left is Profile
            &&& left.latest_end() <= run.latest_end() + late_by(senses.now, run.ceiling())
            &&& senses.now < left.ceiling()
        },
{
    if let RunModel::Profile { profile, index, wait } = run {
        if wait.ended(senses) {
            lemma_settled(profile.steps, index + 1, senses.volume_ml);
            let j = settled(profile.steps, index + 1, senses.volume_ml);
            let n = profile.steps.len() as int;
            assert(two_minutes() * (n - j - 1) <= two_minutes() * (n - index - 2))
                by (nonlinear_arith)
                requires
                    j >= index + 1,
                    two_minutes() > 0,
            ;
            assert(two_minutes() * (n - index - 1) == two_minutes() * (n - index - 2)
                + two_minutes()) by (nonlinear_arith);
            if j < n {
                assert(two_minutes() * (n - j - 1) >= 0) by (nonlinear_arith)
                    requires
                        j < n,
                        two_minutes() > 0,
                ;
            }
        }
    }
}

/// A profile is over within two minutes for each of its steps, and however much
/// later than its ceilings it is polled: whatever is left of it after some
/// polls, the last of them came before that. Polls that come on time add
/// nothing.
pub proof fn law_profile_is_over_in_time(
    profile: ProfileModel,
    machine: MachineSettings,
    first: Senses,
    polls: Seq<Senses>,
    signals: Signals,
)
    requires
        profile.steps.len() <= crate::profiles::MAX_STEPS,
        polls.len() > 0,
        begun(OperationModel::Profile(profile), machine, first, signals).0 matches Some(run)
            ==> first.now + two_minutes() * profile.steps.len() + run.lateness(polls) <= u64::MAX,
    ensures
        begun(OperationModel::Profile(profile), machine, first, signals).0 matches Some(run) ==> {
            &&& run.after_polls(polls) is Some ==> polls.last().now < first.now + two_minutes()
                * profile.steps.len() + run.lateness(polls)
            &&& run.prompt(polls) ==> run.lateness(polls) == 0
        },
{
    let begins = begun(OperationModel::Profile(profile), machine, first, signals).0;
    if let Some(run) = begins {
        lemma_settled(profile.steps, 0, first.volume_ml);
        let (n, j) = (profile.steps.len() as int, run->index);
        assert(two_minutes() * (n - j - 1) <= two_minutes() * (n - 1)) by (nonlinear_arith)
            requires
                j >= 0,
                two_minutes() > 0,
        ;
        assert(two_minutes() * n == two_minutes() * (n - 1) + two_minutes()) by (nonlinear_arith);
        assert(two_minutes() * (n - 1) >= 0) by (nonlinear_arith)
            requires
                n >= 1,
                two_minutes() > 0,
        ;
        lemma_over_in_time(run, polls);
        lemma_prompt(run, polls);
    }
}

proof fn lemma_lateness(run: RunModel, polls: Seq<Senses>)
    ensures
        run.lateness(polls) >= 0,
    decreases polls.len(),
{
    if polls.len() > 0 {
        if let Some(left) = run.polled(polls[0], Signals::none()).0 {
            lemma_lateness(left, polls.skip(1));
        }
    }
}

proof fn lemma_prompt(run: RunModel, polls: Seq<Senses>)
    ensures
        run.prompt(polls) ==> run.lateness(polls) == 0,
    decreases polls.len(),
{
    if polls.len() > 0 {
        if let Some(left) = run.polled(polls[0], Signals::none()).0 {
            lemma_prompt(left, polls.skip(1));
        }
    }
}

proof fn lemma_over_in_time(run: RunModel, polls: Seq<Senses>)
    requires
        run.wf(),
        run is Profile,
        run.latest_end() + run.lateness(polls) <= u64::MAX,
        polls.len() > 0,
    ensures
        run.after_polls(polls) is Some ==> polls.last().now < run.latest_end() + run.lateness(
            polls,
        ),
    decreases polls.len(),
{
    if let Some(left) = run.polled(polls[0], Signals::none()).0 {
        lemma_lateness(left, polls.skip(1));
        lemma_latest_end(run, polls[0]);
        if polls.len() == 1 {
            assert(two_minutes() * (left.ceilings_left() - 1) >= 0) by (nonlinear_arith)
                requires
                    left.ceilings_left() >= 1,
                    two_minutes() > 0,
            ;
        } else {
            lemma_over_in_time(left, polls.skip(1));
            assert(polls.skip(1).last() == polls.last());
        }
    }
}

impl RunModel {
    /// Everything the operation still does when it is polled so often, and
    /// then, where it is not over by itself, abandoned.
    pub open spec fn rest_of_life(self, polls: Seq<Senses>) -> Seq<Effect>
        decreases polls.len(),
    {
        if polls.len() == 0 {
            disengaged(self.operation())
        } else {
            match self.polled(polls[0], Signals::none()).0 {
                Some(run) => self.polled_effects(polls[0]) + run.rest_of_life(polls.skip(1)),
                None => self.polled_effects(polls[0]),
            }
        }
    }
}

/// Everything an operation does, from its beginning to its end.
pub open spec fn life(
    op: OperationModel,
    machine: MachineSettings,
    first: Senses,
    polls: Seq<Senses>,
) -> Seq<Effect> {
    match begun(op, machine, first, Signals::none()).0 {
        Some(run) => begun_effects(op, machine, first) + run.rest_of_life(polls),
        None => begun_effects(op, machine, first),
    }
}

/// Nothing but pump modes.
pub open spec fn pump_only(effects: Seq<Effect>) -> bool {
    forall|i: int| 0 <= i < effects.len() ==> (#[trigger] effects[i]) is Pump
}

proof fn lemma_modes_are_pump_only(steps: Seq<BrewProfileStep>, i: int, j: int)
    ensures
        pump_only(modes_begun(steps, i, j)),
    decreases j - i,
{
    if i < j {
        lemma_modes_are_pump_only(steps, i, j - 1);
    }
}

/// What is left to do is some pump modes, and then to let go of everything.
proof fn lemma_rest_of_life(run: RunModel, polls: Seq<Senses>) -> (middle: Seq<Effect>)
    requires
        run.wf(),
    ensures
        run.rest_of_life(polls) == middle + disengaged(run.operation()),
        pump_only(middle),
        !(run is Profile) ==> middle.len() == 0,
    decreases polls.len(),
{
    let end = disengaged(run.operation());
    let nothing = Seq::<Effect>::empty();
    if polls.len() == 0 {
        assert(nothing + end =~= end);
        nothing
    } else {
        let left = run.polled(polls[0], Signals::none()).0;
        let effects = run.polled_effects(polls[0]);
        if let RunModel::Profile { profile, index, wait } = run {
            lemma_settled(profile.steps, index + 1, polls[0].volume_ml);
            let j = settled(profile.steps, index + 1, polls[0].volume_ml);
            lemma_modes_are_pump_only(profile.steps, index + 1, j);
            lemma_modes_are_pump_only(profile.steps, index + 1, j + 1);
            if let Some(next) = left {
                let rest = lemma_rest_of_life(next, polls.skip(1));
                assert(effects + (rest + end) =~= (effects + rest) + end);
                effects + rest
            } else {
                modes_begun(profile.steps, index + 1, j)
            }
        } else if let Some(next) = left {
            let rest = lemma_rest_of_life(next, polls.skip(1));
            assert(nothing + (rest + end) =~= rest + end);
            rest
        } else {
            assert(nothing + end =~= end);
            nothing
        }
    }
}

/// However an operation ends, by itself or abandoned at any moment: one that
/// needs the valve opens it once, before it tells the pump anything, and closes
/// it once, as its last deed, when the pump is idle. Any other never touches
/// it. The last pump mode of every operation that has any is idle.
pub proof fn law_valve_opens_first_and_closes_last(
    op: OperationModel,
    machine: MachineSettings,
    first: Senses,
    polls: Seq<Senses>,
)
    requires
        op matches OperationModel::Profile(p) ==> p.steps.len() <= crate::profiles::MAX_STEPS,
    ensures
        ({
            let t = life(op, machine, first, polls);
            let n = t.len() as int;
            if op.opens_valve() {
                &&& n >= 4
                &&& t[0] == Effect::Valve(true)
                &&& t[n - 1] == Effect::Valve(false)
                &&& t[n - 2] == Effect::Pump(PumpMode::Idle)
                &&& forall|i: int| 0 < i < n - 1 ==> !((#[trigger] t[i]) is Valve)
            } else {
                &&& forall|i: int| 0 <= i < n ==> !((#[trigger] t[i]) is Valve)
                &&& n == 0 || t[n - 1] == Effect::Pump(PumpMode::Idle)
            }
        }),
{
    let (start, end) = (engaged(op), disengaged(op));
    let left = begun(op, machine, first, Signals::none()).0;
    let t = life(op, machine, first, polls);
    if let OperationModel::Profile(p) = op {
        lemma_settled(p.steps, 0, first.volume_ml);
        let j = settled(p.steps, 0, first.volume_ml);
        lemma_modes_are_pump_only(p.steps, 0, j);
        lemma_modes_are_pump_only(p.steps, 0, j + 1);
        let middle = if let Some(run) = left {
            let rest = lemma_rest_of_life(run, polls);
            let modes = modes_begun(p.steps, 0, j + 1);
            assert((start + modes) + (rest + end) =~= start + (modes + rest) + end);
            modes + rest
        } else {
            let modes = modes_begun(p.steps, 0, j);
            assert(start + (modes + end) =~= start + modes + end);
            modes
        };
        assert(t == start + middle + end);
        assert(pump_only(middle));
        lemma_between_guards(start, middle, end);
    } else {
        let middle = Seq::<Effect>::empty();
        if let Some(run) = left {
            let rest = lemma_rest_of_life(run, polls);
            assert(rest =~= middle);
            assert(start + (middle + end) =~= start + middle + end);
        } else {
            assert(start + end =~= start + middle + end);
        }
        lemma_between_guards(start, middle, end);
    }
}

/// Pump modes between a beginning and an end leave both as they are.
proof fn lemma_between_guards(start: Seq<Effect>, middle: Seq<Effect>, end: Seq<Effect>)
    requires
        pump_only(middle),
    ensures
        ({
            let t = start + middle + end;
            let m = start.len() + middle.len();
            &&& t.len() == m + end.len()
            &&& forall|i: int| 0 <= i < start.len() ==> t[i] == #[trigger] start[i]
            &&& forall|i: int| m <= i < t.len() ==> #[trigger] t[i] == end[i - m]
            &&& forall|i: int| start.len() <= i < m ==> (#[trigger] t[i]) is Pump
            &&& forall|i: int| 0 <= i < start.len() ==> #[trigger] t[i] == start[i]
        }),
{
    let t = start + middle + end;
    assert forall|i: int| start.len() <= i < start.len() + middle.len() implies (
    #[trigger] t[i]) is Pump by {
        assert(t[i] == middle[i - start.len()]);
    }
}

} // verus!
