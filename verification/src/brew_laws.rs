//! What operations tell the control loop, and for how long: each step of a
//! profile its own ceilings and limits, each operation its own power.

use crate::control::{Effect, PumpMode, Signals};
use crate::operations::{
    begun, begun_effects, disengaged, full_at_start, last_mode, modes_begun, profile_effects,
    released, settled, skipped, wait_of, OperationModel, RunModel, Senses, StepWait,
};
use crate::profiles::{BrewProfileStep, ProfileModel};
use crate::settings::MachineSettings;
use crate::single::Single;
use vstd::prelude::*;

verus! {

/// A limit that is set: there, and not 0 or less.
pub open spec fn limits(limit: Option<Single>) -> bool {
    limit matches Some(x) && !x.at_most(Single::whole(0))
}

/// A step that is not waited in: it has no limit, or its volume is poured
/// already.
pub open spec fn passed_over(step: BrewProfileStep, volume_ml: Single) -> bool {
    ||| !limits(step.time_s) && !limits(step.volume)
    ||| limits(step.volume) && !volume_ml.less(step.volume->0)
}

/// What the control loop is to do in a step: below 10 bar keep to the step's
/// own pressure and flow, one that is absent being 0; from 10 on, that raw
/// power.
pub open spec fn ceilings_of(step: BrewProfileStep, mode: PumpMode) -> bool {
    let flow = match step.flow {
        Some(f) => f,
        None => Single::whole(0),
    };
    match step.pressure {
        Some(bar) => if Single::whole(10).at_most(bar) {
            mode == PumpMode::DirectPump(bar)
        } else {
            mode == (PumpMode::Pressure { bar, flow_limit_ml_s: flow })
        },
        None => mode == (PumpMode::Pressure { bar: Single::whole(0), flow_limit_ml_s: flow }),
    }
}

/// What a step that begins at `now` waits for: its own time, its own volume,
/// looked at after 50 ms, and two minutes.
pub open spec fn waits_for(step: BrewProfileStep, now: u64, wait: StepWait) -> bool {
    &&& match step.time_s {
        Some(t) if !t.at_most(Single::whole(0)) => wait.time_until matches Some(until) && until
            == capped(now + 1_000 * t.times(Single::whole(1_000)).whole_part(u64::MAX as int)),
        _ => wait.time_until is None,
    }
    &&& match step.volume {
        Some(v) if !v.at_most(Single::whole(0)) => wait.volume matches Some((limit, look)) && limit
            == v && look == capped(now + 50_000),
        _ => wait.volume is None,
    }
    &&& wait.safety == capped(now + 120_000_000)
}

/// A moment, the last one standing for all after it.
pub open spec fn capped(moment: int) -> int {
    if moment <= u64::MAX {
        moment
    } else {
        u64::MAX as int
    }
}

/// A profile that goes on from step `from` waits in the first step that is not
/// passed over, with that step's ceilings, or is over where none is left.
pub open spec fn goes_on(
    profile: ProfileModel,
    from: int,
    senses: Senses,
    left: Option<RunModel>,
    after: Signals,
) -> bool {
    match left {
        Some(RunModel::Profile { profile: kept, index, wait }) => {
            &&& kept == profile
            &&& from <= index < profile.steps.len()
            &&& !passed_over(profile.steps[index], senses.volume_ml)
            &&& forall|i: int|
                from <= i < index ==> passed_over(#[trigger] profile.steps[i], senses.volume_ml)
            &&& waits_for(profile.steps[index], senses.now, wait)
            &&& after.pump_mode matches Some(mode) && ceilings_of(profile.steps[index], mode)
        },
        Some(_) => false,
        None => {
            &&& forall|i: int|
                from <= i < profile.steps.len() ==> passed_over(
                    #[trigger] profile.steps[i],
                    senses.volume_ml,
                )
            &&& after.pump_mode == Some(PumpMode::Idle)
            &&& after.brew_active == Some(false)
        },
    }
}

proof fn lemma_first_waited_in(steps: Seq<BrewProfileStep>, from: int, volume_ml: Single)
    requires
        0 <= from <= steps.len(),
    ensures
        ({
            let j = settled(steps, from, volume_ml);
            &&& from <= j <= steps.len()
            &&& j < steps.len() ==> !passed_over(steps[j], volume_ml)
            &&& forall|i: int| from <= i < j ==> passed_over(#[trigger] steps[i], volume_ml)
        }),
    decreases steps.len() - from,
{
    Single::lemma_whole_exact(0);
    if from < steps.len() && (skipped(steps[from]) || full_at_start(steps[from], volume_ml)) {
        lemma_first_waited_in(steps, from + 1, volume_ml);
    }
}

proof fn lemma_waits(step: BrewProfileStep, now: u64)
    ensures
        waits_for(step, now, wait_of(step, now)),
{
    Single::lemma_whole_exact(0);
    if let Some(t) = step.time_s {
        t.times(Single::whole(1_000)).lemma_whole_part_range(u64::MAX as int);
    }
}

proof fn lemma_mode_of_the_last(
    steps: Seq<BrewProfileStep>,
    from: int,
    j: int,
    mode: Option<PumpMode>,
)
    requires
        0 <= from <= j < steps.len(),
        !skipped(steps[j]),
    ensures
        last_mode(steps, from, j, mode) matches Some(m) && ceilings_of(steps[j], m),
    decreases j - from,
{
    if from < j {
        let next = if skipped(steps[from]) {
            mode
        } else {
            Some(crate::operations::mode_of(steps[from]))
        };
        lemma_mode_of_the_last(steps, from + 1, j, next);
    } else {
        reveal_with_fuel(last_mode, 2);
        Single::lemma_whole_ordered(0, 10);
    }
}

/// A profile begins with the brew flag up, in its first step that is not passed
/// over, with that step's own ceilings and limits; where there is none it is
/// over at once, the pump idle and the flag down.
pub proof fn law_profile_begins_in_its_first_step(
    profile: ProfileModel,
    machine: MachineSettings,
    senses: Senses,
    signals: Signals,
)
    ensures
        ({
            let (left, after) = begun(OperationModel::Profile(profile), machine, senses, signals);
            &&& goes_on(profile, 0, senses, left, after)
            &&& left is Some ==> after.brew_active == Some(true)
            &&& after.target_temp == signals.target_temp
        }),
{
    let j = settled(profile.steps, 0, senses.volume_ml);
    lemma_first_waited_in(profile.steps, 0, senses.volume_ml);
    if j < profile.steps.len() {
        lemma_mode_of_the_last(profile.steps, 0, j, Some(PumpMode::Idle));
        lemma_waits(profile.steps[j], senses.now);
    }
}

/// A step is left exactly when its time is over, when a look at the volume
/// finds it poured, or at its safety ceiling. Then the profile goes on in the
/// next step that is not passed over, with that step's own ceilings and limits;
/// until then it tells the control loop nothing. A look that was due puts the
/// next one 50 ms later.
pub proof fn law_profile_goes_on_step_by_step(
    profile: ProfileModel,
    index: int,
    wait: StepWait,
    senses: Senses,
    signals: Signals,
)
    requires
        0 <= index < profile.steps.len(),
    ensures
        ({
            let run = RunModel::Profile { profile, index, wait };
            let (left, after) = run.polled(senses, signals);
            let look = wait.volume matches Some((_, at)) && at <= senses.now;
            let over = {
                ||| wait.time_until matches Some(t) && t <= senses.now
                ||| look && !senses.volume_ml.less((wait.volume->0).0)
                ||| wait.safety <= senses.now
            };
            &&& over ==> goes_on(profile, index + 1, senses, left, after)
            &&& over && left is Some ==> after.brew_active == signals.brew_active
            &&& !over ==> after == signals
            &&& !over ==> (left matches Some(
                RunModel::Profile { profile: kept, index: at, wait: rest },
            ) && {
                &&& kept == profile
                &&& at == index
                &&& rest.time_until == wait.time_until
                &&& rest.safety == wait.safety
                &&& !look ==> rest.volume == wait.volume
                &&& look ==> (rest.volume matches Some((limit, next)) && limit == (
                wait.volume->0).0 && next == capped(senses.now + 50_000))
            })
            &&& after.target_temp == signals.target_temp
        }),
{
    let j = settled(profile.steps, index + 1, senses.volume_ml);
    lemma_first_waited_in(profile.steps, index + 1, senses.volume_ml);
    if j < profile.steps.len() {
        lemma_mode_of_the_last(profile.steps, index + 1, j, signals.pump_mode);
        lemma_waits(profile.steps[j], senses.now);
    }
}

/// A step of `n` whole seconds is left `n` million microseconds after it began,
/// and not before, if nothing else ends it.
pub proof fn law_step_lasts_its_seconds(
    profile: ProfileModel,
    machine: MachineSettings,
    senses: Senses,
    signals: Signals,
    n: int,
)
    requires
        profile.steps.len() > 0,
        profile.steps[0].time_s == Some(Single::whole(n)),
        !limits(profile.steps[0].volume),
        0 < n <= 16_777,
        senses.now + n * 1_000_000 <= u64::MAX,
    ensures
        begun(OperationModel::Profile(profile), machine, senses, signals).0 matches Some(
            RunModel::Profile { index, wait, .. },
        ) && index == 0 && wait.volume is None && wait.time_until == Some(
            (senses.now + n * 1_000_000) as u64,
        ),
{
    law_profile_begins_in_its_first_step(profile, machine, senses, signals);
    Single::lemma_whole_exact(0);
    Single::lemma_whole_ordered(0, n);
    Single::law_small_whole_arithmetic_is_exact(n, 1_000);
    Single::lemma_whole_part_of_whole(n * 1_000, u64::MAX as int);
    assert(!passed_over(profile.steps[0], senses.volume_ml));
    let left = begun(OperationModel::Profile(profile), machine, senses, signals).0;
    assert(left is Some && left->0 is Profile);
    let index = left->0->index;
    if index > 0 {
        assert(passed_over(profile.steps[0], senses.volume_ml));
    }
}

/// What each other operation asks of the pump, and for how long at most: the
/// raw pump the power it was asked for, for a minute, hot water 80 % for two,
/// and a cooldown flush 30 % for one minute, unless the boiler is at or below
/// the brew temperature plus twice the offset. Steam asks nothing of the pump
/// and lasts as long as the settings say. None raises the brew flag or moves
/// the setpoint.
pub proof fn law_operations_begin(
    op: OperationModel,
    machine: MachineSettings,
    senses: Senses,
    signals: Signals,
)
    requires
        !(op is Profile),
    ensures
        ({
            let (left, after) = begun(op, machine, senses, signals);
            let stop = machine.brew_temp.plus(machine.temp_offset.times(Single::whole(2)));
            &&& after.brew_active == signals.brew_active
            &&& after.target_temp == signals.target_temp
            &&& match op {
                OperationModel::DirectPump(asked) => {
                    &&& after.pump_mode == Some(PumpMode::DirectPump(asked))
                    &&& left matches Some(RunModel::Pump { hot_water, power, until }) && !hot_water
                        && power == asked && until == capped(senses.now + 60_000_000)
                },
                OperationModel::HotWater => {
                    &&& after.pump_mode == Some(PumpMode::DirectPump(Single::whole(80)))
                    &&& left matches Some(RunModel::Pump { hot_water, until, .. }) && hot_water
                        && until == capped(senses.now + 120_000_000)
                },
                OperationModel::CooldownFlush => if senses.temp_c.at_most(stop) {
                    left is None && after.pump_mode == Some(PumpMode::Idle)
                } else {
                    &&& after.pump_mode == Some(PumpMode::DirectPump(Single::whole(30)))
                    &&& left matches Some(RunModel::Cooldown { stop_at, check_at, until })
                        && stop_at == stop && check_at == capped(senses.now + 100_000) && until
                        == capped(senses.now + 60_000_000)
                },
                OperationModel::Steam => {
                    &&& after.pump_mode == signals.pump_mode
                    &&& left matches Some(RunModel::Steam { until }) && until == capped(
                        senses.now + 1_000_000 * machine.steam_time_limit_s.whole_part(
                            u64::MAX as int,
                        ),
                    )
                },
                _ => false,
            }
        }),
{
    machine.steam_time_limit_s.lemma_whole_part_range(u64::MAX as int);
}

/// Any other operation goes on until its time is over, a cooldown flush until a
/// look, every 100 ms, finds the boiler cool enough; then the pump is idle. Until
/// then it tells the control loop nothing.
pub proof fn law_operations_end(run: RunModel, senses: Senses, signals: Signals)
    requires
        !(run is Profile),
    ensures
        ({
            let (left, after) = run.polled(senses, signals);
            let over = match run {
                RunModel::Steam { until } => until <= senses.now,
                RunModel::Pump { until, .. } => until <= senses.now,
                RunModel::Cooldown { stop_at, check_at, until } => until <= senses.now || (check_at
                    <= senses.now && senses.temp_c.at_most(stop_at)),
                _ => false,
            };
            &&& left is None <==> over
            &&& after.brew_active == signals.brew_active
            &&& after.target_temp == signals.target_temp
            &&& after.pump_mode == if over && !(run is Steam) {
                Some(PumpMode::Idle)
            } else {
                signals.pump_mode
            }
            &&& !over ==> match run {
                RunModel::Cooldown { stop_at, check_at, until } => left matches Some(
                    RunModel::Cooldown { stop_at: s, check_at: c, until: u },
                ) && s == stop_at && u == until && c == if check_at <= senses.now {
                    capped(senses.now + 100_000)
                } else {
                    check_at as int
                },
                _ => left == Some(run),
            }
        }),
{
}

/// A poll before the moment an operation asked for changes nothing, and that
/// moment is one of those it waits for.
pub proof fn law_nothing_is_missed_between_polls(run: RunModel, senses: Senses, signals: Signals)
    ensures
        senses.now < run.wake_at() ==> run.polled(senses, signals) == (Some(run), signals),
        match run {
            RunModel::Profile { wait, .. } => {
                ||| wait.time_until == Some(run.wake_at())
                ||| wait.volume matches Some((_, look)) && look == run.wake_at()
                ||| wait.safety == run.wake_at()
            },
            RunModel::Steam { until } => run.wake_at() == until,
            RunModel::Pump { until, .. } => run.wake_at() == until,
            RunModel::Cooldown { check_at, until, .. } => run.wake_at() == check_at
                || run.wake_at() == until,
        },
{
}

/// A cancelled operation leaves the pump idle, and a profile the brew flag down.
pub proof fn law_cancelled_operation_lets_go(op: OperationModel, signals: Signals)
    ensures
        ({
            let after = released(op, signals);
            &&& after.target_temp == signals.target_temp
            &&& after.pump_mode == if op is Steam {
                signals.pump_mode
            } else {
                Some(PumpMode::Idle)
            }
            &&& after.brew_active == if op is Profile {
                Some(false)
            } else {
                signals.brew_active
            }
        }),
{
}

/// The last thing told to the pump.
pub open spec fn told_last(effects: Seq<Effect>, mode: Option<PumpMode>) -> Option<PumpMode>
    decreases effects.len(),
{
    if effects.len() == 0 {
        mode
    } else {
        match effects.last() {
            Effect::Pump(m) => Some(m),
            _ => told_last(effects.drop_last(), mode),
        }
    }
}

proof fn lemma_told_last_joins(a: Seq<Effect>, b: Seq<Effect>, mode: Option<PumpMode>)
    ensures
        told_last(a + b, mode) == told_last(b, told_last(a, mode)),
    decreases b.len(),
{
    if b.len() == 0 {
        assert(a + b =~= a);
    } else {
        assert((a + b).last() == b.last());
        assert((a + b).drop_last() =~= a + b.drop_last());
        lemma_told_last_joins(a, b.drop_last(), mode);
    }
}

proof fn lemma_modes_told(
    steps: Seq<BrewProfileStep>,
    i: int,
    j: int,
    mode: Option<PumpMode>,
)
    requires
        0 <= i <= j + 1 <= steps.len(),
    ensures
        told_last(modes_begun(steps, i, j + 1), mode) == last_mode(steps, i, j, mode),
    decreases j - i + 1,
{
    if i <= j {
        lemma_modes_told(steps, i, j - 1, mode);
        lemma_last_mode_grows(steps, i, j, mode);
        let before = modes_begun(steps, i, j);
        if !skipped(steps[j]) {
            let m = Effect::Pump(crate::operations::mode_of(steps[j]));
            assert(before.push(m).last() == m);
        }
    }
}

proof fn lemma_last_mode_grows(
    steps: Seq<BrewProfileStep>,
    i: int,
    j: int,
    mode: Option<PumpMode>,
)
    requires
        0 <= i <= j < steps.len(),
    ensures
        last_mode(steps, i, j, mode) == if skipped(steps[j]) {
            last_mode(steps, i, j - 1, mode)
        } else {
            Some(crate::operations::mode_of(steps[j]))
        },
    decreases j - i,
{
    reveal_with_fuel(last_mode, 2);
    if i < j {
        let next = if skipped(steps[i]) {
            mode
        } else {
            Some(crate::operations::mode_of(steps[i]))
        };
        lemma_last_mode_grows(steps, i + 1, j, next);
    }
}

proof fn lemma_released_last(op: OperationModel, mode: Option<PumpMode>)
    ensures
        told_last(disengaged(op), mode) == if op is Steam {
            mode
        } else {
            Some(PumpMode::Idle)
        },
{
    reveal_with_fuel(told_last, 4);
    let d = disengaged(op);
    if op is Profile {
        assert(d.drop_last().last() == Effect::Pump(PumpMode::Idle));
    } else if op is DirectPump {
        assert(d.drop_last().last() == Effect::Pump(PumpMode::Idle));
    }
}

/// What the outputs are told, in order, ends with what the control loop is
/// signalled: the two never disagree about the pump.
pub proof fn law_pump_is_told_what_is_signalled(
    op: OperationModel,
    run: RunModel,
    machine: MachineSettings,
    senses: Senses,
    signals: Signals,
)
    requires
        run.wf(),
    ensures
        told_last(begun_effects(op, machine, senses), signals.pump_mode) == begun(
            op,
            machine,
            senses,
            signals,
        ).1.pump_mode,
        told_last(run.polled_effects(senses), signals.pump_mode) == run.polled(
            senses,
            signals,
        ).1.pump_mode,
        told_last(disengaged(op), signals.pump_mode) == released(op, signals).pump_mode,
{
    lemma_released_last(op, signals.pump_mode);
    lemma_released_last(run.operation(), signals.pump_mode);
    if let RunModel::Profile { profile, index, wait } = run {
        lemma_profile_told(profile, index + 1, senses, signals.pump_mode);
    }
    let first = crate::operations::engaged(op);
    reveal_with_fuel(told_last, 4);
    if let OperationModel::Profile(p) = op {
        assert(first.drop_last().last() == Effect::Pump(PumpMode::Idle));
        lemma_told_last_joins(first, profile_effects(p, 0, senses), signals.pump_mode);
        lemma_profile_told(p, 0, senses, Some(PumpMode::Idle));
    } else if op is CooldownFlush {
        let flush = Some(PumpMode::DirectPump(Single::whole(30)));
        assert(told_last(first, signals.pump_mode) == flush);
        lemma_told_last_joins(first, disengaged(op), signals.pump_mode);
        lemma_released_last(op, flush);
    } else if op is DirectPump {
        assert(first.last() == Effect::Pump(PumpMode::DirectPump(op->DirectPump_0)));
    }
}

proof fn lemma_profile_told(
    profile: ProfileModel,
    from: int,
    senses: Senses,
    mode: Option<PumpMode>,
)
    requires
        0 <= from <= profile.steps.len(),
    ensures
        ({
            let j = settled(profile.steps, from, senses.volume_ml);
            told_last(profile_effects(profile, from, senses), mode) == if j < profile.steps.len() {
                last_mode(profile.steps, from, j, mode)
            } else {
                Some(PumpMode::Idle)
            }
        }),
{
    let j = settled(profile.steps, from, senses.volume_ml);
    lemma_first_waited_in(profile.steps, from, senses.volume_ml);
    let op = OperationModel::Profile(profile);
    if j < profile.steps.len() {
        lemma_modes_told(profile.steps, from, j, mode);
    } else {
        let modes = modes_begun(profile.steps, from, j);
        lemma_told_last_joins(modes, disengaged(op), mode);
        lemma_released_last(op, told_last(modes, mode));
    }
}

} // verus!
