//! What a client's command comes down to, from the fields it is sent with to
//! what the machine holds and does afterwards.

use crate::control::{PumpMode, Signals};
use crate::coordinator::{CoordinatorModel, MachineModel};
use crate::operations::{begun, OperationModel, RunModel, Senses};
use crate::profiles::{BrewProfileStep, ProfileModel};
use crate::settings::{writes_of, SettingsModel, StoredModel};
use crate::single::Single;
use crate::state::{CommandModel, MachineState};
use crate::uart::{commands_for, UartModel};
use crate::web_api::{command_for, ApiModel, HttpError};
use vstd::prelude::*;

verus! {

/// The names of commands are all different.
proof fn lemma_names()
    ensures
        "power"@.len() == 5,
        "power"@[0] == 'p',
        "brew"@.len() == 4,
        "brew"@[0] == 'b',
        "stop"@.len() == 4,
        "stop"@[0] == 's',
        "steam"@.len() == 5,
        "steam"@[0] == 's',
        "flush"@.len() == 5,
        "flush"@[0] == 'f',
        "direct_pump"@.len() == 11,
        "set_session_temp"@.len() == 16,
        "save_machine"@.len() == 12,
        "save_machine"@[5] == 'm',
        "save_pids"@.len() == 9,
        "save_pids"@[5] == 'p',
        "save_wifi"@.len() == 9,
        "save_wifi"@[5] == 'w',
        "profile"@.len() == 7,
        "profile"@[0] == 'p',
        "descale"@.len() == 7,
        "descale"@[0] == 'd',
        "run_slot"@.len() == 8,
        "save_profile"@.len() == 12,
        "save_profile"@[5] == 'p',
        "delete_profile"@.len() == 14,
        "save_settings"@.len() == 13,
{
    reveal_strlit("power");
    reveal_strlit("brew");
    reveal_strlit("stop");
    reveal_strlit("steam");
    reveal_strlit("flush");
    reveal_strlit("direct_pump");
    reveal_strlit("set_session_temp");
    reveal_strlit("save_machine");
    reveal_strlit("save_pids");
    reveal_strlit("save_wifi");
    reveal_strlit("profile");
    reveal_strlit("descale");
    reveal_strlit("run_slot");
    reveal_strlit("save_profile");
    reveal_strlit("delete_profile");
    reveal_strlit("save_settings");
}

// ==========================================
// SAVES
// ==========================================

/// A request to save settings, with the fields it needs.
pub open spec fn saves_settings(request: ApiModel) -> bool {
    ||| request.cmd == "save_machine"@ && request.machine is Some
    ||| request.cmd == "save_pids"@ && request.temp_pid is Some && request.press_pid is Some
    ||| request.cmd == "save_wifi"@ && request.wifi is Some
}

/// The settings after a save: what the request was sent with, and the rest as
/// before.
pub open spec fn carries(request: ApiModel, before: SettingsModel, after: SettingsModel) -> bool {
    &&& request.cmd == "save_pids"@ ==> {
        &&& Some(after.temp_pid) == request.temp_pid
        &&& Some(after.press_pid) == request.press_pid
        &&& request.flow_pid is Some ==> Some(after.flow_pid) == request.flow_pid
        &&& request.flow_pid is None ==> after.flow_pid == before.flow_pid
        &&& after.machine == before.machine
        &&& after.wifi == before.wifi
    }
    &&& request.cmd == "save_machine"@ ==> {
        &&& Some(after.machine) == request.machine
        &&& after.temp_pid == before.temp_pid
        &&& after.press_pid == before.press_pid
        &&& after.flow_pid == before.flow_pid
        &&& after.wifi == before.wifi
    }
    &&& request.cmd == "save_wifi"@ ==> {
        &&& Some(after.wifi) == request.wifi
        &&& after.machine == before.machine
        &&& after.temp_pid == before.temp_pid
        &&& after.press_pid == before.press_pid
        &&& after.flow_pid == before.flow_pid
    }
}

/// What the control loop reads is what the settings say.
pub open spec fn control_loop_sees(machine: MachineModel, settings: SettingsModel) -> bool {
    machine.published matches Some(seen) && seen.machine == settings.machine && seen.temp_pid
        == settings.temp_pid && seen.press_pid == settings.press_pid && seen.flow_pid
        == settings.flow_pid
}

/// The command of a save, with the fields it was sent with.
proof fn lemma_commands_of_saves(request: ApiModel, profiles: Seq<Option<ProfileModel>>) -> (cmd:
    CommandModel)
    requires
        saves_settings(request),
    ensures
        command_for(request, profiles) == Ok::<CommandModel, HttpError>(cmd),
        match cmd {
            CommandModel::SaveMachine(m) => request.machine == Some(m),
            CommandModel::SavePids(t, p, f) => request.temp_pid == Some(t) && request.press_pid
                == Some(p) && request.flow_pid == f,
            CommandModel::SaveWifi(w) => request.wifi == Some(w),
            _ => false,
        },
        cmd is SaveMachine <==> request.cmd == "save_machine"@,
        cmd is SavePids <==> request.cmd == "save_pids"@,
        cmd is SaveWifi <==> request.cmd == "save_wifi"@,
{
    lemma_names();
    command_for(request, profiles)->Ok_0
}

/// Settings saved on a machine that does nothing are read back as they were
/// sent: at once, by the control loop, and after a restart that follows the
/// flash write. Nothing else changes.
pub proof fn law_saved_settings_are_read_back(
    request: ApiModel,
    c: CoordinatorModel,
    temp_c: Single,
    now: u64,
    stored: StoredModel,
    cache: Seq<Option<ProfileModel>>,
)
    requires
        c.wf(),
        !c.machine.state.busy(),
        saves_settings(request),
    ensures
        command_for(request, c.machine.profiles) matches Ok(cmd) && {
            let after = c.commanded(cmd, temp_c, now);
            &&& carries(request, c.machine.settings, after.machine.settings)
            &&& control_loop_sees(after.machine, after.machine.settings)
            &&& after.machine.state == c.machine.state
            &&& after.machine.signals == c.machine.signals
            &&& after.machine.session_temp == c.machine.session_temp
            &&& after.machine.profiles == c.machine.profiles
            &&& after.machine.flow == c.machine.flow
            &&& after.running == c.running
            &&& after.machine.flash matches Some(update) && carries(
                request,
                stored.over_defaults(),
                stored.written_all(writes_of(update, cache)).over_defaults(),
            )
        },
{
    let cmd = lemma_commands_of_saves(request, c.machine.profiles);
    crate::coordinator::lemma_commanded_parts(c, cmd, temp_c, now);
    let update = c.commanded(cmd, temp_c, now).machine.flash->0;
    crate::settings::law_saved_settings_survive_a_restart(stored, update, cache);
}

/// Settings sent while an operation runs are held back, and read back as they
/// were sent as soon as the operation has ended by itself.
pub proof fn law_settings_saved_while_busy_are_read_back(
    request: ApiModel,
    c: CoordinatorModel,
    d: CoordinatorModel,
    temp_c: Single,
    now: u64,
)
    requires
        c.wf(),
        d.wf(),
        c.machine.state.busy(),
        saves_settings(request),
    ensures
        command_for(request, c.machine.profiles) matches Ok(cmd) && {
            let held = c.commanded(cmd, temp_c, now);
            let after = d.polled(temp_c, now);
            &&& held.machine == c.machine
            &&& held.running == c.running
            &&& held.pending == Some(cmd)
            &&& d.pending == Some(cmd) && after.running is None ==> {
                &&& carries(request, d.machine.settings, after.machine.settings)
                &&& control_loop_sees(after.machine, after.machine.settings)
                &&& after.pending is None
            }
            &&& d.pending == Some(cmd) && after.running is Some ==> after.pending == Some(cmd)
                && after.machine.settings == d.machine.settings
        },
{
    let cmd = lemma_commands_of_saves(request, c.machine.profiles);
    crate::coordinator::lemma_commanded_parts(c, cmd, temp_c, now);
    reveal(CoordinatorModel::caught_up);
}

/// A profile saved in one of the ten slots is what the slot holds then, one
/// deleted is not there any more, and no other slot changes. A slot that does
/// not exist takes nothing.
pub proof fn law_saved_profile_is_what_the_slot_holds(
    request: ApiModel,
    c: CoordinatorModel,
    temp_c: Single,
    now: u64,
    slot: u8,
)
    requires
        c.wf(),
        !c.machine.state.busy(),
        c.machine.profiles.len() == 10,
        request.slot == Some(slot),
        request.cmd == "save_profile"@ && request.profile is Some || request.cmd
            == "delete_profile"@,
    ensures
        command_for(request, c.machine.profiles) matches Ok(cmd) && {
            let after = c.commanded(cmd, temp_c, now).machine;
            &&& after.profiles.len() == 10
            &&& slot < 10 && request.cmd == "save_profile"@ ==> after.profiles[slot as int]
                == request.profile
            &&& slot < 10 && request.cmd == "delete_profile"@ ==> after.profiles[slot as int]
                is None
            &&& forall|i: int|
                0 <= i < 10 && i != slot ==> #[trigger] after.profiles[i] == c.machine.profiles[i]
            &&& after.settings == c.machine.settings
            &&& after.state == c.machine.state
            &&& after.signals == c.machine.signals
        },
{
    let cmd = if request.cmd == "save_profile"@ {
        CommandModel::SaveProfile(slot, request.profile->0)
    } else {
        CommandModel::DeleteProfile(slot)
    };
    lemma_names();
    crate::coordinator::lemma_commanded_parts(c, cmd, temp_c, now);
}

/// A new session temperature is kept in every state. It becomes the setpoint,
/// with the offset added, where the machine wants brew temperature; steaming,
/// cooling and asleep the setpoint stays.
pub proof fn law_session_temperature_is_taken_over(
    request: ApiModel,
    c: CoordinatorModel,
    temp_c: Single,
    now: u64,
)
    requires
        c.wf(),
        request.cmd == "set_session_temp"@,
        request.temp is Some,
    ensures
        command_for(request, c.machine.profiles) matches Ok(cmd) && {
            let after = c.commanded(cmd, temp_c, now);
            let kept = c.machine.signals.target_temp;
            let raised = Some((request.temp->0).plus(c.machine.settings.machine.temp_offset));
            &&& Some(after.machine.session_temp) == request.temp
            &&& after.machine.state == c.machine.state
            &&& after.machine.settings == c.machine.settings
            &&& after.running == c.running
            &&& after.machine.signals.pump_mode == c.machine.signals.pump_mode
            &&& after.machine.signals.brew_active == c.machine.signals.brew_active
            &&& after.machine.signals.target_temp == match c.machine.state {
                MachineState::Idle => raised,
                MachineState::Brewing => raised,
                MachineState::Pumping => raised,
                MachineState::HotWater => raised,
                MachineState::Steaming => kept,
                MachineState::Cooling => kept,
                MachineState::Sleeping => kept,
            }
        },
{
    let cmd = CommandModel::SetSessionTemp(request.temp->0);
    lemma_names();
    crate::coordinator::lemma_commanded_parts(c, cmd, temp_c, now);
}

// ==========================================
// STATES AND OPERATIONS
// ==========================================

/// The boiler setpoint of an idle machine, and of one that brews or pumps: the
/// session temperature plus the offset of the group head.
pub open spec fn brew_setpoint(m: MachineModel) -> Single {
    m.session_temp.plus(m.settings.machine.temp_offset)
}

/// The profile of a bare brew command: that of the first slot, or 9 bar until
/// 36 ml or 30 s.
pub open spec fn is_default_profile(m: MachineModel, p: ProfileModel) -> bool {
    match m.profiles[0] {
        Some(saved) => p == saved,
        None => {
            &&& p.name == "Standard"@
            &&& p.steps.len() == 1
            &&& p.steps[0] == (BrewProfileStep {
                time_s: Some(Single::whole(30)),
                volume: Some(Single::whole(36)),
                pressure: Some(Single::whole(9)),
                flow: Some(Single::whole(0)),
            })
        },
    }
}

/// The operation, and the state that goes with it, that a request starts on an
/// idle machine.
pub open spec fn asks_for(
    request: ApiModel,
    m: MachineModel,
    op: OperationModel,
    state: MachineState,
) -> bool {
    ||| {
        &&& request.cmd == "brew"@
        &&& op matches OperationModel::Profile(p) && is_default_profile(m, p)
        &&& state == MachineState::Brewing
    }
    ||| {
        &&& request.cmd == "profile"@
        &&& op matches OperationModel::Profile(p) && request.profile == Some(p)
        &&& state == MachineState::Brewing
    }
    ||| {
        &&& request.cmd == "run_slot"@
        &&& request.slot matches Some(slot) && slot < 10 && (op matches OperationModel::Profile(p)
            && m.profiles[slot as int] == Some(p))
        &&& state == MachineState::Brewing
    }
    ||| {
        &&& request.cmd == "steam"@
        &&& op is Steam
        &&& state == MachineState::Steaming
    }
    ||| {
        &&& request.cmd == "flush"@
        &&& op == OperationModel::DirectPump(Single::whole(30))
        &&& state == MachineState::Pumping
    }
    ||| {
        &&& request.cmd == "direct_pump"@
        &&& op matches OperationModel::DirectPump(power) && request.power == Some(power)
        &&& state == MachineState::Pumping
    }
}

/// An operation just begun, from what it is given: the shot's volume at 0, the
/// setpoint of its state signalled before it says anything. It holds the valve
/// open where it needs it. One that is over at once leaves an idle machine.
pub open spec fn begins(
    before: MachineModel,
    signals: Signals,
    op: OperationModel,
    state: MachineState,
    setpoint: Single,
    temp_c: Single,
    now: u64,
    after: CoordinatorModel,
) -> bool {
    let (left, told) = begun(
        op,
        before.settings.machine,
        Senses { volume_ml: Single::whole(0), temp_c, now },
        Signals { target_temp: Some(setpoint), ..signals },
    );
    &&& after.machine.flow.volume_ml == Single::whole(0)
    &&& after.machine.flow.reset
    &&& after.last_activity == now
    &&& left is Some ==> {
        &&& after.running == left
        &&& after.machine.state == state
        &&& after.machine.signals == told
        &&& after.machine.signals.target_temp == Some(setpoint)
        &&& after.valve_open == (op is Profile || op is DirectPump)
    }
    &&& left is None ==> {
        &&& after.running is None
        &&& after.machine.state == MachineState::Idle
        &&& after.machine.signals.target_temp == Some(brew_setpoint(before))
        &&& after.machine.signals.pump_mode == Some(PumpMode::Idle)
        &&& !after.valve_open
    }
}

proof fn lemma_begins(
    c: CoordinatorModel,
    cmd: CommandModel,
    op: OperationModel,
    state: MachineState,
    signals: Signals,
    temp_c: Single,
    now: u64,
)
    requires
        c.wf(),
        c.machine.state == MachineState::Idle || c.machine.state == MachineState::Steaming,
        cmd.ambient() == crate::state::Ambient::No,
        ({
            let (m, outcome) = c.machine.handled(c.machine.state, cmd);
            &&& outcome == crate::coordinator::OutcomeModel::Start(op)
            &&& m == MachineModel { signals, ..c.machine }.started(state)
        }),
        state.busy(),
    ensures
        begins(
            c.machine,
            signals,
            op,
            state,
            c.machine.setpoint(state),
            temp_c,
            now,
            c.commanded(cmd, temp_c, now),
        ),
{
    reveal(CoordinatorModel::beginning);
    reveal(CoordinatorModel::caught_up);
    let m = MachineModel { signals, ..c.machine }.started(state);
    let d = CoordinatorModel { machine: m, running: None, valve_open: false, last_activity: now, ..c };
    let run = RunModel::Steam { until: 0 };
    let senses = d.senses(temp_c, now);
    let machine = c.machine.settings.machine;
    crate::operations::law_only_profiles_brew(op, run, machine, senses, m.signals);
    if let Some(r) = c.running {
        assert(r.operation() is Steam);
    }
    assert(c.commanded(cmd, temp_c, now) == d.begun(op, temp_c, now));
    if let Some(save) = c.pending {
        let s = d.beginning(op, temp_c, now).1;
        let stopped = MachineModel { signals: s, ..m }.stopped();
        assert(stopped.ambient_applied(save).signals == stopped.signals);
    }
}

/// An idle machine runs what a request asks for, with what it was sent with.
pub proof fn law_request_starts_its_operation(
    request: ApiModel,
    c: CoordinatorModel,
    op: OperationModel,
    state: MachineState,
    temp_c: Single,
    now: u64,
)
    requires
        c.wf(),
        c.machine.state == MachineState::Idle,
        asks_for(request, c.machine, op, state),
    ensures
        command_for(request, c.machine.profiles) matches Ok(cmd) && begins(
            c.machine,
            if op is Steam {
                Signals { pump_mode: Some(PumpMode::Idle), ..c.machine.signals }
            } else {
                c.machine.signals
            },
            op,
            state,
            if op is Steam {
                c.machine.settings.machine.steam_temp
            } else {
                brew_setpoint(c.machine)
            },
            temp_c,
            now,
            c.commanded(cmd, temp_c, now),
        ),
{
    lemma_names();
    let cmd = command_for(request, c.machine.profiles)->Ok_0;
    let idle = Signals { pump_mode: Some(PumpMode::Idle), ..c.machine.signals };
    if request.cmd == "brew"@ {
        let p = op->Profile_0;
        assert(p =~= crate::profiles::default_profile(c.machine.profiles)) by {
            assert(p.steps =~= crate::profiles::default_profile(c.machine.profiles).steps);
        }
    }
    let signals = if op is Steam {
        idle
    } else {
        c.machine.signals
    };
    lemma_begins(c, cmd, op, state, signals, temp_c, now);
}

/// While it steams, a brew request turns the machine to hot water and a flush
/// request to a cooldown, the heater off; each with what those operations are.
pub proof fn law_steaming_machine_goes_on(
    request: ApiModel,
    c: CoordinatorModel,
    temp_c: Single,
    now: u64,
)
    requires
        c.wf(),
        c.machine.state == MachineState::Steaming,
        request.cmd == "brew"@ || request.cmd == "flush"@,
    ensures
        command_for(request, c.machine.profiles) matches Ok(cmd) && {
            let after = c.commanded(cmd, temp_c, now);
            let idle = Signals { pump_mode: Some(PumpMode::Idle), ..c.machine.signals };
            if request.cmd == "brew"@ {
                begins(
                    c.machine,
                    c.machine.signals,
                    OperationModel::HotWater,
                    MachineState::HotWater,
                    brew_setpoint(c.machine),
                    temp_c,
                    now,
                    after,
                )
            } else {
                begins(
                    c.machine,
                    idle,
                    OperationModel::CooldownFlush,
                    MachineState::Cooling,
                    Single::whole(0),
                    temp_c,
                    now,
                    after,
                )
            }
        },
{
    lemma_names();
    let cmd = command_for(request, c.machine.profiles)->Ok_0;
    let idle = Signals { pump_mode: Some(PumpMode::Idle), ..c.machine.signals };
    if request.cmd == "brew"@ {
        lemma_begins(
            c,
            cmd,
            OperationModel::HotWater,
            MachineState::HotWater,
            c.machine.signals,
            temp_c,
            now,
        );
    } else {
        lemma_begins(
            c,
            cmd,
            OperationModel::CooldownFlush,
            MachineState::Cooling,
            idle,
            temp_c,
            now,
        );
    }
}

/// A request that is neither a save nor a session temperature.
pub open spec fn concerns_operation(request: ApiModel) -> bool {
    ||| request.cmd == "power"@
    ||| request.cmd == "brew"@
    ||| request.cmd == "stop"@
    ||| request.cmd == "steam"@
    ||| request.cmd == "flush"@
    ||| request.cmd == "direct_pump"@ && request.power is Some
    ||| request.cmd == "profile"@ && request.profile is Some
}

proof fn lemma_commands_of_operations(
    request: ApiModel,
    profiles: Seq<Option<ProfileModel>>,
) -> (cmd: CommandModel)
    requires
        concerns_operation(request),
    ensures
        command_for(request, profiles) == Ok::<CommandModel, HttpError>(cmd),
        cmd.ambient() == crate::state::Ambient::No,
        cmd is Brew <==> request.cmd == "brew"@,
        cmd is Flush <==> request.cmd == "flush"@,
{
    lemma_names();
    command_for(request, profiles)->Ok_0
}

/// Any such request stops a busy machine, but for the two that steaming goes on
/// with: the machine is idle, nothing runs, the pump is idle, the valve closed
/// and the setpoint that of an idle machine. One that sleeps it wakes, to the
/// same, starting nothing.
pub proof fn law_request_stops_or_wakes(
    request: ApiModel,
    c: CoordinatorModel,
    temp_c: Single,
    now: u64,
)
    requires
        c.wf(),
        concerns_operation(request),
        c.machine.state == MachineState::Sleeping || (c.machine.state.busy() && !(c.machine.state
            == MachineState::Steaming && (request.cmd == "brew"@ || request.cmd == "flush"@))),
    ensures
        command_for(request, c.machine.profiles) matches Ok(cmd) && {
            let after = c.commanded(cmd, temp_c, now);
            &&& after.machine.state == MachineState::Idle
            &&& after.running is None
            &&& !after.valve_open
            &&& after.machine.signals.target_temp == Some(brew_setpoint(c.machine))
            &&& after.last_activity == now
            &&& after.machine.flow == c.machine.flow
            &&& c.machine.state.busy() ==> after.machine.signals.pump_mode == Some(PumpMode::Idle)
            &&& c.machine.state == MachineState::Brewing ==> after.machine.signals.brew_active
                == Some(false)
        },
{
    let cmd = lemma_commands_of_operations(request, c.machine.profiles);
    crate::coordinator::lemma_commanded_parts(c, cmd, temp_c, now);
}

/// The power button sends an idle machine to sleep, with the heater off; a stop
/// leaves it idle, with the pump idle and the setpoint of an idle machine.
pub proof fn law_idle_machine_sleeps_or_stays(
    request: ApiModel,
    c: CoordinatorModel,
    temp_c: Single,
    now: u64,
)
    requires
        c.wf(),
        c.machine.state == MachineState::Idle,
        request.cmd == "power"@ || request.cmd == "stop"@,
    ensures
        command_for(request, c.machine.profiles) matches Ok(cmd) && {
            let after = c.commanded(cmd, temp_c, now);
            &&& after.running is None
            &&& !after.valve_open
            &&& request.cmd == "power"@ ==> after.machine.state == MachineState::Sleeping
                && after.machine.signals.target_temp == Some(Single::whole(0))
            &&& request.cmd == "stop"@ ==> after.machine.state == MachineState::Idle
                && after.machine.signals.target_temp == Some(brew_setpoint(c.machine))
                && after.machine.signals.pump_mode == Some(PumpMode::Idle)
        },
{
    let cmd = if request.cmd == "power"@ {
        CommandModel::TogglePower
    } else {
        CommandModel::Stop
    };
    lemma_names();
    crate::coordinator::lemma_commanded_parts(c, cmd, temp_c, now);
}

/// A request without a field it needs is a bad one, as is one by another name;
/// a slot that holds nothing, or does not exist, is not found. Every other
/// request stands for a command.
pub proof fn law_requests_are_refused(request: ApiModel, profiles: Seq<Option<ProfileModel>>)
    ensures
        ({
            let r = request;
            let bad = {
                ||| r.cmd == "direct_pump"@ && r.power is None
                ||| r.cmd == "set_session_temp"@ && r.temp is None
                ||| r.cmd == "save_machine"@ && r.machine is None
                ||| r.cmd == "save_pids"@ && (r.temp_pid is None || r.press_pid is None)
                ||| r.cmd == "save_wifi"@ && r.wifi is None
                ||| r.cmd == "profile"@ && r.profile is None
                ||| r.cmd == "run_slot"@ && r.slot is None
                ||| r.cmd == "save_profile"@ && (r.slot is None || r.profile is None)
                ||| r.cmd == "delete_profile"@ && r.slot is None
                ||| r.cmd != "power"@ && r.cmd != "brew"@ && r.cmd != "stop"@ && r.cmd != "steam"@
                    && r.cmd != "flush"@ && r.cmd != "direct_pump"@ && r.cmd
                    != "set_session_temp"@ && r.cmd != "save_machine"@ && r.cmd != "save_pids"@
                    && r.cmd != "save_wifi"@ && r.cmd != "profile"@ && r.cmd != "run_slot"@
                    && r.cmd != "save_profile"@ && r.cmd != "delete_profile"@
            };
            let missing = r.cmd == "run_slot"@ && r.slot is Some && (r.slot->0 >= 10
                || profiles[r.slot->0 as int] is None);
            &&& bad <==> command_for(request, profiles) == Err::<CommandModel, HttpError>(
                HttpError::BadRequest,
            )
            &&& missing <==> command_for(request, profiles) == Err::<CommandModel, HttpError>(
                HttpError::NotFound,
            )
            &&& !bad && !missing <==> command_for(request, profiles) is Ok
        }),
{
    lemma_names();
}

/// A machine starts idle, at the brew temperature of its settings plus the
/// offset, with the valve closed.
pub proof fn law_machine_starts_idle(machine: MachineModel, now: u64)
    requires
        machine.in_step(),
    ensures
        ({
            let c = CoordinatorModel::booted(machine, now);
            let s = machine.settings.machine;
            &&& c.machine.state == MachineState::Idle
            &&& c.machine.session_temp == s.brew_temp
            &&& c.machine.signals.target_temp == Some(s.brew_temp.plus(s.temp_offset))
            &&& c.machine.settings == machine.settings
            &&& c.machine.profiles == machine.profiles
            &&& c.running is None
            &&& !c.valve_open
            &&& c.last_activity == now
        }),
{
}

/// An operation that is over by itself leaves the machine idle, with the pump
/// idle, the valve closed and the setpoint of an idle machine; the time it is
/// left alone counts from then. One that goes on changes neither state nor
/// setpoint.
pub proof fn law_operation_over_leaves_an_idle_machine(
    c: CoordinatorModel,
    run: RunModel,
    temp_c: Single,
    now: u64,
)
    requires
        c.wf(),
        c.running == Some(run),
    ensures
        ({
            let (left, told) = run.polled(
                Senses { volume_ml: c.machine.flow.volume_ml, temp_c, now },
                c.machine.signals,
            );
            let after = c.polled(temp_c, now);
            &&& after.running == left
            &&& left is None ==> {
                &&& after.machine.state == MachineState::Idle
                &&& !after.valve_open
                &&& after.machine.signals.target_temp == Some(brew_setpoint(c.machine))
                &&& after.machine.signals.pump_mode == Some(PumpMode::Idle)
                &&& after.machine.signals.brew_active == told.brew_active
                &&& after.last_activity == now
            }
            &&& left is Some ==> {
                &&& after.machine.state == c.machine.state
                &&& after.machine.signals == told
                &&& after.machine.signals.target_temp == c.machine.signals.target_temp
                &&& after.valve_open == c.valve_open
                &&& after.last_activity == c.last_activity
            }
        }),
{
    reveal(CoordinatorModel::going_on);
    reveal(CoordinatorModel::caught_up);
    let senses = c.senses(temp_c, now);
    crate::operations::law_only_profiles_brew(
        run.operation(),
        run,
        c.machine.settings.machine,
        senses,
        c.machine.signals,
    );
}

/// An idle machine goes to sleep exactly when it has been left alone for the
/// minutes its settings say, with the heater off; any other stays as it is.
pub proof fn law_sleeps_after_its_minutes(c: CoordinatorModel, minutes: int, now: u64)
    requires
        c.wf(),
        0 <= minutes <= 279_620,
        c.machine.settings.machine.sleep_timeout_min == Single::whole(minutes),
        c.last_activity <= now,
    ensures
        ({
            let after = c.housekept(now);
            if c.machine.state == MachineState::Idle && now - c.last_activity >= minutes
                * 60_000_000 {
                &&& after.machine.state == MachineState::Sleeping
                &&& after.machine.signals.target_temp == Some(Single::whole(0))
                &&& after.running is None
                &&& after.last_activity == c.last_activity
            } else {
                after == c
            }
        }),
{
    Single::law_small_whole_arithmetic_is_exact(minutes, 60);
    Single::lemma_whole_part_of_whole(minutes * 60, u64::MAX as int);
    Single::lemma_whole_exact(minutes);
    Single::lemma_whole_exact(0);
    let zero = Single::whole(0);
    if minutes > 0 {
        Single::lemma_whole_ordered(0, minutes);
    }
    assert(Single::whole(minutes).larger(zero) == Single::whole(minutes));
}

// ==========================================
// THE SERIAL LINK
// ==========================================

/// A command over the serial link is what the same command is over the network,
/// raw pumping with a stop ahead of it.
pub proof fn law_serial_commands_are_the_network_ones(
    line: UartModel,
    request: ApiModel,
    profiles: Seq<Option<ProfileModel>>,
)
    requires
        line.cmd == request.cmd,
        line.profile == request.profile,
        line.power == request.power,
        line.cmd == "stop"@ || line.cmd == "brew"@ || line.cmd == "steam"@ || line.cmd == "flush"@
            || line.cmd == "profile"@ || line.cmd == "direct_pump"@,
    ensures
        ({
            let told = commands_for(line);
            match command_for(request, profiles) {
                Ok(cmd) => if line.cmd == "direct_pump"@ {
                    told.len() == 2 && told[0] is Stop && told[1] == cmd
                } else {
                    told.len() == 1 && told[0] == cmd
                },
                Err(_) => if line.cmd == "direct_pump"@ {
                    told.len() == 1 && told[0] is Stop
                } else {
                    told.len() == 0
                },
            }
        }),
{
    lemma_names();
}

/// Settings saved over the serial link, on a machine that does nothing, are
/// those of the line, for the control loop too and after a restart.
pub proof fn law_serial_settings_are_read_back(
    line: UartModel,
    c: CoordinatorModel,
    temp_c: Single,
    now: u64,
    stored: StoredModel,
    cache: Seq<Option<ProfileModel>>,
)
    requires
        c.wf(),
        !c.machine.state.busy(),
        line.cmd == "save_settings"@,
        line.settings is Some,
    ensures
        ({
            let told = commands_for(line);
            let after = c.commanded(told[0], temp_c, now);
            &&& told.len() == 1
            &&& Some(after.machine.settings) == line.settings
            &&& control_loop_sees(after.machine, after.machine.settings)
            &&& after.machine.flash matches Some(update) && Some(
                stored.written_all(writes_of(update, cache)).over_defaults(),
            ) == line.settings
        }),
{
    lemma_names();
    let told = commands_for(line);
    let update = c.commanded(told[0], temp_c, now).machine.flash->0;
    crate::settings::law_saved_settings_survive_a_restart(stored, update, cache);
}

/// Lines by another name, and without what they need, do nothing; a descale
/// leaves an idle machine as it is.
pub proof fn law_other_lines_do_nothing(
    line: UartModel,
    c: CoordinatorModel,
    temp_c: Single,
    now: u64,
)
    requires
        c.wf(),
    ensures
        line.cmd == "save_settings"@ && line.settings is None ==> commands_for(line).len() == 0,
        line.cmd != "stop"@ && line.cmd != "brew"@ && line.cmd != "steam"@ && line.cmd != "flush"@
            && line.cmd != "profile"@ && line.cmd != "direct_pump"@ && line.cmd != "save_settings"@
            && line.cmd != "descale"@ ==> commands_for(line).len() == 0,
        line.cmd == "descale"@ ==> {
            let told = commands_for(line);
            &&& told.len() == 1
            &&& c.machine.state == MachineState::Idle ==> c.commanded(told[0], temp_c, now).machine
                == c.machine
            &&& c.machine.state != MachineState::Idle ==> c.commanded(
                told[0],
                temp_c,
                now,
            ).machine.state == MachineState::Idle
        },
{
    lemma_names();
    crate::coordinator::lemma_commanded_parts(c, CommandModel::Descale, temp_c, now);
}

} // verus!
