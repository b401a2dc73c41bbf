//! Central state machine: the coordinator owns the machine's state and is the
//! only place that decides what a [`MachineCommand`] does.
//!
//! It also runs the operation it decided on, so an operation finishing and a
//! command arriving are steps of one machine: there is no "operation finished"
//! message and no abort signal, so neither can be applied to the wrong
//! operation.

use crate::control::{set_target_temp, Outputs, PumpMode, Signals, TargetTempMode};
use crate::flow_meter::{reset_volume, FlowCells};
use crate::operations::{execute, Operation, OperationModel, Run, RunModel, Senses, PUMP_POWER};
use crate::profiles::{
    delete_profile_from_ram, get_default_profile, save_profile_to_ram, BrewProfile, ProfileCache,
    ProfileModel,
};
use crate::settings::{
    ControlSettings, FlashUpdate, FlashUpdateModel, MachineSettings, Settings, SettingsModel,
    SettingsRam,
};
use crate::single::Single;
use crate::state::{
    get_session_brew_temp, get_state, set_session_brew_temp, set_state, Ambient, CommandModel,
    MachineCommand, MachineState,
};
use vstd::prelude::*;

verus! {

/// What the machine's tasks share.
pub struct Machine {
    /// Number of the machine's state.
    pub state: u8,
    /// Bits of the session brew temperature.
    pub session_temp: u32,
    pub ram: SettingsRam,
    pub profiles: ProfileCache,
    pub signals: Signals,
    pub flow: FlowCells,
    /// A change the flash task has not taken yet. A single slot: a newer one
    /// replaces it.
    pub flash: Option<FlashUpdate>,
}

/// What a [`Machine`] holds.
pub struct MachineModel {
    pub state: MachineState,
    pub session_temp: Single,
    pub settings: SettingsModel,
    pub published: Option<ControlSettings>,
    pub profiles: Seq<Option<ProfileModel>>,
    pub signals: Signals,
    pub flow: FlowCells,
    pub flash: Option<FlashUpdateModel>,
}

impl View for Machine {
    type V = MachineModel;

    open spec fn view(&self) -> MachineModel {
        MachineModel {
            state: MachineState::of_code(self.state),
            session_temp: Single { bits: self.session_temp },
            settings: self.ram.settings@,
            published: self.ram.published,
            profiles: self.profiles@,
            signals: self.signals,
            flow: self.flow,
            flash: match self.flash {
                Some(u) => Some(u@),
                None => None,
            },
        }
    }
}

impl Machine {
    /// A machine with default settings, before flash has been read.
    pub fn new() -> (r: Machine)
        ensures
            r.state == 0,
            r@.state == MachineState::Idle,
            r@.session_temp.bits == 0,
            r@.settings == SettingsModel::defaults(),
            r@.published is None,
            r@.in_step(),
            r@.profiles == Seq::new(10, |i: int| None::<ProfileModel>),
            r@.signals == Signals::none(),
            r@.flash is None,
            r@.flow == (FlowCells {
                volume_ml: Single::whole(0),
                rate_ml_s: Single::whole(0),
                reset: false,
            }),
    {
        Machine {
            state: 0,
            session_temp: 0,
            ram: SettingsRam::new(),
            profiles: ProfileCache::new(),
            signals: Signals::new(),
            flow: FlowCells::new(),
            flash: None,
        }
    }
}

// ==========================================
// POWER MANAGEMENT
// ==========================================

/// The heater setpoint a machine state implies. Cooling deliberately runs the
/// heater off — it is fighting the incoming cold water otherwise — and a
/// sleeping machine has no reason to heat at all.
pub open spec fn heating(state: MachineState) -> TargetTempMode {
    match state {
        MachineState::Steaming => TargetTempMode::Steam,
        MachineState::Cooling | MachineState::Sleeping => TargetTempMode::Off,
        _ => TargetTempMode::Brew,
    }
}

/// The heater setpoint implied by a machine state.
///
/// Making this a function rather than a parameter is what keeps the setpoint
/// and the state from ever disagreeing. It also means an operation can be
/// cancelled at any point without leaving a stale target behind: the setpoint
/// belongs to the state, and the state is always restored.
pub fn target_for(state: MachineState) -> (r: TargetTempMode)
    ensures
        r == heating(state),
{
    match state {
        MachineState::Steaming => TargetTempMode::Steam,
        MachineState::Cooling | MachineState::Sleeping => TargetTempMode::Off,
        MachineState::Idle
        | MachineState::Brewing
        | MachineState::Pumping
        | MachineState::HotWater => TargetTempMode::Brew,
    }
}

impl MachineModel {
    /// The control loop sees what the settings say.
    pub open spec fn in_step(self) -> bool {
        crate::settings::current_control(self.published) == self.settings.control()
    }

    /// The setpoint that goes with a state.
    pub open spec fn setpoint(self, state: MachineState) -> Single {
        heating(state).setpoint(
            crate::settings::current_control(self.published),
            self.session_temp,
        )
    }

    /// The machine with the setpoint of a state signalled.
    pub open spec fn heated_for(self, state: MachineState) -> MachineModel {
        MachineModel {
            signals: Signals { target_temp: Some(self.setpoint(state)), ..self.signals },
            ..self
        }
    }

    pub open spec fn entered(self, state: MachineState) -> MachineModel {
        MachineModel { state, ..self.heated_for(state) }
    }

    pub open spec fn pump_idle(self) -> MachineModel {
        MachineModel {
            signals: Signals { pump_mode: Some(PumpMode::Idle), ..self.signals },
            ..self
        }
    }

    pub open spec fn stopped(self) -> MachineModel {
        self.entered(MachineState::Idle).pump_idle()
    }

    /// A state entered to run an operation: the shot's volume starts at 0.
    pub open spec fn started(self, state: MachineState) -> MachineModel {
        MachineModel {
            flow: FlowCells { volume_ml: Single::whole(0), reset: true, ..self.flow },
            ..self
        }.entered(state)
    }

    pub open spec fn with_settings(self, settings: SettingsModel) -> MachineModel {
        MachineModel { settings, published: Some(settings.control()), ..self }
    }

    pub open spec fn with_flash(self, update: FlashUpdateModel) -> MachineModel {
        MachineModel { flash: Some(update), ..self }
    }

    /// What an ambient command does. A session temperature applies instantly,
    /// but only if the current state actually wants brew temperature.
    pub open spec fn ambient_applied(self, cmd: CommandModel) -> MachineModel {
        match cmd {
            CommandModel::SaveSettings(s) => self.with_settings(s).with_flash(
                FlashUpdateModel::SaveSettings(s),
            ),
            CommandModel::SaveMachine(m) => self.with_settings(
                SettingsModel { machine: m, ..self.settings },
            ).with_flash(FlashUpdateModel::SaveMachine(m)),
            CommandModel::SavePids(t, p, f) => self.with_settings(
                SettingsModel {
                    temp_pid: t,
                    press_pid: p,
                    flow_pid: match f {
                        Some(gains) => gains,
                        None => self.settings.flow_pid,
                    },
                    ..self.settings
                },
            ).with_flash(FlashUpdateModel::SavePids(t, p, f)),
            CommandModel::SaveWifi(w) => self.with_settings(
                SettingsModel { wifi: w, ..self.settings },
            ).with_flash(FlashUpdateModel::SaveWifi(w)),
            CommandModel::SaveProfile(slot, p) => MachineModel {
                profiles: crate::profiles::with_profile(self.profiles, slot, Some(p)),
                ..self
            }.with_flash(FlashUpdateModel::SaveProfile(slot)),
            CommandModel::DeleteProfile(slot) => MachineModel {
                profiles: crate::profiles::with_profile(self.profiles, slot, None),
                ..self
            }.with_flash(FlashUpdateModel::DeleteProfile(slot)),
            CommandModel::SetSessionTemp(t) => {
                let m = MachineModel { session_temp: t, ..self };
                if heating(self.state) == TargetTempMode::Brew {
                    m.heated_for(self.state)
                } else {
                    m
                }
            },
            _ => self,
        }
    }
}

/// The only way the machine changes state. Applies the setpoint the new state
/// implies, so no caller can pick one that contradicts it.
fn enter(m: &mut Machine, state: MachineState)
    ensures
        final(m)@ == old(m)@.entered(state),
{
    let _ = set_state(&mut m.state, state);
    set_target_temp(
        &mut m.signals,
        m.ram.published,
        get_session_brew_temp(m.session_temp),
        target_for(state),
    );
}

fn go_to_sleep(m: &mut Machine)
    ensures
        final(m)@ == old(m)@.entered(MachineState::Sleeping),
{
    enter(m, MachineState::Sleeping);
}

/// The configured sleep timeout, in microseconds.
pub open spec fn sleep_after(machine: MachineSettings) -> u64 {
    crate::operations::after_s(
        0,
        machine.sleep_timeout_min.larger(Single::whole(0)).times(Single::whole(60)).whole_part(
            u64::MAX as int,
        ),
    )
}

/// Reads the configured sleep timeout (minutes) from settings and converts it
/// to microseconds. Negative values are clamped to 0 (instant sleep).
pub fn sleep_timeout(machine: &MachineSettings) -> (r: u64)
    ensures
        r == sleep_after(*machine),
{
    let minutes: Single = machine.sleep_timeout_min;
    let seconds: u64 = minutes.max(Single::from_u32(0)).mul(Single::from_u32(60)).to_u64();
    match seconds.checked_mul(1_000_000) {
        Some(us) => us,
        None => u64::MAX,
    }
}

fn wake_up(m: &mut Machine)
    ensures
        final(m)@ == old(m)@.entered(MachineState::Idle),
{
    enter(m, MachineState::Idle);
}

// ==========================================
// TRANSITION HELPERS
// ==========================================

/// What a command means for the *running operation*, kept separate from what
/// it means for the machine's state.
///
/// Stated explicitly rather than inferred from the state change, so a
/// transition between two busy states cannot read as a cancellation: entering
/// a busy state has to hand back the operation that serves it.
pub enum Outcome {
    /// Leave the operation slot alone. Either the command was ambient, or the
    /// machine was idle and there was nothing to disturb.
    Continue,
    /// The table moved the machine out of its busy state: the running
    /// operation is over and must be dropped.
    Cancel,
    /// Run this, replacing anything already running.
    Start(Operation),
}

/// What an [`Outcome`] holds.
pub enum OutcomeModel {
    Continue,
    Cancel,
    Start(OperationModel),
}

impl View for Outcome {
    type V = OutcomeModel;

    open spec fn view(&self) -> OutcomeModel {
        match *self {
            Outcome::Continue => OutcomeModel::Continue,
            Outcome::Cancel => OutcomeModel::Cancel,
            Outcome::Start(op) => OutcomeModel::Start(op@),
        }
    }
}

/// Enters `new_state` and resets shot volume, then hands `op` back for the
/// caller to run. This is the shape of every "start an operation" arm.
fn start(m: &mut Machine, new_state: MachineState, op: Operation) -> (r: Outcome)
    ensures
        final(m)@ == old(m)@.started(new_state),
        r@ == OutcomeModel::Start(op@),
{
    reset_volume(&mut m.flow);
    enter(m, new_state);
    Outcome::Start(op)
}

/// Returns to Idle.
///
/// Note what this deliberately does *not* do: cancel the running operation.
/// The caller does that. Setting the pump idle here is therefore
/// belt-and-braces, not the mechanism. Volume is left alone on purpose, so the
/// shot total stays readable.
fn stop_to_idle(m: &mut Machine)
    ensures
        final(m)@ == old(m)@.stopped(),
{
    enter(m, MachineState::Idle);
    PumpMode::Idle.apply(&mut m.signals);
}

// ==========================================
// STATE MACHINE TRANSITION TABLE
// ==========================================

/// Applies an ambient command — see [`MachineCommand::ambient`], which is the
/// single definition of that set and the caller's gate.
pub fn apply_ambient(m: &mut Machine, cmd: &MachineCommand)
    ensures
        final(m)@ == old(m)@.ambient_applied(cmd@),
{
    match cmd {
        MachineCommand::SaveSettings(s) => {
            Settings::update_ram(&mut m.ram, s.clone());
            m.flash = Some(FlashUpdate::SaveSettings(s.clone()));
        },
        MachineCommand::SaveMachine(machine) => {
            let mut s: Settings = Settings::get(&m.ram);
            s.machine = *machine;
            Settings::update_ram(&mut m.ram, s);
            m.flash = Some(FlashUpdate::SaveMachine(*machine));
        },
        MachineCommand::SavePids(t, p, f) => {
            let mut s: Settings = Settings::get(&m.ram);
            s.temp_pid = *t;
            s.press_pid = *p;
            if let Some(gains) = f {
                s.flow_pid = *gains;
            }
            Settings::update_ram(&mut m.ram, s);
            m.flash = Some(FlashUpdate::SavePids(*t, *p, *f));
        },
        MachineCommand::SaveWifi(w) => {
            let mut s: Settings = Settings::get(&m.ram);
            s.wifi = w.clone();
            Settings::update_ram(&mut m.ram, s);
            m.flash = Some(FlashUpdate::SaveWifi(w.clone()));
        },
        MachineCommand::SaveProfile(slot, p) => {
            save_profile_to_ram(&mut m.profiles, *slot, p.clone());
            m.flash = Some(FlashUpdate::SaveProfile(*slot));
        },
        MachineCommand::DeleteProfile(slot) => {
            delete_profile_from_ram(&mut m.profiles, *slot);
            m.flash = Some(FlashUpdate::DeleteProfile(*slot));
        },
        MachineCommand::SetSessionTemp(t) => {
            set_session_brew_temp(&mut m.session_temp, *t);
            // Apply instantly, but only if the current state actually wants
            // brew temp — `Steaming` and `Cooling` have their own targets and
            // must not be overridden.
            let target: TargetTempMode = target_for(get_state(m.state));
            if target == TargetTempMode::Brew {
                set_target_temp(
                    &mut m.signals,
                    m.ram.published,
                    get_session_brew_temp(m.session_temp),
                    TargetTempMode::Brew,
                );
            }
        },
        _ => {},
    }
}

impl MachineModel {
    /// The transition table.
    pub open spec fn handled(self, state: MachineState, cmd: CommandModel) -> (
        MachineModel,
        OutcomeModel,
    ) {
        match (state, cmd) {
            // Idle: the only state an operation can start from.
            (MachineState::Idle, CommandModel::TogglePower) => (
                self.entered(MachineState::Sleeping),
                OutcomeModel::Continue,
            ),
            (MachineState::Idle, CommandModel::Brew) => (
                self.started(MachineState::Brewing),
                OutcomeModel::Start(
                    OperationModel::Profile(crate::profiles::default_profile(self.profiles)),
                ),
            ),
            (MachineState::Idle, CommandModel::RunProfile(p)) => (
                self.started(MachineState::Brewing),
                OutcomeModel::Start(OperationModel::Profile(p)),
            ),
            (MachineState::Idle, CommandModel::Steam) => (
                self.pump_idle().started(MachineState::Steaming),
                OutcomeModel::Start(OperationModel::Steam),
            ),
            (MachineState::Idle, CommandModel::Flush) => (
                self.started(MachineState::Pumping),
                OutcomeModel::Start(OperationModel::DirectPump(Single::whole(PUMP_POWER as int))),
            ),
            (MachineState::Idle, CommandModel::DirectPump(power)) => (
                self.started(MachineState::Pumping),
                OutcomeModel::Start(OperationModel::DirectPump(power)),
            ),
            (MachineState::Idle, CommandModel::Stop) => (self.stopped(), OutcomeModel::Continue),
            // Steaming: the one state that modifies rather than cancels.
            (MachineState::Steaming, CommandModel::Brew) => (
                self.started(MachineState::HotWater),
                OutcomeModel::Start(OperationModel::HotWater),
            ),
            (MachineState::Steaming, CommandModel::Flush) => (
                self.pump_idle().started(MachineState::Cooling),
                OutcomeModel::Start(OperationModel::CooldownFlush),
            ),
            // Any other command while busy stops the machine.
            _ => if state.busy() {
                (self.stopped(), OutcomeModel::Cancel)
            } else {
                (self, OutcomeModel::Continue)
            },
        }
    }
}

/// Decides what `cmd` means in `state`, applying the transition and returning
/// what should happen to the running operation. Acting on that is the caller's
/// job.
///
/// Ambient commands never arrive here — [`serve`] consumes them first.
pub fn handle_command(m: &mut Machine, state: MachineState, cmd: MachineCommand) -> (r: Outcome)
    ensures
        (final(m)@, r@) == old(m)@.handled(state, cmd@),
{
    match (state, cmd) {
        // --- Idle: the only state an operation can start from ---
        // Nothing is running here, so the arms that don't start anything are
        // `Continue` rather than `Cancel`.
        (MachineState::Idle, MachineCommand::TogglePower) => {
            go_to_sleep(m);
            Outcome::Continue
        },
        (MachineState::Idle, MachineCommand::Brew) => {
            let p: BrewProfile = get_default_profile(&m.profiles);
            start(m, MachineState::Brewing, Operation::Profile(p))
        },
        (MachineState::Idle, MachineCommand::RunProfile(p)) => {
            start(m, MachineState::Brewing, Operation::Profile(p))
        },
        (MachineState::Idle, MachineCommand::Steam) => {
            PumpMode::Idle.apply(&mut m.signals);
            start(m, MachineState::Steaming, Operation::Steam)
        },
        (MachineState::Idle, MachineCommand::Flush) => {
            start(
                m,
                MachineState::Pumping,
                Operation::DirectPump(Single::from_u32(PUMP_POWER)),
            )
        },
        (MachineState::Idle, MachineCommand::DirectPump(power)) => {
            start(m, MachineState::Pumping, Operation::DirectPump(power))
        },
        // Stop when already stopped: harmless resync, not a warning.
        (MachineState::Idle, MachineCommand::Stop) => {
            stop_to_idle(m);
            Outcome::Continue
        },
        // --- Steaming: the one state that modifies rather than cancels ---
        // The user has the wand open; Brew means "hot water out of the wand,
        // not steam", and Flush means "cool the boiler back down". Both get a
        // state of their own so the next button press stops them cleanly via
        // the busy arm below rather than cycling.
        (MachineState::Steaming, MachineCommand::Brew) => {
            start(m, MachineState::HotWater, Operation::HotWater)
        },
        (MachineState::Steaming, MachineCommand::Flush) => {
            PumpMode::Idle.apply(&mut m.signals);
            start(m, MachineState::Cooling, Operation::CooldownFlush)
        },
        // --- Any other command while busy stops the machine ---
        // Nothing is silently ignored: if the machine is doing something and
        // you ask for anything the two arms above don't cover, it stops.
        (s, _) => {
            if s.is_busy() {
                stop_to_idle(m);
                Outcome::Cancel
            } else {
                // Sleeping is intercepted by the auto-wake in `serve`, and
                // what Idle has no arm for above leaves it as it is.
                Outcome::Continue
            }
        },
    }
}

// ==========================================
// COORDINATOR
// ==========================================

/// What serving a command leaves.
pub struct Served {
    pub machine: MachineModel,
    pub pending: Option<CommandModel>,
    pub outcome: OutcomeModel,
}

impl MachineModel {
    /// Ambient commands are consumed first, whatever the state, but for a
    /// flash write during an operation, which is held back. Then every
    /// remaining command wakes a sleeping machine, and is dropped by it. Then
    /// the transition table decides.
    pub open spec fn served(self, cmd: CommandModel, pending: Option<CommandModel>) -> Served {
        if cmd.ambient() == Ambient::RamAndFlash && self.state.busy() {
            Served { machine: self, pending: Some(cmd), outcome: OutcomeModel::Continue }
        } else if cmd.ambient() != Ambient::No {
            Served {
                machine: self.ambient_applied(cmd),
                pending,
                outcome: OutcomeModel::Continue,
            }
        } else if self.state == MachineState::Sleeping {
            Served {
                machine: self.entered(MachineState::Idle),
                pending,
                outcome: OutcomeModel::Continue,
            }
        } else {
            let (machine, outcome) = self.handled(self.state, cmd);
            Served { machine, pending, outcome }
        }
    }
}

/// The command a slot holds.
pub open spec fn held(pending: Option<MachineCommand>) -> Option<CommandModel> {
    match pending {
        Some(cmd) => Some(cmd@),
        None => None,
    }
}

/// Everything a command gets regardless of what the machine is doing: activity
/// tracking, ambient handling, the sleep auto-wake, then the transition table.
///
/// One path, so the idle and busy cases cannot drift apart.
pub fn serve(
    m: &mut Machine,
    cmd: MachineCommand,
    last_activity: &mut u64,
    pending: &mut Option<MachineCommand>,
    now: u64,
) -> (r: Outcome)
    ensures
        ({
            let s = old(m)@.served(cmd@, held(*old(pending)));
            &&& final(m)@ == s.machine
            &&& held(*final(pending)) == s.pending
            &&& r@ == s.outcome
        }),
        *final(last_activity) == now,
{
    *last_activity = now;

    // Ambient commands are consumed here, before the state machine sees them:
    // they apply in every state, so neither a running operation nor the
    // auto-wake below is any of their business. Adjusting the brew target
    // while asleep must not fire up the boiler, and must not be discarded
    // either — it is stored and takes effect on the next wake, when `enter`
    // reads it.
    match cmd.ambient() {
        Ambient::No => {},
        Ambient::RamOnly => {
            apply_ambient(m, &cmd);
            return Outcome::Continue;
        },
        Ambient::RamAndFlash => {
            if get_state(m.state).is_busy() {
                // One slot, so two *different* saves during a single operation
                // keep only the later one.
                *pending = Some(cmd);
            } else {
                apply_ambient(m, &cmd);
            }
            return Outcome::Continue;
        },
    }

    // Auto-wake: every remaining command wakes the machine. The waking command
    // itself is dropped — we don't want to start a cold brew if the user
    // pressed Brew just to wake it up.
    let state: MachineState = get_state(m.state);
    if state == MachineState::Sleeping {
        wake_up(m);
        return Outcome::Continue;
    }
    handle_command(m, state, cmd)
}

/// Housekeeping period, in milliseconds.
///
/// It ticks whether or not an operation is in flight, at a fixed rate that a
/// burst of commands cannot starve.
pub const HOUSEKEEPING_MS: u64 = 100;

/// Owns the machine's state, the valve, and the one operation that may be
/// running.
///
/// [`handle_command`] stays the single authority on what a command means. Only
/// the ambient commands leave a running operation alone — they are consumed by
/// [`serve`] without touching the state, so a mid-shot session-temp nudge
/// applies while the shot keeps pouring, and a mid-shot settings save is held
/// until the shot ends rather than stalling the machine on a flash erase.
/// Every other command arriving in a busy state either takes one of steaming's
/// two onward transitions or stops the machine; that includes a stray
/// `RunProfile` from the web UI, which aborts the running shot rather than
/// being ignored.
pub struct Coordinator {
    pub machine: Machine,
    pub running: Option<Run>,
    pub valve_open: bool,
    /// Time of the last command, or of the end of the last operation, in
    /// microseconds since boot.
    pub last_activity: u64,
    /// A settings save that arrived mid-operation, waiting for an idle moment.
    pub pending: Option<MachineCommand>,
}

/// What a [`Coordinator`] holds.
pub struct CoordinatorModel {
    pub machine: MachineModel,
    pub running: Option<RunModel>,
    pub valve_open: bool,
    pub last_activity: u64,
    pub pending: Option<CommandModel>,
}

impl View for Coordinator {
    type V = CoordinatorModel;

    open spec fn view(&self) -> CoordinatorModel {
        CoordinatorModel {
            machine: self.machine@,
            running: match self.running {
                Some(run) => Some(run@),
                None => None,
            },
            valve_open: self.valve_open,
            last_activity: self.last_activity,
            pending: held(self.pending),
        }
    }
}

/// The operation is the one its state stands for.
pub open spec fn serves(op: OperationModel, state: MachineState) -> bool {
    match state {
        MachineState::Brewing => op is Profile,
        MachineState::Steaming => op is Steam,
        MachineState::Pumping => op is DirectPump,
        MachineState::Cooling => op is CooldownFlush,
        MachineState::HotWater => op is HotWater,
        _ => false,
    }
}

impl CoordinatorModel {
    /// A busy machine runs the operation of its state, and no other machine
    /// runs any. The valve is open exactly while an operation needs it. Only a
    /// flash write is ever held back, and only while the machine is busy.
    pub open spec fn wf(self) -> bool {
        &&& self.machine.state.busy() == (self.running is Some)
        &&& self.running matches Some(run) ==> run.wf() && serves(
            run.operation(),
            self.machine.state,
        )
        &&& self.valve_open == (self.running is Some && self.running->0.operation().opens_valve())
        &&& self.pending matches Some(cmd) ==> self.machine.state.busy() && cmd.ambient()
            == Ambient::RamAndFlash
        &&& self.machine.in_step()
    }

    pub open spec fn booted(machine: MachineModel, now: u64) -> CoordinatorModel {
        CoordinatorModel {
            machine: MachineModel {
                session_temp: crate::settings::current_control(machine.published).machine.brew_temp,
                ..machine
            }.entered(MachineState::Idle),
            running: None,
            valve_open: false,
            last_activity: now,
            pending: None,
        }
    }

    /// The machine with a save that was held back made.
    #[verifier::opaque]
    pub open spec fn caught_up(machine: MachineModel, save: CommandModel) -> MachineModel {
        machine.ambient_applied(save)
    }

    /// What is left of an operation that begins here, and its signals.
    #[verifier::opaque]
    pub open spec fn beginning(self, op: OperationModel, temp_c: Single, now: u64) -> (
        Option<RunModel>,
        Signals,
    ) {
        crate::operations::begun(
            op,
            self.machine.settings.machine,
            self.senses(temp_c, now),
            self.machine.signals,
        )
    }

    /// What is left of the operation that runs here, and its signals.
    #[verifier::opaque]
    pub open spec fn going_on(self, run: RunModel, temp_c: Single, now: u64) -> (
        Option<RunModel>,
        Signals,
    ) {
        run.polled(self.senses(temp_c, now), self.machine.signals)
    }

    /// Between operations: the sleep countdown restarts, and a flash write held
    /// back is made unless another operation follows.
    pub open spec fn settled(self, now: u64) -> CoordinatorModel {
        match self.pending {
            Some(cmd) if !self.machine.state.busy() => CoordinatorModel {
                machine: CoordinatorModel::caught_up(self.machine, cmd),
                pending: None,
                last_activity: now,
                ..self
            },
            _ => CoordinatorModel { last_activity: now, ..self },
        }
    }

    /// The running operation ended by itself.
    pub open spec fn finished(self, signals: Signals, now: u64) -> CoordinatorModel {
        CoordinatorModel {
            machine: MachineModel { signals, ..self.machine }.stopped(),
            running: None,
            valve_open: false,
            ..self
        }.settled(now)
    }

    pub open spec fn senses(self, temp_c: Single, now: u64) -> Senses {
        Senses { volume_ml: self.machine.flow.volume_ml, temp_c, now }
    }

    /// The running operation is looked at.
    pub open spec fn polled(self, temp_c: Single, now: u64) -> CoordinatorModel {
        match self.running {
            Some(run) => {
                let (left, signals) = self.going_on(run, temp_c, now);
                match left {
                    Some(_) => CoordinatorModel {
                        machine: MachineModel { signals, ..self.machine },
                        running: left,
                        ..self
                    },
                    None => self.finished(signals, now),
                }
            },
            None => self,
        }
    }

    /// Without the operation that was running.
    pub open spec fn cancelled(self) -> CoordinatorModel {
        match self.running {
            Some(run) => CoordinatorModel {
                machine: MachineModel {
                    signals: crate::operations::released(
                        run.operation(),
                        self.machine.signals,
                    ),
                    ..self.machine
                },
                running: None,
                valve_open: false,
                ..self
            },
            None => self,
        }
    }

    /// With an operation begun, in a slot that is free.
    pub open spec fn begun(self, op: OperationModel, temp_c: Single, now: u64) -> CoordinatorModel {
        let (left, signals) = self.beginning(op, temp_c, now);
        match left {
            Some(_) => CoordinatorModel {
                machine: MachineModel { signals, ..self.machine },
                running: left,
                valve_open: op.opens_valve(),
                ..self
            },
            None => self.finished(signals, now),
        }
    }

    /// A command is served, and acted on.
    pub open spec fn commanded(
        self,
        cmd: CommandModel,
        temp_c: Single,
        now: u64,
    ) -> CoordinatorModel {
        let s = self.machine.served(cmd, self.pending);
        let c = CoordinatorModel {
            machine: s.machine,
            pending: s.pending,
            last_activity: now,
            ..self
        };
        match s.outcome {
            OutcomeModel::Continue => c,
            OutcomeModel::Cancel => c.cancelled().settled(now),
            OutcomeModel::Start(op) => c.cancelled().settled(now).begun(op, temp_c, now),
        }
    }

    /// Auto-sleep: an idle machine left alone for the configured time.
    pub open spec fn housekept(self, now: u64) -> CoordinatorModel {
        if self.machine.state == MachineState::Idle && now - self.last_activity >= sleep_after(
            self.machine.settings.machine,
        ) {
            CoordinatorModel { machine: self.machine.entered(MachineState::Sleeping), ..self }
        } else {
            self
        }
    }
}

impl Coordinator {
    /// Establishes the idle state and its setpoint.
    pub fn new(machine: Machine, now: u64) -> (r: Coordinator)
        requires
            machine@.in_step(),
        ensures
            r@ == CoordinatorModel::booted(machine@, now),
            r@.wf(),
    {
        let mut m: Machine = machine;
        let initial_temp: Single = ControlSettings::current(m.ram.published).machine.brew_temp;
        set_session_brew_temp(&mut m.session_temp, initial_temp);
        wake_up(&mut m);
        Coordinator {
            machine: m,
            running: None,
            valve_open: false,
            last_activity: now,
            pending: None,
        }
    }

    /// Whether the solenoid valve is to be open.
    pub fn valve_open(&self) -> (r: bool)
        ensures
            r == self@.valve_open,
    {
        self.valve_open
    }

    /// When the running operation wants to be polled next.
    pub fn deadline(&self) -> (r: Option<u64>)
        ensures
            r == (match self@.running {
                Some(run) => Some(run.wake_at()),
                None => None,
            }),
    {
        match &self.running {
            Some(run) => Some(run.deadline()),
            None => None,
        }
    }

    /// Restarts the sleep countdown from the *end* of the previous operation —
    /// a long steam session would otherwise finish with a stale timestamp and
    /// drop straight into sleep. Then applies whatever [`serve`] held back
    /// while it ran.
    fn settle(&mut self, now: u64)
        ensures
            final(self)@ == old(self)@.settled(now),
    {
        proof {
            reveal(CoordinatorModel::caught_up);
        }
        self.last_activity = now;
        if !get_state(self.machine.state).is_busy() {
            if let Some(cmd) = self.pending.take() {
                apply_ambient(&mut self.machine, &cmd);
            }
        }
    }

    /// The operation in the slot ended by itself.
    fn finish(&mut self, now: u64)
        requires
            old(self)@.running is None,
        ensures
            final(self)@ == old(self)@.finished(old(self)@.machine.signals, now),
    {
        stop_to_idle(&mut self.machine);
        self.valve_open = false;
        self.settle(now);
    }

    /// Looks whether the running operation is over, and returns to idle if it
    /// is. `temp_c` is the boiler's temperature.
    pub fn poll(&mut self, temp_c: Single, now: u64)
        requires
            old(self)@.wf(),
        ensures
            final(self)@ == old(self)@.polled(temp_c, now),
            final(self)@.wf(),
    {
        proof {
            reveal(CoordinatorModel::going_on);
        }
        let ghost before = self@;
        let senses: Senses = Senses { volume_ml: self.machine.flow.volume_ml, temp_c, now };
        match self.running.take() {
            Some(run) => {
                let mut out: Outputs = Outputs::new(self.machine.signals, self.valve_open);
                let left: Option<Run> = run.poll(&senses, &mut out);
                self.machine.signals = out.signals;
                self.valve_open = out.valve_open;
                match left {
                    Some(run) => {
                        self.running = Some(run);
                    },
                    None => {
                        self.finish(now);
                    },
                }
            },
            None => {},
        }
        proof {
            lemma_polled_wf(before, temp_c, now);
        }
    }

    /// Serves a command. Cancelling an operation releases the pump before the
    /// valve closes, and a replacement is never begun until the previous one
    /// has fully released both.
    pub fn command(&mut self, cmd: MachineCommand, temp_c: Single, now: u64)
        requires
            old(self)@.wf(),
        ensures
            final(self)@ == old(self)@.commanded(cmd@, temp_c, now),
            final(self)@.wf(),
    {
        let ghost before = self@;
        let outcome: Outcome = serve(
            &mut self.machine,
            cmd,
            &mut self.last_activity,
            &mut self.pending,
            now,
        );
        match outcome {
            Outcome::Continue => {},
            Outcome::Cancel => {
                self.drop_running();
                self.settle(now);
            },
            Outcome::Start(op) => {
                self.drop_running();
                self.settle(now);
                self.begin(op, temp_c, now);
            },
        }
        proof {
            lemma_commanded_wf(before, cmd@, temp_c, now);
        }
    }

    fn drop_running(&mut self)
        requires
            old(self)@.running matches Some(run) ==> old(self)@.valve_open
                == run.operation().opens_valve(),
        ensures
            final(self)@ == old(self)@.cancelled(),
    {
        if let Some(run) = self.running.take() {
            let mut out: Outputs = Outputs::new(self.machine.signals, self.valve_open);
            run.cancel(&mut out);
            self.machine.signals = out.signals;
            self.valve_open = out.valve_open;
        }
    }

    fn begin(&mut self, op: Operation, temp_c: Single, now: u64)
        requires
            old(self)@.running is None,
            !old(self)@.valve_open,
        ensures
            final(self)@ == old(self)@.begun(op@, temp_c, now),
            final(self)@.running matches Some(run) ==> run.wf(),
    {
        proof {
            reveal(CoordinatorModel::beginning);
        }
        let senses: Senses = Senses { volume_ml: self.machine.flow.volume_ml, temp_c, now };
        let mut out: Outputs = Outputs::new(self.machine.signals, self.valve_open);
        let left: Option<Run> = execute(
            op,
            &self.machine.ram.settings.machine,
            &senses,
            &mut out,
        );
        self.machine.signals = out.signals;
        self.valve_open = out.valve_open;
        match left {
            Some(run) => {
                self.running = Some(run);
            },
            None => {
                self.finish(now);
            },
        }
    }

    /// Sends an idle machine to sleep once it has been left alone for the
    /// configured time.
    pub fn housekeeping(&mut self, now: u64)
        requires
            old(self)@.wf(),
            old(self)@.last_activity <= now,
        ensures
            final(self)@ == old(self)@.housekept(now),
            final(self)@.wf(),
    {
        if get_state(self.machine.state) == MachineState::Idle {
            if now - self.last_activity >= sleep_timeout(&self.machine.ram.settings.machine) {
                go_to_sleep(&mut self.machine);
            }
        }
    }
}

// ==========================================
// LAWS
// ==========================================

/// What the coordinator has to know of the operation it polls.
proof fn lemma_polled_operation(c: CoordinatorModel, temp_c: Single, now: u64)
    ensures
        c.running matches Some(run) ==> {
            let (left, signals) = c.going_on(run, temp_c, now);
            &&& left matches Some(next) ==> next.operation() == run.operation()
            &&& signals.target_temp == c.machine.signals.target_temp
            &&& left is None && run is Profile ==> signals.brew_active == Some(false)
        },
{
    reveal(CoordinatorModel::going_on);
    if let Some(run) = c.running {
        let senses = c.senses(temp_c, now);
        let (op, machine) = (run.operation(), c.machine.settings.machine);
        crate::operations::law_operation_stays_itself(op, run, machine, senses, c.machine.signals);
        crate::operations::law_only_profiles_brew(op, run, machine, senses, c.machine.signals);
        crate::operations::law_operation_ends_released(run, op, machine, senses, c.machine.signals);
    }
}

/// What the coordinator has to know of an operation it begins.
proof fn lemma_begun_operation(c: CoordinatorModel, op: OperationModel, temp_c: Single, now: u64)
    ensures
        ({
            let (left, signals) = c.beginning(op, temp_c, now);
            &&& left matches Some(run) ==> run.operation() == op
            &&& signals.target_temp == c.machine.signals.target_temp
        }),
{
    reveal(CoordinatorModel::beginning);
    let senses = c.senses(temp_c, now);
    let (run, machine) = (RunModel::Steam { until: 0 }, c.machine.settings.machine);
    crate::operations::law_operation_stays_itself(op, run, machine, senses, c.machine.signals);
    crate::operations::law_only_profiles_brew(op, run, machine, senses, c.machine.signals);
}

/// What a command begins, in the coordinator that begins it.
proof fn lemma_commanded_operation(
    c: CoordinatorModel,
    cmd: CommandModel,
    temp_c: Single,
    now: u64,
)
    ensures
        ({
            let s = c.machine.served(cmd, c.pending);
            let d = CoordinatorModel {
                machine: s.machine,
                pending: s.pending,
                last_activity: now,
                ..c
            }.cancelled().settled(now);
            s.outcome matches OutcomeModel::Start(op) ==> {
                let (left, signals) = d.beginning(op, temp_c, now);
                &&& left matches Some(run) ==> run.operation() == op
                &&& signals.target_temp == d.machine.signals.target_temp
            }
        }),
{
    let s = c.machine.served(cmd, c.pending);
    let d = CoordinatorModel {
        machine: s.machine,
        pending: s.pending,
        last_activity: now,
        ..c
    }.cancelled().settled(now);
    if let OutcomeModel::Start(op) = s.outcome {
        lemma_begun_operation(d, op, temp_c, now);
    }
}

/// An ambient command changes neither the state nor the signals to the pump,
/// and keeps the control loop's settings in step.
pub proof fn lemma_ambient_applied(m: MachineModel, cmd: CommandModel)
    ensures
        ({
            let after = m.ambient_applied(cmd);
            &&& after.state == m.state
            &&& after.flow == m.flow
            &&& after.signals.pump_mode == m.signals.pump_mode
            &&& after.signals.brew_active == m.signals.brew_active
            &&& m.in_step() ==> after.in_step()
            &&& cmd.ambient() == Ambient::RamAndFlash ==> after.signals == m.signals
                && after.session_temp == m.session_temp && after.flash == flash_update_of(cmd)
            &&& cmd.ambient() == Ambient::RamOnly ==> after.flash == m.flash
        }),
{
}

/// What the transition table decides, as far as the invariant goes: a busy
/// state comes with the operation that serves it, and leaving one cancels.
proof fn lemma_handled(m: MachineModel, state: MachineState, cmd: CommandModel)
    ensures
        ({
            let (after, outcome) = m.handled(state, cmd);
            &&& after.settings == m.settings
            &&& after.published == m.published
            &&& after.profiles == m.profiles
            &&& after.flash == m.flash
            &&& after.session_temp == m.session_temp
            &&& after == m || after.signals.target_temp == Some(m.setpoint(after.state))
            &&& match outcome {
                OutcomeModel::Continue => !state.busy() && (after == m || !after.state.busy()),
                OutcomeModel::Cancel => state.busy() && after == m.stopped(),
                OutcomeModel::Start(op) => {
                    &&& after.state.busy()
                    &&& serves(op, after.state)
                    &&& state == MachineState::Idle || (state == MachineState::Steaming && (
                    cmd is Brew || cmd is Flush))
                    &&& after.flow.volume_ml == Single::whole(0)
                },
            }
        }),
{
}

/// A command leaves the invariant in place.
proof fn lemma_commanded_wf(c: CoordinatorModel, cmd: CommandModel, temp_c: Single, now: u64)
    requires
        c.wf(),
        c.commanded(cmd, temp_c, now).running matches Some(run) ==> run.wf(),
    ensures
        c.commanded(cmd, temp_c, now).wf(),
{
    lemma_commanded_operation(c, cmd, temp_c, now);
    lemma_ambient_applied(c.machine, cmd);
    lemma_handled(c.machine, c.machine.state, cmd);
    let s = c.machine.served(cmd, c.pending);
    let d = CoordinatorModel {
        machine: s.machine,
        pending: s.pending,
        last_activity: now,
        ..c
    };
    lemma_settled_wf(d.cancelled(), now);
    if let OutcomeModel::Start(op) = s.outcome {
        let e = d.cancelled().settled(now);
        lemma_begun_operation(e, op, temp_c, now);
        let signals = e.beginning(op, temp_c, now).1;
        lemma_finished(e, signals, now);
    }
}

/// Looking at the operation leaves the invariant in place.
proof fn lemma_polled_wf(c: CoordinatorModel, temp_c: Single, now: u64)
    requires
        c.wf(),
        c.polled(temp_c, now).running matches Some(run) ==> run.wf(),
    ensures
        c.polled(temp_c, now).wf(),
{
    lemma_polled_operation(c, temp_c, now);
    if let Some(run) = c.running {
        let signals = c.going_on(run, temp_c, now).1;
        lemma_finished(c, signals, now);
    }
}

/// What an operation that ended by itself leaves.
proof fn lemma_finished(c: CoordinatorModel, signals: Signals, now: u64)
    ensures
        ({
            let after = c.finished(signals, now);
            &&& after.machine.state == MachineState::Idle
            &&& after.running is None
            &&& !after.valve_open
            &&& after.pending is None
            &&& c.machine.in_step() ==> after.machine.in_step()
            &&& after.machine.flow == c.machine.flow
            &&& after.machine.signals.pump_mode == Some(PumpMode::Idle)
            &&& after.machine.signals.brew_active == signals.brew_active
            &&& after.last_activity == now
            &&& c.pending is None ==> after.machine == (MachineModel {
                signals,
                ..c.machine
            }.stopped())
            &&& c.pending matches Some(save) ==> save.ambient() == Ambient::RamAndFlash ==> {
                &&& after.machine.signals.target_temp == Some(
                    c.machine.setpoint(MachineState::Idle),
                )
                &&& after.machine.flash == flash_update_of(save)
            }
        }),
{
    let stopped = CoordinatorModel {
        machine: MachineModel { signals, ..c.machine }.stopped(),
        running: None,
        valve_open: false,
        ..c
    };
    lemma_settled_wf(stopped, now);
}

/// What comes between operations.
proof fn lemma_settled_wf(c: CoordinatorModel, now: u64)
    ensures
        ({
            let after = c.settled(now);
            &&& after.machine.state == c.machine.state
            &&& after.running == c.running
            &&& after.valve_open == c.valve_open
            &&& c.machine.in_step() ==> after.machine.in_step()
            &&& after.machine.flow == c.machine.flow
            &&& after.machine.signals.pump_mode == c.machine.signals.pump_mode
            &&& after.machine.signals.brew_active == c.machine.signals.brew_active
            &&& after.last_activity == now
            &&& c.machine.state.busy() ==> after.pending == c.pending && after.machine == c.machine
            &&& !c.machine.state.busy() ==> after.pending is None
            &&& c.pending is None ==> after.machine == c.machine
            &&& c.pending matches Some(save) ==> save.ambient() == Ambient::RamAndFlash ==> {
                &&& after.machine.signals == c.machine.signals
                &&& !c.machine.state.busy() ==> after.machine.flash == flash_update_of(save)
            }
        }),
{
    reveal(CoordinatorModel::caught_up);
    if let Some(cmd) = c.pending {
        lemma_ambient_applied(c.machine, cmd);
    }
}

/// What a command comes down to, in terms of the parts it is made of.
pub proof fn lemma_commanded_parts(c: CoordinatorModel, cmd: CommandModel, temp_c: Single, now: u64)
    requires
        c.wf(),
    ensures
        ({
            let after = c.commanded(cmd, temp_c, now);
            let quiet = CoordinatorModel { machine: after.machine, last_activity: now, ..c };
            if cmd.ambient() == Ambient::RamAndFlash && c.machine.state.busy() {
                after == CoordinatorModel { pending: Some(cmd), last_activity: now, ..c }
            } else if cmd.ambient() != Ambient::No {
                after == quiet && after.machine == c.machine.ambient_applied(cmd)
            } else if c.machine.state == MachineState::Sleeping {
                after == quiet && after.machine == c.machine.entered(MachineState::Idle)
            } else {
                let (handled, outcome) = c.machine.handled(c.machine.state, cmd);
                match outcome {
                    OutcomeModel::Continue => after == quiet && after.machine == handled,
                    OutcomeModel::Cancel => {
                        &&& after.running is None
                        &&& !after.valve_open
                        &&& after.pending is None
                        &&& after.machine.state == MachineState::Idle
                        &&& after.machine.flow == c.machine.flow
                        &&& after.machine.signals.target_temp == Some(
                            c.machine.setpoint(MachineState::Idle),
                        )
                        &&& after.machine.signals.pump_mode == Some(PumpMode::Idle)
                        &&& c.machine.state == MachineState::Brewing
                            ==> after.machine.signals.brew_active == Some(false)
                        &&& after.machine.flash == (match c.pending {
                            Some(save) => flash_update_of(save),
                            None => c.machine.flash,
                        })
                    },
                    OutcomeModel::Start(op) => {
                        ||| {
                            &&& after.machine.state == handled.state
                            &&& after.running is Some
                            &&& after.machine.flow == handled.flow
                            &&& after.pending == c.pending
                            &&& after.machine.flash == c.machine.flash
                            &&& after.machine.signals.target_temp == handled.signals.target_temp
                        }
                        ||| {
                            &&& after.machine.state == MachineState::Idle
                            &&& after.running is None
                            &&& after.pending is None
                            &&& after.machine.signals.target_temp == Some(
                                c.machine.setpoint(MachineState::Idle),
                            )
                            &&& after.machine.flash == (match c.pending {
                                Some(save) => flash_update_of(save),
                                None => c.machine.flash,
                            })
                        }
                    },
                }
            }
        }),
{
    lemma_commanded_operation(c, cmd, temp_c, now);
    lemma_handled(c.machine, c.machine.state, cmd);
    let s = c.machine.served(cmd, c.pending);
    let d = CoordinatorModel {
        machine: s.machine,
        pending: s.pending,
        last_activity: now,
        ..c
    };
    lemma_settled_wf(d.cancelled(), now);
    if let OutcomeModel::Start(op) = s.outcome {
        let e = d.cancelled().settled(now);
        let signals = e.beginning(op, temp_c, now).1;
        lemma_finished(e, signals, now);
    }
}

/// What looking at the operation comes down to.
proof fn lemma_polled_parts(c: CoordinatorModel, temp_c: Single, now: u64)
    requires
        c.wf(),
    ensures
        ({
            let after = c.polled(temp_c, now);
            ||| {
                &&& after.machine.state == c.machine.state
                &&& after.running is Some == c.running is Some
                &&& after.pending == c.pending
                &&& after.machine.flash == c.machine.flash
            }
            ||| {
                &&& c.running is Some
                &&& after.machine.state == MachineState::Idle
                &&& after.running is None
                &&& !after.valve_open
                &&& after.pending is None
                &&& after.machine.flow == c.machine.flow
                &&& after.last_activity == now
                &&& after.machine.signals.target_temp == Some(
                    c.machine.setpoint(MachineState::Idle),
                )
                &&& after.machine.signals.pump_mode == Some(PumpMode::Idle)
                &&& c.machine.state == MachineState::Brewing
                    ==> after.machine.signals.brew_active == Some(false)
                &&& after.machine.flash == (match c.pending {
                    Some(save) => flash_update_of(save),
                    None => c.machine.flash,
                })
            }
        }),
{
    lemma_polled_operation(c, temp_c, now);
    if let Some(run) = c.running {
        let signals = c.going_on(run, temp_c, now).1;
        lemma_finished(c, signals, now);
    }
}

/// Whatever happens, the setpoint and the state never disagree: every change
/// of state signals the setpoint of the new one, from the settings in force
/// when it is entered. (Where a save held back is made in the same step, the
/// setpoint is still that of the settings before it.)
pub proof fn law_setpoint_follows_the_state(
    c: CoordinatorModel,
    cmd: CommandModel,
    temp_c: Single,
    now: u64,
)
    requires
        c.wf(),
    ensures
        ({
            let after = c.commanded(cmd, temp_c, now);
            after.machine.state != c.machine.state ==> after.machine.signals.target_temp == Some(
                c.machine.setpoint(after.machine.state),
            )
        }),
        ({
            let after = c.polled(temp_c, now);
            after.machine.state != c.machine.state ==> after.machine.signals.target_temp == Some(
                c.machine.setpoint(after.machine.state),
            )
        }),
        ({
            let after = c.housekept(now);
            after.machine.state != c.machine.state ==> after.machine.signals.target_temp == Some(
                c.machine.setpoint(after.machine.state),
            )
        }),
{
    lemma_commanded_parts(c, cmd, temp_c, now);
    lemma_polled_parts(c, temp_c, now);
    lemma_handled(c.machine, c.machine.state, cmd);
    lemma_ambient_applied(c.machine, cmd);
}

/// An ambient command leaves the state, the operation and the valve alone.
pub proof fn law_ambient_commands_leave_the_operation_alone(
    c: CoordinatorModel,
    cmd: CommandModel,
    temp_c: Single,
    now: u64,
)
    requires
        cmd.ambient() != Ambient::No,
    ensures
        ({
            let after = c.commanded(cmd, temp_c, now);
            &&& after.machine.state == c.machine.state
            &&& after.running == c.running
            &&& after.valve_open == c.valve_open
            &&& after.machine.signals.pump_mode == c.machine.signals.pump_mode
            &&& after.machine.signals.brew_active == c.machine.signals.brew_active
            &&& after.machine.flow == c.machine.flow
        }),
{
    lemma_ambient_applied(c.machine, cmd);
}

/// No flash write is asked for while an operation runs: one that is leaves the
/// machine without an operation.
pub proof fn law_no_flash_write_during_an_operation(
    c: CoordinatorModel,
    cmd: CommandModel,
    temp_c: Single,
    now: u64,
)
    requires
        c.wf(),
    ensures
        c.commanded(cmd, temp_c, now).machine.flash != c.machine.flash ==> !c.commanded(
            cmd,
            temp_c,
            now,
        ).machine.state.busy(),
        c.polled(temp_c, now).machine.flash != c.machine.flash ==> !c.polled(
            temp_c,
            now,
        ).machine.state.busy(),
        c.housekept(now).machine.flash == c.machine.flash,
{
    lemma_commanded_parts(c, cmd, temp_c, now);
    lemma_polled_parts(c, temp_c, now);
    lemma_handled(c.machine, c.machine.state, cmd);
    lemma_ambient_applied(c.machine, cmd);
}

/// The change to flash a save asks for.
pub open spec fn flash_update_of(cmd: CommandModel) -> Option<FlashUpdateModel> {
    match cmd {
        CommandModel::SaveSettings(s) => Some(FlashUpdateModel::SaveSettings(s)),
        CommandModel::SaveMachine(m) => Some(FlashUpdateModel::SaveMachine(m)),
        CommandModel::SavePids(t, p, f) => Some(FlashUpdateModel::SavePids(t, p, f)),
        CommandModel::SaveWifi(w) => Some(FlashUpdateModel::SaveWifi(w)),
        CommandModel::SaveProfile(slot, _) => Some(FlashUpdateModel::SaveProfile(slot)),
        CommandModel::DeleteProfile(slot) => Some(FlashUpdateModel::DeleteProfile(slot)),
        _ => None,
    }
}

/// A save that arrives during an operation is held, and is made as soon as the
/// machine is without one: nothing held is forgotten.
pub proof fn law_held_save_is_made_when_idle(
    c: CoordinatorModel,
    save: CommandModel,
    cmd: CommandModel,
    temp_c: Single,
    now: u64,
)
    requires
        c.wf(),
        save.ambient() == Ambient::RamAndFlash,
        c.machine.state.busy(),
    ensures
        c.commanded(save, temp_c, now).pending == Some(save),
        c.pending == Some(save) && cmd.ambient() == Ambient::No ==> {
            let after = c.commanded(cmd, temp_c, now);
            ||| after.machine.state.busy() && after.pending == Some(save)
            ||| !after.machine.state.busy() && after.pending is None && after.machine.flash
                == flash_update_of(save)
        },
        c.pending == Some(save) ==> {
            let after = c.polled(temp_c, now);
            ||| after.machine.state.busy() && after.pending == Some(save)
            ||| !after.machine.state.busy() && after.pending is None && after.machine.flash
                == flash_update_of(save)
        },
{
    lemma_commanded_parts(c, cmd, temp_c, now);
    lemma_polled_parts(c, temp_c, now);
    lemma_commanded_parts(c, save, temp_c, now);
    lemma_handled(c.machine, c.machine.state, cmd);
}

/// The command that wakes a sleeping machine is dropped: it starts nothing.
/// Ambient commands do not wake it.
pub proof fn law_waking_command_is_dropped(
    c: CoordinatorModel,
    cmd: CommandModel,
    temp_c: Single,
    now: u64,
)
    requires
        c.wf(),
        c.machine.state == MachineState::Sleeping,
    ensures
        c.commanded(cmd, temp_c, now).running is None,
        c.commanded(cmd, temp_c, now).machine.state == if cmd.ambient() == Ambient::No {
            MachineState::Idle
        } else {
            MachineState::Sleeping
        },
{
    lemma_commanded_parts(c, cmd, temp_c, now);
    lemma_ambient_applied(c.machine, cmd);
}

/// Any command to a busy machine stops it, but for ambient ones and the two
/// that lead on from steaming: back to idle, nothing running, the pump idle
/// and the valve closed. The shot's volume stays readable.
pub proof fn law_busy_machine_is_stopped_by_any_command(
    c: CoordinatorModel,
    cmd: CommandModel,
    temp_c: Single,
    now: u64,
)
    requires
        c.wf(),
        c.machine.state.busy(),
        cmd.ambient() == Ambient::No,
        !(c.machine.state == MachineState::Steaming && (cmd is Brew || cmd is Flush)),
    ensures
        ({
            let after = c.commanded(cmd, temp_c, now);
            &&& after.machine.state == MachineState::Idle
            &&& after.running is None
            &&& !after.valve_open
            &&& after.machine.signals.pump_mode == Some(PumpMode::Idle)
            &&& c.machine.state == MachineState::Brewing ==> after.machine.signals.brew_active
                == Some(false)
            &&& after.machine.flow == c.machine.flow
        }),
{
    lemma_commanded_parts(c, cmd, temp_c, now);
    lemma_handled(c.machine, c.machine.state, cmd);
}

/// An operation that ends by itself leaves an idle machine with the pump idle
/// and the valve closed.
pub proof fn law_finished_operation_leaves_an_idle_machine(
    c: CoordinatorModel,
    temp_c: Single,
    now: u64,
)
    requires
        c.wf(),
        c.running is Some,
        c.polled(temp_c, now).running is None,
    ensures
        ({
            let after = c.polled(temp_c, now);
            &&& after.machine.state == MachineState::Idle
            &&& !after.valve_open
            &&& after.machine.signals.pump_mode == Some(PumpMode::Idle)
            &&& c.machine.state == MachineState::Brewing ==> after.machine.signals.brew_active
                == Some(false)
            &&& after.last_activity == now
            &&& after.machine.flow == c.machine.flow
        }),
{
    lemma_polled_parts(c, temp_c, now);
}

/// An operation starts from an idle machine alone, or leads on from steaming;
/// and it starts a new shot: the volume is 0.
pub proof fn law_operations_start_from_idle_or_steaming(
    c: CoordinatorModel,
    cmd: CommandModel,
    temp_c: Single,
    now: u64,
)
    requires
        c.wf(),
        c.commanded(cmd, temp_c, now).machine.state.busy(),
        c.commanded(cmd, temp_c, now).machine.state != c.machine.state,
    ensures
        c.machine.state == MachineState::Idle || c.machine.state == MachineState::Steaming,
        c.commanded(cmd, temp_c, now).machine.flow.volume_ml == Single::whole(0),
{
    lemma_commanded_parts(c, cmd, temp_c, now);
    lemma_handled(c.machine, c.machine.state, cmd);
    lemma_ambient_applied(c.machine, cmd);
}

/// The machine falls asleep by itself only when idle, and not before it has
/// been left alone for the configured time. An operation that just ended
/// counts as activity.
pub proof fn law_sleeps_only_when_left_alone(c: CoordinatorModel, now: u64)
    requires
        c.wf(),
    ensures
        c.housekept(now).machine.state != c.machine.state ==> c.machine.state == MachineState::Idle
            && c.housekept(now).machine.state == MachineState::Sleeping && now - c.last_activity
            >= sleep_after(c.machine.settings.machine),
        c.housekept(now).running == c.running,
{
}

/// A nudge of the session temperature reaches the boiler at once where the
/// state brews, mid-shot too, and waits for the next such state elsewhere.
pub proof fn law_session_temp_applies_where_it_is_wanted(
    c: CoordinatorModel,
    t: Single,
    temp_c: Single,
    now: u64,
)
    requires
        c.wf(),
    ensures
        ({
            let after = c.commanded(CommandModel::SetSessionTemp(t), temp_c, now);
            &&& after.machine.session_temp == t
            &&& heating(c.machine.state) == TargetTempMode::Brew
                ==> after.machine.signals.target_temp == Some(
                t.plus(c.machine.settings.machine.temp_offset),
            )
            &&& heating(c.machine.state) != TargetTempMode::Brew
                ==> after.machine.signals.target_temp == c.machine.signals.target_temp
            &&& after.machine.entered(MachineState::Idle).signals.target_temp == Some(
                t.plus(c.machine.settings.machine.temp_offset),
            )
        }),
{
}

/// A save changes the settings, in RAM and for the control loop, as the flash
/// update that goes with it says; what the save does not name keeps its value.
pub proof fn law_saves_agree_with_flash(m: MachineModel, save: CommandModel)
    requires
        save.ambient() == Ambient::RamAndFlash,
        m.in_step(),
    ensures
        ({
            let saved = m.ambient_applied(save);
            &&& saved.flash == flash_update_of(save)
            &&& saved.flash is Some
            &&& saved.settings == m.settings.updated(saved.flash->0)
            &&& saved.in_step()
        }),
{
}

} // verus!
