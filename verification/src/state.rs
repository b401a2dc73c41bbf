//! The machine's states, the commands it takes, and the snapshots its tasks
//! share.

use crate::profiles::BrewProfile;
use crate::settings::{MachineSettings, PidSettings, Settings, WifiSettings};
use crate::single::Single;
use vstd::prelude::*;

verus! {

/// What the machine is doing. [`MachineState::code`] gives the number each
/// state has on the wire to the web UI.
#[derive(Clone, Copy, Debug, PartialEq, Eq, Structural)]
pub enum MachineState {
    Idle,
    Brewing,
    Steaming,
    Sleeping,
    Pumping,
    Cooling,
    HotWater,
}

impl MachineState {
    /// An operation is in flight.
    pub open spec fn busy(self) -> bool {
        self != MachineState::Idle && self != MachineState::Sleeping
    }

    /// The wire contract with the web UI, which indexes a positional name
    /// array with it.
    pub open spec fn code_of(self) -> u8 {
        match self {
            MachineState::Idle => 0,
            MachineState::Brewing => 1,
            MachineState::Steaming => 2,
            MachineState::Sleeping => 3,
            MachineState::Pumping => 4,
            MachineState::Cooling => 5,
            MachineState::HotWater => 6,
        }
    }

    /// The state with a given number; `Idle` is the fallback for a number that
    /// none has.
    pub open spec fn of_code(raw: u8) -> MachineState {
        if raw == 1 {
            MachineState::Brewing
        } else if raw == 2 {
            MachineState::Steaming
        } else if raw == 3 {
            MachineState::Sleeping
        } else if raw == 4 {
            MachineState::Pumping
        } else if raw == 5 {
            MachineState::Cooling
        } else if raw == 6 {
            MachineState::HotWater
        } else {
            MachineState::Idle
        }
    }

    /// States representing an active hardware operation (profile/steam/pump
    /// running). The coordinator treats this as "an operation is in flight",
    /// so any command that isn't one of `Steaming`'s two onward transitions
    /// stops the machine.
    pub fn is_busy(self) -> (r: bool)
        ensures
            r == self.busy(),
    {
        matches!(
            self,
            MachineState::Brewing
                | MachineState::Pumping
                | MachineState::Cooling
                | MachineState::HotWater
                | MachineState::Steaming
        )
    }

    pub fn code(self) -> (r: u8)
        ensures
            r == self.code_of(),
    {
        match self {
            MachineState::Idle => 0,
            MachineState::Brewing => 1,
            MachineState::Steaming => 2,
            MachineState::Sleeping => 3,
            MachineState::Pumping => 4,
            MachineState::Cooling => 5,
            MachineState::HotWater => 6,
        }
    }
}

pub enum MachineCommand {
    RunProfile(BrewProfile),
    Brew,
    Stop,
    Steam,
    Flush,
    /// The transition table has no entry of its own for it: it stops a busy
    /// machine and wakes a sleeping one, as any command does, and an idle one
    /// it leaves as it is.
    Descale,
    DirectPump(Single),
    /// All settings at once.
    SaveSettings(Settings),
    SaveMachine(MachineSettings),
    /// (temp, pressure, flow); an absent flow leaves the flow gains untouched.
    SavePids(PidSettings, PidSettings, Option<PidSettings>),
    SaveWifi(WifiSettings),
    SaveProfile(u8, BrewProfile),
    DeleteProfile(u8),
    TogglePower,
    SetSessionTemp(Single),
}

/// What a [`MachineCommand`] holds.
pub enum CommandModel {
    RunProfile(crate::profiles::ProfileModel),
    Brew,
    Stop,
    Steam,
    Flush,
    Descale,
    DirectPump(Single),
    SaveSettings(crate::settings::SettingsModel),
    SaveMachine(MachineSettings),
    SavePids(PidSettings, PidSettings, Option<PidSettings>),
    SaveWifi(crate::settings::WifiModel),
    SaveProfile(u8, crate::profiles::ProfileModel),
    DeleteProfile(u8),
    TogglePower,
    SetSessionTemp(Single),
}

impl View for MachineCommand {
    type V = CommandModel;

    open spec fn view(&self) -> CommandModel {
        match *self {
            MachineCommand::RunProfile(p) => CommandModel::RunProfile(p@),
            MachineCommand::Brew => CommandModel::Brew,
            MachineCommand::Stop => CommandModel::Stop,
            MachineCommand::Steam => CommandModel::Steam,
            MachineCommand::Flush => CommandModel::Flush,
            MachineCommand::Descale => CommandModel::Descale,
            MachineCommand::SaveSettings(s) => CommandModel::SaveSettings(s@),
            MachineCommand::DirectPump(p) => CommandModel::DirectPump(p),
            MachineCommand::SaveMachine(m) => CommandModel::SaveMachine(m),
            MachineCommand::SavePids(t, p, f) => CommandModel::SavePids(t, p, f),
            MachineCommand::SaveWifi(w) => CommandModel::SaveWifi(w@),
            MachineCommand::SaveProfile(slot, p) => CommandModel::SaveProfile(slot, p@),
            MachineCommand::DeleteProfile(slot) => CommandModel::DeleteProfile(slot),
            MachineCommand::TogglePower => CommandModel::TogglePower,
            MachineCommand::SetSessionTemp(t) => CommandModel::SetSessionTemp(t),
        }
    }
}

impl Clone for MachineCommand {
    fn clone(&self) -> (r: MachineCommand)
        ensures
            r@ == self@,
    {
        match self {
            MachineCommand::RunProfile(p) => MachineCommand::RunProfile(p.clone()),
            MachineCommand::Brew => MachineCommand::Brew,
            MachineCommand::Stop => MachineCommand::Stop,
            MachineCommand::Steam => MachineCommand::Steam,
            MachineCommand::Flush => MachineCommand::Flush,
            MachineCommand::Descale => MachineCommand::Descale,
            MachineCommand::SaveSettings(s) => MachineCommand::SaveSettings(s.clone()),
            MachineCommand::DirectPump(p) => MachineCommand::DirectPump(*p),
            MachineCommand::SaveMachine(m) => MachineCommand::SaveMachine(*m),
            MachineCommand::SavePids(t, p, f) => MachineCommand::SavePids(*t, *p, *f),
            MachineCommand::SaveWifi(w) => MachineCommand::SaveWifi(w.clone()),
            MachineCommand::SaveProfile(slot, p) => MachineCommand::SaveProfile(*slot, p.clone()),
            MachineCommand::DeleteProfile(slot) => MachineCommand::DeleteProfile(*slot),
            MachineCommand::TogglePower => MachineCommand::TogglePower,
            MachineCommand::SetSessionTemp(t) => MachineCommand::SetSessionTemp(*t),
        }
    }
}

/// How far a command reaches when it does not concern the running operation.
#[derive(Clone, Copy, Debug, PartialEq, Eq, Structural)]
pub enum Ambient {
    /// Not ambient: the state machine decides what it means.
    No,
    /// Applies in every state, in RAM alone.
    RamOnly,
    /// Applies in every state, and is written to flash, which must not happen
    /// during an operation.
    RamAndFlash,
}

impl CommandModel {
    pub open spec fn ambient(self) -> Ambient {
        match self {
            CommandModel::SetSessionTemp(_) => Ambient::RamOnly,
            CommandModel::SaveSettings(_) => Ambient::RamAndFlash,
            CommandModel::SaveMachine(_) => Ambient::RamAndFlash,
            CommandModel::SavePids(_, _, _) => Ambient::RamAndFlash,
            CommandModel::SaveWifi(_) => Ambient::RamAndFlash,
            CommandModel::SaveProfile(_, _) => Ambient::RamAndFlash,
            CommandModel::DeleteProfile(_) => Ambient::RamAndFlash,
            _ => Ambient::No,
        }
    }
}

impl MachineCommand {
    /// The single definition of the ambient commands: settings saves, profile
    /// storage and `SetSessionTemp`.
    pub fn ambient(&self) -> (r: Ambient)
        ensures
            r == self@.ambient(),
    {
        match self {
            MachineCommand::SetSessionTemp(_) => Ambient::RamOnly,
            MachineCommand::SaveSettings(_) => Ambient::RamAndFlash,
            MachineCommand::SaveMachine(_) => Ambient::RamAndFlash,
            MachineCommand::SavePids(_, _, _) => Ambient::RamAndFlash,
            MachineCommand::SaveWifi(_) => Ambient::RamAndFlash,
            MachineCommand::SaveProfile(_, _) => Ambient::RamAndFlash,
            MachineCommand::DeleteProfile(_) => Ambient::RamAndFlash,
            _ => Ambient::No,
        }
    }
}

// ==========================================
// COMMAND QUEUE
// ==========================================

/// `embassy_sync`'s bounded channel of four commands, for a single executor.
/// It is opaque to proofs: [`queued`] names what it holds.
#[verifier::external_body]
pub struct CommandChannel {
    channel: embassy_sync::channel::Channel<
        embassy_sync::blocking_mutex::raw::NoopRawMutex,
        MachineCommand,
        4,
    >,
}

/// The commands a channel holds, oldest first.
pub uninterp spec fn queued(channel: CommandChannel) -> Seq<CommandModel>;

/// `Channel::new`: a channel that holds nothing.
#[verifier::external_body]
fn channel_new() -> (r: CommandChannel)
    ensures
        queued(r) == Seq::<CommandModel>::empty(),
{
    CommandChannel { channel: embassy_sync::channel::Channel::new() }
}

/// `Channel::try_send`: appends the message, or hands it back when the channel
/// already holds four. The result says only which of the two it was.
#[verifier::external_body]
fn channel_try_send(channel: &mut CommandChannel, message: MachineCommand) -> (accepted: bool)
    ensures
        accepted == (queued(*old(channel)).len() < 4),
        accepted ==> queued(*final(channel)) == queued(*old(channel)).push(message@),
        !accepted ==> queued(*final(channel)) == queued(*old(channel)),
{
    channel.channel.try_send(message).is_ok()
}

/// `Channel::try_receive`: takes out the oldest message, or nothing when the
/// channel holds none.
#[verifier::external_body]
fn channel_try_receive(channel: &mut CommandChannel) -> (message: Option<MachineCommand>)
    ensures
        message is Some == (queued(*old(channel)).len() > 0),
        message is Some ==> message->0@ == queued(*old(channel))[0] && queued(*final(channel))
            == queued(*old(channel)).skip(1),
        message is None ==> queued(*final(channel)) == queued(*old(channel)),
{
    channel.channel.try_receive().ok()
}

/// Commands headed for the coordinator.
///
/// This is a queue because it has several independent producers — the buttons
/// and the web API — and every one of their commands means something
/// different: a single slot would let two of them collapse into one. Ordering
/// matters too: a `Stop` followed by a start command must arrive as two
/// separate events.
///
/// Every accepted command gets the next ticket. Commands are served in the
/// order they were accepted, so the tickets served so far are all those up to
/// the last one.
pub struct CommandQueue {
    channel: CommandChannel,
    issued: u32,
    served: u32,
    in_service: bool,
}

/// What a [`CommandQueue`] holds.
#[verifier::ext_equal]
pub struct QueueModel {
    /// Commands not yet taken, oldest first.
    pub waiting: Seq<CommandModel>,
    /// Ticket of the last command accepted.
    pub issued: u32,
    /// Ticket of the last command served.
    pub served: u32,
    /// A command was taken and not served yet.
    pub in_service: bool,
}

/// The ticket `n` places after `ticket`; tickets wrap around.
pub open spec fn ticket_after(ticket: u32, n: int) -> u32 {
    ((ticket + n) % 0x1_0000_0000) as u32
}

impl QueueModel {
    /// Commands accepted and not served yet.
    pub open spec fn outstanding(self) -> int {
        self.waiting.len() + if self.in_service {
            1int
        } else {
            0int
        }
    }

    /// The last ticket issued lies as many places after the last one served as
    /// there are commands outstanding.
    pub open spec fn wf(self) -> bool {
        &&& self.waiting.len() <= 4
        &&& self.issued == ticket_after(self.served, self.outstanding())
    }

    pub open spec fn empty() -> QueueModel {
        QueueModel { waiting: Seq::empty(), issued: 0, served: 0, in_service: false }
    }

    /// There is room for another command.
    pub open spec fn accepts(self) -> bool {
        self.waiting.len() < 4
    }

    /// The ticket of the next command accepted.
    pub open spec fn next_ticket(self) -> u32 {
        ticket_after(self.served, self.outstanding() + 1)
    }

    /// With a command behind those waiting.
    pub open spec fn sent(self, cmd: CommandModel) -> QueueModel {
        QueueModel { waiting: self.waiting.push(cmd), issued: self.next_ticket(), ..self }
    }

    /// With the oldest command taken out.
    pub open spec fn taken(self) -> QueueModel {
        QueueModel { waiting: self.waiting.skip(1), in_service: true, ..self }
    }

    /// With the command taken last acknowledged.
    pub open spec fn acknowledged(self) -> QueueModel {
        QueueModel { served: ticket_after(self.served, 1), in_service: false, ..self }
    }

    /// With `n` commands taken and acknowledged in turn.
    pub open spec fn after_serving(self, n: nat) -> QueueModel
        decreases n,
    {
        if n == 0 {
            self
        } else {
            self.after_serving((n - 1) as nat).taken().acknowledged()
        }
    }
}

impl View for CommandQueue {
    type V = QueueModel;

    closed spec fn view(&self) -> QueueModel {
        QueueModel {
            waiting: queued(self.channel),
            issued: self.issued,
            served: self.served,
            in_service: self.in_service,
        }
    }
}

impl CommandQueue {
    pub fn new() -> (r: CommandQueue)
        ensures
            r@ == QueueModel::empty(),
            r@.wf(),
    {
        CommandQueue { channel: channel_new(), issued: 0, served: 0, in_service: false }
    }
}

/// Queues a command for the coordinator, dropping it if the queue is full.
///
/// Deliberately non-blocking: the callers are the button poller and HTTP
/// request handlers, which must not stall waiting on the coordinator. The
/// ticket of an accepted command is the one the acknowledgement reaches once
/// this command, and every one before it, has been served.
pub fn send_command(queue: &mut CommandQueue, cmd: MachineCommand) -> (ticket: Option<u32>)
    requires
        old(queue)@.wf(),
    ensures
        final(queue)@.wf(),
        old(queue)@.accepts() ==> ticket == Some(old(queue)@.next_ticket()) && final(queue)@ == old(
            queue,
        )@.sent(cmd@),
        !old(queue)@.accepts() ==> ticket is None && final(queue)@ == old(queue)@,
{
    if channel_try_send(&mut queue.channel, cmd) {
        queue.issued = queue.issued.wrapping_add(1);
        Some(queue.issued)
    } else {
        None
    }
}

/// Takes the oldest queued command. Single-consumer: only the coordinator
/// calls this, once it has served the one before.
pub fn next_command(queue: &mut CommandQueue) -> (cmd: Option<MachineCommand>)
    requires
        old(queue)@.wf(),
        !old(queue)@.in_service,
    ensures
        final(queue)@.wf(),
        old(queue)@.waiting.len() > 0 ==> {
            &&& cmd is Some && cmd->0@ == old(queue)@.waiting[0]
            &&& final(queue)@ == old(queue)@.taken()
        },
        old(queue)@.waiting.len() == 0 ==> cmd is None && final(queue)@ == old(queue)@,
{
    let cmd: Option<MachineCommand> = channel_try_receive(&mut queue.channel);
    if cmd.is_some() {
        queue.in_service = true;
    }
    cmd
}

/// Acknowledges the command taken last, once it has been acted on.
pub fn mark_served(queue: &mut CommandQueue)
    requires
        old(queue)@.wf(),
        old(queue)@.in_service,
    ensures
        final(queue)@.wf(),
        final(queue)@ == old(queue)@.acknowledged(),
{
    queue.served = queue.served.wrapping_add(1);
    queue.in_service = false;
}

/// Highest command ticket the coordinator has served.
pub fn get_ack(queue: &CommandQueue) -> (r: u32)
    ensures
        r == queue@.served,
{
    queue.served
}

// ==========================================
// SNAPSHOTS
// ==========================================

/// Filtered analog readings.
#[derive(Clone, Copy, Debug)]
pub struct SensorReading {
    pub pressure_bar: Single,
    pub temp_c: Single,
}

impl SensorReading {
    /// A cold machine without pressure.
    pub open spec fn cold() -> SensorReading {
        SensorReading { pressure_bar: Single::whole(0), temp_c: Single::whole(20) }
    }
}

impl Default for SensorReading {
    /// Not zero: a 0 degree boiler is a huge error to the temperature PID, and
    /// this is what the control loop reads on the first ticks after boot,
    /// before the ADC has published anything.
    fn default() -> (r: SensorReading)
        ensures
            r == SensorReading::cold(),
    {
        SensorReading { pressure_bar: Single::from_u32(0), temp_c: Single::from_u32(20) }
    }
}

/// The latest filtered sensor reading, or a plausible cold-machine reading if
/// the ADC has not published yet.
pub fn get_sensors(published: Option<SensorReading>) -> (r: SensorReading)
    ensures
        r == (match published {
            Some(s) => s,
            None => SensorReading::cold(),
        }),
{
    match published {
        Some(s) => s,
        None => SensorReading::default(),
    }
}

/// Everything the UI and the LEDs need to render the machine, published as one
/// snapshot once per 50 Hz control tick, so every field in a given snapshot
/// describes the same tick.
#[derive(Clone, Copy, Debug)]
pub struct Telemetry {
    /// Control-loop tick this snapshot describes. Lets a consumer tell a
    /// duplicate sample from a fresh one, and count frames it never saw.
    pub tick: u32,
    pub pressure_bar: Single,
    pub temp_c: Single,
    /// Setpoint the profile asked for. 0 whenever the pump is under flow
    /// control, which ignores pressure entirely.
    pub target_bar: Single,
    /// Setpoint the pressure PID chased this tick, or 0 when the pressure loop
    /// isn't running (idle, direct pump, or flow control).
    pub effective_target_bar: Single,
    pub target_temp: Single,
    /// `target_temp` plus the brew-flow feed-forward — what the temperature PID
    /// actually chased.
    pub effective_target_temp: Single,
    pub flow_limit_ml_s: Single,
    pub flow_rate_ml_s: Single,
    pub volume_ml: Single,
    /// True while the flow channel is what holds the pump back.
    pub flow_controlled: bool,
    pub heater_duty: Single,
    /// Triac duty the pump was driven at this tick, 0-100.
    pub pump_duty: Single,
}

/// A temperature with the boiler offset taken off, or 0 for a heater that is
/// off.
pub open spec fn without_offset(v: Single, offset: Single) -> Single {
    if v.positive() {
        v.minus(offset)
    } else {
        Single::whole(0)
    }
}

impl Telemetry {
    /// A cold machine that does nothing.
    pub open spec fn cold() -> Telemetry {
        Telemetry {
            tick: 0,
            pressure_bar: Single::whole(0),
            temp_c: Single::whole(20),
            target_bar: Single::whole(0),
            effective_target_bar: Single::whole(0),
            target_temp: Single::whole(20),
            effective_target_temp: Single::whole(20),
            flow_limit_ml_s: Single::whole(0),
            flow_rate_ml_s: Single::whole(0),
            volume_ml: Single::whole(0),
            flow_controlled: false,
            heater_duty: Single::whole(0),
            pump_duty: Single::whole(0),
        }
    }

    /// Temperature, setpoint and effective setpoint as they are shown: those of
    /// the boiler while it steams, those of the group head otherwise.
    pub open spec fn temps_shown(self, offset: Single, is_steaming: bool) -> (
        Single,
        Single,
        Single,
    ) {
        if is_steaming {
            (self.temp_c, self.target_temp, self.effective_target_temp)
        } else {
            (
                self.temp_c.minus(offset),
                without_offset(self.target_temp, offset),
                without_offset(self.effective_target_temp, offset),
            )
        }
    }

    /// Returns `(display_temp, display_target_temp, display_effective_target)`
    /// with the boiler offset subtracted for non-steam modes.
    pub fn display_temps(&self, offset: Single, is_steaming: bool) -> (r: (Single, Single, Single))
        ensures
            r == self.temps_shown(offset, is_steaming),
    {
        if is_steaming {
            (self.temp_c, self.target_temp, self.effective_target_temp)
        } else {
            (
                self.temp_c.sub(offset),
                take_off(self.target_temp, offset),
                take_off(self.effective_target_temp, offset),
            )
        }
    }
}

fn take_off(v: Single, offset: Single) -> (r: Single)
    ensures
        r == without_offset(v, offset),
{
    if v.is_positive() {
        v.sub(offset)
    } else {
        Single::from_u32(0)
    }
}

/// The latest telemetry snapshot, or a plausible cold-machine reading if no
/// producer has published yet — callers would otherwise see a 0 degree boiler
/// for the first few milliseconds after boot and act on it.
pub fn get_telemetry(published: Option<Telemetry>) -> (r: Telemetry)
    ensures
        r == (match published {
            Some(t) => t,
            None => Telemetry::cold(),
        }),
{
    match published {
        Some(t) => t,
        None => {
            let zero: Single = Single::from_u32(0);
            let room: Single = Single::from_u32(20);
            Telemetry {
                tick: 0,
                pressure_bar: zero,
                temp_c: room,
                target_bar: zero,
                effective_target_bar: zero,
                target_temp: room,
                effective_target_temp: room,
                flow_limit_ml_s: zero,
                flow_rate_ml_s: zero,
                volume_ml: zero,
                flow_controlled: false,
                heater_duty: zero,
                pump_duty: zero,
            }
        },
    }
}

// ==========================================
// SHARED CELLS
// ==========================================

/// The state a raw cell value stands for. The cell is only ever written by
/// [`set_state`], so it always matches a state; Idle is a safe fallback
/// regardless.
pub fn get_state(raw: u8) -> (r: MachineState)
    ensures
        r == MachineState::of_code(raw),
{
    match raw {
        1 => MachineState::Brewing,
        2 => MachineState::Steaming,
        3 => MachineState::Sleeping,
        4 => MachineState::Pumping,
        5 => MachineState::Cooling,
        6 => MachineState::HotWater,
        _ => MachineState::Idle,
    }
}

/// Stores `state`, reporting whether it differs from the one before and is to
/// be announced.
pub fn set_state(raw: &mut u8, state: MachineState) -> (changed: bool)
    ensures
        changed == (MachineState::of_code(*old(raw)) != state),
        MachineState::of_code(*final(raw)) == state,
        !changed ==> *final(raw) == *old(raw),
        changed ==> *final(raw) == state.code_of(),
{
    let old_state: MachineState = get_state(*raw);
    if old_state != state {
        *raw = state.code();
        true
    } else {
        false
    }
}

pub fn get_session_brew_temp(raw: u32) -> (r: Single)
    ensures
        r.bits == raw,
{
    Single::from_bits(raw)
}

pub fn set_session_brew_temp(raw: &mut u32, temp: Single)
    ensures
        *final(raw) == temp.bits,
{
    *raw = temp.to_bits();
}

/// No two states share a number, and each is read back from its own.
pub proof fn law_state_codes_round_trip(state: MachineState)
    ensures
        MachineState::of_code(state.code_of()) == state,
{
}

proof fn lemma_after_serving(queue: QueueModel, n: nat)
    requires
        queue.wf(),
        !queue.in_service,
        n <= queue.waiting.len(),
    ensures
        ({
            let after = queue.after_serving(n);
            &&& after.wf()
            &&& !after.in_service
            &&& after.waiting == queue.waiting.skip(n as int)
            &&& after.served == ticket_after(queue.served, n as int)
            &&& after.issued == queue.issued
        }),
    decreases n,
{
    if n == 0 {
        assert(queue.waiting.skip(0) =~= queue.waiting);
    } else {
        lemma_after_serving(queue, (n - 1) as nat);
        assert(queue.waiting.skip(n - 1).skip(1) =~= queue.waiting.skip(n as int));
    }
}

/// Commands are taken in the order they were sent: a command is the next one
/// exactly when all those that waited before it have been served.
pub proof fn law_commands_are_taken_in_order(queue: QueueModel, cmd: CommandModel, n: nat)
    requires
        queue.wf(),
        !queue.in_service,
        queue.accepts(),
        n <= queue.waiting.len(),
    ensures
        queue.sent(cmd).after_serving(n).waiting[0] == if n < queue.waiting.len() {
            queue.waiting[n as int]
        } else {
            cmd
        },
{
    assert(queue.sent(cmd).outstanding() == queue.outstanding() + 1);
    lemma_after_serving(queue.sent(cmd), n);
}

/// A client that watches for its ticket learns when its command was served:
/// the acknowledgement reaches the ticket once every command before it and it
/// itself have been served, and not before.
pub proof fn law_ack_reaches_the_ticket_when_served(
    queue: QueueModel,
    cmd: CommandModel,
    servings: nat,
)
    requires
        queue.wf(),
        !queue.in_service,
        queue.accepts(),
        servings <= queue.waiting.len() + 1,
    ensures
        queue.sent(cmd).after_serving(servings).served == queue.next_ticket() <==> servings
            == queue.waiting.len() + 1,
{
    assert(queue.sent(cmd).outstanding() == queue.outstanding() + 1);
    lemma_after_serving(queue.sent(cmd), servings);
}

} // verus!
