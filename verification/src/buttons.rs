//! Front-panel buttons: debouncing and the command each one stands for.

use crate::state::MachineCommand;
use vstd::prelude::*;

verus! {

/// Consecutive agreeing samples before a level change is believed. At a 10 ms
/// poll interval, 5 samples is a 50 ms debounce.
pub const DEBOUNCE_SAMPLES: u8 = 5;

pub struct Debouncer {
    command: MachineCommand,
    pressed: bool,
    count: u8,
}

/// What a [`Debouncer`] holds, but for its command.
#[derive(Clone, Copy, Debug, PartialEq, Eq, Structural)]
pub struct DebounceModel {
    /// The level that is believed.
    pub pressed: bool,
    /// Samples in a row that disagreed with it.
    pub count: u8,
}

impl DebounceModel {
    pub open spec fn wf(self) -> bool {
        self.count < DEBOUNCE_SAMPLES
    }

    /// A button believed at its first sample.
    pub open spec fn first(low: bool) -> DebounceModel {
        DebounceModel { pressed: low, count: 0 }
    }

    /// Samples in a row that disagree with the believed level, this one
    /// included: one that agrees starts the count anew.
    pub open spec fn counted(self, low: bool) -> int {
        if low == self.pressed {
            0
        } else {
            self.count + 1
        }
    }

    /// The level changes on the fifth sample in a row that disagrees with it.
    pub open spec fn polled(self, low: bool) -> DebounceModel {
        if self.counted(low) >= DEBOUNCE_SAMPLES {
            DebounceModel { pressed: low, count: 0 }
        } else {
            DebounceModel { pressed: self.pressed, count: self.counted(low) as u8 }
        }
    }

    /// The sample completes a press.
    pub open spec fn reports(self, low: bool) -> bool {
        !self.pressed && self.polled(low).pressed
    }

    /// The button after a run of samples.
    pub open spec fn after(self, lows: Seq<bool>) -> DebounceModel
        decreases lows.len(),
    {
        if lows.len() == 0 {
            self
        } else {
            self.after(lows.drop_last()).polled(lows.last())
        }
    }
}

impl View for Debouncer {
    type V = DebounceModel;

    closed spec fn view(&self) -> DebounceModel {
        DebounceModel { pressed: self.pressed, count: self.count }
    }
}

impl Debouncer {
    /// The command the button stands for.
    pub closed spec fn command(&self) -> crate::state::CommandModel {
        self.command@
    }

    /// `low` is the line's level now: low means pressed.
    pub fn new(low: bool, command: MachineCommand) -> (r: Debouncer)
        ensures
            r@ == DebounceModel::first(low),
            r.command() == command@,
            r@.wf(),
    {
        Debouncer { command, pressed: low, count: 0 }
    }

    /// Returns `Some(command)` when the button transitions to the stable
    /// pressed state.
    pub fn poll(&mut self, low: bool) -> (r: Option<MachineCommand>)
        requires
            old(self)@.wf(),
        ensures
            final(self)@ == old(self)@.polled(low),
            final(self)@.wf(),
            final(self).command() == old(self).command(),
            r is Some == old(self)@.reports(low),
            r matches Some(cmd) ==> cmd@ == old(self).command(),
    {
        if low == self.pressed {
            self.count = 0;
            return None;
        }
        self.count = self.count + 1;
        if self.count < DEBOUNCE_SAMPLES {
            return None;
        }
        self.pressed = low;
        self.count = 0;
        if low {
            Some(self.command.clone())
        } else {
            None
        }
    }
}

/// The four buttons of the front panel.
pub struct Panel {
    power: Debouncer,
    brew: Debouncer,
    steam: Debouncer,
    flush: Debouncer,
}

impl View for Panel {
    type V = Seq<DebounceModel>;

    /// Power, brew, steam, flush.
    closed spec fn view(&self) -> Seq<DebounceModel> {
        seq![self.power@, self.brew@, self.steam@, self.flush@]
    }
}

/// The commands of the panel's buttons, in the order they are polled.
pub open spec fn panel_commands() -> Seq<crate::state::CommandModel> {
    seq![
        crate::state::CommandModel::TogglePower,
        crate::state::CommandModel::Brew,
        crate::state::CommandModel::Steam,
        crate::state::CommandModel::Flush,
    ]
}

/// The commands of the buttons whose press is completed by a round of samples,
/// out of the first `n`.
pub open spec fn completed(panel: Seq<DebounceModel>, lows: Seq<bool>, n: int) -> Seq<
    crate::state::CommandModel,
>
    decreases n,
{
    if n <= 0 {
        Seq::empty()
    } else if panel[n - 1].reports(lows[n - 1]) {
        completed(panel, lows, n - 1).push(panel_commands()[n - 1])
    } else {
        completed(panel, lows, n - 1)
    }
}

impl Panel {
    pub closed spec fn wf(&self) -> bool {
        &&& self.power.command() == panel_commands()[0]
        &&& self.brew.command() == panel_commands()[1]
        &&& self.steam.command() == panel_commands()[2]
        &&& self.flush.command() == panel_commands()[3]
        &&& self.power@.wf() && self.brew@.wf() && self.steam@.wf() && self.flush@.wf()
    }

    /// `lows` are the lines of power, brew, steam and flush.
    pub fn new(lows: [bool; 4]) -> (r: Panel)
        ensures
            r.wf(),
            r@ == Seq::new(4, |i: int| DebounceModel::first(lows@[i])),
    {
        let r: Panel = Panel {
            power: Debouncer::new(lows[0], MachineCommand::TogglePower),
            brew: Debouncer::new(lows[1], MachineCommand::Brew),
            steam: Debouncer::new(lows[2], MachineCommand::Steam),
            flush: Debouncer::new(lows[3], MachineCommand::Flush),
        };
        assert(r@ =~= Seq::new(4, |i: int| DebounceModel::first(lows@[i])));
        r
    }

    /// One round of samples: the commands to send, in order.
    pub fn poll(&mut self, lows: [bool; 4]) -> (commands: Vec<MachineCommand>)
        requires
            old(self).wf(),
        ensures
            final(self).wf(),
            final(self)@ == Seq::new(4, |i: int| old(self)@[i].polled(lows@[i])),
            commands@.map_values(|c: MachineCommand| c@) == completed(old(self)@, lows@, 4),
    {
        let mut commands: Vec<MachineCommand> = Vec::new();
        proof {
            reveal_with_fuel(completed, 5);
        }
        if let Some(cmd) = self.power.poll(lows[0]) {
            commands.push(cmd);
        }
        if let Some(cmd) = self.brew.poll(lows[1]) {
            commands.push(cmd);
        }
        if let Some(cmd) = self.steam.poll(lows[2]) {
            commands.push(cmd);
        }
        if let Some(cmd) = self.flush.poll(lows[3]) {
            commands.push(cmd);
        }
        assert(commands@.map_values(|c: MachineCommand| c@) =~= completed(old(self)@, lows@, 4));
        assert(self@ =~= Seq::new(4, |i: int| old(self)@[i].polled(lows@[i])));
        commands
    }
}

/// A press is reported once: a button believed pressed reports nothing, and
/// one that has just reported is believed pressed.
pub proof fn law_press_is_reported_once(button: DebounceModel, low: bool)
    ensures
        button.pressed ==> !button.reports(low),
        button.reports(low) ==> button.polled(low).pressed,
{
}

/// The last `n` samples of a run are all low.
pub open spec fn ends_low(lows: Seq<bool>, n: int) -> bool {
    n <= lows.len() && forall|i: int| lows.len() - n <= i < lows.len() ==> #[trigger] lows[i]
}

/// No five samples in a row are low, anywhere in a run.
pub open spec fn no_five_low(lows: Seq<bool>) -> bool {
    forall|n: int| 0 <= n <= lows.len() ==> !ends_low(#[trigger] lows.take(n), 5)
}

/// A released button is not believed pressed before five samples in a row have
/// been low, however often it bounces.
pub proof fn law_bounce_is_not_a_press(lows: Seq<bool>)
    requires
        no_five_low(lows),
    ensures
        !DebounceModel::first(false).after(lows).pressed,
        DebounceModel::first(false).after(lows).wf(),
        ends_low(lows, DebounceModel::first(false).after(lows).count as int),
    decreases lows.len(),
{
    if lows.len() > 0 {
        let rest = lows.drop_last();
        assert forall|n: int| 0 <= n <= rest.len() implies !ends_low(#[trigger] rest.take(n), 5) by {
            assert(rest.take(n) =~= lows.take(n));
        }
        law_bounce_is_not_a_press(rest);
        let before = DebounceModel::first(false).after(rest);
        let n = before.counted(lows.last());
        assert(ends_low(lows, n)) by {
            assert forall|i: int| lows.len() - n <= i < lows.len() implies #[trigger] lows[i] by {
                if i < rest.len() {
                    assert(rest[i]);
                }
            }
        }
        if n >= 5 {
            assert(lows.take(lows.len() as int) =~= lows);
        }
    }
}

/// A released button held low is reported on exactly the fifth sample.
pub proof fn law_held_button_is_reported_on_the_fifth_sample(n: nat)
    ensures
        ({
            let before = DebounceModel::first(false).after(Seq::new(n, |i: int| true));
            &&& before.reports(true) == (n + 1 == DEBOUNCE_SAMPLES)
            &&& before.count == if n < DEBOUNCE_SAMPLES {
                n as int
            } else {
                0
            }
            &&& before.pressed == (n >= DEBOUNCE_SAMPLES)
        }),
    decreases n,
{
    if n > 0 {
        law_held_button_is_reported_on_the_fifth_sample((n - 1) as nat);
        let run = Seq::new(n, |i: int| true);
        assert(run.drop_last() =~= Seq::new((n - 1) as nat, |i: int| true));
    }
}

/// One sample that agrees with the believed level forgets those before it that
/// did not.
pub proof fn law_agreeing_sample_starts_the_count_anew(button: DebounceModel)
    ensures
        button.polled(button.pressed) == DebounceModel::first(button.pressed),
{
}

} // verus!
