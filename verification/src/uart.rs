//! The serial link: the telemetry record it is sent, and the commands it
//! takes, one JSON object per line.

use crate::profiles::{BrewProfile, ProfileModel};
use crate::settings::{Settings, SettingsModel};
use crate::single::Single;
use crate::state::{CommandModel, MachineCommand, MachineState, Telemetry};
use crate::text::same_text;
use vstd::prelude::*;

verus! {

/// One telemetry record.
#[derive(Clone, Copy, Debug)]
pub struct UartTelemetry {
    pub st: u8,
    pub p: Single,
    pub tp: Single,
    pub t: Single,
    pub tt: Single,
    pub fl: Single,
    pub vol: Single,
}

/// The record of a telemetry snapshot.
pub open spec fn record_of(a: Telemetry, state: MachineState) -> UartTelemetry {
    UartTelemetry {
        st: state.code_of(),
        p: a.pressure_bar,
        tp: a.target_bar,
        t: a.temp_c,
        tt: a.target_temp,
        fl: a.flow_rate_ml_s,
        vol: a.volume_ml,
    }
}

pub fn uart_telemetry(a: &Telemetry, state: MachineState) -> (r: UartTelemetry)
    ensures
        r == record_of(*a, state),
{
    UartTelemetry {
        st: state.code(),
        p: a.pressure_bar,
        tp: a.target_bar,
        t: a.temp_c,
        tt: a.target_temp,
        fl: a.flow_rate_ml_s,
        vol: a.volume_ml,
    }
}

/// A command as a line holds it.
pub struct UartCommand<'a> {
    pub cmd: &'a str,
    pub profile: Option<BrewProfile>,
    pub settings: Option<Settings>,
    pub power: Option<Single>,
}

/// What a [`UartCommand`] holds.
pub struct UartModel {
    pub cmd: Seq<char>,
    pub profile: Option<ProfileModel>,
    pub settings: Option<SettingsModel>,
    pub power: Option<Single>,
}

impl<'a> View for UartCommand<'a> {
    type V = UartModel;

    open spec fn view(&self) -> UartModel {
        UartModel {
            cmd: self.cmd@,
            profile: match self.profile {
                Some(p) => Some(p@),
                None => None,
            },
            settings: match self.settings {
                Some(s) => Some(s@),
                None => None,
            },
            power: self.power,
        }
    }
}

/// The machine commands a line's command stands for, in order; none for a name
/// that none has, or without a field it needs. Raw pumping stops whatever runs
/// first.
pub open spec fn commands_for(payload: UartModel) -> Seq<CommandModel> {
    if payload.cmd == "stop"@ {
        seq![CommandModel::Stop]
    } else if payload.cmd == "brew"@ {
        seq![CommandModel::Brew]
    } else if payload.cmd == "steam"@ {
        seq![CommandModel::Steam]
    } else if payload.cmd == "flush"@ {
        seq![CommandModel::Flush]
    } else if payload.cmd == "descale"@ {
        seq![CommandModel::Descale]
    } else if payload.cmd == "direct_pump"@ {
        match payload.power {
            Some(p) => seq![CommandModel::Stop, CommandModel::DirectPump(p)],
            None => seq![CommandModel::Stop],
        }
    } else if payload.cmd == "profile"@ {
        match payload.profile {
            Some(p) => seq![CommandModel::RunProfile(p)],
            None => seq![],
        }
    } else if payload.cmd == "save_settings"@ {
        match payload.settings {
            Some(s) => seq![CommandModel::SaveSettings(s)],
            None => seq![],
        }
    } else {
        seq![]
    }
}

/// The machine commands to queue for a line's command, in order.
pub fn handle_command(payload: UartCommand<'_>) -> (r: Vec<MachineCommand>)
    ensures
        r@.map_values(|c: MachineCommand| c@) == commands_for(payload@),
{
    let ghost model = payload@;
    let mut r: Vec<MachineCommand> = Vec::new();
    if same_text(payload.cmd, "stop") {
        r.push(MachineCommand::Stop);
    } else if same_text(payload.cmd, "brew") {
        r.push(MachineCommand::Brew);
    } else if same_text(payload.cmd, "steam") {
        r.push(MachineCommand::Steam);
    } else if same_text(payload.cmd, "flush") {
        r.push(MachineCommand::Flush);
    } else if same_text(payload.cmd, "descale") {
        r.push(MachineCommand::Descale);
    } else if same_text(payload.cmd, "direct_pump") {
        r.push(MachineCommand::Stop);
        if let Some(p) = payload.power {
            r.push(MachineCommand::DirectPump(p));
        }
    } else if same_text(payload.cmd, "profile") {
        if let Some(p) = payload.profile {
            r.push(MachineCommand::RunProfile(p));
        }
    } else if same_text(payload.cmd, "save_settings") {
        if let Some(s) = payload.settings {
            r.push(MachineCommand::SaveSettings(s));
        }
    }
    assert(r@.map_values(|c: MachineCommand| c@) =~= commands_for(model));
    r
}

} // verus!
