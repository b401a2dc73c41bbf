//! Machine settings: their values, their RAM copy, and how they are kept in
//! flash.

use crate::bounded::{text32_clone, text32_from, text64_clone, text64_new};
use crate::profiles::{delete_profile_from_flash, get_profile_from_ram, save_profile_to_flash};
use crate::profiles::{BrewProfile, ProfileCache};
use crate::single::Single;
use crate::state::MachineState;
use vstd::prelude::*;

verus! {

#[derive(Clone, Copy, Debug, PartialEq)]
pub struct MachineSettings {
    pub brew_temp: Single,
    pub steam_temp: Single,
    pub steam_time_limit_s: Single,
    /// Minutes of inactivity while Idle before the machine auto-sleeps.
    pub sleep_timeout_min: Single,
    /// Degrees between the boiler sensor and the group head / puck. Added to
    /// the session brew temperature to form the boiler setpoint and subtracted
    /// again for display. A cooldown flush also uses it to stop early, once
    /// the boiler reaches `brew_temp + 2 * temp_offset`.
    pub temp_offset: Single,
    pub flow_pulses_per_liter: Single,
    /// Unused since flow limiting became a dedicated PID on pump duty
    /// (`Settings::flow_pid`). Kept only so existing `sys_machine` sections in
    /// flash still parse.
    pub flow_limit_kp: Single,
    /// Scales the flow-proportional temperature feed-forward applied during a
    /// brew, as a percentage of the built-in nominal gain: 100 = nominal,
    /// 0 = disabled.
    pub feed_forward_percents: Single,
}

#[derive(Clone, Copy, Debug, PartialEq)]
pub struct PidSettings {
    pub kp: Single,
    pub ki: Single,
    pub kd: Single,
}

pub struct WifiSettings {
    pub ssid: heapless::String<32>,
    pub password: heapless::String<64>,
}

/// What a [`WifiSettings`] holds.
pub struct WifiModel {
    pub ssid: Seq<char>,
    pub password: Seq<char>,
}

impl View for WifiSettings {
    type V = WifiModel;

    open spec fn view(&self) -> WifiModel {
        WifiModel {
            ssid: crate::bounded::text32(self.ssid),
            password: crate::bounded::text64(self.password),
        }
    }
}

impl Clone for WifiSettings {
    fn clone(&self) -> (r: WifiSettings)
        ensures
            r@ == self@,
    {
        WifiSettings { ssid: text32_clone(&self.ssid), password: text64_clone(&self.password) }
    }
}

// ==========================================
// DATA - Pure settings values
// ==========================================

pub struct Settings {
    pub machine: MachineSettings,
    pub temp_pid: PidSettings,
    pub press_pid: PidSettings,
    /// Drives pump duty directly from the flow error whenever a profile step
    /// asks for a flow rate. Output units are 0-100 % triac duty.
    pub flow_pid: PidSettings,
    pub wifi: WifiSettings,
}

/// What a [`Settings`] holds.
pub struct SettingsModel {
    pub machine: MachineSettings,
    pub temp_pid: PidSettings,
    pub press_pid: PidSettings,
    pub flow_pid: PidSettings,
    pub wifi: WifiModel,
}

impl View for Settings {
    type V = SettingsModel;

    open spec fn view(&self) -> SettingsModel {
        SettingsModel {
            machine: self.machine,
            temp_pid: self.temp_pid,
            press_pid: self.press_pid,
            flow_pid: self.flow_pid,
            wifi: self.wifi@,
        }
    }
}

impl SettingsModel {
    /// Single source of truth for defaults.
    pub open spec fn defaults() -> SettingsModel {
        SettingsModel {
            machine: MachineSettings {
                brew_temp: Single::whole(92),
                steam_temp: Single::whole(135),
                steam_time_limit_s: Single::whole(120),
                sleep_timeout_min: Single::whole(20),
                temp_offset: Single::whole(10),
                // 49162 physical pulses per liter, two edges per pulse.
                flow_pulses_per_liter: Single::whole(98324),
                flow_limit_kp: Single::fraction(25, 1000),
                feed_forward_percents: Single::whole(100),
            },
            temp_pid: PidSettings {
                kp: Single::whole(8),
                ki: Single::fraction(8, 10),
                kd: Single::whole(20),
            },
            press_pid: PidSettings {
                kp: Single::whole(10),
                ki: Single::whole(20),
                kd: Single::whole(0),
            },
            flow_pid: PidSettings {
                kp: Single::whole(4),
                ki: Single::whole(30),
                kd: Single::whole(0),
            },
            wifi: WifiModel { ssid: Seq::empty(), password: Seq::empty() },
        }
    }

    /// The part the control loop reads.
    pub open spec fn control(self) -> ControlSettings {
        ControlSettings {
            machine: self.machine,
            temp_pid: self.temp_pid,
            press_pid: self.press_pid,
            flow_pid: self.flow_pid,
        }
    }
}

impl Default for Settings {
    fn default() -> (r: Settings)
        ensures
            r@ == SettingsModel::defaults(),
    {
        proof {
            reveal_strlit("");
            vstd::string::is_ascii_spec_bytes("");
        }
        let ssid: heapless::String<32> = text32_from("").unwrap();
        assert(""@ =~= Seq::<char>::empty());
        Settings {
            machine: MachineSettings {
                brew_temp: Single::from_u32(92),
                steam_temp: Single::from_u32(135),
                steam_time_limit_s: Single::from_u32(120),
                sleep_timeout_min: Single::from_u32(20),
                temp_offset: Single::from_u32(10),
                flow_pulses_per_liter: Single::from_u32(98324),
                flow_limit_kp: Single::ratio(25, 1000),
                feed_forward_percents: Single::from_u32(100),
            },
            temp_pid: PidSettings {
                kp: Single::from_u32(8),
                ki: Single::ratio(8, 10),
                kd: Single::from_u32(20),
            },
            press_pid: PidSettings {
                kp: Single::from_u32(10),
                ki: Single::from_u32(20),
                kd: Single::from_u32(0),
            },
            flow_pid: PidSettings {
                kp: Single::from_u32(4),
                ki: Single::from_u32(30),
                kd: Single::from_u32(0),
            },
            wifi: WifiSettings { ssid, password: text64_new() },
        }
    }
}

impl Clone for Settings {
    fn clone(&self) -> (r: Settings)
        ensures
            r@ == self@,
    {
        Settings {
            machine: self.machine,
            temp_pid: self.temp_pid,
            press_pid: self.press_pid,
            flow_pid: self.flow_pid,
            wifi: self.wifi.clone(),
        }
    }
}

// ==========================================
// CONTROL SETTINGS - Cheap hot-path snapshot
// ==========================================

/// Subset of `Settings` the real-time control loop needs. Kept `Copy` so the
/// loop can grab the latest values on every tick without touching unrelated
/// fields.
#[derive(Clone, Copy, Debug, PartialEq)]
pub struct ControlSettings {
    pub machine: MachineSettings,
    pub temp_pid: PidSettings,
    pub press_pid: PidSettings,
    pub flow_pid: PidSettings,
}

impl From<&Settings> for ControlSettings {
    /// The single place the control-relevant subset is spelled out.
    fn from(s: &Settings) -> (r: ControlSettings) {
        ControlSettings {
            machine: s.machine,
            temp_pid: s.temp_pid,
            press_pid: s.press_pid,
            flow_pid: s.flow_pid,
        }
    }
}

impl vstd::std_specs::convert::FromSpecImpl<&Settings> for ControlSettings {
    open spec fn obeys_from_spec() -> bool {
        true
    }

    open spec fn from_spec(s: &Settings) -> ControlSettings {
        s@.control()
    }
}

impl Default for ControlSettings {
    fn default() -> (r: ControlSettings)
        ensures
            r == SettingsModel::defaults().control(),
    {
        ControlSettings::from(&Settings::default())
    }
}

impl ControlSettings {
    /// Latest control-relevant settings: the published snapshot, or the
    /// defaults before anything was published.
    pub fn current(published: Option<ControlSettings>) -> (r: ControlSettings)
        ensures
            r == current_control(published),
    {
        match published {
            Some(s) => s,
            None => ControlSettings::default(),
        }
    }
}

pub open spec fn current_control(published: Option<ControlSettings>) -> ControlSettings {
    match published {
        Some(s) => s,
        None => SettingsModel::defaults().control(),
    }
}

// ==========================================
// RAM CACHE - Live settings state
// ==========================================

/// The live settings, and the snapshot of them published to the control loop.
pub struct SettingsRam {
    pub settings: Settings,
    pub published: Option<ControlSettings>,
}

impl SettingsRam {
    /// The control loop sees what the settings say.
    pub open spec fn in_step(self) -> bool {
        current_control(self.published) == self.settings@.control()
    }

    /// Defaults, before flash has been read.
    pub fn new() -> (r: SettingsRam)
        ensures
            r.settings@ == SettingsModel::defaults(),
            r.published is None,
            r.in_step(),
    {
        SettingsRam { settings: Settings::default(), published: None }
    }
}

impl Settings {
    pub fn get(ram: &SettingsRam) -> (r: Settings)
        ensures
            r@ == ram.settings@,
    {
        ram.settings.clone()
    }

    /// Replaces the live settings and publishes their control-relevant part.
    pub fn update_ram(ram: &mut SettingsRam, new_settings: Settings)
        ensures
            final(ram).settings == new_settings,
            final(ram).published == Some(new_settings@.control()),
            final(ram).in_step(),
    {
        ram.published = Some(ControlSettings::from(&new_settings));
        ram.settings = new_settings;
    }
}

// ==========================================
// FLASH PERSISTENCE - Load/save settings
// ==========================================

/// The settings sections, each of which is stored under a key of its own.
#[derive(Clone, Copy, Debug, PartialEq, Eq, Structural)]
pub enum Section {
    Machine,
    TempPid,
    PressPid,
    FlowPid,
    Wifi,
}

impl Section {
    pub open spec fn key_text(self) -> Seq<char> {
        match self {
            Section::Machine => "sys_machine"@,
            Section::TempPid => "sys_temp_pid"@,
            Section::PressPid => "sys_press_pid"@,
            Section::FlowPid => "sys_flow_pid"@,
            Section::Wifi => "sys_wifi"@,
        }
    }

    /// The key the section is stored under.
    pub fn key(self) -> (r: &'static str)
        ensures
            r@ == self.key_text(),
    {
        match self {
            Section::Machine => "sys_machine",
            Section::TempPid => "sys_temp_pid",
            Section::PressPid => "sys_press_pid",
            Section::FlowPid => "sys_flow_pid",
            Section::Wifi => "sys_wifi",
        }
    }
}

/// No two sections share a key.
pub proof fn law_section_keys_are_distinct(a: Section, b: Section)
    requires
        a != b,
    ensures
        a.key_text() != b.key_text(),
{
    reveal_strlit("sys_machine");
    reveal_strlit("sys_temp_pid");
    reveal_strlit("sys_press_pid");
    reveal_strlit("sys_flow_pid");
    reveal_strlit("sys_wifi");
    if a.key_text() == b.key_text() {
        assert(a.key_text().len() == b.key_text().len());
        assert(a.key_text()[4] == b.key_text()[4]);
    }
}

/// The settings sections found in flash; absent where nothing is stored or
/// what is stored does not parse.
pub struct StoredSections {
    pub machine: Option<MachineSettings>,
    pub temp_pid: Option<PidSettings>,
    pub press_pid: Option<PidSettings>,
    pub flow_pid: Option<PidSettings>,
    pub wifi: Option<WifiSettings>,
}

/// What a [`StoredSections`] holds.
pub struct StoredModel {
    pub machine: Option<MachineSettings>,
    pub temp_pid: Option<PidSettings>,
    pub press_pid: Option<PidSettings>,
    pub flow_pid: Option<PidSettings>,
    pub wifi: Option<WifiModel>,
}

impl View for StoredSections {
    type V = StoredModel;

    open spec fn view(&self) -> StoredModel {
        StoredModel {
            machine: self.machine,
            temp_pid: self.temp_pid,
            press_pid: self.press_pid,
            flow_pid: self.flow_pid,
            wifi: match self.wifi {
                Some(w) => Some(w@),
                None => None,
            },
        }
    }
}

impl StoredModel {
    pub open spec fn any(self) -> bool {
        self.machine is Some || self.temp_pid is Some || self.press_pid is Some
            || self.flow_pid is Some || self.wifi is Some
    }

    /// The defaults with each stored section in place of its default.
    pub open spec fn over_defaults(self) -> SettingsModel {
        let d = SettingsModel::defaults();
        SettingsModel {
            machine: if self.machine is Some { self.machine->0 } else { d.machine },
            temp_pid: if self.temp_pid is Some { self.temp_pid->0 } else { d.temp_pid },
            press_pid: if self.press_pid is Some { self.press_pid->0 } else { d.press_pid },
            flow_pid: if self.flow_pid is Some { self.flow_pid->0 } else { d.flow_pid },
            wifi: if self.wifi is Some { self.wifi->0 } else { d.wifi },
        }
    }

    /// What is stored once a change is written.
    pub open spec fn written(self, write: FlashWriteModel) -> StoredModel {
        match write {
            FlashWriteModel::Machine(m) => StoredModel { machine: Some(m), ..self },
            FlashWriteModel::TempPid(p) => StoredModel { temp_pid: Some(p), ..self },
            FlashWriteModel::PressPid(p) => StoredModel { press_pid: Some(p), ..self },
            FlashWriteModel::FlowPid(p) => StoredModel { flow_pid: Some(p), ..self },
            FlashWriteModel::Wifi(w) => StoredModel { wifi: Some(w), ..self },
            _ => self,
        }
    }

    pub open spec fn written_all(self, writes: Seq<FlashWriteModel>) -> StoredModel
        decreases writes.len(),
    {
        if writes.len() == 0 {
            self
        } else {
            self.written_all(writes.drop_last()).written(writes.last())
        }
    }
}

pub struct SettingsStore;

impl SettingsStore {
    /// Populates the RAM cache from the sections found in flash, reporting
    /// whether there was any.
    pub fn load(ram: &mut SettingsRam, stored: StoredSections) -> (loaded: bool)
        ensures
            final(ram).settings@ == stored@.over_defaults(),
            final(ram).in_step(),
            loaded == stored@.any(),
    {
        let mut s: Settings = Settings::default();
        let mut loaded: bool = false;
        if let Some(machine) = stored.machine {
            s.machine = machine;
            loaded = true;
        }
        if let Some(pid) = stored.temp_pid {
            s.temp_pid = pid;
            loaded = true;
        }
        if let Some(pid) = stored.press_pid {
            s.press_pid = pid;
            loaded = true;
        }
        if let Some(pid) = stored.flow_pid {
            s.flow_pid = pid;
            loaded = true;
        }
        if let Some(wifi) = stored.wifi {
            s.wifi = wifi;
            loaded = true;
        }
        Settings::update_ram(ram, s);
        loaded
    }
}

// ==========================================
// BACKGROUND FLASH EVENT HANDLER
// ==========================================

pub enum FlashUpdate {
    /// Every section.
    SaveSettings(Settings),
    SaveMachine(MachineSettings),
    /// (temp, pressure, flow). Flow is optional so an older UI that only knows
    /// about two PIDs leaves the flow gains untouched instead of zeroing them.
    SavePids(PidSettings, PidSettings, Option<PidSettings>),
    SaveWifi(WifiSettings),
    SaveProfile(u8),
    DeleteProfile(u8),
}

/// What a [`FlashUpdate`] holds.
pub enum FlashUpdateModel {
    SaveSettings(SettingsModel),
    SaveMachine(MachineSettings),
    SavePids(PidSettings, PidSettings, Option<PidSettings>),
    SaveWifi(WifiModel),
    SaveProfile(u8),
    DeleteProfile(u8),
}

impl View for FlashUpdate {
    type V = FlashUpdateModel;

    open spec fn view(&self) -> FlashUpdateModel {
        match *self {
            FlashUpdate::SaveSettings(s) => FlashUpdateModel::SaveSettings(s@),
            FlashUpdate::SaveMachine(m) => FlashUpdateModel::SaveMachine(m),
            FlashUpdate::SavePids(t, p, f) => FlashUpdateModel::SavePids(t, p, f),
            FlashUpdate::SaveWifi(w) => FlashUpdateModel::SaveWifi(w@),
            FlashUpdate::SaveProfile(slot) => FlashUpdateModel::SaveProfile(slot),
            FlashUpdate::DeleteProfile(slot) => FlashUpdateModel::DeleteProfile(slot),
        }
    }
}

/// One change to the key/value store.
pub enum FlashWrite {
    Machine(MachineSettings),
    TempPid(PidSettings),
    PressPid(PidSettings),
    FlowPid(PidSettings),
    Wifi(WifiSettings),
    Profile([u8; 6], BrewProfile),
    RemoveProfile([u8; 6]),
}

/// What a [`FlashWrite`] holds.
pub enum FlashWriteModel {
    Machine(MachineSettings),
    TempPid(PidSettings),
    PressPid(PidSettings),
    FlowPid(PidSettings),
    Wifi(WifiModel),
    Profile(Seq<u8>, crate::profiles::ProfileModel),
    RemoveProfile(Seq<u8>),
}

impl View for FlashWrite {
    type V = FlashWriteModel;

    open spec fn view(&self) -> FlashWriteModel {
        match *self {
            FlashWrite::Machine(m) => FlashWriteModel::Machine(m),
            FlashWrite::TempPid(p) => FlashWriteModel::TempPid(p),
            FlashWrite::PressPid(p) => FlashWriteModel::PressPid(p),
            FlashWrite::FlowPid(p) => FlashWriteModel::FlowPid(p),
            FlashWrite::Wifi(w) => FlashWriteModel::Wifi(w@),
            FlashWrite::Profile(key, p) => FlashWriteModel::Profile(key@, p@),
            FlashWrite::RemoveProfile(key) => FlashWriteModel::RemoveProfile(key@),
        }
    }
}

/// The changes an update asks for, in the order they are made.
pub open spec fn writes_of(
    update: FlashUpdateModel,
    cache: Seq<Option<crate::profiles::ProfileModel>>,
) -> Seq<FlashWriteModel> {
    match update {
        FlashUpdateModel::SaveSettings(s) => seq![
            FlashWriteModel::Machine(s.machine),
            FlashWriteModel::TempPid(s.temp_pid),
            FlashWriteModel::PressPid(s.press_pid),
            FlashWriteModel::FlowPid(s.flow_pid),
            FlashWriteModel::Wifi(s.wifi),
        ],
        FlashUpdateModel::SaveMachine(m) => seq![FlashWriteModel::Machine(m)],
        FlashUpdateModel::SavePids(t, p, Some(f)) => seq![
            FlashWriteModel::TempPid(t),
            FlashWriteModel::PressPid(p),
            FlashWriteModel::FlowPid(f),
        ],
        FlashUpdateModel::SavePids(t, p, None) => seq![
            FlashWriteModel::TempPid(t),
            FlashWriteModel::PressPid(p),
        ],
        FlashUpdateModel::SaveWifi(w) => seq![FlashWriteModel::Wifi(w)],
        FlashUpdateModel::SaveProfile(slot) => match crate::profiles::profile_in(cache, slot) {
            Some(p) => seq![FlashWriteModel::Profile(crate::profiles::key_of(slot), p)],
            None => seq![],
        },
        FlashUpdateModel::DeleteProfile(slot) => if slot < crate::profiles::MAX_PROFILES {
            seq![FlashWriteModel::RemoveProfile(crate::profiles::key_of(slot))]
        } else {
            seq![]
        },
    }
}

/// Whether a held update may be written now: a flash erase would stall a
/// running operation.
pub fn may_write(state: MachineState) -> (r: bool)
    ensures
        r == !state.busy(),
{
    !state.is_busy()
}

/// The changes to the key/value store that `update` asks for, in order.
pub fn flash_writes(update: FlashUpdate, cache: &ProfileCache) -> (writes: Vec<FlashWrite>)
    ensures
        writes@.map_values(|w: FlashWrite| w@) == writes_of(update@, cache@),
{
    let mut writes: Vec<FlashWrite> = Vec::new();
    match update {
        FlashUpdate::SaveSettings(s) => {
            writes.push(FlashWrite::Machine(s.machine));
            writes.push(FlashWrite::TempPid(s.temp_pid));
            writes.push(FlashWrite::PressPid(s.press_pid));
            writes.push(FlashWrite::FlowPid(s.flow_pid));
            writes.push(FlashWrite::Wifi(s.wifi));
        },
        FlashUpdate::SaveMachine(m) => {
            writes.push(FlashWrite::Machine(m));
        },
        FlashUpdate::SavePids(t, p, f) => {
            writes.push(FlashWrite::TempPid(t));
            writes.push(FlashWrite::PressPid(p));
            if let Some(f) = f {
                writes.push(FlashWrite::FlowPid(f));
            }
        },
        FlashUpdate::SaveWifi(w) => {
            writes.push(FlashWrite::Wifi(w));
        },
        FlashUpdate::SaveProfile(slot) => {
            if let Some(p) = get_profile_from_ram(cache, slot) {
                if let Ok(key) = save_profile_to_flash(slot) {
                    writes.push(FlashWrite::Profile(key, p));
                }
            }
        },
        FlashUpdate::DeleteProfile(slot) => {
            if let Ok(key) = delete_profile_from_flash(slot) {
                writes.push(FlashWrite::RemoveProfile(key));
            }
        },
    }
    assert(writes@.map_values(|w: FlashWrite| w@) =~= writes_of(update@, cache@));
    writes
}

impl SettingsModel {
    /// The settings once an update has been taken over.
    pub open spec fn updated(self, update: FlashUpdateModel) -> SettingsModel {
        match update {
            FlashUpdateModel::SaveSettings(s) => s,
            FlashUpdateModel::SaveMachine(m) => SettingsModel { machine: m, ..self },
            FlashUpdateModel::SavePids(t, p, f) => SettingsModel {
                temp_pid: t,
                press_pid: p,
                flow_pid: match f {
                    Some(gains) => gains,
                    None => self.flow_pid,
                },
                ..self
            },
            FlashUpdateModel::SaveWifi(w) => SettingsModel { wifi: w, ..self },
            _ => self,
        }
    }
}

/// What is saved survives a restart: the settings loaded after an update has
/// been written are those before it, updated.
pub proof fn law_saved_settings_survive_a_restart(
    stored: StoredModel,
    update: FlashUpdateModel,
    cache: Seq<Option<crate::profiles::ProfileModel>>,
)
    ensures
        stored.written_all(writes_of(update, cache)).over_defaults()
            == stored.over_defaults().updated(update),
{
    reveal_with_fuel(StoredModel::written_all, 6);
    let writes = writes_of(update, cache);
    if let FlashUpdateModel::SaveSettings(s) = update {
        let (a, b, c, d) = (
            FlashWriteModel::Machine(s.machine),
            FlashWriteModel::TempPid(s.temp_pid),
            FlashWriteModel::PressPid(s.press_pid),
            FlashWriteModel::FlowPid(s.flow_pid),
        );
        assert(writes.drop_last() =~= seq![a, b, c, d]);
        assert(seq![a, b, c, d].drop_last() =~= seq![a, b, c]);
        assert(seq![a, b, c].drop_last() =~= seq![a, b]);
        assert(seq![a, b].drop_last() =~= seq![a]);
    }
    if let FlashUpdateModel::SavePids(t, p, f) = update {
        if let Some(gains) = f {
            assert(writes.drop_last() =~= seq![
                FlashWriteModel::TempPid(t),
                FlashWriteModel::PressPid(p),
            ]);
        }
        let two = seq![FlashWriteModel::TempPid(t), FlashWriteModel::PressPid(p)];
        assert(two.drop_last() =~= seq![FlashWriteModel::TempPid(t)]);
    }
}

/// The profiles stored once a change is written, by their keys.
pub open spec fn profile_written(
    stored: Map<Seq<u8>, crate::profiles::ProfileModel>,
    write: FlashWriteModel,
) -> Map<Seq<u8>, crate::profiles::ProfileModel> {
    match write {
        FlashWriteModel::Profile(key, p) => stored.insert(key, p),
        FlashWriteModel::RemoveProfile(key) => stored.remove(key),
        _ => stored,
    }
}

/// A saved profile is stored under its slot's key, a deleted one is not stored
/// any more, and no other slot is touched.
pub proof fn law_saved_profile_is_stored(
    stored: Map<Seq<u8>, crate::profiles::ProfileModel>,
    cache: Seq<Option<crate::profiles::ProfileModel>>,
    slot: u8,
    other: u8,
)
    requires
        slot < crate::profiles::MAX_PROFILES,
        other < crate::profiles::MAX_PROFILES,
        other != slot,
        cache[slot as int] is Some,
    ensures
        ({
            let key = crate::profiles::key_of(slot);
            let rest = crate::profiles::key_of(other);
            let saves = writes_of(FlashUpdateModel::SaveProfile(slot), cache);
            let deletes = writes_of(FlashUpdateModel::DeleteProfile(slot), cache);
            let saved = profile_written(stored, saves[0]);
            let deleted = profile_written(stored, deletes[0]);
            &&& saves.len() == 1 && deletes.len() == 1
            &&& saved.contains_key(key) && saved[key] == cache[slot as int]->0
            &&& !deleted.contains_key(key)
            &&& saved.contains_key(rest) == stored.contains_key(rest)
            &&& deleted.contains_key(rest) == stored.contains_key(rest)
            &&& stored.contains_key(rest) ==> saved[rest] == stored[rest] && deleted[rest]
                == stored[rest]
        }),
{
    crate::profiles::law_keys_are_distinct(slot, other);
}

} // verus!
