use oximite::control::{Outputs, PumpMode, Signals, TargetTempMode};
use oximite::coordinator::{
    apply_ambient, handle_command, serve, sleep_timeout, target_for, Coordinator, Machine, Outcome,
};
use oximite::operations::{execute, Operation, Run, Senses};
use oximite::profiles::{
    delete_profile_from_flash, delete_profile_from_ram, get_all_profiles_from_ram,
    get_default_profile, get_profile_from_ram, load_all_profiles_from_flash, profile_key,
    save_profile_to_flash, save_profile_to_ram, BrewProfile, BrewProfileStep, ProfileCache,
};
use oximite::settings::{
    flash_writes, may_write, ControlSettings, FlashUpdate, FlashWrite, MachineSettings,
    PidSettings, Section, Settings, SettingsRam, SettingsStore, StoredSections, WifiSettings,
};
use oximite::single::Single;
use oximite::state::{
    get_ack, get_sensors, get_session_brew_temp, get_state, get_telemetry, mark_served,
    next_command, send_command, set_session_brew_temp, set_state, Ambient, CommandQueue,
    MachineCommand, MachineState, SensorReading, Telemetry,
};

fn s(v: f32) -> Single {
    Single::from_bits(v.to_bits())
}

fn f(x: Single) -> f32 {
    f32::from_bits(x.to_bits())
}

fn step(time: f32, volume: f32, pressure: f32, flow: f32) -> BrewProfileStep {
    let some = |v: f32| if v == 0.0 { None } else { Some(s(v)) };
    BrewProfileStep {
        time_s: some(time),
        volume: some(volume),
        pressure: some(pressure),
        flow: some(flow),
    }
}

fn profile(name: &str, steps: &[BrewProfileStep]) -> BrewProfile {
    let mut list: heapless::Vec<BrewProfileStep, 5> = heapless::Vec::new();
    for x in steps.iter() {
        list.push(*x).unwrap();
    }
    BrewProfile { name: heapless::String::try_from(name).unwrap(), steps: list }
}

fn wifi(ssid: &str, password: &str) -> WifiSettings {
    WifiSettings {
        ssid: heapless::String::try_from(ssid).unwrap(),
        password: heapless::String::try_from(password).unwrap(),
    }
}

fn machine() -> Coordinator {
    Coordinator::new(Machine::new(), 0)
}

fn state_of(c: &Coordinator) -> MachineState {
    get_state(c.machine.state)
}

const SECOND: u64 = 1_000_000;

#[test]
fn state_codes_are_the_wire_contract() {
    let all: [MachineState; 7] = [
        MachineState::Idle,
        MachineState::Brewing,
        MachineState::Steaming,
        MachineState::Sleeping,
        MachineState::Pumping,
        MachineState::Cooling,
        MachineState::HotWater,
    ];
    for (i, state) in all.iter().enumerate() {
        assert_eq!(state.code() as usize, i);
        assert_eq!(get_state(i as u8), *state);
        assert_eq!(state.is_busy(), i != 0 && i != 3);
    }
    assert_eq!(get_state(7), MachineState::Idle);
    assert_eq!(get_state(255), MachineState::Idle);
}

#[test]
fn set_state_announces_changes_only() {
    let mut raw: u8 = 0;
    assert!(!set_state(&mut raw, MachineState::Idle));
    assert!(set_state(&mut raw, MachineState::Steaming));
    assert_eq!(raw, 2);
    assert!(!set_state(&mut raw, MachineState::Steaming));
}

#[test]
fn session_temp_round_trips() {
    let mut raw: u32 = 0;
    set_session_brew_temp(&mut raw, s(93.5));
    assert_eq!(raw, 93.5f32.to_bits());
    assert_eq!(f(get_session_brew_temp(raw)), 93.5);
}

#[test]
fn queue_keeps_order_and_tickets() {
    let mut q: CommandQueue = CommandQueue::new();
    assert!(next_command(&mut q).is_none());
    assert_eq!(send_command(&mut q, MachineCommand::Stop), Some(1));
    assert_eq!(send_command(&mut q, MachineCommand::Brew), Some(2));
    assert_eq!(send_command(&mut q, MachineCommand::Steam), Some(3));
    assert_eq!(send_command(&mut q, MachineCommand::Flush), Some(4));
    assert_eq!(send_command(&mut q, MachineCommand::TogglePower), None);
    assert_eq!(get_ack(&q), 0);
    assert!(matches!(next_command(&mut q), Some(MachineCommand::Stop)));
    assert_eq!(get_ack(&q), 0);
    mark_served(&mut q);
    assert_eq!(get_ack(&q), 1);
    assert_eq!(send_command(&mut q, MachineCommand::DirectPump(s(5.0))), Some(5));
    assert!(matches!(next_command(&mut q), Some(MachineCommand::Brew)));
    mark_served(&mut q);
    assert!(matches!(next_command(&mut q), Some(MachineCommand::Steam)));
    mark_served(&mut q);
    assert!(matches!(next_command(&mut q), Some(MachineCommand::Flush)));
    mark_served(&mut q);
    match next_command(&mut q) {
        Some(MachineCommand::DirectPump(p)) => assert_eq!(f(p), 5.0),
        _ => panic!("wrong command"),
    }
    mark_served(&mut q);
    assert_eq!(get_ack(&q), 5);
    assert!(next_command(&mut q).is_none());
}

#[test]
fn snapshots_default_to_a_cold_machine() {
    let sensors: SensorReading = get_sensors(None);
    assert_eq!((f(sensors.pressure_bar), f(sensors.temp_c)), (0.0, 20.0));
    let t: Telemetry = get_telemetry(None);
    assert_eq!((f(t.temp_c), f(t.target_temp), f(t.pressure_bar)), (20.0, 20.0, 0.0));
    let published: SensorReading = SensorReading { pressure_bar: s(3.0), temp_c: s(90.0) };
    assert_eq!(f(get_sensors(Some(published)).temp_c), 90.0);
    let mut warm: Telemetry = t;
    warm.temp_c = s(101.0);
    assert_eq!(f(get_telemetry(Some(warm)).temp_c), 101.0);
}

#[test]
fn display_takes_the_offset_off() {
    let mut t: Telemetry = get_telemetry(None);
    t.temp_c = s(102.0);
    t.target_temp = s(103.0);
    t.effective_target_temp = s(0.0);
    let (a, b, c) = t.display_temps(s(10.0), false);
    assert_eq!((f(a), f(b), f(c)), (92.0, 93.0, 0.0));
    let (a, b, c) = t.display_temps(s(10.0), true);
    assert_eq!((f(a), f(b), f(c)), (102.0, 103.0, 0.0));
}

#[test]
fn ambient_commands_are_the_saves_and_the_session_temp() {
    let m: MachineSettings = Settings::default().machine;
    let pid: PidSettings = Settings::default().temp_pid;
    assert_eq!(MachineCommand::SetSessionTemp(s(90.0)).ambient(), Ambient::RamOnly);
    let flash: Vec<MachineCommand> = vec![
        MachineCommand::SaveSettings(Settings::default()),
        MachineCommand::SaveMachine(m),
        MachineCommand::SavePids(pid, pid, None),
        MachineCommand::SaveWifi(wifi("a", "b")),
        MachineCommand::SaveProfile(1, profile("x", &[])),
        MachineCommand::DeleteProfile(1),
    ];
    for cmd in flash.iter() {
        assert_eq!(cmd.ambient(), Ambient::RamAndFlash);
        assert_eq!(cmd.clone().ambient(), Ambient::RamAndFlash);
    }
    let others: Vec<MachineCommand> = vec![
        MachineCommand::Brew,
        MachineCommand::Stop,
        MachineCommand::Steam,
        MachineCommand::Flush,
        MachineCommand::Descale,
        MachineCommand::TogglePower,
        MachineCommand::DirectPump(s(1.0)),
        MachineCommand::RunProfile(profile("x", &[])),
    ];
    for cmd in others.iter() {
        assert_eq!(cmd.clone().ambient(), Ambient::No);
    }
}

#[test]
fn profiles_are_saved_listed_and_deleted() {
    let mut cache: ProfileCache = ProfileCache::new();
    assert!(get_profile_from_ram(&cache, 0).is_none());
    assert_eq!(get_default_profile(&cache).name.as_str(), "Standard");
    let standard: BrewProfile = get_default_profile(&cache);
    assert_eq!(standard.steps.len(), 1);
    assert_eq!(f(standard.steps[0].pressure.unwrap()), 9.0);
    assert_eq!(f(standard.steps[0].volume.unwrap()), 36.0);
    assert_eq!(f(standard.steps[0].time_s.unwrap()), 30.0);
    save_profile_to_ram(&mut cache, 7, profile("Late", &[step(1.0, 0.0, 2.0, 0.0)]));
    save_profile_to_ram(&mut cache, 0, profile("First", &[]));
    save_profile_to_ram(&mut cache, 10, profile("Nowhere", &[]));
    assert_eq!(get_default_profile(&cache).name.as_str(), "First");
    assert_eq!(get_profile_from_ram(&cache, 7).unwrap().steps.len(), 1);
    assert!(get_profile_from_ram(&cache, 10).is_none());
    assert!(get_profile_from_ram(&cache, 255).is_none());
    let list = get_all_profiles_from_ram(&cache);
    assert_eq!(list.len(), 2);
    assert_eq!((list[0].0, list[0].1.name.as_str()), (0, "First"));
    assert_eq!((list[1].0, list[1].1.name.as_str()), (7, "Late"));
    delete_profile_from_ram(&mut cache, 0);
    delete_profile_from_ram(&mut cache, 99);
    assert!(get_profile_from_ram(&cache, 0).is_none());
    assert_eq!(get_all_profiles_from_ram(&cache).len(), 1);
}

#[test]
fn profile_keys_name_the_slot() {
    assert_eq!(&profile_key(0), b"prof_0");
    assert_eq!(&profile_key(9), b"prof_9");
    assert_eq!(save_profile_to_flash(3), Ok(*b"prof_3"));
    assert_eq!(save_profile_to_flash(10), Err(()));
    assert_eq!(delete_profile_from_flash(4), Ok(*b"prof_4"));
    assert_eq!(delete_profile_from_flash(200), Err(()));
}

#[test]
fn profiles_are_loaded_where_found() {
    let mut cache: ProfileCache = ProfileCache::new();
    save_profile_to_ram(&mut cache, 1, profile("Kept", &[]));
    let found: Vec<Option<BrewProfile>> =
        vec![Some(profile("Zero", &[])), None, Some(profile("Two", &[]))];
    load_all_profiles_from_flash(&mut cache, &found);
    assert_eq!(get_profile_from_ram(&cache, 0).unwrap().name.as_str(), "Zero");
    assert_eq!(get_profile_from_ram(&cache, 1).unwrap().name.as_str(), "Kept");
    assert_eq!(get_profile_from_ram(&cache, 2).unwrap().name.as_str(), "Two");
    assert!(get_profile_from_ram(&cache, 3).is_none());
}

#[test]
fn default_settings() {
    let d: Settings = Settings::default();
    assert_eq!(f(d.machine.brew_temp), 92.0);
    assert_eq!(f(d.machine.steam_temp), 135.0);
    assert_eq!(f(d.machine.flow_limit_kp), 0.025);
    assert_eq!(f(d.machine.flow_pulses_per_liter), 98324.0);
    assert_eq!(f(d.temp_pid.ki), 0.8);
    assert_eq!(f(d.press_pid.ki), 20.0);
    assert_eq!(f(d.flow_pid.kp), 4.0);
    assert_eq!(d.wifi.ssid.as_str(), "");
    assert_eq!(d.wifi.password.as_str(), "");
    let c: ControlSettings = ControlSettings::current(None);
    assert_eq!(f(c.machine.brew_temp), 92.0);
}

#[test]
fn stored_sections_replace_defaults() {
    let mut ram: SettingsRam = SettingsRam::new();
    let none: StoredSections = StoredSections {
        machine: None,
        temp_pid: None,
        press_pid: None,
        flow_pid: None,
        wifi: None,
    };
    assert!(!SettingsStore::load(&mut ram, none));
    let mut m: MachineSettings = Settings::default().machine;
    m.brew_temp = s(95.0);
    let some: StoredSections = StoredSections {
        machine: Some(m),
        temp_pid: None,
        press_pid: None,
        flow_pid: Some(PidSettings { kp: s(1.0), ki: s(2.0), kd: s(3.0) }),
        wifi: Some(wifi("net", "pass")),
    };
    assert!(SettingsStore::load(&mut ram, some));
    let got: Settings = Settings::get(&ram);
    assert_eq!(f(got.machine.brew_temp), 95.0);
    assert_eq!(f(got.flow_pid.kd), 3.0);
    assert_eq!(f(got.temp_pid.kp), 8.0);
    assert_eq!(got.wifi.ssid.as_str(), "net");
    assert_eq!(got.wifi.password.as_str(), "pass");
    assert_eq!(f(ControlSettings::current(ram.published).machine.brew_temp), 95.0);
}

#[test]
fn flash_updates_write_their_sections() {
    let mut cache: ProfileCache = ProfileCache::new();
    save_profile_to_ram(&mut cache, 2, profile("Two", &[]));
    let pid: PidSettings = Settings::default().temp_pid;
    let w = flash_writes(FlashUpdate::SavePids(pid, pid, None), &cache);
    assert_eq!(w.len(), 2);
    assert!(matches!(w[0], FlashWrite::TempPid(_)));
    assert!(matches!(w[1], FlashWrite::PressPid(_)));
    let w = flash_writes(FlashUpdate::SavePids(pid, pid, Some(pid)), &cache);
    assert!(matches!(w[2], FlashWrite::FlowPid(_)));
    let w = flash_writes(FlashUpdate::SaveMachine(Settings::default().machine), &cache);
    assert!(matches!(w[0], FlashWrite::Machine(_)));
    let w = flash_writes(FlashUpdate::SaveWifi(wifi("a", "b")), &cache);
    assert!(matches!(w[0], FlashWrite::Wifi(_)));
    let w = flash_writes(FlashUpdate::SaveProfile(2), &cache);
    match &w[0] {
        FlashWrite::Profile(key, p) => {
            assert_eq!(key, b"prof_2");
            assert_eq!(p.name.as_str(), "Two");
        }
        _ => panic!("wrong write"),
    }
    assert!(flash_writes(FlashUpdate::SaveProfile(3), &cache).is_empty());
    assert!(flash_writes(FlashUpdate::SaveProfile(30), &cache).is_empty());
    let w = flash_writes(FlashUpdate::DeleteProfile(3), &cache);
    assert!(matches!(&w[0], FlashWrite::RemoveProfile(key) if key == b"prof_3"));
    assert!(flash_writes(FlashUpdate::DeleteProfile(10), &cache).is_empty());
    assert!(may_write(MachineState::Idle));
    assert!(may_write(MachineState::Sleeping));
    assert!(!may_write(MachineState::Brewing));
}

#[test]
fn section_keys() {
    assert_eq!(Section::Machine.key(), "sys_machine");
    assert_eq!(Section::TempPid.key(), "sys_temp_pid");
    assert_eq!(Section::PressPid.key(), "sys_press_pid");
    assert_eq!(Section::FlowPid.key(), "sys_flow_pid");
    assert_eq!(Section::Wifi.key(), "sys_wifi");
}

#[test]
fn operations_have_names_and_valves() {
    let all: Vec<(Operation, &str, bool)> = vec![
        (Operation::Profile(profile("x", &[])), "Profile", true),
        (Operation::Steam, "Steam", false),
        (Operation::CooldownFlush, "Cooldown flush", false),
        (Operation::DirectPump(s(10.0)), "Direct pump", true),
        (Operation::HotWater, "Hot water", false),
    ];
    for (op, name, valve) in all.iter() {
        assert_eq!(op.name(), *name);
        assert_eq!(op.opens_valve(), *valve);
    }
}

fn senses(volume: f32, temp: f32, now: u64) -> Senses {
    Senses { volume_ml: s(volume), temp_c: s(temp), now }
}

#[test]
fn profile_runs_its_steps_in_turn() {
    let m: MachineSettings = Settings::default().machine;
    let mut out: Outputs = Outputs::new(Signals::new(), false);
    let p: BrewProfile = profile(
        "Shot",
        &[
            step(2.0, 0.0, 3.0, 1.5),
            step(0.0, 0.0, 5.0, 0.0),
            step(0.0, 20.0, 12.0, 0.0),
            step(300.0, 0.0, 6.0, 0.0),
        ],
    );
    let run: Run = execute(Operation::Profile(p), &m, &senses(0.0, 92.0, 0), &mut out).unwrap();
    assert_eq!(
        out.signals.pump_mode,
        Some(PumpMode::Pressure { bar: s(3.0), flow_limit_ml_s: s(1.5) })
    );
    assert_eq!(out.signals.brew_active, Some(true));
    assert!(run.holds_valve());
    assert!(out.valve_open);
    assert_eq!(run.deadline(), 2 * SECOND);
    let run: Run = run.poll(&senses(1.0, 92.0, 2 * SECOND - 1), &mut out).unwrap();
    // The second step has no limit; the third is raw power until 20 ml.
    let run: Run = run.poll(&senses(2.0, 92.0, 2 * SECOND), &mut out).unwrap();
    assert_eq!(out.signals.pump_mode, Some(PumpMode::DirectPump(s(12.0))));
    assert_eq!(run.deadline(), 2 * SECOND + 50_000);
    let run: Run = run.poll(&senses(19.9, 92.0, 2 * SECOND + 50_000), &mut out).unwrap();
    assert_eq!(run.deadline(), 2 * SECOND + 100_000);
    // Not looked at before it is due.
    let run: Run = run.poll(&senses(21.0, 92.0, 2 * SECOND + 99_999), &mut out).unwrap();
    assert_eq!(out.signals.pump_mode, Some(PumpMode::DirectPump(s(12.0))));
    let run: Run = run.poll(&senses(21.0, 92.0, 2 * SECOND + 100_000), &mut out).unwrap();
    assert_eq!(
        out.signals.pump_mode,
        Some(PumpMode::Pressure { bar: s(6.0), flow_limit_ml_s: s(0.0) })
    );
    // Declared for five minutes, ended by the ceiling of two.
    let start: u64 = 2 * SECOND + 100_000;
    assert_eq!(run.deadline(), start + 120 * SECOND);
    assert!(out.valve_open);
    assert!(run.poll(&senses(30.0, 92.0, start + 120 * SECOND), &mut out).is_none());
    assert!(!out.valve_open);
    assert_eq!(out.signals.pump_mode, Some(PumpMode::Idle));
    assert_eq!(out.signals.brew_active, Some(false));
}

#[test]
fn volume_reached_before_a_step_ends_it_at_once() {
    let m: MachineSettings = Settings::default().machine;
    let mut out: Outputs = Outputs::new(Signals::new(), false);
    let p: BrewProfile = profile("Shot", &[step(5.0, 10.0, 9.0, 0.0), step(5.0, 0.0, 4.0, 0.0)]);
    let run: Run =
        execute(Operation::Profile(p), &m, &senses(10.0, 92.0, 0), &mut out).unwrap();
    assert!(matches!(run, Run::Profile { index: 1, .. }));
    assert_eq!(
        out.signals.pump_mode,
        Some(PumpMode::Pressure { bar: s(4.0), flow_limit_ml_s: s(0.0) })
    );
}

#[test]
fn empty_profile_is_over_at_once() {
    let m: MachineSettings = Settings::default().machine;
    let mut out: Outputs = Outputs::new(Signals::new(), false);
    let p: BrewProfile = profile("None", &[step(0.0, 0.0, 9.0, 2.0)]);
    assert!(execute(Operation::Profile(p), &m, &senses(0.0, 92.0, 0), &mut out).is_none());
    assert_eq!(out.signals.pump_mode, Some(PumpMode::Idle));
    assert_eq!(out.signals.brew_active, Some(false));
}

#[test]
fn huge_step_time_is_caught_by_the_ceiling() {
    let m: MachineSettings = Settings::default().machine;
    let mut out: Outputs = Outputs::new(Signals::new(), false);
    let p: BrewProfile = profile("Long", &[step(1e30, 0.0, 9.0, 0.0)]);
    let run: Run =
        execute(Operation::Profile(p), &m, &senses(0.0, 92.0, 5), &mut out).unwrap();
    assert_eq!(run.deadline(), 5 + 120 * SECOND);
}

#[test]
fn steam_lasts_for_the_configured_time() {
    let m: MachineSettings = Settings::default().machine;
    let mut out: Outputs = Outputs::new(Signals::new(), false);
    let run: Run = execute(Operation::Steam, &m, &senses(0.0, 92.0, 7), &mut out).unwrap();
    assert_eq!(run.deadline(), 7 + 120 * SECOND);
    let run: Run = run.poll(&senses(0.0, 92.0, 120 * SECOND), &mut out).unwrap();
    assert!(run.poll(&senses(0.0, 92.0, 7 + 120 * SECOND), &mut out).is_none());
    assert_eq!(out.signals.pump_mode, None);
}

#[test]
fn cooldown_stops_at_temperature_or_after_a_minute() {
    let m: MachineSettings = Settings::default().machine;
    let mut out: Outputs = Outputs::new(Signals::new(), false);
    // 92 + 2 * 10.
    assert!(execute(Operation::CooldownFlush, &m, &senses(0.0, 112.0, 0), &mut out).is_none());
    assert_eq!(out.signals.pump_mode, Some(PumpMode::Idle));
    let run: Run =
        execute(Operation::CooldownFlush, &m, &senses(0.0, 130.0, 0), &mut out).unwrap();
    assert_eq!(out.signals.pump_mode, Some(PumpMode::DirectPump(s(30.0))));
    assert!(!out.valve_open);
    assert_eq!(run.deadline(), 100_000);
    let run: Run = run.poll(&senses(0.0, 111.0, 99_999), &mut out).unwrap();
    let run: Run = run.poll(&senses(0.0, 112.5, 100_000), &mut out).unwrap();
    assert_eq!(run.deadline(), 200_000);
    assert!(run.poll(&senses(0.0, 112.0, 200_000), &mut out).is_none());
    let run: Run =
        execute(Operation::CooldownFlush, &m, &senses(0.0, 130.0, 0), &mut out).unwrap();
    assert!(run.poll(&senses(0.0, 130.0, 60 * SECOND), &mut out).is_none());
    assert_eq!(out.signals.pump_mode, Some(PumpMode::Idle));
}

#[test]
fn raw_pump_and_hot_water_have_their_ceilings() {
    let m: MachineSettings = Settings::default().machine;
    let mut out: Outputs = Outputs::new(Signals::new(), false);
    let run: Run =
        execute(Operation::DirectPump(s(55.0)), &m, &senses(0.0, 92.0, 0), &mut out).unwrap();
    assert_eq!(out.signals.pump_mode, Some(PumpMode::DirectPump(s(55.0))));
    assert_eq!(run.deadline(), 60 * SECOND);
    assert!(run.holds_valve());
    assert!(out.valve_open);
    run.cancel(&mut out);
    assert!(!out.valve_open);
    assert_eq!(out.signals.pump_mode, Some(PumpMode::Idle));
    let run: Run = execute(Operation::HotWater, &m, &senses(0.0, 92.0, 0), &mut out).unwrap();
    assert_eq!(out.signals.pump_mode, Some(PumpMode::DirectPump(s(80.0))));
    assert_eq!(run.deadline(), 120 * SECOND);
    assert!(!run.holds_valve());
    assert!(run.poll(&senses(0.0, 92.0, 120 * SECOND), &mut out).is_none());
    assert_eq!(out.signals.pump_mode, Some(PumpMode::Idle));
}

#[test]
fn states_imply_their_setpoints() {
    assert_eq!(target_for(MachineState::Idle), TargetTempMode::Brew);
    assert_eq!(target_for(MachineState::Brewing), TargetTempMode::Brew);
    assert_eq!(target_for(MachineState::Pumping), TargetTempMode::Brew);
    assert_eq!(target_for(MachineState::HotWater), TargetTempMode::Brew);
    assert_eq!(target_for(MachineState::Steaming), TargetTempMode::Steam);
    assert_eq!(target_for(MachineState::Cooling), TargetTempMode::Off);
    assert_eq!(target_for(MachineState::Sleeping), TargetTempMode::Off);
}

#[test]
fn boot_heats_an_idle_machine() {
    let c: Coordinator = machine();
    assert_eq!(state_of(&c), MachineState::Idle);
    assert_eq!(f(get_session_brew_temp(c.machine.session_temp)), 92.0);
    assert_eq!(f(c.machine.signals.target_temp.unwrap()), 102.0);
    assert!(!c.valve_open());
    assert_eq!(c.deadline(), None);
}

#[test]
fn brew_runs_the_default_profile_to_its_end() {
    let mut c: Coordinator = machine();
    c.machine.flow.volume_ml = s(12.0);
    c.command(MachineCommand::Brew, s(100.0), SECOND);
    assert_eq!(state_of(&c), MachineState::Brewing);
    assert!(c.valve_open());
    assert_eq!(f(c.machine.flow.volume_ml), 0.0);
    assert!(c.machine.flow.reset);
    assert_eq!(
        c.machine.signals.pump_mode,
        Some(PumpMode::Pressure { bar: s(9.0), flow_limit_ml_s: s(0.0) })
    );
    c.poll(s(100.0), 2 * SECOND);
    assert_eq!(state_of(&c), MachineState::Brewing);
    c.machine.flow.volume_ml = s(36.0);
    c.poll(s(100.0), 3 * SECOND);
    assert_eq!(state_of(&c), MachineState::Idle);
    assert!(!c.valve_open());
    assert_eq!(c.machine.signals.pump_mode, Some(PumpMode::Idle));
    assert_eq!(c.machine.signals.brew_active, Some(false));
    assert_eq!(f(c.machine.flow.volume_ml), 36.0);
    assert_eq!(c.last_activity, 3 * SECOND);
}

#[test]
fn any_command_stops_a_running_shot() {
    let stoppers: Vec<MachineCommand> = vec![
        MachineCommand::Stop,
        MachineCommand::Brew,
        MachineCommand::Flush,
        MachineCommand::TogglePower,
        MachineCommand::RunProfile(profile("Stray", &[step(5.0, 0.0, 9.0, 0.0)])),
        MachineCommand::DirectPump(s(10.0)),
        MachineCommand::Steam,
        MachineCommand::Descale,
    ];
    for cmd in stoppers {
        let mut c: Coordinator = machine();
        c.command(MachineCommand::Brew, s(100.0), 1);
        c.machine.flow.volume_ml = s(5.0);
        c.command(cmd, s(100.0), 2);
        assert_eq!(state_of(&c), MachineState::Idle);
        assert!(c.running.is_none());
        assert!(!c.valve_open());
        assert_eq!(c.machine.signals.pump_mode, Some(PumpMode::Idle));
        assert_eq!(c.machine.signals.brew_active, Some(false));
        assert_eq!(f(c.machine.flow.volume_ml), 5.0);
    }
}

#[test]
fn steaming_leads_on_to_hot_water_and_cooldown() {
    let mut c: Coordinator = machine();
    c.command(MachineCommand::Steam, s(100.0), 1);
    assert_eq!(state_of(&c), MachineState::Steaming);
    assert_eq!(f(c.machine.signals.target_temp.unwrap()), 135.0);
    assert!(!c.valve_open());
    c.command(MachineCommand::Brew, s(130.0), 2);
    assert_eq!(state_of(&c), MachineState::HotWater);
    assert_eq!(f(c.machine.signals.target_temp.unwrap()), 102.0);
    assert_eq!(c.machine.signals.pump_mode, Some(PumpMode::DirectPump(s(80.0))));
    c.command(MachineCommand::Brew, s(130.0), 3);
    assert_eq!(state_of(&c), MachineState::Idle);
    c.command(MachineCommand::Steam, s(130.0), 4);
    c.command(MachineCommand::Flush, s(130.0), 5);
    assert_eq!(state_of(&c), MachineState::Cooling);
    assert_eq!(f(c.machine.signals.target_temp.unwrap()), 0.0);
    assert_eq!(c.machine.signals.pump_mode, Some(PumpMode::DirectPump(s(30.0))));
    c.poll(s(110.0), 200_000);
    assert_eq!(state_of(&c), MachineState::Idle);
    assert_eq!(f(c.machine.signals.target_temp.unwrap()), 102.0);
}

#[test]
fn cooldown_of_a_cool_boiler_is_over_at_once() {
    let mut c: Coordinator = machine();
    c.command(MachineCommand::Steam, s(100.0), 1);
    c.command(MachineCommand::Flush, s(100.0), 2);
    assert_eq!(state_of(&c), MachineState::Idle);
    assert!(c.running.is_none());
    assert_eq!(c.machine.signals.pump_mode, Some(PumpMode::Idle));
}

#[test]
fn flush_and_direct_pump_run_the_pump() {
    let mut c: Coordinator = machine();
    c.command(MachineCommand::Flush, s(100.0), 1);
    assert_eq!(state_of(&c), MachineState::Pumping);
    assert!(c.valve_open());
    assert_eq!(c.machine.signals.pump_mode, Some(PumpMode::DirectPump(s(30.0))));
    assert_eq!(c.deadline(), Some(1 + 60 * SECOND));
    c.poll(s(100.0), 1 + 60 * SECOND);
    assert_eq!(state_of(&c), MachineState::Idle);
    c.command(MachineCommand::DirectPump(s(33.0)), s(100.0), 2);
    assert_eq!(c.machine.signals.pump_mode, Some(PumpMode::DirectPump(s(33.0))));
}

#[test]
fn waking_command_is_dropped() {
    let mut c: Coordinator = machine();
    c.command(MachineCommand::TogglePower, s(100.0), 1);
    assert_eq!(state_of(&c), MachineState::Sleeping);
    assert_eq!(f(c.machine.signals.target_temp.unwrap()), 0.0);
    // Ambient commands neither wake it nor are lost.
    c.command(MachineCommand::SetSessionTemp(s(95.0)), s(50.0), 2);
    assert_eq!(state_of(&c), MachineState::Sleeping);
    assert_eq!(f(c.machine.signals.target_temp.unwrap()), 0.0);
    c.command(MachineCommand::Brew, s(50.0), 3);
    assert_eq!(state_of(&c), MachineState::Idle);
    assert!(c.running.is_none());
    assert_eq!(f(c.machine.signals.target_temp.unwrap()), 105.0);
}

#[test]
fn idle_machine_falls_asleep() {
    let mut c: Coordinator = machine();
    c.command(MachineCommand::Stop, s(100.0), 5);
    c.housekeeping(5 + 20 * 60 * SECOND - 1);
    assert_eq!(state_of(&c), MachineState::Idle);
    c.housekeeping(5 + 20 * 60 * SECOND);
    assert_eq!(state_of(&c), MachineState::Sleeping);
    let mut busy: Coordinator = machine();
    busy.command(MachineCommand::Steam, s(100.0), 5);
    busy.housekeeping(100 * 60 * SECOND);
    assert_eq!(state_of(&busy), MachineState::Steaming);
}

#[test]
fn sleep_timeouts() {
    let mut m: MachineSettings = Settings::default().machine;
    assert_eq!(sleep_timeout(&m), 20 * 60 * SECOND);
    m.sleep_timeout_min = s(0.5);
    assert_eq!(sleep_timeout(&m), 30 * SECOND);
    m.sleep_timeout_min = s(-3.0);
    assert_eq!(sleep_timeout(&m), 0);
    m.sleep_timeout_min = s(f32::INFINITY);
    assert_eq!(sleep_timeout(&m), u64::MAX);
}

#[test]
fn save_during_a_shot_is_held_until_it_ends() {
    let mut c: Coordinator = machine();
    c.command(MachineCommand::Brew, s(100.0), 1);
    let mut m: MachineSettings = Settings::default().machine;
    m.brew_temp = s(94.0);
    c.command(MachineCommand::SaveWifi(wifi("old", "x")), s(100.0), 2);
    c.command(MachineCommand::SaveMachine(m), s(100.0), 3);
    assert_eq!(state_of(&c), MachineState::Brewing);
    assert!(c.machine.flash.is_none());
    assert_eq!(f(c.machine.ram.settings.machine.brew_temp), 92.0);
    assert!(c.pending.is_some());
    c.command(MachineCommand::Stop, s(100.0), 4);
    assert!(c.pending.is_none());
    assert_eq!(f(c.machine.ram.settings.machine.brew_temp), 94.0);
    assert!(matches!(c.machine.flash, Some(FlashUpdate::SaveMachine(_))));
    // Only the later of the two was kept.
    assert_eq!(c.machine.ram.settings.wifi.ssid.as_str(), "");
}

#[test]
fn held_save_waits_through_a_chained_operation() {
    let mut c: Coordinator = machine();
    c.command(MachineCommand::Steam, s(100.0), 1);
    c.command(MachineCommand::SaveProfile(4, profile("Four", &[])), s(100.0), 2);
    c.command(MachineCommand::Brew, s(130.0), 3);
    assert_eq!(state_of(&c), MachineState::HotWater);
    assert!(c.pending.is_some());
    assert!(get_profile_from_ram(&c.machine.profiles, 4).is_none());
    c.poll(s(130.0), 3 + 120 * SECOND);
    assert_eq!(state_of(&c), MachineState::Idle);
    assert!(c.pending.is_none());
    assert_eq!(get_profile_from_ram(&c.machine.profiles, 4).unwrap().name.as_str(), "Four");
    assert!(matches!(c.machine.flash, Some(FlashUpdate::SaveProfile(4))));
}

#[test]
fn saves_apply_at_once_when_idle() {
    let mut c: Coordinator = machine();
    let gains: PidSettings = PidSettings { kp: s(1.0), ki: s(2.0), kd: s(3.0) };
    c.command(MachineCommand::SavePids(gains, gains, None), s(100.0), 1);
    assert_eq!(f(c.machine.ram.settings.temp_pid.ki), 2.0);
    assert_eq!(f(c.machine.ram.settings.flow_pid.ki), 30.0);
    c.command(MachineCommand::SavePids(gains, gains, Some(gains)), s(100.0), 2);
    assert_eq!(f(c.machine.ram.settings.flow_pid.ki), 2.0);
    assert_eq!(f(ControlSettings::current(c.machine.ram.published).press_pid.kd), 3.0);
    c.command(MachineCommand::SaveWifi(wifi("net", "key")), s(100.0), 3);
    assert_eq!(c.machine.ram.settings.wifi.ssid.as_str(), "net");
    c.command(MachineCommand::SaveProfile(1, profile("One", &[])), s(100.0), 4);
    c.command(MachineCommand::DeleteProfile(1), s(100.0), 5);
    assert!(get_profile_from_ram(&c.machine.profiles, 1).is_none());
    assert!(matches!(c.machine.flash, Some(FlashUpdate::DeleteProfile(1))));
}

#[test]
fn session_temp_applies_mid_shot_but_not_while_steaming() {
    let mut c: Coordinator = machine();
    c.command(MachineCommand::Brew, s(100.0), 1);
    c.command(MachineCommand::SetSessionTemp(s(96.0)), s(100.0), 2);
    assert_eq!(state_of(&c), MachineState::Brewing);
    assert_eq!(f(c.machine.signals.target_temp.unwrap()), 106.0);
    c.command(MachineCommand::Stop, s(100.0), 3);
    c.command(MachineCommand::Steam, s(100.0), 4);
    c.command(MachineCommand::SetSessionTemp(s(90.0)), s(100.0), 5);
    assert_eq!(f(c.machine.signals.target_temp.unwrap()), 135.0);
    c.command(MachineCommand::Stop, s(100.0), 6);
    assert_eq!(f(c.machine.signals.target_temp.unwrap()), 100.0);
}

#[test]
fn transition_table_alone() {
    let mut m: Machine = Machine::new();
    assert!(matches!(
        handle_command(&mut m, MachineState::Idle, MachineCommand::Stop),
        Outcome::Continue
    ));
    assert!(matches!(
        handle_command(&mut m, MachineState::Idle, MachineCommand::Flush),
        Outcome::Start(Operation::DirectPump(p)) if f(p) == 30.0
    ));
    assert_eq!(get_state(m.state), MachineState::Pumping);
    assert!(matches!(
        handle_command(&mut m, MachineState::Pumping, MachineCommand::Flush),
        Outcome::Cancel
    ));
    assert_eq!(get_state(m.state), MachineState::Idle);
    assert!(matches!(
        handle_command(&mut m, MachineState::Sleeping, MachineCommand::Brew),
        Outcome::Continue
    ));
    let mut activity: u64 = 0;
    let mut pending: Option<MachineCommand> = None;
    assert!(matches!(
        serve(&mut m, MachineCommand::Steam, &mut activity, &mut pending, 77),
        Outcome::Start(Operation::Steam)
    ));
    assert_eq!(activity, 77);
    apply_ambient(&mut m, &MachineCommand::Brew);
    assert_eq!(get_state(m.state), MachineState::Steaming);
}

#[test]
fn descaling_leaves_an_idle_machine_as_it_is() {
    let mut c: Coordinator = machine();
    c.machine.signals.target_temp = None;
    c.command(MachineCommand::Descale, s(100.0), 9);
    assert_eq!(state_of(&c), MachineState::Idle);
    assert!(c.running.is_none());
    assert!(c.machine.signals.target_temp.is_none());
    assert_eq!(c.last_activity, 9);
    c.command(MachineCommand::TogglePower, s(100.0), 10);
    c.command(MachineCommand::Descale, s(100.0), 11);
    assert_eq!(state_of(&c), MachineState::Idle);
}

#[test]
fn all_settings_are_saved_at_once() {
    let mut c: Coordinator = machine();
    let mut all: Settings = Settings::default();
    all.machine.brew_temp = s(95.0);
    all.flow_pid.kp = s(1.25);
    all.wifi = wifi("net", "key");
    c.command(MachineCommand::SaveSettings(all), s(100.0), 1);
    assert_eq!(f(c.machine.ram.settings.machine.brew_temp), 95.0);
    assert_eq!(f(ControlSettings::current(c.machine.ram.published).flow_pid.kp), 1.25);
    let update: FlashUpdate = c.machine.flash.take().unwrap();
    let w = flash_writes(update, &c.machine.profiles);
    assert_eq!(w.len(), 5);
    assert!(matches!(w[0], FlashWrite::Machine(_)));
    assert!(matches!(w[1], FlashWrite::TempPid(_)));
    assert!(matches!(w[2], FlashWrite::PressPid(_)));
    assert!(matches!(w[3], FlashWrite::FlowPid(_)));
    assert!(matches!(&w[4], FlashWrite::Wifi(x) if x.ssid.as_str() == "net"));
}
