use oximite::adc::AdcFilter;
use oximite::board::{FLASH_SIZE, FS_RANGE, FS_SCRATCH};
use oximite::control::{ControlLoop, Outputs, PumpMode, Signals, TickInput, TickOutput};
use oximite::coordinator::{apply_ambient, Machine};
use oximite::dhcp::reply_to;
use oximite::diag::{DiagPhase, DiagSession};
use oximite::lines::LineBuffer;
use oximite::operations::{execute, Operation, Run, Senses};
use oximite::pid::PidController;
use oximite::profiles::{
    profile_key, save_profile_to_ram, BrewProfile, BrewProfileStep, ProfileCache,
};
use oximite::settings::{
    flash_writes, ControlSettings, FlashUpdate, FlashWrite, MachineSettings, PidSettings,
    Settings, SettingsRam, SettingsStore, StoredSections, WifiSettings,
};
use oximite::single::Single;
use oximite::state::{get_telemetry, MachineCommand, MachineState, SensorReading, Telemetry};

fn s(v: f32) -> Single {
    Single::from_bits(v.to_bits())
}

fn f(x: Single) -> f32 {
    f32::from_bits(x.to_bits())
}

fn input(settings: ControlSettings, bar: f32, flow: f32, now: u64) -> TickInput {
    TickInput {
        period_us: None,
        sensors: SensorReading { pressure_bar: s(bar), temp_c: s(100.0) },
        settings,
        flow_ml_s: s(flow),
        volume_ml: s(0.0),
        now,
    }
}

fn duty(bar: f32, limit: f32, pressure: f32, flow: f32) -> f32 {
    let settings: ControlSettings = ControlSettings::default();
    let mut control: ControlLoop = ControlLoop::new(settings);
    let mut signals: Signals = Signals::new();
    PumpMode::Pressure { bar: s(bar), flow_limit_ml_s: s(limit) }.apply(&mut signals);
    let out: TickOutput = control.tick(&input(settings, pressure, flow, 0), &mut signals);
    f(out.telemetry.pump_duty)
}

#[test]
fn second_ceiling_never_adds_duty() {
    for p in 0..=10u32 {
        for q in 0..=10u32 {
            let (pressure, flow) = (p as f32, q as f32 / 4.0);
            let both: f32 = duty(9.0, 2.0, pressure, flow);
            assert!(both <= duty(9.0, 0.0, pressure, flow));
        }
    }
}

#[test]
fn larger_measurement_gets_no_more_duty() {
    let mut last: f32 = 100.0;
    for k in 0..60u32 {
        let mut pid: PidController = PidController::new(s(10.0), s(20.0), s(0.0));
        let got: f32 = f(pid.update(s(9.0), s(k as f32 * 0.25), 0));
        assert!(got <= last);
        last = got;
    }
}

#[test]
fn measurement_at_its_ceiling_is_the_setpoint() {
    // The error is exactly 0, so nothing but the integral drives the pump.
    for bar in [0.1f32, 3.3, 9.0, 9.7] {
        assert_eq!(duty(bar, 0.0, bar, 0.0), 0.0);
    }
}

#[test]
fn feed_forward_can_be_disabled() {
    let mut settings: ControlSettings = ControlSettings::default();
    settings.machine.feed_forward_percents = s(0.0);
    let mut control: ControlLoop = ControlLoop::new(settings);
    let mut signals: Signals = Signals::new();
    signals.target_temp = Some(s(102.0));
    signals.brew_active = Some(true);
    let out: TickOutput = control.tick(&input(settings, 9.0, 5.0, 0), &mut signals);
    assert_eq!(f(out.telemetry.effective_target_temp), 102.0);
}

#[test]
fn filters_do_not_overshoot() {
    let mut filter: AdcFilter = AdcFilter::new();
    filter.update(s(100.0), s(3000.0));
    let (mut p, mut t) = (100.0f32, 3000.0f32);
    for _ in 0..2000 {
        let (np, nt) = filter.update(s(4000.1), s(7.3));
        assert!(p <= f(np) && f(np) <= 4000.1);
        assert!(7.3 <= f(nt) && f(nt) <= t);
        p = f(np);
        t = f(nt);
    }
    assert!(t < 7.31);
}

#[test]
fn saved_settings_survive_a_restart() {
    let mut m: Machine = Machine::new();
    let gains: PidSettings = PidSettings { kp: s(1.5), ki: s(2.5), kd: s(3.5) };
    let wifi: WifiSettings = WifiSettings {
        ssid: heapless::String::try_from("net").unwrap(),
        password: heapless::String::try_from("key").unwrap(),
    };
    let mut stored: StoredSections = StoredSections {
        machine: None,
        temp_pid: None,
        press_pid: None,
        flow_pid: None,
        wifi: None,
    };
    let saves: Vec<MachineCommand> = vec![
        MachineCommand::SavePids(gains, gains, None),
        MachineCommand::SaveWifi(wifi),
    ];
    for save in saves.iter() {
        apply_ambient(&mut m, save);
        let update: FlashUpdate = m.flash.take().unwrap();
        for write in flash_writes(update, &m.profiles) {
            match write {
                FlashWrite::TempPid(p) => stored.temp_pid = Some(p),
                FlashWrite::PressPid(p) => stored.press_pid = Some(p),
                FlashWrite::Wifi(w) => stored.wifi = Some(w),
                _ => panic!("unexpected write"),
            }
        }
    }
    let mut ram: SettingsRam = SettingsRam::new();
    assert!(SettingsStore::load(&mut ram, stored));
    let loaded: Settings = Settings::get(&ram);
    assert_eq!(f(loaded.temp_pid.kd), 3.5);
    assert_eq!(f(loaded.press_pid.kp), 1.5);
    assert_eq!(f(loaded.flow_pid.ki), f(m.ram.settings.flow_pid.ki));
    assert_eq!(loaded.wifi.ssid.as_str(), "net");
    assert_eq!(loaded.wifi.password.as_str(), "key");
}

#[test]
fn saved_profile_is_written_as_it_is() {
    let mut cache: ProfileCache = ProfileCache::new();
    let profile: BrewProfile = BrewProfile {
        name: heapless::String::try_from("Bloom").unwrap(),
        steps: heapless::Vec::new(),
    };
    save_profile_to_ram(&mut cache, 5, profile);
    match &flash_writes(FlashUpdate::SaveProfile(5), &cache)[..] {
        [FlashWrite::Profile(key, p)] => {
            assert_eq!(key, b"prof_5");
            assert_eq!(p.name.as_str(), "Bloom");
        }
        _ => panic!("unexpected writes"),
    }
}

#[test]
fn dhcp_answers_are_messages_of_their_own_type() {
    let mut packet: Vec<u8> = vec![0; 240];
    packet[236..240].copy_from_slice(&[0x63, 0x82, 0x53, 0x63]);
    packet.extend_from_slice(&[53, 1, 1]);
    let offer: [u8; 300] = reply_to(&packet).unwrap();
    // An offer is neither a discovery nor a request.
    assert!(reply_to(&offer).is_none());
    let mut request: [u8; 300] = offer;
    request[242] = 3;
    assert!(reply_to(&request).is_some());
}

#[test]
fn stream_sends_one_header_and_then_frames() {
    let settings: ControlSettings = ControlSettings::default();
    let a: Telemetry = get_telemetry(None);
    let mut header: [u8; 54] = [0; 54];
    let mut frame: [u8; 55] = [0; 55];
    let mut session: DiagSession = DiagSession::new();
    // No frame before the header.
    assert_eq!(session.frame(&a, MachineState::Idle, 0, &mut frame), None);
    assert_eq!(session.header(&settings, &mut header), Some(54));
    assert_eq!(&header[..6], b"OXID\x01\x37");
    session.header_sent(true);
    assert_eq!(session.phase(), DiagPhase::Streaming);
    // No second header.
    assert_eq!(session.header(&settings, &mut header), None);
    assert_eq!(session.frame(&a, MachineState::Idle, 0, &mut frame), Some(55));
    session.frame_sent(true);
    assert_eq!(session.frame(&a, MachineState::Idle, 0, &mut frame), Some(55));
    session.frame_sent(false);
    assert_eq!(session.phase(), DiagPhase::Closed);
    assert_eq!(session.frame(&a, MachineState::Idle, 0, &mut frame), None);
}

#[test]
fn stream_closes_where_the_header_fails() {
    let mut frame: [u8; 55] = [0; 55];
    let mut session: DiagSession = DiagSession::new();
    session.header_sent(false);
    assert_eq!(session.phase(), DiagPhase::Closed);
    let a: Telemetry = get_telemetry(None);
    assert_eq!(session.frame(&a, MachineState::Idle, 0, &mut frame), None);
}

#[test]
fn stream_reads_end_with_the_peer() {
    let mut session: DiagSession = DiagSession::new();
    session.header_sent(true);
    assert_eq!(session.read(Some(b"{}\n{")), vec![b"{}".to_vec()]);
    assert_eq!(session.read(Some(b"}\n")), vec![b"{}".to_vec()]);
    assert_eq!(session.phase(), DiagPhase::Streaming);
    assert!(session.read(Some(b"")).is_empty());
    assert_eq!(session.phase(), DiagPhase::Closed);
    let mut other: DiagSession = DiagSession::new();
    assert!(other.read(None).is_empty());
    assert_eq!(other.phase(), DiagPhase::Closed);
}

#[test]
fn store_is_the_end_of_flash() {
    assert_eq!(FS_RANGE.end as usize, FLASH_SIZE);
    assert_eq!(FS_RANGE.end - FS_RANGE.start, 65536);
    assert_eq!(FS_SCRATCH, 1024);
}

#[test]
fn cuts_of_the_stream_do_not_matter() {
    let text: &[u8] = b"one\ntwo\0\n\nthree\nrest";
    let mut whole: LineBuffer = LineBuffer::new();
    let want: Vec<Vec<u8>> = whole.push_all(text);
    assert_eq!(want, vec![b"one".to_vec(), b"two".to_vec(), b"three".to_vec()]);
    for cut in 0..=text.len() {
        let mut parts: LineBuffer = LineBuffer::new();
        let mut got: Vec<Vec<u8>> = parts.push_all(&text[..cut]);
        got.extend(parts.push_all(&text[cut..]));
        assert_eq!(got, want);
    }
}

#[test]
fn derivative_gain_keeps_the_order() {
    for k in 1..40u32 {
        let mut low: PidController = PidController::new(s(3.0), s(2.0), s(0.5));
        let mut high: PidController = PidController::new(s(3.0), s(2.0), s(0.5));
        low.update(s(9.0), s(4.0), 0);
        high.update(s(9.0), s(4.0), 0);
        let (a, b) = (k as f32 * 0.2, k as f32 * 0.2 + 0.7);
        assert!(f(high.update(s(9.0), s(b), 20_000)) <= f(low.update(s(9.0), s(a), 20_000)));
        assert!(f(low.update(s(9.0), s(5.0), 40_000)) <= 100.0);
    }
}

#[test]
fn higher_target_gets_no_less_duty() {
    let mut last: f32 = 0.0;
    for k in 0..60u32 {
        let mut pid: PidController = PidController::new(s(10.0), s(20.0), s(1.0));
        let got: f32 = f(pid.update(s(k as f32 * 0.25), s(2.0), 0));
        assert!(got >= last);
        last = got;
    }
}

#[test]
fn profile_is_over_in_time() {
    let machine: MachineSettings = Settings::default().machine;
    let mut steps: heapless::Vec<BrewProfileStep, 5> = heapless::Vec::new();
    for _ in 0..5 {
        let step: BrewProfileStep = BrewProfileStep {
            time_s: Some(s(1e9)),
            volume: Some(s(1e9)),
            pressure: Some(s(9.0)),
            flow: None,
        };
        steps.push(step).unwrap();
    }
    let profile: BrewProfile = BrewProfile { name: heapless::String::new(), steps };
    let mut out: Outputs = Outputs::new(Signals::new(), false);
    let senses = |now: u64| Senses { volume_ml: s(0.0), temp_c: s(92.0), now };
    let mut run: Option<Run> =
        execute(Operation::Profile(profile), &machine, &senses(7), &mut out);
    let mut last: u64 = 7;
    while let Some(r) = run {
        last = r.deadline();
        run = r.poll(&senses(last), &mut out);
    }
    assert_eq!(last, 7 + 5 * 120_000_000);
    assert!(!out.valve_open);
}

#[test]
fn every_slot_with_a_character_has_a_key() {
    assert_eq!(profile_key(10)[5], b':');
    assert_eq!(profile_key(207)[5], 255);
}
