use oximite::coordinator::Machine;
use oximite::dhcp::reply_to;
use oximite::diag::{
    dispatch_diag_command, encode_diag_frame, encode_diag_header, encode_fixed, DIAG_FRAME_LEN,
    DIAG_HEADER_LEN,
};
use oximite::lines::LineBuffer;
use oximite::profiles::{save_profile_to_ram, BrewProfile};
use oximite::settings::{ControlSettings, Settings, WifiSettings};
use oximite::single::Single;
use oximite::state::{
    get_ack, get_telemetry, mark_served, next_command, CommandQueue, MachineCommand, MachineState,
    Telemetry,
};
use oximite::text::{parse_number, same_text, starts_with, trim};
use oximite::uart::{handle_command, uart_telemetry, UartCommand};
use oximite::web_api::{
    after_read, build_command, content_length, head_end, html_header, parse_command, parse_slot,
    read_request, request_text, route, serve, submit, ui_telemetry, write_json, ApiCommand,
    HttpError, Response, Route, JSON_RESP_MAX,
};
use oximite::wifi::{is_access_point, Link, LinkEvent};

fn s(v: f32) -> Single {
    Single::from_bits(v.to_bits())
}

fn f(x: Single) -> f32 {
    f32::from_bits(x.to_bits())
}

fn named(name: &str) -> BrewProfile {
    BrewProfile { name: heapless::String::try_from(name).unwrap(), steps: heapless::Vec::new() }
}

fn api(cmd: &str) -> ApiCommand<'_> {
    ApiCommand {
        cmd,
        profile: None,
        slot: None,
        machine: None,
        temp_pid: None,
        press_pid: None,
        flow_pid: None,
        wifi: None,
        power: None,
        temp: None,
    }
}

#[test]
fn status_lines() {
    assert_eq!(HttpError::Closed.status_line(), None);
    assert_eq!(
        HttpError::TooLarge.status_line(),
        Some("HTTP/1.1 413 Payload Too Large\r\nConnection: close\r\n\r\n")
    );
    assert_eq!(
        HttpError::BadRequest.status_line(),
        Some("HTTP/1.1 400 Bad Request\r\nConnection: close\r\n\r\n")
    );
    assert_eq!(
        HttpError::NotFound.status_line(),
        Some("HTTP/1.1 404 Not Found\r\nConnection: close\r\n\r\n")
    );
    assert_eq!(
        HttpError::Busy.status_line(),
        Some("HTTP/1.1 503 Service Unavailable\r\nConnection: close\r\n\r\n")
    );
}

#[test]
fn head_ends_at_the_first_blank_line() {
    assert_eq!(head_end(b""), None);
    assert_eq!(head_end(b"\r\n\r"), None);
    assert_eq!(head_end(b"\r\n\r\n"), Some(4));
    assert_eq!(head_end(b"GET / HTTP/1.1\r\nA: b\r\n\r\nbody\r\n\r\n"), Some(24));
    assert_eq!(head_end(b"a\r\n\n\r\n"), None);
}

#[test]
fn content_lengths() {
    assert_eq!(content_length("POST / HTTP/1.1\r\nContent-Length: 12\r\n\r\n"), Some(12));
    assert_eq!(content_length("POST / HTTP/1.1\r\nCONTENT-LENGTH:7\r\n"), Some(7));
    assert_eq!(content_length("x\ncontent-length: \t+42 \u{a0}\u{2003}\r\n"), Some(42));
    assert_eq!(content_length("x\ncontent-length : 5\r\n"), None);
    assert_eq!(content_length("x\ncontent-length: -5\r\n"), None);
    assert_eq!(content_length("x\ncontent-length: 5x\r\ncontent-length: 6\r\n"), None);
    assert_eq!(content_length("x\ncontent-length:\r\n"), None);
    assert_eq!(content_length("x\ncontent-length: 99999999999999999999999\r\n"), None);
    assert_eq!(content_length("x\nx-content-length: 5\r\n"), None);
    assert_eq!(content_length("content-length: 3"), Some(3));
    assert_eq!(content_length(""), None);
}

#[test]
fn requests_wait_for_their_body() {
    let mut buf: [u8; 64] = [0; 64];
    let text: &[u8] = b"POST / HTTP/1.1\r\nContent-Length: 4\r\n\r\nbodyMORE";
    buf[..text.len()].copy_from_slice(text);
    let head: usize = text.len() - 8;
    assert_eq!(read_request(&buf, 0), Ok(None));
    assert_eq!(read_request(&buf, head - 1), Ok(None));
    assert_eq!(read_request(&buf, head), Ok(None));
    assert_eq!(read_request(&buf, head + 3), Ok(None));
    assert_eq!(read_request(&buf, head + 4), Ok(Some(head + 4)));
    // A pipelined request is cut off.
    assert_eq!(read_request(&buf, text.len()), Ok(Some(head + 4)));
}

#[test]
fn requests_that_do_not_fit_are_refused() {
    let full: [u8; 8] = [b'x'; 8];
    assert_eq!(read_request(&full, 7), Ok(None));
    assert_eq!(read_request(&full, 8), Err(HttpError::TooLarge));
    let mut buf: [u8; 64] = [0; 64];
    let text: &[u8] = b"P / H\r\nContent-Length: 40\r\n\r\n";
    buf[..text.len()].copy_from_slice(text);
    assert_eq!(read_request(&buf, text.len()), Err(HttpError::TooLarge));
    let huge: &[u8] = b"P / H\r\nContent-Length: 4294967295\r\n\r\n";
    buf[..huge.len()].copy_from_slice(huge);
    assert_eq!(read_request(&buf, huge.len()), Err(HttpError::TooLarge));
    let max: String = format!("P / H\r\nContent-Length: {}\r\n\r\n", usize::MAX);
    let mut wide: [u8; 80] = [0; 80];
    wide[..max.len()].copy_from_slice(max.as_bytes());
    assert_eq!(read_request(&wide, max.len()), Err(HttpError::TooLarge));
    let bad: &[u8] = b"P \xFF H\r\n\r\n";
    let mut other: [u8; 16] = [0; 16];
    other[..bad.len()].copy_from_slice(bad);
    assert_eq!(read_request(&other, bad.len()), Err(HttpError::BadRequest));
}

#[test]
fn reads_that_end_close_the_request() {
    assert_eq!(after_read(5, Some(3)), Ok(8));
    assert_eq!(after_read(5, Some(0)), Err(HttpError::Closed));
    assert_eq!(after_read(5, None), Err(HttpError::Closed));
    assert_eq!(request_text(b"abc"), Ok("abc"));
    assert_eq!(request_text(b"\xC3\xA9"), Ok("\u{e9}"));
    assert_eq!(request_text(b"\xC3"), Err(HttpError::BadRequest));
    assert_eq!(parse_command("head\r\n\r\n{}"), Ok(8));
    assert_eq!(parse_command("head\r\n{}"), Err(HttpError::BadRequest));
}

#[test]
fn slots_are_parsed() {
    assert_eq!(parse_slot("GET /api/profile/7 HTTP/1.1"), Ok(7));
    assert_eq!(parse_slot("GET /api/profile/+12"), Ok(12));
    assert_eq!(parse_slot("GET /api/profile/255 x"), Ok(255));
    assert_eq!(parse_slot("GET /api/profile/256 x"), Err(HttpError::NotFound));
    assert_eq!(parse_slot("GET /api/profile/ x"), Err(HttpError::NotFound));
    assert_eq!(parse_slot("GET /api/profile/x"), Err(HttpError::NotFound));
    assert_eq!(parse_slot("GET /api/profiles"), Err(HttpError::NotFound));
}

#[test]
fn text_helpers() {
    assert!(starts_with(b"abc", b"ab"));
    assert!(!starts_with(b"a", b"ab"));
    assert!(same_text("caf\u{e9}", "caf\u{e9}"));
    assert!(!same_text("stop", "stops"));
    assert_eq!(trim(b" \r\n a b\t"), b"a b");
    assert_eq!(trim("\u{3000}\u{1680}x\u{205f}\u{85}".as_bytes()), b"x");
    assert_eq!(trim(b"  "), b"");
    assert_eq!(parse_number(b"0012", 100), Some(12));
    assert_eq!(parse_number(b"101", 100), None);
    assert_eq!(parse_number(b"+", 100), None);
    assert_eq!(parse_number(b"", 100), None);
}

#[test]
fn trimming_matches_the_standard_library() {
    let spaces: Vec<char> = (0u32..0x3100).filter_map(char::from_u32).collect();
    for c in spaces {
        let text: String = format!("{}a{}b{}", c, c, c);
        assert_eq!(trim(text.as_bytes()), text.trim().as_bytes(), "{:x}", c as u32);
    }
}

#[test]
fn routes() {
    assert_eq!(route("GET / HTTP/1.1\r\n"), Route::Index);
    assert_eq!(route("GET /index.html HTTP/1.1"), Route::Index);
    assert_eq!(route("GET /api/telemetry"), Route::Telemetry);
    assert_eq!(route("GET /api/settings"), Route::Settings);
    assert_eq!(route("GET /api/profiles HTTP/1.1"), Route::Profiles);
    assert_eq!(route("GET /api/profile/3 HTTP/1.1"), Route::Profile);
    assert_eq!(route("POST /api/cmd HTTP/1.1"), Route::Command);
    assert_eq!(route("GET /"), Route::Unknown);
    assert_eq!(route("PUT /api/cmd"), Route::Unknown);
}

#[test]
fn commands_are_built() {
    let mut m: Machine = Machine::new();
    save_profile_to_ram(&mut m.profiles, 2, named("Two"));
    let p = &m.profiles;
    let d: Settings = Settings::default();
    assert!(matches!(build_command(api("power"), p), Ok(MachineCommand::TogglePower)));
    assert!(matches!(build_command(api("brew"), p), Ok(MachineCommand::Brew)));
    assert!(matches!(build_command(api("stop"), p), Ok(MachineCommand::Stop)));
    assert!(matches!(build_command(api("steam"), p), Ok(MachineCommand::Steam)));
    assert!(matches!(build_command(api("flush"), p), Ok(MachineCommand::Flush)));
    assert!(matches!(build_command(api("descale"), p), Err(HttpError::BadRequest)));
    for cmd in [
        "direct_pump", "set_session_temp", "save_machine", "save_pids", "save_wifi", "profile",
        "run_slot", "save_profile", "delete_profile",
    ] {
        assert!(matches!(build_command(api(cmd), p), Err(HttpError::BadRequest)), "{}", cmd);
    }
    let mut a = api("direct_pump");
    a.power = Some(s(12.5));
    assert!(matches!(build_command(a, p), Ok(MachineCommand::DirectPump(x)) if f(x) == 12.5));
    let mut a = api("set_session_temp");
    a.temp = Some(s(91.0));
    assert!(matches!(build_command(a, p), Ok(MachineCommand::SetSessionTemp(x)) if f(x) == 91.0));
    let mut a = api("save_machine");
    a.machine = Some(d.machine);
    assert!(matches!(build_command(a, p), Ok(MachineCommand::SaveMachine(_))));
    let mut a = api("save_pids");
    a.temp_pid = Some(d.temp_pid);
    assert!(matches!(build_command(a, p), Err(HttpError::BadRequest)));
    let mut a = api("save_pids");
    a.temp_pid = Some(d.temp_pid);
    a.press_pid = Some(d.press_pid);
    assert!(matches!(build_command(a, p), Ok(MachineCommand::SavePids(_, _, None))));
    let mut a = api("save_wifi");
    a.wifi = Some(d.wifi.clone());
    assert!(matches!(build_command(a, p), Ok(MachineCommand::SaveWifi(_))));
    let mut a = api("profile");
    a.profile = Some(named("Mine"));
    assert!(
        matches!(build_command(a, p), Ok(MachineCommand::RunProfile(x)) if x.name.as_str() == "Mine")
    );
    let mut a = api("run_slot");
    a.slot = Some(2);
    assert!(
        matches!(build_command(a, p), Ok(MachineCommand::RunProfile(x)) if x.name.as_str() == "Two")
    );
    let mut a = api("run_slot");
    a.slot = Some(3);
    assert!(matches!(build_command(a, p), Err(HttpError::NotFound)));
    let mut a = api("save_profile");
    a.slot = Some(3);
    a.profile = Some(named("Three"));
    assert!(matches!(build_command(a, p), Ok(MachineCommand::SaveProfile(3, _))));
    let mut a = api("delete_profile");
    a.slot = Some(3);
    assert!(matches!(build_command(a, p), Ok(MachineCommand::DeleteProfile(3))));
}

#[test]
fn requests_are_served() {
    let mut m: Machine = Machine::new();
    m.session_temp = 93.0f32.to_bits();
    save_profile_to_ram(&mut m.profiles, 2, named("Two"));
    let mut q: CommandQueue = CommandQueue::new();
    assert!(matches!(serve("GET / ", None, &m, None, &mut q), Ok(Response::Index)));
    match serve("GET /api/telemetry ", None, &m, None, &mut q) {
        Ok(Response::Telemetry(t)) => {
            assert_eq!((f(t.t), f(t.sbt), t.st, t.ack), (10.0, 93.0, 0, 0));
        }
        _ => panic!("no telemetry"),
    }
    match serve("GET /api/settings ", None, &m, None, &mut q) {
        Ok(Response::Settings(x)) => assert_eq!(f(x.machine.brew_temp), 92.0),
        _ => panic!("no settings"),
    }
    match serve("GET /api/profiles ", None, &m, None, &mut q) {
        Ok(Response::Profiles(list)) => {
            assert_eq!(list.len(), 1);
            assert_eq!((list[0].0, list[0].1.name.as_str()), (2, "Two"));
        }
        _ => panic!("no profiles"),
    }
    match serve("GET /api/profile/2 ", None, &m, None, &mut q) {
        Ok(Response::Profile(p)) => assert_eq!(p.name.as_str(), "Two"),
        _ => panic!("no profile"),
    }
    assert!(matches!(
        serve("GET /api/profile/3 ", None, &m, None, &mut q),
        Err(HttpError::NotFound)
    ));
    assert!(matches!(serve("GET /nothing ", None, &m, None, &mut q), Err(HttpError::NotFound)));
    let post: &str = "POST /api/cmd HTTP/1.1\r\n\r\n{}";
    assert!(matches!(serve(post, None, &m, None, &mut q), Err(HttpError::BadRequest)));
    assert!(matches!(
        serve("POST /api/cmd", Some(api("brew")), &m, None, &mut q),
        Err(HttpError::BadRequest)
    ));
    assert!(matches!(
        serve(post, Some(api("nonsense")), &m, None, &mut q),
        Err(HttpError::BadRequest)
    ));
    for ticket in 1..=4u32 {
        match serve(post, Some(api("stop")), &m, None, &mut q) {
            Ok(Response::Accepted(t)) => assert_eq!(t, ticket),
            _ => panic!("not accepted"),
        }
    }
    assert!(matches!(serve(post, Some(api("stop")), &m, None, &mut q), Err(HttpError::Busy)));
    assert!(next_command(&mut q).is_some());
    mark_served(&mut q);
    assert_eq!(get_ack(&q), 1);
    assert_eq!(submit(Some(api("brew")), &m.profiles, &mut q), Ok(5));
    assert_eq!(submit(None, &m.profiles, &mut q), Err(HttpError::BadRequest));
}

#[test]
fn telemetry_is_rounded_for_display() {
    let r2 = |v: f32| {
        let bias: f32 = if v < 0.0 { -0.5 } else { 0.5 };
        ((v * 100.0 + bias) as i32) as f32 / 100.0
    };
    let machine = Settings::default().machine;
    for v in [0.0f32, 1.234, 1.235, -0.004, -0.006, 93.456, -17.339, 1e12, -1e12] {
        let mut a: Telemetry = get_telemetry(None);
        a.temp_c = s(v);
        a.pressure_bar = s(v);
        a.flow_rate_ml_s = s(v);
        a.volume_ml = s(v);
        let t = ui_telemetry(a, MachineState::Steaming, &machine, s(v), 9);
        assert_eq!(f(t.t).to_bits(), r2(v).to_bits());
        assert_eq!(f(t.sbt).to_bits(), r2(v).to_bits());
        assert_eq!(f(t.vol).to_bits(), r2(v).to_bits());
        assert_eq!((t.st, t.ack), (2, 9));
        let t = ui_telemetry(a, MachineState::Idle, &machine, s(v), 9);
        assert_eq!(f(t.t).to_bits(), r2(v - 10.0).to_bits());
        assert_eq!(f(t.p).to_bits(), r2(v).to_bits());
        assert_eq!(f(t.fl).to_bits(), r2(v).to_bits());
    }
}

#[test]
fn json_responses_are_framed() {
    let bytes: Vec<u8> = write_json(b"{\"a\":1}").unwrap();
    assert_eq!(
        bytes,
        b"HTTP/1.1 200 OK\r\nContent-Type: application/json\r\nConnection: close\r\n\r\n{\"a\":1}"
    );
    let header: usize = bytes.len() - 7;
    assert!(write_json(&vec![b'x'; JSON_RESP_MAX - header]).is_some());
    assert!(write_json(&vec![b'x'; JSON_RESP_MAX - header + 1]).is_none());
    assert!(html_header().ends_with("Content-Encoding: gzip\r\nConnection: close\r\n\r\n"));
}

#[test]
fn diag_header_bytes() {
    let mut buf: [u8; 54] = [0; 54];
    let c: ControlSettings = ControlSettings::default();
    assert_eq!(encode_diag_header(&c, &mut buf), Some(DIAG_HEADER_LEN));
    assert_eq!(&buf[..6], b"OXID\x01\x37");
    assert_eq!(&buf[6..10], &10.0f32.to_le_bytes());
    assert_eq!(&buf[10..14], &92.0f32.to_le_bytes());
    assert_eq!(&buf[14..18], &135.0f32.to_le_bytes());
    assert_eq!(&buf[18..22], &8.0f32.to_le_bytes());
    assert_eq!(&buf[22..26], &0.8f32.to_le_bytes());
    assert_eq!(&buf[50..54], &0.0f32.to_le_bytes());
    assert_eq!(&buf[46..50], &30.0f32.to_le_bytes());
}

#[test]
fn diag_frame_bytes() {
    let mut buf: [u8; 55] = [0; 55];
    let mut a: Telemetry = get_telemetry(None);
    a.tick = 0x0102_0304;
    a.temp_c = s(101.5);
    a.target_temp = s(102.0);
    a.effective_target_temp = s(103.0);
    a.pressure_bar = s(8.9);
    a.target_bar = s(9.0);
    a.effective_target_bar = s(9.5);
    a.flow_rate_ml_s = s(2.1);
    a.flow_limit_ml_s = s(2.5);
    a.volume_ml = s(17.0);
    a.heater_duty = s(33.0);
    a.pump_duty = s(66.0);
    a.flow_controlled = true;
    let now: u64 = (5_000_000_000u64 + 7) * 1000 + 999;
    assert_eq!(encode_diag_frame(&a, MachineState::HotWater, now, &mut buf), Some(DIAG_FRAME_LEN));
    let mut want: Vec<u8> = vec![1, 4, 3, 2, 1];
    want.extend_from_slice(&((5_000_000_007u64 as u32).to_le_bytes()));
    for v in [101.5f32, 102.0, 103.0, 8.9, 9.0, 9.5, 2.1, 2.5, 17.0, 33.0, 66.0] {
        want.extend_from_slice(&v.to_le_bytes());
    }
    want.push(1);
    want.push(6);
    assert_eq!(&buf[..], &want[..]);
}

#[test]
fn encodings_of_the_wrong_size_are_dropped() {
    assert_eq!(encode_fixed(Ok(55), 55), Some(55));
    assert_eq!(encode_fixed(Ok(54), 55), None);
    assert_eq!(encode_fixed(Err(()), 55), None);
}

#[test]
fn diag_commands_are_queued() {
    let m: Machine = Machine::new();
    let mut q: CommandQueue = CommandQueue::new();
    assert!(dispatch_diag_command(api("steam"), &m.profiles, &mut q));
    assert!(!dispatch_diag_command(api("bogus"), &m.profiles, &mut q));
    assert!(matches!(next_command(&mut q), Some(MachineCommand::Steam)));
    mark_served(&mut q);
    assert!(next_command(&mut q).is_none());
}

#[test]
fn lines_come_out_as_sent() {
    let mut b: LineBuffer = LineBuffer::new();
    assert!(b.push_all(b"\n\nab").is_empty());
    let lines: Vec<Vec<u8>> = b.push_all(b"c\0d\nsecond\nrest");
    assert_eq!(lines, vec![b"abcd".to_vec(), b"second".to_vec()]);
    assert_eq!(b.push(b'\n'), Some(b"rest".to_vec()));
    let long: Vec<u8> = vec![b'x'; 2000];
    assert!(b.push_all(&long).is_empty());
    assert_eq!(b.push(b'\n').unwrap().len(), 1024);
}

fn discover(kind: u8) -> Vec<u8> {
    let mut p: Vec<u8> = vec![0; 240];
    p[4..8].copy_from_slice(&[1, 2, 3, 4]);
    for i in 0..16usize {
        p[28 + i] = 100 + i as u8;
    }
    p[236..240].copy_from_slice(&[0x63, 0x82, 0x53, 0x63]);
    p.extend_from_slice(&[0, 12, 2, b'h', b'i', 53, 1, kind, 255]);
    p
}

#[test]
fn dhcp_discovery_gets_an_offer() {
    let reply: [u8; 300] = reply_to(&discover(1)).unwrap();
    assert_eq!(&reply[..4], &[2, 1, 6, 0]);
    assert_eq!(&reply[4..8], &[1, 2, 3, 4]);
    assert_eq!(&reply[8..16], &[0; 8]);
    assert_eq!(&reply[16..24], &[192, 168, 4, 2, 192, 168, 4, 1]);
    assert_eq!(reply[28], 100);
    assert_eq!(reply[43], 115);
    assert_eq!(&reply[44..236], &[0; 192][..]);
    assert_eq!(&reply[236..243], &[0x63, 0x82, 0x53, 0x63, 53, 1, 2]);
    assert_eq!(&reply[243..249], &[54, 4, 192, 168, 4, 1]);
    assert_eq!(&reply[249..255], &[51, 4, 0, 0, 14, 16]);
    assert_eq!(&reply[255..261], &[1, 4, 255, 255, 255, 0]);
    assert_eq!(&reply[261..268], &[3, 4, 192, 168, 4, 1, 255]);
    assert_eq!(&reply[268..], &[0; 32]);
}

#[test]
fn dhcp_request_gets_an_acknowledgement() {
    assert_eq!(reply_to(&discover(3)).unwrap()[242], 5);
}

#[test]
fn dhcp_ignores_everything_else() {
    assert!(reply_to(&discover(2)).is_none());
    assert!(reply_to(&discover(1)[..239]).is_none());
    assert!(reply_to(&discover(1)[..240]).is_none());
    let mut bad: Vec<u8> = discover(1);
    bad[237] = 0;
    assert!(reply_to(&bad).is_none());
    // An option that is cut off.
    assert!(reply_to(&discover(1)[..247]).is_none());
    // The last message type counts, and one of another length does not.
    let mut two: Vec<u8> = discover(1);
    two.pop();
    two.extend_from_slice(&[53, 2, 9, 9, 53, 1, 3]);
    assert_eq!(reply_to(&two).unwrap()[242], 5);
}

fn serial(cmd: &str) -> UartCommand<'_> {
    UartCommand { cmd, profile: None, settings: None, power: None }
}

#[test]
fn uart_commands() {
    assert!(matches!(handle_command(serial("stop"))[..], [MachineCommand::Stop]));
    assert!(matches!(handle_command(serial("brew"))[..], [MachineCommand::Brew]));
    assert!(matches!(handle_command(serial("steam"))[..], [MachineCommand::Steam]));
    assert!(matches!(handle_command(serial("flush"))[..], [MachineCommand::Flush]));
    assert!(matches!(handle_command(serial("descale"))[..], [MachineCommand::Descale]));
    assert!(matches!(handle_command(serial("direct_pump"))[..], [MachineCommand::Stop]));
    let mut pump = serial("direct_pump");
    pump.power = Some(s(7.0));
    assert!(matches!(
        handle_command(pump)[..],
        [MachineCommand::Stop, MachineCommand::DirectPump(p)] if f(p) == 7.0
    ));
    assert!(handle_command(serial("profile")).is_empty());
    let mut profile = serial("profile");
    profile.profile = Some(named("P"));
    assert!(matches!(handle_command(profile)[..], [MachineCommand::RunProfile(_)]));
    assert!(handle_command(serial("save_settings")).is_empty());
    let mut save = serial("save_settings");
    let mut settings: Settings = Settings::default();
    settings.machine.brew_temp = s(90.5);
    save.settings = Some(settings);
    match &handle_command(save)[..] {
        [MachineCommand::SaveSettings(got)] => assert_eq!(f(got.machine.brew_temp), 90.5),
        _ => panic!("not saved"),
    }
    assert!(handle_command(serial("nothing")).is_empty());
    let mut a: Telemetry = get_telemetry(None);
    a.volume_ml = s(3.5);
    let t = uart_telemetry(&a, MachineState::Cooling);
    assert_eq!((t.st, f(t.vol), f(t.tt)), (5, 3.5, 20.0));
}

#[test]
fn access_point_without_a_network() {
    let wifi = |ssid: &str| WifiSettings {
        ssid: heapless::String::try_from(ssid).unwrap(),
        password: heapless::String::new(),
    };
    assert!(is_access_point(false, &wifi("")));
    assert!(!is_access_point(false, &wifi("home")));
    assert!(is_access_point(true, &wifi("home")));
}

#[test]
fn link_is_joined_again() {
    assert_eq!(Link::Joining.step(LinkEvent::Joined(false)), (Link::Joining, 5000));
    let (mut link, wait) = Link::Joining.step(LinkEvent::Joined(true));
    assert_eq!((link, wait), (Link::Checking(0), 0));
    for _ in 0..49 {
        let (next, wait) = link.step(LinkEvent::Up(false));
        assert_eq!(wait, 100);
        link = next;
    }
    assert_eq!(link, Link::Checking(49));
    assert_eq!(link.step(LinkEvent::Up(false)), (Link::Joining, 100));
    assert_eq!(link.step(LinkEvent::Up(true)), (Link::Watching, 0));
    assert_eq!(Link::Watching.step(LinkEvent::Up(true)), (Link::Watching, 500));
    assert_eq!(Link::Watching.step(LinkEvent::Up(false)), (Link::Joining, 0));
}
