//! HTTP interface to the machine: a small JSON REST API, as far as it is
//! decided here. Reading sockets and writing JSON is the caller's.
//!
//! This is pure protocol handling: every command is queued for the coordinator
//! as a [`MachineCommand`] rather than acted on here.

use crate::coordinator::{Machine, MachineModel};
use crate::profiles::{
    get_all_profiles_from_ram, get_profile_from_ram, BrewProfile, ProfileCache, ProfileModel,
};
use crate::settings::{
    MachineSettings, PidSettings, Settings, SettingsModel, WifiModel, WifiSettings,
};
use crate::single::Single;
use crate::state::{
    get_ack, get_session_brew_temp, get_state, get_telemetry, send_command, CommandModel,
    CommandQueue, MachineCommand, MachineState, QueueModel, Telemetry,
};
use crate::text::{parse_number, same_text, starts_with, text_of, trim};
use vstd::prelude::*;
use vstd::utf8::*;

verus! {

// ==========================================
// REQUESTS
// ==========================================

/// Why a request could not be served.
///
/// Each variant maps to the status line the client gets back, so a command
/// that never reached the coordinator is visible as an error instead of being
/// reported as success.
#[derive(Clone, Copy, Debug, PartialEq, Eq, Structural)]
pub enum HttpError {
    /// Peer closed, errored, or stalled part-way through a request.
    Closed,
    /// The request, or the body it declared, is larger than the read buffer.
    TooLarge,
    /// Malformed request, or a body that is not a valid [`ApiCommand`].
    BadRequest,
    NotFound,
    /// Command queue full, so the command was never queued and the machine will
    /// never run it.
    Busy,
}

impl HttpError {
    /// The response to send back, or `None` when there is no peer left to read
    /// it.
    pub fn status_line(&self) -> (r: Option<&'static str>)
        ensures
            match *self {
                HttpError::Closed => r is None,
                HttpError::TooLarge => r is Some && r->0@
                    == "HTTP/1.1 413 Payload Too Large\r\nConnection: close\r\n\r\n"@,
                HttpError::BadRequest => r is Some && r->0@
                    == "HTTP/1.1 400 Bad Request\r\nConnection: close\r\n\r\n"@,
                HttpError::NotFound => r is Some && r->0@
                    == "HTTP/1.1 404 Not Found\r\nConnection: close\r\n\r\n"@,
                HttpError::Busy => r is Some && r->0@
                    == "HTTP/1.1 503 Service Unavailable\r\nConnection: close\r\n\r\n"@,
            },
    {
        match self {
            HttpError::Closed => None,
            HttpError::TooLarge => Some(
                "HTTP/1.1 413 Payload Too Large\r\nConnection: close\r\n\r\n",
            ),
            HttpError::BadRequest => Some(
                "HTTP/1.1 400 Bad Request\r\nConnection: close\r\n\r\n",
            ),
            HttpError::NotFound => Some("HTTP/1.1 404 Not Found\r\nConnection: close\r\n\r\n"),
            HttpError::Busy => Some(
                "HTTP/1.1 503 Service Unavailable\r\nConnection: close\r\n\r\n",
            ),
        }
    }
}

/// A line end and an empty line at `i`.
pub open spec fn blank_line_at(b: Seq<u8>, i: int) -> bool {
    0 <= i && i + 4 <= b.len() && b[i] == 13 && b[i + 1] == 10 && b[i + 2] == 13 && b[i + 3] == 10
}

/// Where the body starts: just past the first blank line from `i` on.
pub open spec fn body_start(b: Seq<u8>, i: int) -> Option<int>
    decreases b.len() - i,
{
    if i < 0 || i + 4 > b.len() {
        None
    } else if blank_line_at(b, i) {
        Some(i + 4)
    } else {
        body_start(b, i + 1)
    }
}

/// Byte offset just past the `\r\n\r\n` terminating the request head, i.e.
/// where the body starts.
pub fn head_end(buf: &[u8]) -> (r: Option<usize>)
    ensures
        match r {
            Some(h) => body_start(buf@, 0) == Some(h as int) && 4 <= h <= buf@.len(),
            None => body_start(buf@, 0) is None,
        },
{
    let mut i: usize = 0;
    while buf.len() >= 4 && i <= buf.len() - 4
        invariant
            i <= buf@.len(),
            body_start(buf@, i as int) == body_start(buf@, 0),
        decreases buf@.len() - i,
    {
        if buf[i] == 13 && buf[i + 1] == 10 && buf[i + 2] == 13 && buf[i + 3] == 10 {
            return Some(i + 4);
        }
        i = i + 1;
    }
    None
}

/// Where the line at `i` ends.
pub open spec fn line_end(b: Seq<u8>, i: int) -> int
    decreases b.len() - i,
{
    if i < 0 || i >= b.len() || b[i] == 10 {
        i
    } else {
        line_end(b, i + 1)
    }
}

/// Where the first colon from `i` on stands, or `e` where there is none before
/// it.
pub open spec fn colon(b: Seq<u8>, i: int, e: int) -> int
    decreases e - i,
{
    if i >= e || b[i] == 58 {
        i
    } else {
        colon(b, i + 1, e)
    }
}

pub open spec fn lower(b: u8) -> u8 {
    if 65 <= b <= 90 {
        (b + 32) as u8
    } else {
        b
    }
}

/// The same name, but for the case of ASCII letters.
pub open spec fn same_name(a: Seq<u8>, b: Seq<u8>) -> bool {
    a.len() == b.len() && forall|i: int| 0 <= i < a.len() ==> lower(#[trigger] a[i]) == lower(b[i])
}

/// What stands behind the colon of the first line from `i` on that has `name`
/// in front of one.
pub open spec fn field(b: Seq<u8>, name: Seq<u8>, i: int) -> Option<Seq<u8>>
    decreases b.len() - i,
    when 0 <= i <= b.len()
    via field_terminates
{
    let e = line_end(b, i);
    let c = colon(b, i, e);
    if c < e && same_name(b.subrange(i, c), name) {
        Some(b.subrange(c + 1, e))
    } else if e < b.len() {
        field(b, name, e + 1)
    } else {
        None
    }
}

#[via_fn]
proof fn field_terminates(b: Seq<u8>, name: Seq<u8>, i: int) {
    lemma_line_end(b, i);
}

proof fn lemma_line_end(b: Seq<u8>, i: int)
    requires
        0 <= i <= b.len(),
    ensures
        i <= line_end(b, i) <= b.len(),
        line_end(b, i) < b.len() ==> b[line_end(b, i)] == 10,
    decreases b.len() - i,
{
    if i < b.len() && b[i] != 10 {
        lemma_line_end(b, i + 1);
    }
}

/// The length a head declares for the body.
pub open spec fn declared_length(head: Seq<u8>) -> Option<int> {
    match field(head, encode_utf8("content-length"@), 0) {
        Some(value) => match crate::text::number(crate::text::trimmed(value)) {
            Some(n) if n <= usize::MAX => Some(n),
            _ => None,
        },
        None => None,
    }
}

fn to_lower(b: u8) -> (r: u8)
    ensures
        r == lower(b),
{
    if 65 <= b && b <= 90 {
        b + 32
    } else {
        b
    }
}

fn is_same_name(a: &[u8], b: &[u8]) -> (r: bool)
    ensures
        r == same_name(a@, b@),
{
    if a.len() != b.len() {
        return false;
    }
    let mut i: usize = 0;
    while i < a.len()
        invariant
            i <= a@.len() == b@.len(),
            forall|k: int| 0 <= k < i ==> lower(#[trigger] a@[k]) == lower(b@[k]),
        decreases a@.len() - i,
    {
        if to_lower(a[i]) != to_lower(b[i]) {
            return false;
        }
        i = i + 1;
    }
    true
}

/// Declared body length, or `None` if the header is absent or unparseable.
pub fn content_length(head: &str) -> (r: Option<usize>)
    ensures
        match r {
            Some(n) => declared_length(encode_utf8(head@)) == Some(n as int),
            None => declared_length(encode_utf8(head@)) is None,
        },
{
    let b: &[u8] = head.as_bytes();
    let name: &[u8] = "content-length".as_bytes();
    let mut i: usize = 0;
    loop
        invariant
            b@ == encode_utf8(head@),
            name@ == encode_utf8("content-length"@),
            i <= b@.len(),
            field(b@, name@, i as int) == field(b@, name@, 0),
        decreases b@.len() - i,
    {
        let mut e: usize = i;
        while e < b.len() && b[e] != 10
            invariant
                i <= e <= b@.len(),
                line_end(b@, e as int) == line_end(b@, i as int),
            decreases b@.len() - e,
        {
            e = e + 1;
        }
        assert(e == line_end(b@, i as int));
        let mut c: usize = i;
        while c < e && b[c] != 58
            invariant
                i <= c <= e <= b@.len(),
                colon(b@, c as int, e as int) == colon(b@, i as int, e as int),
            decreases e - c,
        {
            c = c + 1;
        }
        assert(c == colon(b@, i as int, e as int));
        if c < e && is_same_name(&b[i..c], name) {
            return parse_number(trim(&b[c + 1..e]), usize::MAX);
        }
        if e >= b.len() {
            return None;
        }
        i = e + 1;
    }
}

/// How long the request in some bytes is, once all of it is there: its head
/// plus the body that it declares. Only the head has to be UTF-8 to find the
/// length.
pub open spec fn request_length(bytes: Seq<u8>, capacity: int) -> Result<Option<int>, HttpError> {
    match body_start(bytes, 0) {
        Some(head) => if !valid_utf8(bytes.take(head)) {
            Err(HttpError::BadRequest)
        } else {
            let body = match declared_length(bytes.take(head)) {
                Some(n) => n,
                None => 0,
            };
            if head + body > capacity {
                Err(HttpError::TooLarge)
            } else if bytes.len() >= head + body {
                Ok(Some(head + body))
            } else {
                Ok(None)
            }
        },
        None => if bytes.len() >= capacity {
            Err(HttpError::TooLarge)
        } else {
            Ok(None)
        },
    }
}

/// Whether the first `n` bytes of `buf` hold one complete request — head plus
/// the body its `Content-Length` declares — and how long that is. `None` asks
/// for another read.
///
/// A single read is not enough. TCP is a stream, so a POST whose body lands in
/// a second segment arrives as a complete-looking head with an empty body.
/// Waiting for the declared body is what makes a parse failure mean "bad JSON"
/// rather than "not all here yet". Anything past the length belongs to a
/// pipelined request, which is not served: it is cut off.
pub fn read_request(buf: &[u8], n: usize) -> (r: Result<Option<usize>, HttpError>)
    requires
        n <= buf@.len(),
    ensures
        match request_length(buf@.take(n as int), buf@.len() as int) {
            Ok(Some(len)) => r is Ok && r->Ok_0 is Some && r->Ok_0->0 == len && len <= n,
            Ok(None) => r is Ok && r->Ok_0 is None && n < buf@.len(),
            Err(e) => r is Err && r->Err_0 == e,
        },
{
    let filled: &[u8] = &buf[0..n];
    assert(filled@ =~= buf@.take(n as int));
    if let Some(head) = head_end(filled) {
        let head_bytes: &[u8] = &buf[0..head];
        assert(head_bytes@ =~= filled@.take(head as int));
        let body: usize = match text_of(head_bytes) {
            Some(head_str) => match content_length(head_str) {
                Some(len) => len,
                None => 0,
            },
            None => return Err(HttpError::BadRequest),
        };
        if body > buf.len() - head {
            return Err(HttpError::TooLarge);
        }
        let want: usize = head + body;
        if n >= want {
            return Ok(Some(want));
        }
    } else if n == buf.len() {
        return Err(HttpError::TooLarge);
    }
    Ok(None)
}

/// How much is filled after a read that gave `read` more bytes; `None` for a
/// read that failed. A peer that sends no more is gone.
pub fn after_read(n: usize, read: Option<usize>) -> (r: Result<usize, HttpError>)
    requires
        read matches Some(more) ==> n + more <= usize::MAX,
    ensures
        match read {
            Some(more) if more > 0 => r is Ok && r->Ok_0 == n + more,
            _ => r is Err && r->Err_0 == HttpError::Closed,
        },
{
    match read {
        Some(more) => if more > 0 {
            Ok(n + more)
        } else {
            Err(HttpError::Closed)
        },
        None => Err(HttpError::Closed),
    }
}

/// The text of a complete request, or of a command line.
pub fn request_text(request: &[u8]) -> (r: Result<&str, HttpError>)
    ensures
        valid_utf8(request@) ==> r is Ok && encode_utf8(r->Ok_0@) == request@,
        !valid_utf8(request@) ==> r is Err && r->Err_0 == HttpError::BadRequest,
{
    match text_of(request) {
        Some(text) => Ok(text),
        None => Err(HttpError::BadRequest),
    }
}

/// Where the JSON body of a request starts, whose head is already complete.
pub fn parse_command(request: &str) -> (r: Result<usize, HttpError>)
    ensures
        match body_start(encode_utf8(request@), 0) {
            Some(at) => r is Ok && r->Ok_0 == at,
            None => r is Err && r->Err_0 == HttpError::BadRequest,
        },
{
    match head_end(request.as_bytes()) {
        Some(at) => Ok(at),
        None => Err(HttpError::BadRequest),
    }
}

/// Where the first space from `i` on stands, or the end.
pub open spec fn word_end(b: Seq<u8>, i: int) -> int
    decreases b.len() - i,
{
    if i < 0 || i >= b.len() || b[i] == 32 {
        i
    } else {
        word_end(b, i + 1)
    }
}

/// The slot a `GET /api/profile/{slot}` request names.
pub open spec fn slot_of(request: Seq<u8>) -> Option<u8> {
    let prefix = encode_utf8("GET /api/profile/"@);
    if crate::text::begins(request, prefix) {
        let n = prefix.len() as int;
        match crate::text::number(request.subrange(n, word_end(request, n))) {
            Some(v) if v <= 255 => Some(v as u8),
            _ => None,
        }
    } else {
        None
    }
}

/// Slot number from a `GET /api/profile/{slot}` request line.
pub fn parse_slot(request: &str) -> (r: Result<u8, HttpError>)
    ensures
        match slot_of(encode_utf8(request@)) {
            Some(slot) => r is Ok && r->Ok_0 == slot,
            None => r is Err && r->Err_0 == HttpError::NotFound,
        },
{
    let b: &[u8] = request.as_bytes();
    let prefix: &[u8] = "GET /api/profile/".as_bytes();
    if !starts_with(b, prefix) {
        return Err(HttpError::NotFound);
    }
    let start: usize = prefix.len();
    let mut end: usize = start;
    while end < b.len() && b[end] != 32
        invariant
            start <= end <= b@.len(),
            word_end(b@, end as int) == word_end(b@, start as int),
        decreases b@.len() - end,
    {
        end = end + 1;
    }
    match parse_number(&b[start..end], 255) {
        Some(slot) => Ok(slot as u8),
        None => Err(HttpError::NotFound),
    }
}

// ==========================================
// COMMANDS
// ==========================================

/// A command as a client sends it.
pub struct ApiCommand<'a> {
    pub cmd: &'a str,
    pub profile: Option<BrewProfile>,
    pub slot: Option<u8>,
    pub machine: Option<MachineSettings>,
    pub temp_pid: Option<PidSettings>,
    pub press_pid: Option<PidSettings>,
    pub flow_pid: Option<PidSettings>,
    pub wifi: Option<WifiSettings>,
    pub power: Option<Single>,
    pub temp: Option<Single>,
}

/// What an [`ApiCommand`] holds.
pub struct ApiModel {
    pub cmd: Seq<char>,
    pub profile: Option<ProfileModel>,
    pub slot: Option<u8>,
    pub machine: Option<MachineSettings>,
    pub temp_pid: Option<PidSettings>,
    pub press_pid: Option<PidSettings>,
    pub flow_pid: Option<PidSettings>,
    pub wifi: Option<WifiModel>,
    pub power: Option<Single>,
    pub temp: Option<Single>,
}

impl<'a> View for ApiCommand<'a> {
    type V = ApiModel;

    open spec fn view(&self) -> ApiModel {
        ApiModel {
            cmd: self.cmd@,
            profile: match self.profile {
                Some(p) => Some(p@),
                None => None,
            },
            slot: self.slot,
            machine: self.machine,
            temp_pid: self.temp_pid,
            press_pid: self.press_pid,
            flow_pid: self.flow_pid,
            wifi: match self.wifi {
                Some(w) => Some(w@),
                None => None,
            },
            power: self.power,
            temp: self.temp,
        }
    }
}

/// The machine command a client's command stands for. A field that it needs
/// and lacks makes it a bad request, as does a name that none has; a slot that
/// holds nothing is not found.
pub open spec fn command_for(payload: ApiModel, profiles: Seq<Option<ProfileModel>>) -> Result<
    CommandModel,
    HttpError,
> {
    let bad = Err(HttpError::BadRequest);
    if payload.cmd == "power"@ {
        Ok(CommandModel::TogglePower)
    } else if payload.cmd == "brew"@ {
        Ok(CommandModel::Brew)
    } else if payload.cmd == "stop"@ {
        Ok(CommandModel::Stop)
    } else if payload.cmd == "steam"@ {
        Ok(CommandModel::Steam)
    } else if payload.cmd == "flush"@ {
        Ok(CommandModel::Flush)
    } else if payload.cmd == "direct_pump"@ {
        match payload.power {
            Some(power) => Ok(CommandModel::DirectPump(power)),
            None => bad,
        }
    } else if payload.cmd == "set_session_temp"@ {
        match payload.temp {
            Some(temp) => Ok(CommandModel::SetSessionTemp(temp)),
            None => bad,
        }
    } else if payload.cmd == "save_machine"@ {
        match payload.machine {
            Some(machine) => Ok(CommandModel::SaveMachine(machine)),
            None => bad,
        }
    } else if payload.cmd == "save_pids"@ {
        match (payload.temp_pid, payload.press_pid) {
            (Some(t), Some(p)) => Ok(CommandModel::SavePids(t, p, payload.flow_pid)),
            _ => bad,
        }
    } else if payload.cmd == "save_wifi"@ {
        match payload.wifi {
            Some(wifi) => Ok(CommandModel::SaveWifi(wifi)),
            None => bad,
        }
    } else if payload.cmd == "profile"@ {
        match payload.profile {
            Some(profile) => Ok(CommandModel::RunProfile(profile)),
            None => bad,
        }
    } else if payload.cmd == "run_slot"@ {
        match payload.slot {
            Some(slot) => match crate::profiles::profile_in(profiles, slot) {
                Some(profile) => Ok(CommandModel::RunProfile(profile)),
                None => Err(HttpError::NotFound),
            },
            None => bad,
        }
    } else if payload.cmd == "save_profile"@ {
        match (payload.slot, payload.profile) {
            (Some(slot), Some(profile)) => Ok(CommandModel::SaveProfile(slot, profile)),
            _ => bad,
        }
    } else if payload.cmd == "delete_profile"@ {
        match payload.slot {
            Some(slot) => Ok(CommandModel::DeleteProfile(slot)),
            None => bad,
        }
    } else {
        bad
    }
}

/// Maps one API command onto a [`MachineCommand`], or says why it cannot be.
///
/// Every field a command needs is mandatory, so a caller is never handed a
/// success for a command that could not be built and therefore never ran.
pub fn build_command(payload: ApiCommand<'_>, profiles: &ProfileCache) -> (r: Result<
    MachineCommand,
    HttpError,
>)
    ensures
        match command_for(payload@, profiles@) {
            Ok(cmd) => r is Ok && r->Ok_0@ == cmd,
            Err(e) => r is Err && r->Err_0 == e,
        },
{
    let bad: HttpError = HttpError::BadRequest;
    if same_text(payload.cmd, "power") {
        Ok(MachineCommand::TogglePower)
    } else if same_text(payload.cmd, "brew") {
        Ok(MachineCommand::Brew)
    } else if same_text(payload.cmd, "stop") {
        Ok(MachineCommand::Stop)
    } else if same_text(payload.cmd, "steam") {
        Ok(MachineCommand::Steam)
    } else if same_text(payload.cmd, "flush") {
        Ok(MachineCommand::Flush)
    } else if same_text(payload.cmd, "direct_pump") {
        match payload.power {
            Some(power) => Ok(MachineCommand::DirectPump(power)),
            None => Err(bad),
        }
    } else if same_text(payload.cmd, "set_session_temp") {
        match payload.temp {
            Some(temp) => Ok(MachineCommand::SetSessionTemp(temp)),
            None => Err(bad),
        }
    } else if same_text(payload.cmd, "save_machine") {
        match payload.machine {
            Some(machine) => Ok(MachineCommand::SaveMachine(machine)),
            None => Err(bad),
        }
    } else if same_text(payload.cmd, "save_pids") {
        match (payload.temp_pid, payload.press_pid) {
            (Some(t), Some(p)) => Ok(MachineCommand::SavePids(t, p, payload.flow_pid)),
            _ => Err(bad),
        }
    } else if same_text(payload.cmd, "save_wifi") {
        match payload.wifi {
            Some(wifi) => Ok(MachineCommand::SaveWifi(wifi)),
            None => Err(bad),
        }
    } else if same_text(payload.cmd, "profile") {
        match payload.profile {
            Some(profile) => Ok(MachineCommand::RunProfile(profile)),
            None => Err(bad),
        }
    } else if same_text(payload.cmd, "run_slot") {
        match payload.slot {
            Some(slot) => match get_profile_from_ram(profiles, slot) {
                Some(profile) => Ok(MachineCommand::RunProfile(profile)),
                None => Err(HttpError::NotFound),
            },
            None => Err(bad),
        }
    } else if same_text(payload.cmd, "save_profile") {
        match (payload.slot, payload.profile) {
            (Some(slot), Some(profile)) => Ok(MachineCommand::SaveProfile(slot, profile)),
            _ => Err(bad),
        }
    } else if same_text(payload.cmd, "delete_profile") {
        match payload.slot {
            Some(slot) => Ok(MachineCommand::DeleteProfile(slot)),
            None => Err(bad),
        }
    } else {
        Err(bad)
    }
}

// ==========================================
// RESPONSES
// ==========================================

/// What the browser renders, and nothing else.
///
/// Temperatures are offset-corrected and everything is rounded to 2 dp,
/// because this is a display payload rather than a measurement.
#[derive(Clone, Copy, Debug)]
pub struct UiTelemetry {
    /// Group-head temperature, i.e. boiler minus `temp_offset`.
    pub t: Single,
    /// Session brew temp — what the UI's +/- buttons adjust. Deliberately not
    /// derived from the applied setpoint, which is a function of machine state
    /// (0 °C while sleeping or cooling, steam temp while steaming), so
    /// stepping from it would send nonsense back.
    pub sbt: Single,
    pub p: Single,
    pub fl: Single,
    pub vol: Single,
    pub st: u32,
    /// Highest command ticket the coordinator has served, which is how a client
    /// tells a command that was merely queued from one the machine acted on.
    pub ack: u32,
}

/// A number rounded to two decimals, half away from zero.
pub open spec fn hundredths(v: Single) -> Single {
    let half = Single::fraction(5, 10);
    let bias = if v.less(Single::whole(0)) {
        half.negated()
    } else {
        half
    };
    Single::integer(v.times(Single::whole(100)).plus(bias).integer_part()).over(Single::whole(100))
}

fn round2(v: Single) -> (r: Single)
    ensures
        r == hundredths(v),
{
    let half: Single = Single::ratio(5, 10);
    let bias: Single = if v.lt(Single::from_u32(0)) {
        half.neg()
    } else {
        half
    };
    let hundred: Single = Single::from_u32(100);
    Single::from_i32(v.mul(hundred).add(bias).to_i32()).div(hundred)
}

/// The display payload for one telemetry snapshot.
pub open spec fn displayed(
    a: Telemetry,
    state: MachineState,
    offset: Single,
    session_temp: Single,
    ack: u32,
) -> UiTelemetry {
    UiTelemetry {
        t: hundredths(
            if state == MachineState::Steaming {
                a.temp_c
            } else {
                a.temp_c.minus(offset)
            },
        ),
        sbt: hundredths(session_temp),
        p: hundredths(a.pressure_bar),
        fl: hundredths(a.flow_rate_ml_s),
        vol: hundredths(a.volume_ml),
        st: state.code_of() as u32,
        ack,
    }
}

/// Builds the display payload for one telemetry snapshot.
pub fn ui_telemetry(
    a: Telemetry,
    state: MachineState,
    machine: &MachineSettings,
    session_temp: Single,
    ack: u32,
) -> (r: UiTelemetry)
    ensures
        r == displayed(a, state, machine.temp_offset, session_temp, ack),
{
    let (disp_t, _, _) = a.display_temps(machine.temp_offset, state == MachineState::Steaming);
    UiTelemetry {
        t: round2(disp_t),
        sbt: round2(session_temp),
        p: round2(a.pressure_bar),
        fl: round2(a.flow_rate_ml_s),
        vol: round2(a.volume_ml),
        st: state.code() as u32,
        ack,
    }
}

/// What a request is answered with.
pub enum Response {
    /// The web UI's page.
    Index,
    Telemetry(UiTelemetry),
    Settings(Settings),
    /// Slot and name of each saved profile are what the client is shown.
    Profiles(heapless::Vec<(u8, BrewProfile), 10>),
    Profile(BrewProfile),
    /// A command was queued, under this ticket: the machine has only obeyed it
    /// once telemetry's `ack` reaches this value.
    Accepted(u32),
}

/// What a [`Response`] holds.
pub enum ResponseModel {
    Index,
    Telemetry(UiTelemetry),
    Settings(SettingsModel),
    Profiles(Seq<(u8, ProfileModel)>),
    Profile(ProfileModel),
    Accepted(u32),
}

impl View for Response {
    type V = ResponseModel;

    open spec fn view(&self) -> ResponseModel {
        match *self {
            Response::Index => ResponseModel::Index,
            Response::Telemetry(t) => ResponseModel::Telemetry(t),
            Response::Settings(s) => ResponseModel::Settings(s@),
            Response::Profiles(list) => ResponseModel::Profiles(crate::profiles::slot_list(list)),
            Response::Profile(p) => ResponseModel::Profile(p@),
            Response::Accepted(ticket) => ResponseModel::Accepted(ticket),
        }
    }
}

/// What a request asks for.
#[derive(Clone, Copy, Debug, PartialEq, Eq, Structural)]
pub enum Route {
    Index,
    Telemetry,
    Settings,
    Profiles,
    Profile,
    Command,
    Unknown,
}

pub open spec fn route_of(request: Seq<u8>) -> Route {
    if crate::text::begins(request, encode_utf8("GET / "@)) || crate::text::begins(
        request,
        encode_utf8("GET /index.html"@),
    ) {
        Route::Index
    } else if crate::text::begins(request, encode_utf8("GET /api/telemetry"@)) {
        Route::Telemetry
    } else if crate::text::begins(request, encode_utf8("GET /api/settings"@)) {
        Route::Settings
    } else if crate::text::begins(request, encode_utf8("GET /api/profiles"@)) {
        Route::Profiles
    } else if crate::text::begins(request, encode_utf8("GET /api/profile/"@)) {
        Route::Profile
    } else if crate::text::begins(request, encode_utf8("POST /api/cmd"@)) {
        Route::Command
    } else {
        Route::Unknown
    }
}

pub fn route(request: &str) -> (r: Route)
    ensures
        r == route_of(encode_utf8(request@)),
{
    let b: &[u8] = request.as_bytes();
    if starts_with(b, "GET / ".as_bytes()) || starts_with(b, "GET /index.html".as_bytes()) {
        Route::Index
    } else if starts_with(b, "GET /api/telemetry".as_bytes()) {
        Route::Telemetry
    } else if starts_with(b, "GET /api/settings".as_bytes()) {
        Route::Settings
    } else if starts_with(b, "GET /api/profiles".as_bytes()) {
        Route::Profiles
    } else if starts_with(b, "GET /api/profile/".as_bytes()) {
        Route::Profile
    } else if starts_with(b, "POST /api/cmd".as_bytes()) {
        Route::Command
    } else {
        Route::Unknown
    }
}

/// What a command gets, and the queue it leaves: a ticket once it is queued,
/// or the reason why it is not.
pub open spec fn accepted(
    payload: Option<ApiModel>,
    profiles: Seq<Option<ProfileModel>>,
    queue: QueueModel,
) -> (Result<u32, HttpError>, QueueModel) {
    match payload {
        Some(p) => match command_for(p, profiles) {
            Ok(cmd) => if queue.accepts() {
                (Ok(queue.next_ticket()), queue.sent(cmd))
            } else {
                (Err(HttpError::Busy), queue)
            },
            Err(e) => (Err(e), queue),
        },
        None => (Err(HttpError::BadRequest), queue),
    }
}

/// The answer to a complete request.
pub open spec fn answer_to(
    request: Seq<u8>,
    payload: Option<ApiModel>,
    machine: MachineModel,
    telemetry: Option<Telemetry>,
    queue: QueueModel,
) -> Result<ResponseModel, HttpError> {
    match route_of(request) {
        Route::Index => Ok(ResponseModel::Index),
        Route::Telemetry => Ok(
            ResponseModel::Telemetry(
                displayed(
                    match telemetry {
                        Some(t) => t,
                        None => Telemetry::cold(),
                    },
                    machine.state,
                    machine.settings.machine.temp_offset,
                    machine.session_temp,
                    queue.served,
                ),
            ),
        ),
        Route::Settings => Ok(ResponseModel::Settings(machine.settings)),
        Route::Profiles => Ok(
            ResponseModel::Profiles(
                crate::profiles::saved_profiles(
                    machine.profiles,
                    crate::profiles::MAX_PROFILES as int,
                ),
            ),
        ),
        Route::Profile => match slot_of(request) {
            Some(slot) => match crate::profiles::profile_in(machine.profiles, slot) {
                Some(p) => Ok(ResponseModel::Profile(p)),
                None => Err(HttpError::NotFound),
            },
            None => Err(HttpError::NotFound),
        },
        Route::Command => if body_start(request, 0) is None {
            Err(HttpError::BadRequest)
        } else {
            match accepted(payload, machine.profiles, queue).0 {
                Ok(ticket) => Ok(ResponseModel::Accepted(ticket)),
                Err(e) => Err(e),
            }
        },
        Route::Unknown => Err(HttpError::NotFound),
    }
}

/// Queues what a client's command stands for, `None` being one that could not
/// be read.
pub fn submit(
    payload: Option<ApiCommand<'_>>,
    profiles: &ProfileCache,
    queue: &mut CommandQueue,
) -> (r: Result<u32, HttpError>)
    requires
        old(queue)@.wf(),
    ensures
        final(queue)@.wf(),
        ({
            let model = match payload {
                Some(p) => Some(p@),
                None => None,
            };
            let (result, after) = accepted(model, profiles@, old(queue)@);
            &&& final(queue)@ == after
            &&& match result {
                Ok(ticket) => r is Ok && r->Ok_0 == ticket,
                Err(e) => r is Err && r->Err_0 == e,
            }
        }),
{
    let cmd: MachineCommand = match payload {
        Some(p) => match build_command(p, profiles) {
            Ok(cmd) => cmd,
            Err(e) => return Err(e),
        },
        None => return Err(HttpError::BadRequest),
    };
    match send_command(queue, cmd) {
        Some(ticket) => Ok(ticket),
        None => Err(HttpError::Busy),
    }
}

/// Routes one complete request. `payload` is the command its body was read as,
/// absent where it has none or none that can be read. The error's status line
/// is the answer where there is no other.
pub fn serve(
    request: &str,
    payload: Option<ApiCommand<'_>>,
    machine: &Machine,
    telemetry: Option<Telemetry>,
    queue: &mut CommandQueue,
) -> (r: Result<Response, HttpError>)
    requires
        old(queue)@.wf(),
    ensures
        final(queue)@.wf(),
        ({
            let bytes = encode_utf8(request@);
            let model = match payload {
                Some(p) => Some(p@),
                None => None,
            };
            &&& match answer_to(bytes, model, machine@, telemetry, old(queue)@) {
                Ok(response) => r is Ok && r->Ok_0@ == response,
                Err(e) => r is Err && r->Err_0 == e,
            }
            &&& final(queue)@ == if route_of(bytes) == Route::Command && body_start(bytes, 0)
                is Some {
                accepted(model, machine@.profiles, old(queue)@).1
            } else {
                old(queue)@
            }
        }),
{
    match route(request) {
        Route::Index => Ok(Response::Index),
        Route::Telemetry => Ok(
            Response::Telemetry(
                ui_telemetry(
                    get_telemetry(telemetry),
                    get_state(machine.state),
                    &machine.ram.settings.machine,
                    get_session_brew_temp(machine.session_temp),
                    get_ack(queue),
                ),
            ),
        ),
        Route::Settings => Ok(Response::Settings(Settings::get(&machine.ram))),
        Route::Profiles => Ok(Response::Profiles(get_all_profiles_from_ram(&machine.profiles))),
        Route::Profile => {
            let slot: u8 = match parse_slot(request) {
                Ok(slot) => slot,
                Err(e) => return Err(e),
            };
            match get_profile_from_ram(&machine.profiles, slot) {
                Some(p) => Ok(Response::Profile(p)),
                None => Err(HttpError::NotFound),
            }
        },
        Route::Command => {
            if let Err(e) = parse_command(request) {
                return Err(e);
            }
            match submit(payload, &machine.profiles, queue) {
                Ok(ticket) => Ok(Response::Accepted(ticket)),
                Err(e) => Err(e),
            }
        },
        Route::Unknown => Err(HttpError::NotFound),
    }
}

/// Size of the largest JSON response, header included.
pub const JSON_RESP_MAX: usize = 2048;

pub open spec fn json_header() -> Seq<u8> {
    encode_utf8(
        "HTTP/1.1 200 OK\r\nContent-Type: application/json\r\nConnection: close\r\n\r\n"@,
    )
}

/// The response with a JSON body, or nothing for a body wider than the
/// response may be.
pub fn write_json(body: &[u8]) -> (r: Option<Vec<u8>>)
    ensures
        match r {
            Some(bytes) => bytes@ == json_header() + body@ && bytes@.len() <= JSON_RESP_MAX,
            None => json_header().len() + body@.len() > JSON_RESP_MAX,
        },
{
    let header: &[u8] =
        "HTTP/1.1 200 OK\r\nContent-Type: application/json\r\nConnection: close\r\n\r\n".as_bytes();
    if header.len() > JSON_RESP_MAX || body.len() > JSON_RESP_MAX - header.len() {
        return None;
    }
    let mut bytes: Vec<u8> = Vec::new();
    bytes.extend_from_slice(header);
    bytes.extend_from_slice(body);
    assert(bytes@ =~= json_header() + body@);
    Some(bytes)
}

/// What goes ahead of the web UI's page, which is stored compressed.
pub fn html_header() -> (r: &'static str)
    ensures
        r@
            == "HTTP/1.1 200 OK\r\nContent-Type: text/html\r\nContent-Encoding: gzip\r\nConnection: close\r\n\r\n"@,
{
    "HTTP/1.1 200 OK\r\nContent-Type: text/html\r\nContent-Encoding: gzip\r\nConnection: close\r\n\r\n"
}

// ==========================================
// LAWS
// ==========================================

proof fn lemma_body_start_stays(b: Seq<u8>, more: Seq<u8>, i: int)
    requires
        body_start(b, i) is Some,
    ensures
        body_start(b + more, i) == body_start(b, i),
        i + 4 <= body_start(b, i)->0 <= b.len(),
    decreases b.len() - i,
{
    if !blank_line_at(b, i) {
        lemma_body_start_stays(b, more, i + 1);
    }
}

/// Once the bytes at hand decide a request, further ones change nothing: what
/// follows a complete request is cut off, and a refused one stays refused.
pub proof fn law_later_bytes_change_nothing(bytes: Seq<u8>, more: Seq<u8>, capacity: int)
    requires
        bytes.len() + more.len() <= capacity,
        request_length(bytes, capacity) is Err || request_length(bytes, capacity)->Ok_0 is Some,
    ensures
        request_length(bytes + more, capacity) == request_length(bytes, capacity),
{
    if let Some(head) = body_start(bytes, 0) {
        lemma_body_start_stays(bytes, more, 0);
        assert((bytes + more).take(head) =~= bytes.take(head));
    } else {
        assert(bytes + more =~= bytes);
    }
}

/// A request is taken as a whole: the head, which a blank line ends, and as
/// many bytes of body as it declares.
pub proof fn law_request_is_head_and_declared_body(bytes: Seq<u8>, capacity: int)
    requires
        request_length(bytes, capacity) is Ok,
        request_length(bytes, capacity)->Ok_0 is Some,
    ensures
        ({
            let len = request_length(bytes, capacity)->Ok_0->0;
            let head = body_start(bytes, 0)->0;
            &&& body_start(bytes, 0) is Some
            &&& blank_line_at(bytes, head - 4)
            &&& head <= len <= bytes.len()
            &&& declared_length(bytes.take(head)) is Some ==> len == head + declared_length(
                bytes.take(head),
            )->0
            &&& declared_length(bytes.take(head)) is None ==> len == head
        }),
{
    lemma_body_start_stays(bytes, Seq::empty(), 0);
    lemma_blank_line(bytes, 0);
    if let Some(value) = field(
        bytes.take(body_start(bytes, 0)->0),
        encode_utf8("content-length"@),
        0,
    ) {
        crate::text::lemma_number_nonneg(crate::text::trimmed(value));
    }
}

proof fn lemma_blank_line(b: Seq<u8>, i: int)
    requires
        body_start(b, i) is Some,
    ensures
        blank_line_at(b, body_start(b, i)->0 - 4),
    decreases b.len() - i,
{
    if !blank_line_at(b, i) {
        lemma_blank_line(b, i + 1);
    }
}

/// No command is answered with success unless it was queued: a ticket comes
/// back exactly where the queue holds the command it was built from, behind
/// those already waiting. Every other answer leaves the queue alone.
pub proof fn law_success_means_queued(
    payload: Option<ApiModel>,
    profiles: Seq<Option<ProfileModel>>,
    queue: QueueModel,
)
    requires
        queue.wf(),
    ensures
        ({
            let (result, after) = accepted(payload, profiles, queue);
            &&& result is Ok ==> payload is Some && command_for(payload->0, profiles) is Ok
                && after.waiting == queue.waiting.push(command_for(payload->0, profiles)->Ok_0)
                && after.issued == result->Ok_0
            &&& result is Err ==> after == queue
            &&& result == Err::<u32, HttpError>(HttpError::Busy) <==> payload is Some
                && command_for(payload->0, profiles) is Ok && !queue.accepts()
        }),
{
}

} // verus!
