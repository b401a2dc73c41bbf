//! The diagnostic stream: one header per connection, then one fixed-size
//! binary record per control tick; and the commands that come back on it.
//!
//! The values are raw: no display offset, no rounding. A test analysing loop
//! behaviour wants the number the PID acted on, and the offset in the header
//! makes the display conversion recoverable anyway.

use crate::lines::LineBuffer;
use crate::profiles::ProfileCache;
use crate::settings::ControlSettings;
use crate::single::Single;
use crate::state::{CommandQueue, MachineState, Telemetry};
use crate::web_api::{submit, ApiCommand};
use vstd::prelude::*;

verus! {

/// Wire-format version of the stream.
///
/// Bump on any change to the order or type of a record's fields. The client
/// checks it on the header and on every frame, so a mismatch surfaces as a
/// clear error instead of plausible-looking numbers decoded at the wrong
/// offsets.
pub const DIAG_VER: u8 = 1;

/// "OXID" in little-endian byte order — lets the client confirm it is talking
/// to this protocol before it trusts any offsets.
pub const DIAG_MAGIC: u32 = 0x4449_584F;

/// Size of a frame. Every field has a fixed width: a variable one would shrink
/// the frame at low tick counts and grow it later — silently desynchronising a
/// client that reads fixed-size records.
pub const DIAG_FRAME_LEN: usize = 55;

/// Size of the header, sent exactly once per connection.
pub const DIAG_HEADER_LEN: usize = 54;

/// A number's four bytes, lowest first.
pub open spec fn word(x: u32) -> Seq<u8> {
    seq![
        (x % 256) as u8,
        ((x / 256) % 256) as u8,
        ((x / 0x1_0000) % 256) as u8,
        (x / 0x100_0000) as u8,
    ]
}

fn le(x: u32) -> (r: [u8; 4])
    ensures
        r@ == word(x),
{
    [
        (x % 256) as u8,
        ((x / 256) % 256) as u8,
        ((x / 0x1_0000) % 256) as u8,
        (x / 0x100_0000) as u8,
    ]
}

/// Some words, one after the other.
pub open spec fn joined(words: Seq<Seq<u8>>) -> Seq<u8>
    decreases words.len(),
{
    if words.len() == 0 {
        Seq::empty()
    } else {
        joined(words.drop_last()) + words.last()
    }
}

/// `postcard::to_slice` on a tuple of byte arrays: the bytes one after the
/// other, with nothing between them, as many as the buffer takes.
#[verifier::external_body]
fn header_to_slice(
    magic: [u8; 4],
    tags: [u8; 2],
    words: [[u8; 4]; 12],
    buf: &mut [u8; 54],
) -> (r: Result<usize, ()>)
    ensures
        r is Ok && r->Ok_0 == 54,
        final(buf)@ == magic@ + tags@ + joined(Seq::new(12, |i: int| words@[i]@)),
{
    postcard::to_slice(&(magic, tags, words), buf).map(|used| used.len()).map_err(|_| ())
}

/// `postcard::to_slice` on a tuple of a byte and byte arrays: the bytes one
/// after the other, with nothing between them, as many as the buffer takes.
#[verifier::external_body]
fn frame_to_slice(ver: u8, words: [[u8; 4]; 13], flags: [u8; 2], buf: &mut [u8; 55]) -> (r: Result<
    usize,
    (),
>)
    ensures
        r is Ok && r->Ok_0 == 55,
        final(buf)@ == seq![ver] + joined(Seq::new(13, |i: int| words@[i]@)) + flags@,
{
    postcard::to_slice(&(ver, words, flags), buf).map(|used| used.len()).map_err(|_| ())
}

/// Accepts an encoding only where it occupies exactly `expected` bytes.
///
/// Both records are fixed-size by contract: the client reads them as
/// fixed-width records, so a short encoding would slide every following field
/// by the difference. A mismatch can only mean that a record changed without
/// its length being updated with it, so it is dropped rather than sent.
pub fn encode_fixed(used: Result<usize, ()>, expected: usize) -> (r: Option<usize>)
    ensures
        r == (match used {
            Ok(n) if n == expected => Some(n),
            _ => None,
        }),
{
    match used {
        Ok(n) => if n == expected {
            Some(n)
        } else {
            None
        },
        Err(_) => None,
    }
}

/// The numbers of a header, in order: the boiler-to-group offset, the setpoints
/// and the gains of the three loops.
pub open spec fn header_numbers(s: ControlSettings) -> Seq<Single> {
    seq![
        s.machine.temp_offset,
        s.machine.brew_temp,
        s.machine.steam_temp,
        s.temp_pid.kp,
        s.temp_pid.ki,
        s.temp_pid.kd,
        s.press_pid.kp,
        s.press_pid.ki,
        s.press_pid.kd,
        s.flow_pid.kp,
        s.flow_pid.ki,
        s.flow_pid.kd,
    ]
}

/// Sent once when a client connects, before any frames: the magic, the version
/// and the size of each following record, so a client can validate its own
/// unpacking; then the constants needed to interpret the stream.
pub open spec fn header_bytes(s: ControlSettings) -> Seq<u8> {
    word(DIAG_MAGIC) + seq![DIAG_VER, DIAG_FRAME_LEN as u8] + joined(
        header_numbers(s).map_values(|x: Single| word(x.bits)),
    )
}

/// The words of a frame, in order.
pub open spec fn frame_words(a: Telemetry, ms: u32) -> Seq<u32> {
    seq![
        a.tick,
        ms,
        a.temp_c.bits,
        a.target_temp.bits,
        a.effective_target_temp.bits,
        a.pressure_bar.bits,
        a.target_bar.bits,
        a.effective_target_bar.bits,
        a.flow_rate_ml_s.bits,
        a.flow_limit_ml_s.bits,
        a.volume_ml.bits,
        a.heater_duty.bits,
        a.pump_duty.bits,
    ]
}

/// One control tick, exactly as the controller saw it.
pub open spec fn frame_bytes(a: Telemetry, ms: u32, state: MachineState) -> Seq<u8> {
    seq![DIAG_VER] + joined(frame_words(a, ms).map_values(|x: u32| word(x))) + seq![
        if a.flow_controlled {
            1u8
        } else {
            0u8
        },
        state.code_of(),
    ]
}

/// Builds the one-shot connection header from current settings.
pub fn encode_diag_header(s: &ControlSettings, buf: &mut [u8; 54]) -> (r: Option<usize>)
    ensures
        r == Some(DIAG_HEADER_LEN),
        final(buf)@ == header_bytes(*s),
{
    let words: [[u8; 4]; 12] = [
        le(s.machine.temp_offset.bits),
        le(s.machine.brew_temp.bits),
        le(s.machine.steam_temp.bits),
        le(s.temp_pid.kp.bits),
        le(s.temp_pid.ki.bits),
        le(s.temp_pid.kd.bits),
        le(s.press_pid.kp.bits),
        le(s.press_pid.ki.bits),
        le(s.press_pid.kd.bits),
        le(s.flow_pid.kp.bits),
        le(s.flow_pid.ki.bits),
        le(s.flow_pid.kd.bits),
    ];
    let tags: [u8; 2] = [DIAG_VER, DIAG_FRAME_LEN as u8];
    proof {
        assert(Seq::new(12, |i: int| words@[i]@) =~= header_numbers(*s).map_values(
            |x: Single| word(x.bits),
        ));
        assert(tags@ =~= seq![DIAG_VER, DIAG_FRAME_LEN as u8]);
    }
    encode_fixed(header_to_slice(le(DIAG_MAGIC), tags, words, buf), DIAG_HEADER_LEN)
}

/// Device uptime in milliseconds, which wraps around.
pub open spec fn uptime_ms(now: u64) -> u32 {
    ((now / 1000) % 0x1_0000_0000) as u32
}

/// Packs one control tick into the fixed-size record. `now` is in microseconds
/// since boot.
pub fn encode_diag_frame(a: &Telemetry, state: MachineState, now: u64, buf: &mut [u8; 55]) -> (r:
    Option<usize>)
    ensures
        r == Some(DIAG_FRAME_LEN),
        final(buf)@ == frame_bytes(*a, uptime_ms(now), state),
{
    let ms: u32 = ((now / 1000) % 0x1_0000_0000) as u32;
    let words: [[u8; 4]; 13] = [
        le(a.tick),
        le(ms),
        le(a.temp_c.bits),
        le(a.target_temp.bits),
        le(a.effective_target_temp.bits),
        le(a.pressure_bar.bits),
        le(a.target_bar.bits),
        le(a.effective_target_bar.bits),
        le(a.flow_rate_ml_s.bits),
        le(a.flow_limit_ml_s.bits),
        le(a.volume_ml.bits),
        le(a.heater_duty.bits),
        le(a.pump_duty.bits),
    ];
    let flags: [u8; 2] = [
        if a.flow_controlled {
            1
        } else {
            0
        },
        state.code(),
    ];
    proof {
        assert(Seq::new(13, |i: int| words@[i]@) =~= frame_words(*a, ms).map_values(
            |x: u32| word(x),
        ));
        assert(flags@ =~= seq![
            if a.flow_controlled {
                1u8
            } else {
                0u8
            },
            state.code_of(),
        ]);
    }
    encode_fixed(frame_to_slice(DIAG_VER, words, flags, buf), DIAG_FRAME_LEN)
}

/// How far a connection is.
#[derive(Clone, Copy, Debug, PartialEq, Eq, Structural)]
pub enum DiagPhase {
    /// The header is still to be sent.
    Opening,
    /// The header is out, and frames follow.
    Streaming,
    /// Nothing is sent any more: the socket is to be closed.
    Closed,
}

/// One connection on the stream.
///
/// The header must land before any frame, or the client cannot tell where
/// records begin. A failure there is fatal to the connection rather than
/// something to stream past.
pub struct DiagSession {
    phase: DiagPhase,
    lines: LineBuffer,
}

/// What a [`DiagSession`] holds.
pub struct DiagModel {
    pub phase: DiagPhase,
    /// The command line being read.
    pub line: Seq<u8>,
}

impl View for DiagSession {
    type V = DiagModel;

    closed spec fn view(&self) -> DiagModel {
        DiagModel { phase: self.phase, line: self.lines@ }
    }
}

impl DiagModel {
    /// A client has just connected.
    pub open spec fn connected() -> DiagModel {
        DiagModel { phase: DiagPhase::Opening, line: Seq::empty() }
    }

    /// The header was handed to the socket, which took it or failed.
    pub open spec fn header_sent(self, taken: bool) -> DiagModel {
        match self.phase {
            DiagPhase::Opening => DiagModel {
                phase: if taken {
                    DiagPhase::Streaming
                } else {
                    DiagPhase::Closed
                },
                ..self
            },
            _ => self,
        }
    }

    /// A frame was handed to the socket, which took it or failed.
    pub open spec fn frame_sent(self, taken: bool) -> DiagModel {
        if taken {
            self
        } else {
            DiagModel { phase: DiagPhase::Closed, ..self }
        }
    }

    /// A read came back.
    pub open spec fn read(self, bytes: Option<Seq<u8>>) -> DiagModel {
        match bytes {
            Some(b) if b.len() > 0 => DiagModel {
                line: crate::lines::line_after(self.line, b),
                ..self
            },
            _ => DiagModel { phase: DiagPhase::Closed, ..self },
        }
    }
}

impl DiagSession {
    pub fn new() -> (r: DiagSession)
        ensures
            r@ == DiagModel::connected(),
    {
        DiagSession { phase: DiagPhase::Opening, lines: LineBuffer::new() }
    }

    pub fn phase(&self) -> (r: DiagPhase)
        ensures
            r == self@.phase,
    {
        self.phase
    }

    /// The header, where it is due: how much of `buf` to send. A connection
    /// that cannot have one is closed.
    pub fn header(&mut self, s: &ControlSettings, buf: &mut [u8; 54]) -> (r: Option<usize>)
        ensures
            old(self)@.phase == DiagPhase::Opening ==> r == Some(DIAG_HEADER_LEN) && final(buf)@
                == header_bytes(*s),
            old(self)@.phase != DiagPhase::Opening ==> r is None && final(buf)@ == old(buf)@,
            final(self)@ == old(self)@,
    {
        if self.phase != DiagPhase::Opening {
            return None;
        }
        let encoded: Option<usize> = encode_diag_header(s, buf);
        if encoded.is_none() {
            self.phase = DiagPhase::Closed;
        }
        encoded
    }

    /// The socket took the header, or failed.
    pub fn header_sent(&mut self, taken: bool)
        ensures
            final(self)@ == old(self)@.header_sent(taken),
    {
        if self.phase == DiagPhase::Opening {
            self.phase = if taken {
                DiagPhase::Streaming
            } else {
                DiagPhase::Closed
            };
        }
    }

    /// The frame for a telemetry snapshot, where the header is out: how much of
    /// `buf` to send.
    pub fn frame(&self, a: &Telemetry, state: MachineState, now: u64, buf: &mut [u8; 55]) -> (r:
        Option<usize>)
        ensures
            self@.phase == DiagPhase::Streaming ==> r == Some(DIAG_FRAME_LEN) && final(buf)@
                == frame_bytes(*a, uptime_ms(now), state),
            self@.phase != DiagPhase::Streaming ==> r is None && final(buf)@ == old(buf)@,
    {
        if self.phase == DiagPhase::Streaming {
            encode_diag_frame(a, state, now, buf)
        } else {
            None
        }
    }

    /// The socket took a frame, or failed.
    pub fn frame_sent(&mut self, taken: bool)
        ensures
            final(self)@ == old(self)@.frame_sent(taken),
    {
        if !taken {
            self.phase = DiagPhase::Closed;
        }
    }

    /// What one read gave: the command lines it completes. A read that failed,
    /// which `None` stands for, or gave no bytes, closes the connection.
    pub fn read(&mut self, bytes: Option<&[u8]>) -> (lines: Vec<Vec<u8>>)
        ensures
            final(self)@ == old(self)@.read(
                match bytes {
                    Some(b) => Some(b@),
                    None => None,
                },
            ),
            lines@.map_values(|l: Vec<u8>| l@) == (match bytes {
                Some(b) if b@.len() > 0 => crate::lines::lines_in(old(self)@.line, b@),
                _ => Seq::empty(),
            }),
    {
        match bytes {
            Some(b) => if b.len() > 0 {
                return self.lines.push_all(b);
            },
            None => {},
        }
        self.phase = DiagPhase::Closed;
        let lines: Vec<Vec<u8>> = Vec::new();
        assert(lines@.map_values(|l: Vec<u8>| l@) =~= Seq::empty());
        lines
    }
}

/// Runs one command from the stream, and says whether it was queued.
///
/// The stream has no reply channel, so a command that cannot be run is at most
/// logged.
pub fn dispatch_diag_command(
    payload: ApiCommand<'_>,
    profiles: &ProfileCache,
    queue: &mut CommandQueue,
) -> (queued: bool)
    requires
        old(queue)@.wf(),
    ensures
        final(queue)@.wf(),
        final(queue)@ == crate::web_api::accepted(Some(payload@), profiles@, old(queue)@).1,
        queued == crate::web_api::accepted(Some(payload@), profiles@, old(queue)@).0 is Ok,
{
    submit(Some(payload), profiles, queue).is_ok()
}

// ==========================================
// LAWS
// ==========================================

proof fn lemma_joined(words: Seq<Seq<u8>>, i: int)
    requires
        forall|k: int| 0 <= k < words.len() ==> (#[trigger] words[k]).len() == 4,
        0 <= i < words.len(),
    ensures
        joined(words).len() == 4 * words.len(),
        joined(words).subrange(4 * i, 4 * i + 4) == words[i],
    decreases words.len(),
{
    let rest = words.drop_last();
    lemma_joined_len(rest);
    assert(words[words.len() - 1].len() == 4);
    if i < rest.len() {
        lemma_joined(rest, i);
        assert(joined(words).subrange(4 * i, 4 * i + 4) =~= joined(rest).subrange(
            4 * i,
            4 * i + 4,
        ));
    } else {
        assert(joined(words).subrange(4 * i, 4 * i + 4) =~= words.last());
    }
}

proof fn lemma_joined_len(words: Seq<Seq<u8>>)
    requires
        forall|k: int| 0 <= k < words.len() ==> (#[trigger] words[k]).len() == 4,
    ensures
        joined(words).len() == 4 * words.len(),
    decreases words.len(),
{
    if words.len() > 0 {
        let rest = words.drop_last();
        assert forall|k: int| 0 <= k < rest.len() implies (#[trigger] rest[k]).len() == 4 by {
            assert(words[k].len() == 4);
        }
        lemma_joined_len(rest);
        assert(words[words.len() - 1].len() == 4);
    }
}

/// What can happen on a connection.
pub enum DiagEvent {
    /// The header is asked for, and the socket takes it or fails.
    Header(ControlSettings, bool),
    /// A snapshot is seen, and the socket takes its frame or fails.
    Snapshot(Telemetry, u32, MachineState, bool),
    /// A read came back.
    Read(Option<Seq<u8>>),
}

impl DiagModel {
    /// The connection after an event, and what the client received in it.
    pub open spec fn after(self, event: DiagEvent) -> (DiagModel, Seq<u8>) {
        match event {
            DiagEvent::Header(s, taken) => (
                self.header_sent(taken),
                if self.phase == DiagPhase::Opening && taken {
                    header_bytes(s)
                } else {
                    seq![]
                },
            ),
            DiagEvent::Snapshot(a, ms, state, taken) => if self.phase == DiagPhase::Streaming {
                (
                    self.frame_sent(taken),
                    if taken {
                        frame_bytes(a, ms, state)
                    } else {
                        seq![]
                    },
                )
            } else {
                (self, seq![])
            },
            DiagEvent::Read(bytes) => (self.read(bytes), seq![]),
        }
    }

    pub open spec fn after_all(self, events: Seq<DiagEvent>) -> DiagModel
        decreases events.len(),
    {
        if events.len() == 0 {
            self
        } else {
            self.after_all(events.drop_last()).after(events.last()).0
        }
    }

    /// What the client received over some events.
    pub open spec fn received(self, events: Seq<DiagEvent>) -> Seq<u8>
        decreases events.len(),
    {
        if events.len() == 0 {
            seq![]
        } else {
            self.received(events.drop_last()) + self.after_all(events.drop_last()).after(
                events.last(),
            ).1
        }
    }

    /// The frames the client received over some events.
    pub open spec fn frames_received(self, events: Seq<DiagEvent>) -> Seq<u8>
        decreases events.len(),
    {
        if events.len() == 0 {
            seq![]
        } else {
            let rest = events.drop_last();
            match events.last() {
                DiagEvent::Snapshot(..) => self.frames_received(rest) + self.after_all(rest).after(
                    events.last(),
                ).1,
                _ => self.frames_received(rest),
            }
        }
    }
}

/// What a client receives is nothing at all, where the header could not be
/// written, or exactly one header and then whole frames, one for each snapshot
/// that was seen and could be written. Frames come only while the connection
/// streams, and it streams only once the header is out.
pub proof fn law_one_header_precedes_all_frames(events: Seq<DiagEvent>)
    ensures
        ({
            let start = DiagModel::connected();
            let received = start.received(events);
            let frames = start.frames_received(events);
            let phase = start.after_all(events).phase;
            ||| received.len() == 0 && frames.len() == 0 && phase != DiagPhase::Streaming
            ||| phase != DiagPhase::Opening && frames.len() % DIAG_FRAME_LEN as nat == 0 && exists|
                s: ControlSettings,
            | #[trigger] header_bytes(s) + frames == received
        }),
    decreases events.len(),
{
    let start = DiagModel::connected();
    if events.len() > 0 {
        let rest = events.drop_last();
        law_one_header_precedes_all_frames(rest);
        let before = start.after_all(rest);
        let (received, frames) = (start.received(rest), start.frames_received(rest));
        let sent = before.after(events.last()).1;
        let nothing = Seq::<u8>::empty();
        if received.len() == 0 && frames.len() == 0 && before.phase != DiagPhase::Streaming {
            assert(received =~= nothing && frames =~= nothing);
            assert(nothing + sent =~= sent);
            if let DiagEvent::Header(s, taken) = events.last() {
                assert(header_bytes(s) + nothing =~= header_bytes(s));
            }
        } else {
            let s = choose|s: ControlSettings| #[trigger] header_bytes(s) + frames == received;
            if let DiagEvent::Snapshot(a, ms, state, taken) = events.last() {
                law_frame_layout(a, ms, state, 0);
                assert(header_bytes(s) + (frames + sent) =~= received + sent);
            } else {
                assert(sent =~= nothing);
                assert(received + sent =~= received);
            }
        }
    }
}

/// Every frame is as long as the header says, and has its fields at fixed
/// places, whatever they hold.
pub proof fn law_frame_layout(a: Telemetry, ms: u32, state: MachineState, i: int)
    requires
        0 <= i < 13,
    ensures
        ({
            let bytes = frame_bytes(a, ms, state);
            &&& bytes.len() == DIAG_FRAME_LEN
            &&& bytes[0] == DIAG_VER
            &&& bytes.subrange(1 + 4 * i, 5 + 4 * i) == word(frame_words(a, ms)[i])
            &&& bytes[53] == if a.flow_controlled {
                1u8
            } else {
                0u8
            }
            &&& bytes[54] == state.code_of()
        }),
{
    let words = frame_words(a, ms).map_values(|x: u32| word(x));
    lemma_joined(words, i);
    let bytes = frame_bytes(a, ms, state);
    assert(bytes.subrange(1 + 4 * i, 5 + 4 * i) =~= joined(words).subrange(4 * i, 4 * i + 4));
}

/// The header, likewise.
pub proof fn law_header_layout(s: ControlSettings, i: int)
    requires
        0 <= i < 12,
    ensures
        ({
            let bytes = header_bytes(s);
            &&& bytes.len() == DIAG_HEADER_LEN
            &&& bytes.subrange(0, 4) == word(DIAG_MAGIC)
            &&& bytes[4] == DIAG_VER
            &&& bytes[5] == DIAG_FRAME_LEN
            &&& bytes.subrange(6 + 4 * i, 10 + 4 * i) == word(header_numbers(s)[i].bits)
        }),
{
    let words = header_numbers(s).map_values(|x: Single| word(x.bits));
    lemma_joined(words, i);
    let bytes = header_bytes(s);
    assert(bytes.subrange(0, 4) =~= word(DIAG_MAGIC));
    assert(bytes.subrange(6 + 4 * i, 10 + 4 * i) =~= joined(words).subrange(4 * i, 4 * i + 4));
}

/// A word is read back as the number it was written from.
pub proof fn law_word_reads_back(x: u32)
    ensures
        word(x).len() == 4,
        word(x)[0] + 256 * word(x)[1] + 0x1_0000 * word(x)[2] + 0x100_0000 * word(x)[3] == x,
{
    let (a, b, c) = (x / 256, x / 0x1_0000, x / 0x100_0000);
    assert(b == a / 256 && c == b / 256);
}

} // verus!
