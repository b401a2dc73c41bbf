//! What goes over the wire, byte by byte and number by number: where a client
//! finds each reading, and how near it is to what was measured.

use crate::diag::{frame_bytes, header_bytes, uptime_ms, DiagEvent, DiagModel, DiagPhase};
use crate::lines::{line_after, lines_in};
use crate::rounding::{nearest, rounded, units};
use crate::settings::ControlSettings;
use crate::single::Single;
use crate::state::{MachineState, Telemetry};
use crate::uart::record_of;
use crate::web_api::{displayed, hundredths};
use vstd::arithmetic::power2::*;
use vstd::prelude::*;

verus! {

// ==========================================
// THE DIAGNOSTIC STREAM
// ==========================================

/// The number whose four bytes, lowest first, stand at `i`.
pub open spec fn number_at(bytes: Seq<u8>, i: int) -> int {
    bytes[i] + 256 * bytes[i + 1] + 0x1_0000 * bytes[i + 2] + 0x100_0000 * bytes[i + 3]
}

/// The number of a state on the wire, which the web UI's list of names is
/// indexed with.
pub open spec fn number_of(state: MachineState) -> int {
    match state {
        MachineState::Idle => 0,
        MachineState::Brewing => 1,
        MachineState::Steaming => 2,
        MachineState::Sleeping => 3,
        MachineState::Pumping => 4,
        MachineState::Cooling => 5,
        MachineState::HotWater => 6,
    }
}

proof fn lemma_frame_word(a: Telemetry, ms: u32, state: MachineState, i: int)
    requires
        0 <= i < 13,
    ensures
        frame_bytes(a, ms, state).len() == 55,
        number_at(frame_bytes(a, ms, state), 1 + 4 * i) == crate::diag::frame_words(a, ms)[i],
{
    crate::diag::law_frame_layout(a, ms, state, i);
    let x = crate::diag::frame_words(a, ms)[i];
    crate::diag::law_word_reads_back(x);
    let bytes = frame_bytes(a, ms, state);
    let w = bytes.subrange(1 + 4 * i, 5 + 4 * i);
    assert(w[0] == bytes[1 + 4 * i] && w[1] == bytes[2 + 4 * i] && w[2] == bytes[3 + 4 * i]
        && w[3] == bytes[4 + 4 * i]);
}

/// A client that reads a frame at fixed places finds every reading of the tick
/// as the controller saw it, to the bit.
pub proof fn law_frame_is_read_back(a: Telemetry, ms: u32, state: MachineState)
    ensures
        ({
            let f = frame_bytes(a, ms, state);
            &&& f.len() == 55
            &&& f[0] == 1
            &&& number_at(f, 1) == a.tick
            &&& number_at(f, 5) == ms
            &&& number_at(f, 9) == a.temp_c.bits
            &&& number_at(f, 13) == a.target_temp.bits
            &&& number_at(f, 17) == a.effective_target_temp.bits
            &&& number_at(f, 21) == a.pressure_bar.bits
            &&& number_at(f, 25) == a.target_bar.bits
            &&& number_at(f, 29) == a.effective_target_bar.bits
            &&& number_at(f, 33) == a.flow_rate_ml_s.bits
            &&& number_at(f, 37) == a.flow_limit_ml_s.bits
            &&& number_at(f, 41) == a.volume_ml.bits
            &&& number_at(f, 45) == a.heater_duty.bits
            &&& number_at(f, 49) == a.pump_duty.bits
            &&& f[53] == 0 <==> !a.flow_controlled
            &&& f[53] == 1 <==> a.flow_controlled
            &&& f[54] == number_of(state)
        }),
{
    lemma_frame_word(a, ms, state, 0);
    lemma_frame_word(a, ms, state, 1);
    lemma_frame_word(a, ms, state, 2);
    lemma_frame_word(a, ms, state, 3);
    lemma_frame_word(a, ms, state, 4);
    lemma_frame_word(a, ms, state, 5);
    lemma_frame_word(a, ms, state, 6);
    lemma_frame_word(a, ms, state, 7);
    lemma_frame_word(a, ms, state, 8);
    lemma_frame_word(a, ms, state, 9);
    lemma_frame_word(a, ms, state, 10);
    lemma_frame_word(a, ms, state, 11);
    lemma_frame_word(a, ms, state, 12);
    crate::diag::law_frame_layout(a, ms, state, 0);
}

proof fn lemma_header_word(s: ControlSettings, i: int)
    requires
        0 <= i < 12,
    ensures
        number_at(header_bytes(s), 6 + 4 * i) == crate::diag::header_numbers(s)[i].bits,
{
    crate::diag::law_header_layout(s, i);
    crate::diag::law_word_reads_back(crate::diag::header_numbers(s)[i].bits);
    let bytes = header_bytes(s);
    let w = bytes.subrange(6 + 4 * i, 10 + 4 * i);
    assert(w[0] == bytes[6 + 4 * i] && w[1] == bytes[7 + 4 * i] && w[2] == bytes[8 + 4 * i]
        && w[3] == bytes[9 + 4 * i]);
}

/// The header begins with `OXID`, the version and the length of a frame, and
/// gives each setting in its own place.
pub proof fn law_header_is_read_back(s: ControlSettings)
    ensures
        ({
            let h = header_bytes(s);
            &&& h.len() == 54
            &&& h[0] == 0x4F && h[1] == 0x58 && h[2] == 0x49 && h[3] == 0x44
            &&& h[4] == 1
            &&& h[5] == 55
            &&& number_at(h, 6) == s.machine.temp_offset.bits
            &&& number_at(h, 10) == s.machine.brew_temp.bits
            &&& number_at(h, 14) == s.machine.steam_temp.bits
            &&& number_at(h, 18) == s.temp_pid.kp.bits
            &&& number_at(h, 22) == s.temp_pid.ki.bits
            &&& number_at(h, 26) == s.temp_pid.kd.bits
            &&& number_at(h, 30) == s.press_pid.kp.bits
            &&& number_at(h, 34) == s.press_pid.ki.bits
            &&& number_at(h, 38) == s.press_pid.kd.bits
            &&& number_at(h, 42) == s.flow_pid.kp.bits
            &&& number_at(h, 46) == s.flow_pid.ki.bits
            &&& number_at(h, 50) == s.flow_pid.kd.bits
        }),
{
    lemma_header_word(s, 0);
    lemma_header_word(s, 1);
    lemma_header_word(s, 2);
    lemma_header_word(s, 3);
    lemma_header_word(s, 4);
    lemma_header_word(s, 5);
    lemma_header_word(s, 6);
    lemma_header_word(s, 7);
    lemma_header_word(s, 8);
    lemma_header_word(s, 9);
    lemma_header_word(s, 10);
    lemma_header_word(s, 11);
    crate::diag::law_header_layout(s, 0);
    let h = header_bytes(s);
    let w = h.subrange(0, 4);
    assert(w[0] == h[0] && w[1] == h[1] && w[2] == h[2] && w[3] == h[3]);
}

/// The time in a frame counts milliseconds: it lies in the millisecond it says,
/// and a millisecond later it is one more, or 0 again.
pub proof fn law_uptime_counts_milliseconds(now: u64)
    ensures
        now < 0x1_0000_0000 * 1000 ==> 1000 * uptime_ms(now) <= now < 1000 * uptime_ms(now) + 1000,
        now + 1000 <= u64::MAX ==> uptime_ms((now + 1000) as u64) == (uptime_ms(now) + 1)
            % 0x1_0000_0000,
{
}

/// A connection on which anything fails is closed for good: nothing is received
/// after it, whatever happens.
pub proof fn law_failed_connection_stays_closed(d: DiagModel, event: DiagEvent, later: DiagEvent)
    requires
        match event {
            DiagEvent::Header(_, taken) => d.phase == DiagPhase::Opening && !taken,
            DiagEvent::Snapshot(_, _, _, taken) => d.phase == DiagPhase::Streaming && !taken,
            DiagEvent::Read(bytes) => bytes is None || bytes->0.len() == 0,
        } || d.phase == DiagPhase::Closed,
    ensures
        d.after(event).0.phase == DiagPhase::Closed,
        d.after(event).1.len() == 0,
        d.after(event).0.after(later).1.len() == 0,
{
}

/// While a connection works, its client gets the header first and then a frame
/// for each snapshot.
pub proof fn law_working_connection_delivers(
    d: DiagModel,
    s: ControlSettings,
    a: Telemetry,
    ms: u32,
    state: MachineState,
)
    ensures
        ({
            let opened = d.after(DiagEvent::Header(s, true));
            let frame = d.after(DiagEvent::Snapshot(a, ms, state, true));
            &&& d.phase == DiagPhase::Opening ==> opened.1 == header_bytes(s)
                && opened.0.phase == DiagPhase::Streaming
            &&& d.phase == DiagPhase::Opening ==> frame.1.len() == 0
            &&& d.phase == DiagPhase::Streaming ==> frame.1 == frame_bytes(a, ms, state)
                && frame.0.phase == DiagPhase::Streaming
        }),
{
}

// ==========================================
// WHAT THE BROWSER SHOWS
// ==========================================

/// `shown` is `v` to the nearest hundredth, but for what rounding does: the two
/// are less than three quarters of a hundredth apart.
pub open spec fn to_the_hundredth(shown: Single, v: Single) -> bool {
    &&& shown.finite()
    &&& 400 * (shown.value() - v.value()) <= 3 * pow2(149)
    &&& 400 * (v.value() - shown.value()) <= 3 * pow2(149)
}

/// A reading of ordinary size.
pub open spec fn ordinary(v: Single) -> bool {
    v.finite() && -(10_000 * pow2(149)) <= v.value() <= 10_000 * pow2(149)
}

/// Rounding a number below `2^20` is off by at most a sixteenth.
proof fn lemma_off_by_a_sixteenth(num: int, den: int)
    requires
        den > 0,
        0 <= num <= den * (0x10_0000 * pow2(149)),
    ensures
        16 * (den * rounded(num, den) - num) <= den * pow2(149),
        16 * (num - den * rounded(num, den)) <= den * pow2(149),
        rounded(num, den) >= 0,
        0 <= nearest(num, den) < crate::rounding::INFINITE,
{
    lemma2_to64();
    lemma_pow2_adds(20, 149);
    crate::rounding::lemma_rounding_error_below(num, den, 20);
    crate::rounding::lemma_units_nonneg(nearest(num, den));
    lemma_pow2_adds(3, 146);
    let (a, b) = (pow2(146) as int, pow2(149) as int);
    assert(den * b == 8 * (den * a)) by (nonlinear_arith)
        requires
            b == 8 * a,
    ;
}

/// Rounding a number below `2^14` is off by at most a thousandth.
proof fn lemma_off_by_a_thousandth(num: int, den: int)
    requires
        den > 0,
        0 <= num <= den * (0x4000 * pow2(149)),
    ensures
        1024 * (den * rounded(num, den) - num) <= den * pow2(149),
        1024 * (num - den * rounded(num, den)) <= den * pow2(149),
        rounded(num, den) >= 0,
        0 <= nearest(num, den) < crate::rounding::INFINITE,
{
    lemma2_to64();
    lemma_pow2_adds(14, 149);
    crate::rounding::lemma_rounding_error_below(num, den, 14);
    crate::rounding::lemma_units_nonneg(nearest(num, den));
    lemma_pow2_adds(9, 140);
    let (a, b) = (pow2(140) as int, pow2(149) as int);
    assert(den * b == 512 * (den * a)) by (nonlinear_arith)
        requires
            b == 512 * a,
    ;
}

/// The sizes that are rounded on the way to a hundredth: `a` is a hundred times
/// `v`, `b` a half more, `h` a hundredth part of the whole part of that.
proof fn lemma_hundredth_sizes(v: int, half: int, p: int) -> (k: int)
    requires
        p == pow2(149),
        0 <= v <= 10_000 * p,
        0x40_0000 * (2 * half - p) <= p,
        0x40_0000 * (p - 2 * half) <= p,
    ensures
        ({
            let a = rounded(v * (100 * p), p);
            let b = rounded(a + half, 1);
            let h = rounded((k * p) * p, 100 * p);
            &&& k == b / p
            &&& 0 <= k <= 1_000_001
            &&& a >= 0
            &&& 0 < b <= 1_000_001 * p
            &&& h >= 0
            &&& 400 * (h - v) <= 3 * p
            &&& 400 * (v - h) <= 3 * p
            &&& 0 <= nearest(v * (100 * p), p) < crate::rounding::INFINITE
            &&& 0 <= nearest(a + half, 1) < crate::rounding::INFINITE
            &&& 0 <= nearest((k * p) * p, 100 * p) < crate::rounding::INFINITE
        }),
{
    lemma_pow2_pos(149);
    assert(v * (100 * p) == (100 * v) * p && 0 <= (100 * v) * p <= p * (0x10_0000 * p))
        by (nonlinear_arith)
        requires
            0 <= v <= 10_000 * p,
            p > 0,
    ;
    lemma_off_by_a_sixteenth(v * (100 * p), p);
    let a = rounded(v * (100 * p), p);
    assert(16 * (a - 100 * v) <= p && 16 * (100 * v - a) <= p) by (nonlinear_arith)
        requires
            16 * (p * a - (100 * v) * p) <= p * p,
            16 * ((100 * v) * p - p * a) <= p * p,
            p > 0,
    ;
    assert(a <= 1_000_000 * p + p / 16);
    lemma_off_by_a_sixteenth(a + half, 1);
    let b = rounded(a + half, 1);
    assert(1 * b == b);
    let k = b / p;
    assert(k * p <= b < k * p + p) by (nonlinear_arith)
        requires
            k == b / p,
            p > 0,
    ;
    assert(b <= 1_000_001 * p);
    assert(0 <= k <= 1_000_001) by (nonlinear_arith)
        requires
            k * p <= b,
            b < k * p + p,
            0 <= b <= 1_000_001 * p,
            p > 0,
    ;
    let num = (k * p) * p;
    let den = 100 * p;
    assert(0 <= num <= den * (0x4000 * p)) by (nonlinear_arith)
        requires
            num == (k * p) * p,
            den == 100 * p,
            0 <= k <= 1_000_001,
            p > 0,
    ;
    lemma_off_by_a_thousandth(num, den);
    let h = rounded(num, den);
    assert(1024 * (100 * h - k * p) <= 100 * p && 1024 * (k * p - 100 * h) <= 100 * p)
        by (nonlinear_arith)
        requires
            1024 * (den * h - num) <= den * p,
            1024 * (num - den * h) <= den * p,
            num == (k * p) * p,
            den == 100 * p,
            p > 0,
    ;
    k
}

/// A reading is shown to the nearest hundredth.
pub proof fn law_readings_are_shown_to_the_hundredth(v: Single)
    requires
        ordinary(v),
    ensures
        to_the_hundredth(hundredths(v), v),
{
    let p = pow2(149) as int;
    lemma_pow2_pos(149);
    lemma_pow2_adds(23, 126);
    lemma2_to64();
    let (hundred, half) = (Single::whole(100), Single::fraction(5, 10));
    Single::lemma_whole_exact(0);
    Single::lemma_whole_exact(100);
    Single::lemma_fraction_value(5, 10);
    Single::lemma_fraction_error(5, 10);
    half.lemma_negated();
    v.lemma_times_value(hundred);
    let scaled = v.times(hundred);
    let below = v.value() < 0;
    let size = if below {
        -v.value()
    } else {
        v.value()
    };
    let k = lemma_hundredth_sizes(size, half.value(), p);
    assert((-size) * (100 * p) == -(size * (100 * p))) by (nonlinear_arith);
    let a = rounded(size * (100 * p), p);
    let bias = if below {
        half.negated()
    } else {
        half
    };
    assert(size * (100 * p) >= 0) by (nonlinear_arith)
        requires
            size >= 0,
            p > 0,
    ;
    lemma_signed_finite(scaled, size * (100 * p), p, below);
    assert(scaled.value() == if below {
        -a
    } else {
        a
    });
    scaled.lemma_plus_value(bias);
    let sum = scaled.plus(bias);
    let b = rounded(a + half.value(), 1);
    assert(sum.value() == if below {
        -b
    } else {
        b
    });
    assert(0 * pow2(149) == 0);
    assert(hundredths(v) == Single::integer(sum.integer_part()).over(hundred));
    sum.lemma_whole_part_by_value();
    assert(k < 0x100_0000);
    Single::lemma_whole_exact(k);
    let n = sum.integer_part();
    assert(n == if below {
        -k
    } else {
        k
    });
    Single::whole(k).lemma_negated();
    let whole = Single::integer(n);
    assert(whole.finite() && whole.value() == if below {
        -(k * p)
    } else {
        k * p
    });
    assert((-(k * p)) * p == -((k * p) * p)) by (nonlinear_arith);
    whole.lemma_over_value(hundred);
    assert((k * p) * p >= 0) by (nonlinear_arith)
        requires
            k >= 0,
            p > 0,
    ;
    lemma_signed_finite(whole.over(hundred), (k * p) * p, 100 * p, below);
}

/// A number of either sign whose size was rounded within range is finite.
proof fn lemma_signed_finite(x: Single, num: int, den: int, below: bool)
    requires
        !x.nan(),
        num >= 0,
        den > 0,
        x.value() == if below {
            rounded(-num, den)
        } else {
            rounded(num, den)
        },
        0 <= nearest(num, den) < crate::rounding::INFINITE,
    ensures
        x.finite(),
        below ==> x.value() == -rounded(num, den),
{
    if below && num > 0 {
        x.lemma_negated();
        x.negated().lemma_finite_below(num, den);
    } else {
        if below {
            assert(-num == num);
            x.lemma_finite_below(num, den);
            crate::rounding::lemma_rounds_to_exact(0, den);
            assert(units(0) == 0 && 0 * den == 0);
            crate::rounding::lemma_nearest(0, den, 0);
        } else {
            x.lemma_finite_below(num, den);
        }
    }
}

/// The browser gets every reading to the nearest hundredth, the temperature at
/// the group head, or the boiler's while it steams; the session temperature,
/// the state by its number and the last command served.
pub proof fn law_browser_shows_the_readings(
    a: Telemetry,
    state: MachineState,
    offset: Single,
    session_temp: Single,
    ack: u32,
)
    requires
        ordinary(a.temp_c),
        ordinary(a.temp_c.minus(offset)),
        ordinary(session_temp),
        ordinary(a.pressure_bar),
        ordinary(a.flow_rate_ml_s),
        ordinary(a.volume_ml),
    ensures
        ({
            let ui = displayed(a, state, offset, session_temp, ack);
            &&& to_the_hundredth(
                ui.t,
                if state == MachineState::Steaming {
                    a.temp_c
                } else {
                    a.temp_c.minus(offset)
                },
            )
            &&& to_the_hundredth(ui.sbt, session_temp)
            &&& to_the_hundredth(ui.p, a.pressure_bar)
            &&& to_the_hundredth(ui.fl, a.flow_rate_ml_s)
            &&& to_the_hundredth(ui.vol, a.volume_ml)
            &&& ui.st == number_of(state)
            &&& ui.ack == ack
        }),
{
    law_readings_are_shown_to_the_hundredth(a.temp_c);
    law_readings_are_shown_to_the_hundredth(a.temp_c.minus(offset));
    law_readings_are_shown_to_the_hundredth(session_temp);
    law_readings_are_shown_to_the_hundredth(a.pressure_bar);
    law_readings_are_shown_to_the_hundredth(a.flow_rate_ml_s);
    law_readings_are_shown_to_the_hundredth(a.volume_ml);
}

/// The temperatures shown, with the offset added again, are those of the
/// boiler; a heater that is off is shown as 0. While it steams, they are the
/// boiler's own. Stated of whole degrees, in which nothing is rounded.
pub proof fn law_shown_temperatures_lack_the_offset(
    a: Telemetry,
    temp: int,
    target: int,
    effective: int,
    offset: int,
)
    requires
        0 <= offset <= temp < 0x80_0000,
        target == 0 || 0 < offset <= target < 0x80_0000,
        effective == 0 || 0 < offset <= effective < 0x80_0000,
        a.temp_c == Single::whole(temp),
        a.target_temp == Single::whole(target),
        a.effective_target_temp == Single::whole(effective),
    ensures
        ({
            let o = Single::whole(offset);
            let shown = a.temps_shown(o, false);
            let steaming = a.temps_shown(o, true);
            &&& shown.0.plus(o) == a.temp_c
            &&& target > 0 ==> shown.1.plus(o) == a.target_temp
            &&& target == 0 ==> shown.1 == Single::whole(0)
            &&& effective > 0 ==> shown.2.plus(o) == a.effective_target_temp
            &&& effective == 0 ==> shown.2 == Single::whole(0)
            &&& steaming.0 == a.temp_c
            &&& steaming.1 == a.target_temp
            &&& steaming.2 == a.effective_target_temp
        }),
{
    Single::law_small_whole_arithmetic_is_exact(temp, offset);
    Single::law_small_whole_arithmetic_is_exact(temp - offset, offset);
    lemma_offset_undone(target, offset);
    lemma_offset_undone(effective, offset);
}

proof fn lemma_offset_undone(target: int, offset: int)
    requires
        target == 0 || 0 < offset <= target < 0x80_0000,
    ensures
        ({
            let o = Single::whole(offset);
            let shown = crate::state::without_offset(Single::whole(target), o);
            &&& target > 0 ==> shown.plus(o) == Single::whole(target)
            &&& target == 0 ==> shown == Single::whole(0)
        }),
{
    if target > 0 {
        Single::lemma_whole_positive(target);
        Single::law_small_whole_arithmetic_is_exact(target, offset);
        Single::law_small_whole_arithmetic_is_exact(target - offset, offset);
    } else {
        Single::lemma_whole_exact(0);
        assert(0 * pow2(149) == 0);
    }
}

/// The serial link and the diagnostic stream tell the same of a tick: each field
/// of the record is, to the bit, the one of the frame.
pub proof fn law_record_agrees_with_the_frame(a: Telemetry, ms: u32, state: MachineState)
    ensures
        ({
            let f = frame_bytes(a, ms, state);
            let r = record_of(a, state);
            &&& r.st == f[54]
            &&& r.t.bits == number_at(f, 9)
            &&& r.tt.bits == number_at(f, 13)
            &&& r.p.bits == number_at(f, 21)
            &&& r.tp.bits == number_at(f, 25)
            &&& r.fl.bits == number_at(f, 33)
            &&& r.vol.bits == number_at(f, 41)
        }),
{
    law_frame_is_read_back(a, ms, state);
}

// ==========================================
// COMMAND LINES
// ==========================================

proof fn lemma_bytes_join(line: Seq<u8>, a: Seq<u8>, b: Seq<u8>)
    ensures
        line_after(line, a + b) == line_after(line_after(line, a), b),
        lines_in(line, a + b) == lines_in(line, a) + lines_in(line_after(line, a), b),
    decreases b.len(),
{
    if b.len() == 0 {
        assert(a + b =~= a);
        assert(lines_in(line, a) + Seq::<Seq<u8>>::empty() =~= lines_in(line, a));
    } else {
        assert((a + b).drop_last() =~= a + b.drop_last());
        lemma_bytes_join(line, a, b.drop_last());
        let first = lines_in(line, a);
        let rest = lines_in(line_after(line, a), b.drop_last());
        let before = line_after(line_after(line, a), b.drop_last());
        assert((first + rest).push(before) =~= first + rest.push(before));
    }
}

proof fn lemma_one_byte(line: Seq<u8>, b: u8)
    ensures
        line_after(line, seq![b]) == crate::lines::extended(line, b),
        lines_in(line, seq![b]) == if crate::lines::completes(line, b) {
            seq![line]
        } else {
            Seq::<Seq<u8>>::empty()
        },
{
    assert(seq![b].drop_last() =~= Seq::<u8>::empty());
    reveal_with_fuel(line_after, 2);
    reveal_with_fuel(lines_in, 2);
    assert(Seq::<Seq<u8>>::empty().push(line) =~= seq![line]);
}

/// A zero byte anywhere changes none of the lines that come out, and neither
/// does a newline after another.
pub proof fn law_noise_between_lines_is_dropped(line: Seq<u8>, a: Seq<u8>, b: Seq<u8>)
    ensures
        lines_in(line, a + seq![0u8] + b) == lines_in(line, a + b),
        line_after(line, a + seq![0u8] + b) == line_after(line, a + b),
        lines_in(line, a + seq![10u8, 10] + b) == lines_in(line, a + seq![10u8] + b),
{
    let at = line_after(line, a);
    let none = Seq::<Seq<u8>>::empty();
    let out = lines_in(line, a);
    lemma_bytes_join(line, a, seq![0u8]);
    lemma_bytes_join(line, a + seq![0u8], b);
    lemma_bytes_join(line, a, b);
    lemma_one_byte(at, 0);
    assert(out + none =~= out);
    let ended = a + seq![10u8];
    lemma_bytes_join(line, a, seq![10u8]);
    lemma_one_byte(at, 10);
    assert(a + seq![10u8, 10] =~= ended + seq![10u8]);
    lemma_bytes_join(line, ended, seq![10u8]);
    lemma_one_byte(Seq::empty(), 10);
    lemma_bytes_join(line, ended + seq![10u8], b);
    lemma_bytes_join(line, ended, b);
    let ended_lines = lines_in(line, ended);
    assert(ended_lines + none =~= ended_lines);
}

/// What a line has beyond 1024 bytes is dropped, and the rest comes out.
pub proof fn law_long_line_is_cut(line: Seq<u8>, more: Seq<u8>)
    requires
        line.len() == 1024,
        forall|i: int| 0 <= i < more.len() ==> #[trigger] more[i] != 10,
    ensures
        lines_in(line, more + seq![10u8]) == seq![line],
        line_after(line, more + seq![10u8]) == Seq::<u8>::empty(),
{
    lemma_full_line(line, more);
    lemma_bytes_join(line, more, seq![10u8]);
    lemma_one_byte(line, 10);
    assert(Seq::<Seq<u8>>::empty() + seq![line] =~= seq![line]);
}

proof fn lemma_full_line(line: Seq<u8>, more: Seq<u8>)
    requires
        line.len() == 1024,
        forall|i: int| 0 <= i < more.len() ==> #[trigger] more[i] != 10,
    ensures
        line_after(line, more) == line,
        lines_in(line, more) == Seq::<Seq<u8>>::empty(),
    decreases more.len(),
{
    if more.len() > 0 {
        lemma_full_line(line, more.drop_last());
        assert(more[more.len() - 1] != 10);
    }
}

} // verus!
