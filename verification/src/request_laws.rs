//! What a request over the network is answered, from its bytes and what the
//! machine holds.

use crate::coordinator::MachineModel;
use crate::dhcp;
use crate::single::Single;
use crate::state::{QueueModel, Telemetry};
use crate::text::{begins, decimal, number, trimmed, trimmed_end, trimmed_start};
use crate::web_api::{
    accepted, answer_to, body_start, colon, command_for, declared_length, displayed, field,
    line_end, request_length, slot_of, word_end, ApiModel, HttpError, ResponseModel,
};
use vstd::prelude::*;
use vstd::utf8::*;

verus! {

// ==========================================
// NUMBERS
// ==========================================

/// A number is read digit by digit: a digit is its value, one more digit makes
/// ten times the number and itself. Nothing and anything with another character
/// is no number; a plus sign ahead of a number changes nothing.
pub proof fn law_numbers_are_decimal(digits: Seq<u8>, d: u8)
    requires
        forall|i: int| 0 <= i < digits.len() ==> 48 <= #[trigger] digits[i] <= 57,
    ensures
        d <= 9 ==> number(seq![(48 + d) as u8]) == Some(d as int),
        d <= 9 && digits.len() > 0 ==> number(digits) is Some && number(
            digits.push((48 + d) as u8),
        ) == Some(10 * number(digits)->0 + d),
        !(48 <= d <= 57) ==> number(digits.push(d)) is None,
        number(Seq::empty()) is None,
        digits.len() > 0 ==> number(seq![43u8] + digits) == number(digits),
{
    reveal_with_fuel(decimal, 2);
    let c = (48 + d) as u8;
    let more = digits.push(c);
    let bad = digits.push(d);
    assert(more.drop_last() =~= digits && more.last() == c);
    assert(bad.last() == d && bad[digits.len() as int] == d);
    if digits.len() > 0 {
        assert(digits[0] != 43);
        assert(more[0] == digits[0] && bad[0] == digits[0]);
        assert((seq![43u8] + digits).skip(1) =~= digits);
        if d <= 9 {
            assert(crate::text::all_digits(more));
        }
    } else {
        assert(bad.len() == 1);
    }
    if d <= 9 {
        let one = seq![c];
        assert(crate::text::all_digits(one));
        assert(one.drop_last() =~= Seq::<u8>::empty());
    }
}

// ==========================================
// PAGES
// ==========================================

/// The bytes of the request lines that are told apart.
proof fn lemma_lines()
    ensures
        ({
            let index = encode_utf8("GET / "@);
            let page = encode_utf8("GET /index.html"@);
            let telemetry = encode_utf8("GET /api/telemetry"@);
            let settings = encode_utf8("GET /api/settings"@);
            let profiles = encode_utf8("GET /api/profiles"@);
            let profile = encode_utf8("GET /api/profile/"@);
            let cmd = encode_utf8("POST /api/cmd"@);
            &&& index.len() == 6 && index[0] == 71 && index[5] == 32
            &&& page.len() == 15 && page[0] == 71 && page[5] == 105
            &&& telemetry.len() == 18 && telemetry[0] == 71 && telemetry[5] == 97 && telemetry[9]
                == 116
            &&& settings.len() == 17 && settings[0] == 71 && settings[5] == 97 && settings[9]
                == 115
            &&& profiles.len() == 17 && profiles[0] == 71 && profiles[5] == 97 && profiles[9]
                == 112 && profiles[16] == 115
            &&& profile.len() == 17 && profile[0] == 71 && profile[5] == 97 && profile[9] == 112
                && profile[16] == 47
            &&& cmd.len() == 13 && cmd[0] == 80
        }),
{
    reveal_strlit("GET / ");
    reveal_strlit("GET /index.html");
    reveal_strlit("GET /api/telemetry");
    reveal_strlit("GET /api/settings");
    reveal_strlit("GET /api/profiles");
    reveal_strlit("GET /api/profile/");
    reveal_strlit("POST /api/cmd");
    assert(is_ascii_chars("GET / "@));
    assert(is_ascii_chars("GET /index.html"@));
    assert(is_ascii_chars("GET /api/telemetry"@));
    assert(is_ascii_chars("GET /api/settings"@));
    assert(is_ascii_chars("GET /api/profiles"@));
    assert(is_ascii_chars("GET /api/profile/"@));
    assert(is_ascii_chars("POST /api/cmd"@));
    is_ascii_chars_encode_utf8("GET / "@);
    is_ascii_chars_encode_utf8("GET /index.html"@);
    is_ascii_chars_encode_utf8("GET /api/telemetry"@);
    is_ascii_chars_encode_utf8("GET /api/settings"@);
    is_ascii_chars_encode_utf8("GET /api/profiles"@);
    is_ascii_chars_encode_utf8("GET /api/profile/"@);
    is_ascii_chars_encode_utf8("POST /api/cmd"@);
}

proof fn lemma_begins_at(bytes: Seq<u8>, prefix: Seq<u8>, i: int)
    requires
        begins(bytes, prefix),
        0 <= i < prefix.len(),
    ensures
        i < bytes.len(),
        bytes[i] == prefix[i],
{
    assert(bytes.take(prefix.len() as int)[i] == bytes[i]);
}

/// Which places of a request tell its line.
proof fn lemma_told_apart(request: Seq<u8>, line: Seq<u8>)
    requires
        begins(request, line),
        line.len() >= 6,
    ensures
        request[0] == line[0],
        request[5] == line[5],
        line.len() > 9 ==> request[9] == line[9],
        line.len() > 16 ==> request[16] == line[16],
{
    lemma_begins_at(request, line, 0);
    lemma_begins_at(request, line, 5);
    if line.len() > 9 {
        lemma_begins_at(request, line, 9);
    }
    if line.len() > 16 {
        lemma_begins_at(request, line, 16);
    }
}

proof fn lemma_all_told_apart(request: Seq<u8>)
    ensures
        ({
            let index = encode_utf8("GET / "@);
            let page = encode_utf8("GET /index.html"@);
            let telemetry = encode_utf8("GET /api/telemetry"@);
            let settings = encode_utf8("GET /api/settings"@);
            let profiles = encode_utf8("GET /api/profiles"@);
            let profile = encode_utf8("GET /api/profile/"@);
            let cmd = encode_utf8("POST /api/cmd"@);
            &&& begins(request, index) ==> request[0] == 71 && request[5] == 32
            &&& begins(request, page) ==> request[0] == 71 && request[5] == 105
            &&& begins(request, telemetry) ==> request[0] == 71 && request[5] == 97 && request[9]
                == 116
            &&& begins(request, settings) ==> request[0] == 71 && request[5] == 97 && request[9]
                == 115
            &&& begins(request, profiles) ==> request[0] == 71 && request[5] == 97 && request[9]
                == 112 && request[16] == 115
            &&& begins(request, profile) ==> request[0] == 71 && request[5] == 97 && request[9]
                == 112 && request[16] == 47
            &&& begins(request, cmd) ==> request[0] == 80
        }),
{
    lemma_lines();
    if begins(request, encode_utf8("GET / "@)) {
        lemma_told_apart(request, encode_utf8("GET / "@));
    }
    if begins(request, encode_utf8("GET /index.html"@)) {
        lemma_told_apart(request, encode_utf8("GET /index.html"@));
    }
    if begins(request, encode_utf8("GET /api/telemetry"@)) {
        lemma_told_apart(request, encode_utf8("GET /api/telemetry"@));
    }
    if begins(request, encode_utf8("GET /api/settings"@)) {
        lemma_told_apart(request, encode_utf8("GET /api/settings"@));
    }
    if begins(request, encode_utf8("GET /api/profiles"@)) {
        lemma_told_apart(request, encode_utf8("GET /api/profiles"@));
    }
    if begins(request, encode_utf8("GET /api/profile/"@)) {
        lemma_told_apart(request, encode_utf8("GET /api/profile/"@));
    }
    if begins(request, encode_utf8("POST /api/cmd"@)) {
        lemma_told_apart(request, encode_utf8("POST /api/cmd"@));
    }
}

/// Each request line is answered with what it names, from what the machine
/// holds: the page, the live readings, the settings, the saved profiles. One
/// that names nothing is not found.
pub proof fn law_requests_are_answered(
    request: Seq<u8>,
    payload: Option<ApiModel>,
    machine: MachineModel,
    telemetry: Option<Telemetry>,
    queue: QueueModel,
)
    ensures
        ({
            let answer = answer_to(request, payload, machine, telemetry, queue);
            let index = begins(request, encode_utf8("GET / "@)) || begins(
                request,
                encode_utf8("GET /index.html"@),
            );
            let live = begins(request, encode_utf8("GET /api/telemetry"@));
            let settings = begins(request, encode_utf8("GET /api/settings"@));
            let list = begins(request, encode_utf8("GET /api/profiles"@));
            let one = begins(request, encode_utf8("GET /api/profile/"@));
            let cmd = begins(request, encode_utf8("POST /api/cmd"@));
            &&& index <==> answer == Ok::<ResponseModel, HttpError>(ResponseModel::Index)
            &&& live ==> (answer matches Ok(ResponseModel::Telemetry(ui)) && (telemetry matches Some(
                t,
            ) ==> ui == displayed(
                t,
                machine.state,
                machine.settings.machine.temp_offset,
                machine.session_temp,
                queue.served,
            )))
            &&& settings <==> answer == Ok::<ResponseModel, HttpError>(
                ResponseModel::Settings(machine.settings),
            )
            &&& list ==> answer == Ok::<ResponseModel, HttpError>(
                ResponseModel::Profiles(crate::profiles::saved_profiles(machine.profiles, 10)),
            )
            &&& !index && !live && !settings && !list && !one && !cmd ==> answer == Err::<
                ResponseModel,
                HttpError,
            >(HttpError::NotFound)
        }),
{
    lemma_all_told_apart(request);
}

/// Before anything was measured the readings shown are those of a cold machine
/// at rest: 20 degrees, nothing flowing.
pub proof fn law_cold_machine_is_shown(
    request: Seq<u8>,
    payload: Option<ApiModel>,
    machine: MachineModel,
    queue: QueueModel,
    t: Telemetry,
)
    requires
        begins(request, encode_utf8("GET /api/telemetry"@)),
        t.temp_c == Single::whole(20),
        t.pressure_bar == Single::whole(0),
        t.flow_rate_ml_s == Single::whole(0),
        t.volume_ml == Single::whole(0),
    ensures
        answer_to(request, payload, machine, None, queue) == answer_to(
            request,
            payload,
            machine,
            Some(t),
            queue,
        ),
{
    lemma_all_told_apart(request);
}

proof fn lemma_slot(request: Seq<u8>, slot: u8, rest: Seq<u8>)
    requires
        slot <= 9,
        request == encode_utf8("GET /api/profile/"@) + seq![(48 + slot) as u8, 32u8] + rest,
    ensures
        slot_of(request) == Some(slot),
        begins(request, encode_utf8("GET /api/profile/"@)),
{
    lemma_lines();
    let prefix = encode_utf8("GET /api/profile/"@);
    assert(request.take(17) =~= prefix);
    reveal_with_fuel(word_end, 3);
    assert(request[17] == 48 + slot && request[18] == 32);
    assert(word_end(request, 17) == 18);
    assert(request.subrange(17, 18) =~= seq![(48 + slot) as u8]);
    law_numbers_are_decimal(Seq::empty(), slot);
}

/// A request for a slot's profile is answered with what that slot holds, or not
/// found where it holds nothing.
pub proof fn law_profile_of_a_slot_is_answered(
    request: Seq<u8>,
    slot: u8,
    rest: Seq<u8>,
    payload: Option<ApiModel>,
    machine: MachineModel,
    telemetry: Option<Telemetry>,
    queue: QueueModel,
)
    requires
        slot <= 9,
        request == encode_utf8("GET /api/profile/"@) + seq![(48 + slot) as u8, 32u8] + rest,
    ensures
        answer_to(request, payload, machine, telemetry, queue) == match machine.profiles[slot as int] {
            Some(p) => Ok::<ResponseModel, HttpError>(ResponseModel::Profile(p)),
            None => Err(HttpError::NotFound),
        },
{
    lemma_slot(request, slot, rest);
    lemma_all_told_apart(request);
}

/// A command is answered with the ticket it will be acknowledged by, one more
/// than the last one given, and waits behind those before it. A full queue, of
/// four, is busy; a command that stands for nothing is answered why; and in
/// both cases the queue stays as it is.
pub proof fn law_command_is_queued_behind_the_others(
    request: Seq<u8>,
    payload: Option<ApiModel>,
    machine: MachineModel,
    telemetry: Option<Telemetry>,
    queue: QueueModel,
)
    requires
        queue.wf(),
        begins(request, encode_utf8("POST /api/cmd"@)),
        body_start(request, 0) is Some,
    ensures
        ({
            let answer = answer_to(request, payload, machine, telemetry, queue);
            let after = accepted(payload, machine.profiles, queue).1;
            match payload {
                None => answer == Err::<ResponseModel, HttpError>(HttpError::BadRequest) && after
                    == queue,
                Some(p) => match command_for(p, machine.profiles) {
                    Err(e) => answer == Err::<ResponseModel, HttpError>(e) && after == queue,
                    Ok(cmd) => if queue.waiting.len() >= 4 {
                        answer == Err::<ResponseModel, HttpError>(HttpError::Busy) && after == queue
                    } else {
                        &&& answer matches Ok(ResponseModel::Accepted(ticket)) && ticket == (
                        queue.issued + 1) % 0x1_0000_0000 && after.issued == ticket
                        &&& after.waiting.len() == queue.waiting.len() + 1
                        &&& after.waiting.last() == cmd
                        &&& after.waiting.drop_last() =~= queue.waiting
                        &&& after.served == queue.served
                    },
                },
            }
        }),
{
    lemma_all_told_apart(request);
    let k = queue.outstanding();
    assert(((queue.served + k) % 0x1_0000_0000 + 1) % 0x1_0000_0000 == (queue.served + (k + 1))
        % 0x1_0000_0000);
}

/// The oldest command is taken first; serving it acknowledges the ticket after
/// the last one served.
pub proof fn law_oldest_command_is_taken_and_acknowledged(queue: QueueModel)
    requires
        queue.wf(),
        !queue.in_service,
        queue.waiting.len() > 0,
    ensures
        ({
            let taken = queue.taken();
            let done = taken.acknowledged();
            &&& taken.waiting =~= queue.waiting.drop_first()
            &&& taken.served == queue.served
            &&& done.served == (queue.served + 1) % 0x1_0000_0000
            &&& done.waiting == taken.waiting
            &&& done.issued == queue.issued
            &&& queue.waiting.len() == 1 ==> done.served == done.issued
        }),
{
}

// ==========================================
// BODIES
// ==========================================

/// A byte without the case of an ASCII letter.
pub open spec fn caseless(b: u8) -> int {
    if 65 <= b <= 90 {
        b + 32
    } else {
        b as int
    }
}

/// The head of a request: its line, the length of the body that follows, and
/// the blank line. The field's name may be in capitals or not.
pub open spec fn head_with_length(
    head: Seq<u8>,
    line: Seq<u8>,
    name: Seq<u8>,
    digits: Seq<u8>,
) -> bool {
    let known = encode_utf8("content-length"@);
    &&& head == line + seq![10u8] + name + seq![58u8, 32] + digits + seq![13u8, 10, 13, 10]
    &&& forall|i: int| 0 <= i < line.len() ==> #[trigger] line[i] != 10 && line[i] != 58
    &&& name.len() == 14
    &&& forall|i: int| 0 <= i < 14 ==> caseless(#[trigger] name[i]) == known[i]
    &&& 0 < digits.len()
    &&& forall|i: int| 0 <= i < digits.len() ==> 48 <= #[trigger] digits[i] <= 57
    &&& valid_utf8(head)
}

proof fn lemma_field_name()
    ensures
        ({
            let known = encode_utf8("content-length"@);
            &&& known.len() == 14
            &&& forall|i: int| 0 <= i < 14 ==> 45 <= #[trigger] known[i] <= 122 && known[i] != 58
                && !(65 <= known[i] <= 90)
        }),
{
    reveal_strlit("content-length");
    assert(is_ascii_chars("content-length"@));
    is_ascii_chars_encode_utf8("content-length"@);
    let known = encode_utf8("content-length"@);
    assert forall|i: int| 0 <= i < 14 implies 45 <= #[trigger] known[i] <= 122 && known[i] != 58
        && !(65 <= known[i] <= 90) by {
        assert("content-length"@[i] as u8 == known[i]);
    }
}

proof fn lemma_line_ends(b: Seq<u8>, i: int, e: int)
    requires
        0 <= i <= e < b.len(),
        b[e] == 10,
        forall|k: int| i <= k < e ==> #[trigger] b[k] != 10,
    ensures
        line_end(b, i) == e,
    decreases e - i,
{
    if i < e {
        lemma_line_ends(b, i + 1, e);
    }
}

proof fn lemma_colon_stands(b: Seq<u8>, i: int, c: int, e: int)
    requires
        0 <= i <= c <= e <= b.len(),
        c < e ==> b[c] == 58,
        forall|k: int| i <= k < c ==> #[trigger] b[k] != 58,
    ensures
        colon(b, i, e) == c,
    decreases c - i,
{
    if i < c {
        lemma_colon_stands(b, i + 1, c, e);
    }
}

proof fn lemma_blank_line_ends(b: Seq<u8>, i: int, h: int)
    requires
        0 <= i <= h - 4,
        h <= b.len(),
        b[h - 4] == 13 && b[h - 3] == 10 && b[h - 2] == 13 && b[h - 1] == 10,
        forall|k: int| i <= k < h - 4 ==> !(#[trigger] b[k + 1] == 10 && b[k + 3] == 10),
    ensures
        body_start(b, i) == Some(h),
    decreases h - i,
{
    if i < h - 4 {
        assert(!(b[i + 1] == 10 && b[i + 3] == 10));
        lemma_blank_line_ends(b, i + 1, h);
    }
}

/// A value in its line: a space ahead of it, a carriage return behind.
proof fn lemma_value_trimmed(digits: Seq<u8>)
    requires
        digits.len() > 0,
        forall|i: int| 0 <= i < digits.len() ==> 48 <= #[trigger] digits[i] <= 57,
    ensures
        trimmed(seq![32u8] + digits + seq![13u8]) == digits,
{
    let value = seq![32u8] + digits + seq![13u8];
    let rest = digits + seq![13u8];
    reveal_with_fuel(trimmed_start, 2);
    reveal_with_fuel(trimmed_end, 2);
    assert(value[0] == 32);
    assert(value.skip(1) =~= rest);
    assert(rest[0] == digits[0]);
    assert(trimmed_start(value) == rest);
    assert(rest.last() == 13);
    assert(rest.take(rest.len() - 1) =~= digits);
    let last = digits[digits.len() - 1];
    assert(48 <= last <= 57);
}

/// A request with a body is complete exactly when as many bytes of it are there
/// as the head declares, and then it is cut off there; one that does not fit is
/// too large, however little of it has come.
pub proof fn law_declared_body_is_waited_for(
    head: Seq<u8>,
    line: Seq<u8>,
    name: Seq<u8>,
    digits: Seq<u8>,
    body: Seq<u8>,
    capacity: int,
)
    requires
        head_with_length(head, line, name, digits),
        number(digits) is Some,
        number(digits)->0 <= usize::MAX,
    ensures
        ({
            let n = number(digits)->0;
            request_length(head + body, capacity) == if head.len() + n > capacity {
                Err::<Option<int>, HttpError>(HttpError::TooLarge)
            } else if body.len() >= n {
                Ok(Some(head.len() + n))
            } else {
                Ok(None)
            }
        }),
{
    lemma_field_name();
    let known = encode_utf8("content-length"@);
    let (l, d) = (line.len() as int, digits.len() as int);
    let h = l + 1 + 14 + 2 + d + 4;
    let bytes = head + body;
    assert(head.len() == h);
    assert(bytes.take(h) =~= head);
    assert(head[l] == 10);
    assert forall|k: int| 0 <= k < l implies #[trigger] head[k] != 10 && head[k] != 58 by {
        assert(head[k] == line[k]);
    }
    assert forall|k: int| l < k < l + 15 implies #[trigger] head[k] != 10 && head[k] != 58 by {
        assert(head[k] == name[k - l - 1]);
        assert(caseless(name[k - l - 1]) == known[k - l - 1]);
    }
    assert(head[l + 15] == 58 && head[l + 16] == 32);
    assert forall|k: int| l + 17 <= k < l + 17 + d implies #[trigger] head[k] != 10 && head[k]
        == digits[k - l - 17] by {
        assert(48 <= digits[k - l - 17] <= 57);
    }
    assert(head[h - 4] == 13 && head[h - 3] == 10 && head[h - 2] == 13 && head[h - 1] == 10);
    // The head ends at its blank line.
    assert forall|k: int| 0 <= k < h - 4 implies !(#[trigger] bytes[k + 1] == 10 && bytes[k + 3]
        == 10) by {
        assert(bytes[k + 1] == head[k + 1] && bytes[k + 3] == head[k + 3]);
        if k + 1 == l {
            assert(head[k + 3] != 10);
        }
    }
    assert(bytes[h - 4] == head[h - 4] && bytes[h - 3] == head[h - 3] && bytes[h - 2] == head[h - 2]
        && bytes[h - 1] == head[h - 1]);
    lemma_blank_line_ends(bytes, 0, h);
    // The length is declared on its second line.
    lemma_line_ends(head, 0, l);
    lemma_colon_stands(head, 0, l, l);
    let start = l + 1;
    let e = h - 3;
    assert forall|k: int| start <= k < e implies #[trigger] head[k] != 10 by {
        if k == l + 15 || k == l + 16 || k == h - 4 {
        } else if k < l + 15 {
        } else {
            assert(l + 17 <= k < l + 17 + d);
        }
    }
    lemma_line_ends(head, start, e);
    lemma_colon_stands(head, start, l + 15, e);
    let found = head.subrange(start, l + 15);
    assert(found =~= name);
    assert forall|i: int| 0 <= i < 14 implies crate::web_api::lower(#[trigger] name[i])
        == crate::web_api::lower(known[i]) by {
        assert(caseless(name[i]) == known[i]);
    }
    assert(crate::web_api::same_name(found, known));
    let value = head.subrange(l + 16, e);
    assert(value =~= seq![32u8] + digits + seq![13u8]);
    lemma_value_trimmed(digits);
    assert(field(head, known, start) == Some(value));
    assert(field(head, known, 0) == field(head, known, start));
    assert(declared_length(head) == number(digits));
}

/// A request without a declared body is complete at its blank line.
pub proof fn law_head_alone_is_complete(head: Seq<u8>, line: Seq<u8>, rest: Seq<u8>, capacity: int)
    requires
        head == line + seq![13u8, 10, 13, 10],
        forall|i: int| 0 <= i < line.len() ==> #[trigger] line[i] != 10 && line[i] != 58,
        valid_utf8(head),
    ensures
        request_length(head + rest, capacity) == if head.len() > capacity {
            Err::<Option<int>, HttpError>(HttpError::TooLarge)
        } else {
            Ok(Some(head.len() as int))
        },
{
    let known = encode_utf8("content-length"@);
    lemma_field_name();
    let l = line.len() as int;
    let bytes = head + rest;
    assert(bytes.take(l + 4) =~= head);
    assert forall|k: int| 0 <= k < l implies #[trigger] head[k] != 10 && head[k] != 58 by {
        assert(head[k] == line[k]);
    }
    assert(head[l] == 13 && head[l + 1] == 10 && head[l + 2] == 13 && head[l + 3] == 10);
    assert forall|k: int| 0 <= k < l implies !(#[trigger] bytes[k + 1] == 10 && bytes[k + 3]
        == 10) by {
        assert(bytes[k + 1] == head[k + 1] && bytes[k + 3] == head[k + 3]);
    }
    lemma_blank_line_ends(bytes, 0, l + 4);
    lemma_line_ends(head, 0, l + 1);
    lemma_colon_stands(head, 0, l + 1, l + 1);
    lemma_line_ends(head, l + 2, l + 3);
    lemma_colon_stands(head, l + 2, l + 3, l + 3);
    assert(line_end(head, l + 4) == l + 4);
    lemma_colon_stands(head, l + 4, l + 4, l + 4);
    assert(field(head, known, l + 4) is None);
    assert(field(head, known, l + 2) is None);
    assert(field(head, known, 0) is None);
}

// ==========================================
// ADDRESSES
// ==========================================

/// A packet that is marked as a message, whose options are some other one and
/// then its type.
pub open spec fn asks(packet: Seq<u8>, code: u8, data: Seq<u8>, kind: u8, rest: Seq<u8>) -> bool {
    &&& code != 0 && code != 53 && code != 255
    &&& data.len() <= 255
    &&& packet.len() >= 240
    &&& packet[236] == 0x63 && packet[237] == 0x82 && packet[238] == 0x53 && packet[239] == 0x63
    &&& packet.skip(240) == seq![code, data.len() as u8] + data + seq![53u8, 1, kind, 255] + rest
}

/// A discovery is offered the one address, a request for it acknowledged, and
/// nothing else is answered. The answer names the client's transaction and
/// hardware address, its own type, the server, an hour's lease, the subnet and
/// the gateway.
pub proof fn law_clients_get_the_one_address(
    packet: Seq<u8>,
    code: u8,
    data: Seq<u8>,
    kind: u8,
    rest: Seq<u8>,
)
    requires
        asks(packet, code, data, kind, rest),
    ensures
        kind != 1 && kind != 3 ==> dhcp::answer_to(packet) is None,
        kind == 1 || kind == 3 ==> (dhcp::answer_to(packet) matches Some(reply) && {
            &&& reply.len() == 300
            &&& reply[0] == 2 && reply[1] == 1 && reply[2] == 6
            &&& forall|i: int| 4 <= i < 8 ==> #[trigger] reply[i] == packet[i]
            &&& reply[16] == 192 && reply[17] == 168 && reply[18] == 4 && reply[19] == 2
            &&& reply[20] == 192 && reply[21] == 168 && reply[22] == 4 && reply[23] == 1
            &&& forall|i: int| 28 <= i < 44 ==> #[trigger] reply[i] == packet[i]
            &&& reply[236] == 0x63 && reply[237] == 0x82 && reply[238] == 0x53 && reply[239]
                == 0x63
            &&& reply[240] == 53 && reply[241] == 1 && reply[242] == if kind == 1 {
                2u8
            } else {
                5u8
            }
            &&& reply[243] == 54 && reply[244] == 4 && reply[245] == 192 && reply[246] == 168
                && reply[247] == 4 && reply[248] == 1
            &&& reply[249] == 51 && reply[250] == 4 && 0x100_0000 * reply[251] + 0x1_0000
                * reply[252] + 256 * reply[253] + reply[254] == 3600
            &&& reply[255] == 1 && reply[256] == 4 && reply[257] == 255 && reply[258] == 255
                && reply[259] == 255 && reply[260] == 0
            &&& reply[261] == 3 && reply[262] == 4 && reply[263] == 192 && reply[264] == 168
                && reply[265] == 4 && reply[266] == 1
            &&& reply[267] == 255
        }),
{
    let options = packet.skip(240);
    let n = data.len() as int;
    assert(options.len() == n + 6 + rest.len());
    assert(packet.len() == 246 + n + rest.len());
    assert(options[0] == code && options[1] == n && options[2 + n] == 53 && options[3 + n] == 1
        && options[4 + n] == kind && options[5 + n] == 255);
    assert forall|i: int| 0 <= i < options.len() implies #[trigger] options[i] == packet[240
        + i] by {}
    assert(packet[240] == options[0] && packet[241] == options[1]);
    assert(packet[242 + n] == options[2 + n] && packet[243 + n] == options[3 + n]
        && packet[244 + n] == options[4 + n] && packet[245 + n] == options[5 + n]);
    assert(packet.subrange(236, 240) =~= dhcp::magic());
    assert(dhcp::message_type(packet, 245 + n, kind) == kind);
    assert(dhcp::message_type(packet, 242 + n, 0) == kind);
    assert(dhcp::message_type(packet, 240, 0) == kind);
    if kind == 1 || kind == 3 {
        let answered = if kind == 1 {
            2u8
        } else {
            5u8
        };
        lemma_reply(packet.subrange(4, 8), packet.subrange(28, 44), answered);
        let reply = dhcp::answer_to(packet)->0;
        assert forall|i: int| 4 <= i < 8 implies #[trigger] reply[i] == packet[i] by {
            assert(packet.subrange(4, 8)[i - 4] == packet[i]);
        }
        assert forall|i: int| 28 <= i < 44 implies #[trigger] reply[i] == packet[i] by {
            assert(packet.subrange(28, 44)[i - 28] == packet[i]);
        }
    }
}

proof fn lemma_reply(xid: Seq<u8>, chaddr: Seq<u8>, kind: u8)
    requires
        xid.len() == 4,
        chaddr.len() == 16,
    ensures
        ({
            let reply = dhcp::answer(xid, chaddr, kind);
            let o = dhcp::options(kind);
            &&& reply.len() == 300
            &&& reply[0] == 2 && reply[1] == 1 && reply[2] == 6
            &&& forall|i: int| 4 <= i < 8 ==> #[trigger] reply[i] == xid[i - 4]
            &&& reply[16] == 192 && reply[17] == 168 && reply[18] == 4 && reply[19] == 2
            &&& reply[20] == 192 && reply[21] == 168 && reply[22] == 4 && reply[23] == 1
            &&& forall|i: int| 28 <= i < 44 ==> #[trigger] reply[i] == chaddr[i - 28]
            &&& reply[236] == 0x63 && reply[237] == 0x82 && reply[238] == 0x53 && reply[239]
                == 0x63
            &&& forall|i: int| 240 <= i < 268 ==> #[trigger] reply[i] == o[i - 240]
        }),
{
    let reply = dhcp::answer(xid, chaddr, kind);
    let head = dhcp::header(xid, chaddr);
    let o = dhcp::options(kind);
    assert(o.len() == 28);
    assert(head.len() == 240);
    assert forall|i: int| 0 <= i < 240 implies #[trigger] reply[i] == head[i] by {}
    let m = dhcp::magic();
    assert(head[236] == m[0] && head[237] == m[1] && head[238] == m[2] && head[239] == m[3]);
}

/// What is no message, too short or not marked as one, is not answered.
pub proof fn law_other_packets_are_not_answered(packet: Seq<u8>)
    requires
        packet.len() < 240 || packet[236] != 0x63 || packet[237] != 0x82 || packet[238] != 0x53
            || packet[239] != 0x63,
    ensures
        dhcp::answer_to(packet) is None,
{
    if packet.len() >= 240 {
        let m = packet.subrange(236, 240);
        assert(m[0] == packet[236] && m[1] == packet[237] && m[2] == packet[238] && m[3]
            == packet[239]);
        if m == dhcp::magic() {
            assert(m[0] == 0x63 && m[1] == 0x82 && m[2] == 0x53 && m[3] == 0x63);
        }
    }
}

} // verus!
