//! Minimal DHCP server, only used in soft-AP setup mode.
//!
//! Hands every client the same fixed lease (192.168.4.2) with the board as
//! gateway; there is no lease table because the AP exists purely so one phone
//! can reach the setup page.

use vstd::prelude::*;

verus! {

/// Where the options of a message begin.
pub const OPTIONS: usize = 240;

pub const DISCOVER: u8 = 1;

pub const OFFER: u8 = 2;

pub const REQUEST: u8 = 3;

pub const ACK: u8 = 5;

/// The bytes that mark a message as DHCP.
pub open spec fn magic() -> Seq<u8> {
    seq![0x63, 0x82, 0x53, 0x63]
}

/// The message type the options from `at` on name, `found` where they name
/// none. The last one counts; an end mark or a cut-off option ends the list.
pub open spec fn message_type(packet: Seq<u8>, at: int, found: u8) -> u8
    decreases
            if at < packet.len() {
                packet.len() - at
            } else {
                0
            },
{
    if at < 0 || at >= packet.len() || packet[at] == 255 {
        found
    } else if packet[at] == 0 {
        message_type(packet, at + 1, found)
    } else if at + 1 >= packet.len() {
        found
    } else {
        let len = packet[at + 1];
        message_type(
            packet,
            at + 2 + len,
            if packet[at] == 53 && len == 1 && at + 2 < packet.len() {
                packet[at + 2]
            } else {
                found
            },
        )
    }
}

pub open spec fn zeros(n: nat) -> Seq<u8> {
    Seq::new(n, |i: int| 0u8)
}

/// The fixed part of an answer: the client's transaction and hardware address
/// in their places, and the one lease.
pub open spec fn header(xid: Seq<u8>, chaddr: Seq<u8>) -> Seq<u8> {
    seq![2u8, 1, 6, 0] + xid + zeros(8) + seq![192u8, 168, 4, 2, 192, 168, 4, 1] + zeros(4) + chaddr
        + zeros(192) + magic()
}

/// The options of an answer: its type, the server, an hour's lease, the subnet
/// and the gateway.
pub open spec fn options(kind: u8) -> Seq<u8> {
    seq![
        53u8, 1, kind,
        54, 4, 192, 168, 4, 1,
        51, 4, 0, 0, 14, 16,
        1, 4, 255, 255, 255, 0,
        3, 4, 192, 168, 4, 1,
        255,
    ]
}

/// The answer of a given type to a client's transaction and hardware address.
pub open spec fn answer(xid: Seq<u8>, chaddr: Seq<u8>, kind: u8) -> Seq<u8> {
    header(xid, chaddr) + options(kind) + zeros(32)
}

/// The answer a packet gets: an offer to a discovery, an acknowledgement to a
/// request, and none to anything else.
pub open spec fn answer_to(packet: Seq<u8>) -> Option<Seq<u8>> {
    if packet.len() < OPTIONS || packet.subrange(236, 240) != magic() {
        None
    } else {
        let kind = message_type(packet, OPTIONS as int, 0);
        if kind == DISCOVER {
            Some(answer(packet.subrange(4, 8), packet.subrange(28, 44), OFFER))
        } else if kind == REQUEST {
            Some(answer(packet.subrange(4, 8), packet.subrange(28, 44), ACK))
        } else {
            None
        }
    }
}

fn read_message_type(packet: &[u8]) -> (r: u8)
    requires
        packet@.len() >= OPTIONS,
    ensures
        r == message_type(packet@, OPTIONS as int, 0),
{
    let n: usize = packet.len();
    let mut msg_type: u8 = 0;
    let mut opt_ptr: usize = OPTIONS;
    while opt_ptr < n
        invariant_except_break
            message_type(packet@, opt_ptr as int, msg_type) == message_type(
                packet@,
                OPTIONS as int,
                0,
            ),
        invariant
            n == packet@.len(),
        ensures
            msg_type == message_type(packet@, OPTIONS as int, 0),
        decreases n - opt_ptr,
    {
        let code: u8 = packet[opt_ptr];
        if code == 255 {
            break;
        }
        if code == 0 {
            opt_ptr = opt_ptr + 1;
            continue;
        }
        if opt_ptr + 1 >= n {
            break;
        }
        let len: usize = packet[opt_ptr + 1] as usize;
        if code == 53 && len == 1 && opt_ptr + 2 < n {
            msg_type = packet[opt_ptr + 2];
        }
        if len >= n - opt_ptr - 1 {
            // The option reaches the end of the packet.
            assert(message_type(packet@, opt_ptr + 2 + len, msg_type) == msg_type);
            break;
        }
        opt_ptr = opt_ptr + 2 + len;
    }
    msg_type
}

/// Appends `bytes` to the first `at` bytes of `buf`.
fn append(buf: &mut [u8; 300], at: usize, bytes: &[u8]) -> (r: usize)
    requires
        at + bytes@.len() <= 300,
    ensures
        r == at + bytes@.len(),
        final(buf)@.take(r as int) == old(buf)@.take(at as int) + bytes@,
{
    let mut i: usize = 0;
    while i < bytes.len()
        invariant
            at + bytes@.len() <= 300,
            i <= bytes@.len(),
            buf@.len() == 300,
            old(buf)@.len() == 300,
            buf@.take(at + i) =~= old(buf)@.take(at as int) + bytes@.take(i as int),
        decreases bytes@.len() - i,
    {
        let ghost before = buf@;
        buf[at + i] = bytes[i];
        i = i + 1;
        proof {
            assert(buf@.take(at + i) =~= before.take(at + i - 1).push(bytes@[i - 1]));
            assert(bytes@.take(i as int) =~= bytes@.take(i - 1).push(bytes@[i - 1]));
        }
    }
    assert(bytes@.take(bytes@.len() as int) =~= bytes@);
    at + bytes.len()
}

/// The answer to broadcast to port 68, if the packet gets one.
pub fn reply_to(packet: &[u8]) -> (r: Option<[u8; 300]>)
    ensures
        match r {
            Some(reply) => answer_to(packet@) == Some(reply@),
            None => answer_to(packet@) is None,
        },
{
    if packet.len() < OPTIONS {
        return None;
    }
    if !(packet[236] == 0x63 && packet[237] == 0x82 && packet[238] == 0x53 && packet[239] == 0x63) {
        assert(packet@.subrange(236, 240)[0] == packet@[236]);
        assert(packet@.subrange(236, 240)[1] == packet@[237]);
        assert(packet@.subrange(236, 240)[2] == packet@[238]);
        assert(packet@.subrange(236, 240)[3] == packet@[239]);
        return None;
    }
    assert(packet@.subrange(236, 240) =~= magic());
    let msg_type: u8 = read_message_type(packet);
    if msg_type != DISCOVER && msg_type != REQUEST {
        return None;
    }
    let xid: [u8; 4] = [packet[4], packet[5], packet[6], packet[7]];
    let chaddr: [u8; 16] = [
        packet[28], packet[29], packet[30], packet[31], packet[32], packet[33], packet[34],
        packet[35], packet[36], packet[37], packet[38], packet[39], packet[40], packet[41],
        packet[42], packet[43],
    ];
    assert(xid@ =~= packet@.subrange(4, 8));
    assert(chaddr@ =~= packet@.subrange(28, 44));
    let next_type: u8 = if msg_type == DISCOVER {
        OFFER
    } else {
        ACK
    };
    Some(compose(xid, chaddr, next_type))
}

/// The answer, laid out.
fn compose(xid: [u8; 4], chaddr: [u8; 16], next_type: u8) -> (reply: [u8; 300])
    ensures
        reply@ == answer(xid@, chaddr@, next_type),
{
    let mut reply: [u8; 300] = [0; 300];
    let gap: [u8; 192] = [0; 192];
    assert(reply@.take(0) =~= Seq::empty());
    let mut n: usize = append(&mut reply, 0, &[2, 1, 6, 0]);
    n = append(&mut reply, n, &xid);
    n = append(&mut reply, n, &[0, 0, 0, 0, 0, 0, 0, 0]);
    n = append(&mut reply, n, &[192, 168, 4, 2, 192, 168, 4, 1]);
    n = append(&mut reply, n, &[0, 0, 0, 0]);
    n = append(&mut reply, n, &chaddr);
    n = append(&mut reply, n, &gap);
    n = append(&mut reply, n, &[0x63, 0x82, 0x53, 0x63]);
    proof {
        assert([0u8, 0, 0, 0, 0, 0, 0, 0]@ =~= zeros(8));
        assert([0u8, 0, 0, 0]@ =~= zeros(4));
        assert(gap@ =~= zeros(192));
        assert([0x63u8, 0x82, 0x53, 0x63]@ =~= magic());
        assert([2u8, 1, 6, 0]@ =~= seq![2u8, 1, 6, 0]);
        assert([192u8, 168, 4, 2, 192, 168, 4, 1]@ =~= seq![192u8, 168, 4, 2, 192, 168, 4, 1]);
        assert(Seq::<u8>::empty() + seq![2u8, 1, 6, 0] =~= seq![2u8, 1, 6, 0]);
        assert(reply@.take(n as int) == header(xid@, chaddr@));
    }
    append_options(&mut reply, next_type, Ghost(header(xid@, chaddr@)));
    reply
}

/// Completes an answer whose fixed part is in place.
fn append_options(reply: &mut [u8; 300], next_type: u8, Ghost(head): Ghost<Seq<u8>>)
    requires
        head.len() == OPTIONS,
        old(reply)@.take(OPTIONS as int) == head,
    ensures
        final(reply)@ == head + options(next_type) + zeros(32),
{
    let list: [u8; 28] = [
        53, 1, next_type,
        54, 4, 192, 168, 4, 1,
        51, 4, 0, 0, 14, 16,
        1, 4, 255, 255, 255, 0,
        3, 4, 192, 168, 4, 1,
        255,
    ];
    let rest: [u8; 32] = [0; 32];
    let n: usize = append(reply, OPTIONS, &list);
    let m: usize = append(reply, n, &rest);
    assert(list@ =~= options(next_type));
    assert(rest@ =~= zeros(32));
    assert(reply@.take(m as int) =~= reply@);
}

/// An answer is a message itself: 300 bytes, marked as DHCP, of the type it is
/// meant to be, with the client's transaction and hardware address in their
/// places.
pub proof fn law_answers_are_messages(packet: Seq<u8>)
    ensures
        match answer_to(packet) {
            Some(reply) => {
                let kind = message_type(packet, OPTIONS as int, 0);
                &&& reply.len() == 300
                &&& reply.subrange(236, 240) == magic()
                &&& message_type(reply, OPTIONS as int, 0) == if kind == DISCOVER {
                    OFFER
                } else {
                    ACK
                }
                &&& reply.subrange(4, 8) == packet.subrange(4, 8)
                &&& reply.subrange(28, 44) == packet.subrange(28, 44)
                &&& reply.subrange(16, 20) == seq![192u8, 168, 4, 2]
            },
            None => true,
        },
{
    if let Some(reply) = answer_to(packet) {
        let (xid, chaddr) = (packet.subrange(4, 8), packet.subrange(28, 44));
        let kind = if message_type(packet, OPTIONS as int, 0) == DISCOVER {
            OFFER
        } else {
            ACK
        };
        lemma_answer_fields(xid, chaddr, kind);
        lemma_answer_type(header(xid, chaddr), kind);
    }
}

proof fn lemma_answer_fields(xid: Seq<u8>, chaddr: Seq<u8>, kind: u8)
    requires
        xid.len() == 4,
        chaddr.len() == 16,
    ensures
        ({
            let reply = answer(xid, chaddr, kind);
            &&& header(xid, chaddr).len() == OPTIONS
            &&& reply.len() == 300
            &&& reply.subrange(236, 240) == magic()
            &&& reply.subrange(4, 8) == xid
            &&& reply.subrange(28, 44) == chaddr
            &&& reply.subrange(16, 20) == seq![192u8, 168, 4, 2]
        }),
{
    let reply = answer(xid, chaddr, kind);
    let head = header(xid, chaddr);
    let a = seq![2u8, 1, 6, 0];
    let b = a + xid;
    let c = b + zeros(8);
    let d = c + seq![192u8, 168, 4, 2, 192, 168, 4, 1];
    let e = d + zeros(4);
    let f = e + chaddr;
    let g = f + zeros(192);
    assert(head == g + magic());
    assert(reply == head + options(kind) + zeros(32));
    assert(head.subrange(236, 240) =~= magic());
    assert(b.subrange(4, 8) =~= xid);
    assert(head.subrange(4, 8) =~= g.subrange(4, 8));
    assert(g.subrange(4, 8) =~= f.subrange(4, 8));
    assert(f.subrange(4, 8) =~= b.subrange(4, 8));
    assert(head.subrange(28, 44) =~= f.subrange(28, 44));
    assert(f.subrange(28, 44) =~= chaddr);
    assert(head.subrange(16, 20) =~= d.subrange(16, 20));
    assert(d.subrange(16, 20) =~= seq![192u8, 168, 4, 2]);
    assert(reply.subrange(236, 240) =~= head.subrange(236, 240));
    assert(reply.subrange(4, 8) =~= head.subrange(4, 8));
    assert(reply.subrange(28, 44) =~= head.subrange(28, 44));
    assert(reply.subrange(16, 20) =~= head.subrange(16, 20));
}

proof fn lemma_answer_type(head: Seq<u8>, kind: u8)
    requires
        head.len() == OPTIONS,
    ensures
        message_type(head + options(kind) + zeros(32), OPTIONS as int, 0) == kind,
{
    let reply = head + options(kind) + zeros(32);
    assert forall|i: int| 0 <= i < 28 implies reply[240 + i] == #[trigger] options(kind)[i] by {}
    let o = options(kind);
    assert(o[0] == 53 && o[1] == 1 && o[2] == kind && o[3] == 54 && o[4] == 4 && o[9] == 51
        && o[10] == 4 && o[15] == 1 && o[16] == 4 && o[21] == 3 && o[22] == 4 && o[27] == 255);
    assert(message_type(reply, 267, kind) == kind);
    assert(message_type(reply, 261, kind) == kind);
    assert(message_type(reply, 255, kind) == kind);
    assert(message_type(reply, 249, kind) == kind);
    assert(message_type(reply, 243, kind) == kind);
    assert(message_type(reply, 240, 0) == kind);
}

} // verus!
