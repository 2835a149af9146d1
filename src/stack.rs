//! One frame in, the frames to send out: the link-layer prefix, dispatch on the IP protocol,
//! and the finishing of every reply.
use vstd::prelude::*;
use crate::icmp::{icmp_bytes, icmp_fields, ICMPHeaderView, ICMP_ECHO_REQUEST};
use crate::ip::{
    ipv4_answered, ipv4_bytes, ipv4_fields, ipv4_header_len, ipv4_valid, ipv4_with_checksum,
    ipv4_words, protocol_of, IPV4Header, IPV4HeaderView, IpProtocol,
};
use crate::manager::{tcp_outcome, TCPManager};
use crate::packet::{icmp_with_checksum, IPV4Packet, Packet, TCPPacket};
use crate::traits::{Prepare, WriteTo};
use crate::wire::{be16, copy_range, read_u16};

verus! {

/// The link-layer protocol number of IPv4.
pub const ETHERTYPE_IPV4: u16 = 0x0800;

/// The size of the link-layer prefix: two bytes of flags, two of protocol.
pub const LINK_HEADER: usize = 4;

/// The prefix of an outbound frame: the inbound flags, then IPv4.
pub open spec fn out_prefix(frame: Seq<u8>) -> Seq<u8> {
    seq![frame[0], frame[1], 0x08u8, 0x00u8]
}

/// The IPv4 packet that a frame carries.
pub open spec fn ip_part(frame: Seq<u8>) -> Seq<u8> {
    frame.subrange(4, frame.len() as int)
}

/// Whether the frame carries an IPv4 packet with a well-formed header.
pub open spec fn carries_ipv4(frame: Seq<u8>) -> bool {
    frame.len() >= 4 && be16(frame, 2) == 0x0800 && ipv4_valid(ip_part(frame))
}

/// The echo reply, as sent, to the ICMP message of the IPv4 packet `b` whose header was read
/// as `h`: the answered header with its length and checksum set, an echo reply with its
/// checksum set, and the request's data.
pub open spec fn echo_reply_bytes(h: IPV4Header, b: Seq<u8>) -> Seq<u8> {
    let icmp = b.subrange(ipv4_header_len(b), b.len() as int);
    let data = icmp.subrange(4, icmp.len() as int);
    let a = ipv4_answered(h);
    let ip = ipv4_with_checksum(
        IPV4Header { ihl: ipv4_words(a), total_length: (ipv4_bytes(a).len() + 4 + data.len()) as u16, ..a },
    );
    let reply = icmp_with_checksum(
        crate::icmp::ICMPHeader { message_type: 0, code: 0, ..icmp_fields(icmp) },
        data,
    );
    ipv4_bytes(ip) + icmp_bytes(reply) + data
}

/// Whether `f` is the echo reply behind `prefix` to the ICMP message of the IPv4 packet `b`.
pub open spec fn is_echo_reply(f: Seq<u8>, prefix: Seq<u8>, b: Seq<u8>) -> bool {
    exists|h: IPV4Header| #[trigger] ipv4_fields(h, b) && f == prefix + echo_reply_bytes(h, b)
}

/// Whether the IPv4 packet `b` holds an echo request that one reply can answer.
pub open spec fn answerable_echo(b: Seq<u8>) -> bool {
    let icmp = b.subrange(ipv4_header_len(b), b.len() as int);
    icmp.len() >= 4 && icmp[0] == ICMP_ECHO_REQUEST && b.len() <= 0xFFFF
}

/// The frame that sends packet `p` behind `prefix`, once prepared.
#[verifier::opaque]
pub open spec fn frame_for(prefix: Seq<u8>, p: IPV4Packet<TCPPacket<Vec<u8>>>) -> Seq<u8> {
    prefix + IPV4Packet::<TCPPacket<Vec<u8>>>::prepared(p).wire()
}

/// Whether the frames `r` are the packets `ps`, each prepared and behind `prefix`.
pub open spec fn frames_of(
    r: Seq<Vec<u8>>,
    prefix: Seq<u8>,
    ps: Seq<IPV4Packet<TCPPacket<Vec<u8>>>>,
) -> bool {
    &&& r.len() == ps.len()
    &&& forall|i: int|
        0 <= i < ps.len() ==> (#[trigger] r[i])@ == frame_for(prefix, ps[i])
}

/// The echo reply to the ICMP message of the IPv4 packet `packet`, behind `prefix`, when
/// the message is an echo request that one reply can answer.
fn icmp_frame(ip: &IPV4HeaderView, packet: &[u8], prefix: &Vec<u8>) -> (r: Option<Vec<u8>>)
    requires
        ip.wf(),
        ipv4_valid(packet@),
        ip.content@ == packet@.subrange(0, ipv4_header_len(packet@)),
        prefix@.len() == 4,
    ensures
        answerable_echo(packet@) ==> r is Some && is_echo_reply(r.unwrap()@, prefix@, packet@),
        !answerable_echo(packet@) ==> r is None,
{
    let rest = packet.split_at(ip.size()).1;
    let icmp = match ICMPHeaderView::from_slice(rest) {
        Ok(v) => v,
        Err(_) => {
            return None;
        },
    };
    if icmp.get_message_type() != ICMP_ECHO_REQUEST || packet.len() > 0xFFFF {
        return None;
    }
    let header = ip.to_mutable();
    let ghost read = header;
    let mut answered = header;
    answered.answer();
    let mut reply_header = icmp.to_mutable();
    reply_header.make_echo_reply();
    let data = copy_range(rest, 4, rest.len());
    let mut reply = Packet::new(answered, Packet::new(reply_header, data));
    proof {
        assert(read.options@.len() % 4 == 0);
        assert(crate::ip::zero_padding(read.options@.len()) =~= Seq::<u8>::empty());
    }
    reply.prepare();
    let mut bytes = copy_range(prefix.as_slice(), 0, 4);
    reply.write_to(&mut bytes);
    proof {
        let b = packet@;
        let icmp_b = b.subrange(ipv4_header_len(b), b.len() as int);
        assert(rest@ =~= icmp_b);
        assert(icmp.content@ =~= icmp_b.subrange(0, 4));
        assert(data@ =~= icmp_b.subrange(4, icmp_b.len() as int));
        crate::ip::lemma_ipv4_fields_prefix(read, b, ipv4_header_len(b));
        assert(icmp_fields(icmp.content@) == icmp_fields(icmp_b));
        assert(prefix@.subrange(0, 4) =~= prefix@);
        assert(bytes@ =~= prefix@ + echo_reply_bytes(read, b));
        assert(ipv4_fields(read, b));
    }
    Some(bytes)
}

/// A reply packet from the multiplexer carries no TCP options, the options of the header it
/// answers, and a payload that fits.
#[verifier::rlimit(100)]
proof fn lemma_reply_can_prepare(p: IPV4Packet<TCPPacket<Vec<u8>>>, b: Seq<u8>, rep: crate::manager::Reply, body: Seq<u8>)
    requires
        ipv4_valid(b),
        crate::manager::reply_packet(p, b, rep, body),
        body.len() == 0 || ipv4_header_len(b) + 20 + body.len() <= 0xFFFF,
    ensures
        p.can_prepare(),
{
    let h = p.payload.header;
    assert(crate::tcp::options_model(h.options@) =~= Seq::<crate::tcp::OptionModel>::empty());
    assert(crate::tcp::options_wire(Seq::<crate::tcp::OptionModel>::empty()) == Seq::<u8>::empty());
    assert(crate::ip::ipv4_answered(p.header).options == p.header.options);
    assert(p.header.options@.len() % 4 == 0);
    assert(crate::ip::zero_padding(p.header.options@.len()) =~= Seq::<u8>::empty());
    let t = crate::packet::tcp_sized(h);
    assert(crate::tcp::nop_padding(0) =~= Seq::<u8>::empty());
    assert(crate::tcp::tcp_bytes(t).len() == 20);
}

/// The response a packet gets is empty or fits one reply under its answered header.
proof fn lemma_response_fits(b: Seq<u8>)
    ensures
        crate::manager::response_for(b).len() == 0 || ipv4_header_len(b) + 20
            + crate::manager::response_for(b).len() <= 0xFFFF,
{
}

/// Prepares a packet and writes it behind `prefix`.
fn finish_packet(p: IPV4Packet<TCPPacket<Vec<u8>>>, prefix: &Vec<u8>) -> (r: Vec<u8>)
    requires
        p.can_prepare(),
        prefix@.len() == 4,
    ensures
        r@ == frame_for(prefix@, p),
{
    reveal(frame_for);
    let ghost p0 = p;
    let mut p = p;
    p.prepare();
    let mut bytes = copy_range(prefix.as_slice(), 0, 4);
    p.write_to(&mut bytes);
    assert(prefix@.subrange(0, 4) =~= prefix@);
    assert(bytes@ == prefix@ + IPV4Packet::<TCPPacket<Vec<u8>>>::prepared(p0).wire());
    bytes
}

/// The frames that answer the TCP segment of the IPv4 packet `packet`, each prepared and
/// behind `prefix`.
fn tcp_frames(manager: &mut TCPManager, packet: &[u8], prefix: &Vec<u8>) -> (r: Vec<Vec<u8>>)
    requires
        prefix@.len() == 4,
    ensures
        !crate::manager::inbound_ok(packet@) ==> r@.len() == 0 && final(manager).connections@ == old(manager).connections@,
        crate::manager::inbound_ok(packet@) ==> exists|ps: Seq<IPV4Packet<TCPPacket<Vec<u8>>>>|
            #[trigger] tcp_outcome(old(manager).connections@, final(manager).connections@, packet@, ps)
                && frames_of(r@, prefix@, ps),
{
    let mut out: Vec<Vec<u8>> = Vec::new();
    let mut packets = manager.handle_tcp_packet(packet);
    if !crate::manager::is_inbound_ok(packet) {
        return out;
    }
    let ghost all = packets@;
    let ghost body = crate::manager::response_for(packet@);
    let ghost rs = crate::manager::dispatch_spec(
        old(manager).connections@,
        be16(crate::manager::tcp_part(packet@), 2) as u16,
        crate::manager::segment_of(
            packet@,
            if body.len() > 0 {
                Some(body.len() as u32)
            } else {
                None
            },
        ),
    ).1;
    let total = packets.len();
    let mut i: usize = 0;
    while packets.len() > 0
        invariant
            total == all.len(),
            i + packets@.len() == all.len(),
            packets@ == all.subrange(i as int, all.len() as int),
            out@.len() == i,
            prefix@.len() == 4,
            all.len() == rs.len(),
            crate::manager::inbound_ok(packet@),
            body == crate::manager::response_for(packet@),
            forall|j: int| 0 <= j < rs.len() ==> crate::manager::reply_packet(#[trigger] all[j], packet@, rs[j], body),
            forall|j: int| 0 <= j < i ==> (#[trigger] out@[j])@ == frame_for(prefix@, all[j]),
        decreases packets@.len(),
    {
        let p = packets.remove(0);
        proof {
            assert(p == all[i as int]);
            lemma_response_fits(packet@);
            lemma_reply_can_prepare(p, packet@, rs[i as int], body);
            assert(packets@ =~= all.subrange(i + 1, all.len() as int));
        }
        let bytes = finish_packet(p, prefix);
        out.push(bytes);
        i = i + 1;
    }
    proof {
        assert(frames_of(out@, prefix@, all));
    }
    out
}

/// Handles one frame read from the interface and returns the frames to write back, in order.
/// Frames that are no IPv4, or whose IPv4 header is malformed, are dropped. An ICMP echo
/// request gets its echo reply; a TCP segment goes to the connection of its port; other
/// protocols get nothing.
pub fn handle_frame(manager: &mut TCPManager, frame: &[u8]) -> (r: Vec<Vec<u8>>)
    ensures
        !carries_ipv4(frame@) ==> r@.len() == 0 && final(manager).connections@ == old(manager).connections@,
        carries_ipv4(frame@) && protocol_of(ip_part(frame@)[9]) == Some(IpProtocol::Icmp) ==> {
            let b = ip_part(frame@);
            let icmp = b.subrange(ipv4_header_len(b), b.len() as int);
            &&& final(manager).connections@ == old(manager).connections@
            &&& answerable_echo(b) ==> r@.len() == 1 && is_echo_reply(r@[0]@, out_prefix(frame@), b)
            &&& !answerable_echo(b) ==> r@.len() == 0
        },
        carries_ipv4(frame@) && protocol_of(ip_part(frame@)[9]) == Some(IpProtocol::Tcp)
            && crate::manager::inbound_ok(ip_part(frame@)) ==> exists|ps: Seq<IPV4Packet<TCPPacket<Vec<u8>>>>|
            #[trigger] tcp_outcome(old(manager).connections@, final(manager).connections@, ip_part(frame@), ps)
                && frames_of(r@, out_prefix(frame@), ps),
        carries_ipv4(frame@) && protocol_of(ip_part(frame@)[9]) == Some(IpProtocol::Tcp)
            && !crate::manager::inbound_ok(ip_part(frame@)) ==> r@.len() == 0
            && final(manager).connections@ == old(manager).connections@,
        carries_ipv4(frame@) && protocol_of(ip_part(frame@)[9]) != Some(IpProtocol::Icmp)
            && protocol_of(ip_part(frame@)[9]) != Some(IpProtocol::Tcp) ==> r@.len() == 0
            && final(manager).connections@ == old(manager).connections@,
{
    let mut out: Vec<Vec<u8>> = Vec::new();
    if frame.len() < LINK_HEADER || read_u16(frame, 2) != ETHERTYPE_IPV4 {
        return out;
    }
    let packet = frame.split_at(LINK_HEADER).1;
    assert(packet@ =~= ip_part(frame@));
    let ip = match IPV4HeaderView::from_slice(packet) {
        Ok(v) => v,
        Err(_) => {
            return out;
        },
    };
    let mut prefix: Vec<u8> = Vec::new();
    prefix.push(frame[0]);
    prefix.push(frame[1]);
    prefix.push(0x08);
    prefix.push(0x00);
    assert(prefix@ =~= out_prefix(frame@));
    match ip.get_protocol() {
        IpProtocol::Icmp => {
            match icmp_frame(&ip, packet, &prefix) {
                Some(f) => out.push(f),
                None => {},
            }
        },
        IpProtocol::Tcp => {
            out = tcp_frames(manager, packet, &prefix);
        },
        _ => {},
    }
    out
}

} // verus!
