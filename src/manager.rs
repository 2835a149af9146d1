//! The connection state machine of a passive-open TCP endpoint, and the multiplexer that
//! routes segments to it by local port.
use std::collections::HashMap;
use vstd::prelude::*;
use vstd::string::StringSliceAdditionalSpecFns;
use crate::http::{demo_bytes, demo_response, request_of, request_version, HTTPVersion, DEMO_BODY};
use crate::ip::{ipv4_answered, ipv4_fields, ipv4_header_len, ipv4_valid, lemma_ipv4_fields_prefix, IPV4HeaderView};
use crate::packet::{IPV4Packet, TCPPacket};
use crate::tcp::{tcp_header_len, tcp_valid, TCPHeader, TCPHeaderView};
use crate::wire::{be16, be32, copy_range};

verus! {

broadcast use vstd::std_specs::hash::group_hash_axioms;

/// The first sequence number this endpoint sends.
pub const INITIAL_SEQUENCE: u32 = 3453253245;

/// The states of RFC 793. This passive endpoint without timers or retransmission rests only
/// in Listen, SynReceived, Established, LastAck and Closed, passing through CloseWait on the
/// way to LastAck; the others are kept for a fuller implementation.
#[derive(Debug, Clone, Copy, PartialEq, Eq, Structural)]
pub enum TCPConnectionState {
    Listen,
    SynSent,
    SynReceived,
    Established,
    FinWait1,
    FinWait2,
    CloseWait,
    Closing,
    LastAck,
    TimeWait,
    Closed,
}

/// One connection: its state and the next sequence number it sends.
#[derive(Debug, Clone, Copy, PartialEq, Eq, Structural)]
pub struct TCPConnection {
    pub state: TCPConnectionState,
    pub sequence_number: u32,
}

/// What the state machine reads of an inbound segment. `response_len` is the length of the
/// response that the segment's payload asks for, when it holds a well-formed request.
#[derive(Debug, Clone, Copy, PartialEq, Eq, Structural)]
pub struct Segment {
    pub syn: bool,
    pub ack: bool,
    pub fin: bool,
    pub sequence_number: u32,
    pub payload_len: u32,
    pub response_len: Option<u32>,
}

/// The kinds of segment this endpoint sends.
#[derive(Debug, Clone, Copy, PartialEq, Eq, Structural)]
pub enum ReplyKind {
    /// SYN and ACK set, answering a SYN.
    SynAck,
    /// ACK set, no payload.
    Ack,
    /// FIN and ACK set, no payload.
    Fin,
    /// ACK set, carrying the response.
    Response,
}

/// A segment to send, as the state machine decides it.
#[derive(Debug, Clone, Copy, PartialEq, Eq, Structural)]
pub struct Reply {
    pub kind: ReplyKind,
    pub sequence_number: u32,
    pub acknowledgement_number: u32,
}

/// Sequence-number addition, modulo 2^32.
pub open spec fn seq_add(a: u32, b: u32) -> u32 {
    ((a + b) % 0x1_0000_0000) as u32
}

pub open spec fn reply(kind: ReplyKind, s: u32, a: u32) -> Reply {
    Reply { kind, sequence_number: s, acknowledgement_number: a }
}

/// The transition table: the connection after `seg`, and the segments sent in answer, in
/// order.
pub open spec fn step(c: TCPConnection, seg: Segment) -> (TCPConnection, Seq<Reply>) {
    match c.state {
        TCPConnectionState::Listen => if seg.syn && !seg.ack {
            (
                TCPConnection {
                    state: TCPConnectionState::SynReceived,
                    sequence_number: seq_add(INITIAL_SEQUENCE, 1),
                },
                seq![reply(ReplyKind::SynAck, INITIAL_SEQUENCE, seq_add(seg.sequence_number, 1))],
            )
        } else {
            (c, Seq::empty())
        },
        TCPConnectionState::SynReceived => if !seg.syn && seg.ack {
            (TCPConnection { state: TCPConnectionState::Established, ..c }, Seq::empty())
        } else {
            (c, Seq::empty())
        },
        TCPConnectionState::Established => if seg.fin {
            (
                TCPConnection { state: TCPConnectionState::LastAck, ..c },
                seq![
                    reply(ReplyKind::Ack, c.sequence_number, seq_add(seg.sequence_number, 1)),
                    reply(
                        ReplyKind::Fin,
                        c.sequence_number,
                        seq_add(seg.sequence_number, seg.payload_len),
                    ),
                ],
            )
        } else if seg.ack && seg.payload_len == 0 {
            (c, Seq::empty())
        } else {
            match seg.response_len {
                Some(n) => {
                    let a = seq_add(seg.sequence_number, seg.payload_len);
                    (
                        TCPConnection { sequence_number: seq_add(c.sequence_number, n), ..c },
                        seq![
                            reply(ReplyKind::Ack, c.sequence_number, a),
                            reply(ReplyKind::Response, c.sequence_number, a),
                        ],
                    )
                },
                None => (c, Seq::empty()),
            }
        },
        TCPConnectionState::LastAck => if seg.ack && seg.payload_len == 0 {
            (TCPConnection { state: TCPConnectionState::Closed, ..c }, Seq::empty())
        } else {
            (c, Seq::empty())
        },
        _ => (c, Seq::empty()),
    }
}

/// What dispatching `seg` for local port `port` does to the connection map: a SYN without
/// ACK for an unknown port creates a connection in Listen; the connection of the port, if
/// any, takes the step; one that ends Closed is removed.
pub open spec fn dispatch_spec(m: Map<u16, TCPConnection>, port: u16, seg: Segment) -> (
    Map<u16, TCPConnection>,
    Seq<Reply>,
) {
    let m1 = if seg.syn && !seg.ack && !m.contains_key(port) {
        m.insert(port, TCPConnection { state: TCPConnectionState::Listen, sequence_number: 0 })
    } else {
        m
    };
    if m1.contains_key(port) {
        let (c, rs) = step(m1[port], seg);
        (
            if c.state == TCPConnectionState::Closed {
                m1.remove(port)
            } else {
                m1.insert(port, c)
            },
            rs,
        )
    } else {
        (m, Seq::empty())
    }
}

fn seq_plus(a: u32, b: u32) -> (r: u32)
    ensures
        r == seq_add(a, b),
{
    a.wrapping_add(b)
}

impl TCPConnection {
    pub fn new() -> (r: Self)
        ensures
            r.state == TCPConnectionState::Listen,
            r.sequence_number == 0,
    {
        TCPConnection { state: TCPConnectionState::Listen, sequence_number: 0 }
    }

    /// Takes one step of the transition table.
    pub fn on_segment(&mut self, seg: &Segment) -> (r: Vec<Reply>)
        ensures
            (*final(self), r@) == step(*old(self), *seg),
    {
        let mut out: Vec<Reply> = Vec::new();
        match self.state {
            TCPConnectionState::Listen => {
                if seg.syn && !seg.ack {
                    out.push(
                        Reply {
                            kind: ReplyKind::SynAck,
                            sequence_number: INITIAL_SEQUENCE,
                            acknowledgement_number: seq_plus(seg.sequence_number, 1),
                        },
                    );
                    self.sequence_number = seq_plus(INITIAL_SEQUENCE, 1);
                    self.state = TCPConnectionState::SynReceived;
                }
            },
            TCPConnectionState::SynReceived => {
                if !seg.syn && seg.ack {
                    self.state = TCPConnectionState::Established;
                }
            },
            TCPConnectionState::Established => {
                if seg.fin {
                    out.push(
                        Reply {
                            kind: ReplyKind::Ack,
                            sequence_number: self.sequence_number,
                            acknowledgement_number: seq_plus(seg.sequence_number, 1),
                        },
                    );
                    self.state = TCPConnectionState::CloseWait;
                    out.push(
                        Reply {
                            kind: ReplyKind::Fin,
                            sequence_number: self.sequence_number,
                            acknowledgement_number: seq_plus(seg.sequence_number, seg.payload_len),
                        },
                    );
                    self.state = TCPConnectionState::LastAck;
                } else if !(seg.ack && seg.payload_len == 0) {
                    match seg.response_len {
                        Some(n) => {
                            let a = seq_plus(seg.sequence_number, seg.payload_len);
                            out.push(
                                Reply {
                                    kind: ReplyKind::Ack,
                                    sequence_number: self.sequence_number,
                                    acknowledgement_number: a,
                                },
                            );
                            out.push(
                                Reply {
                                    kind: ReplyKind::Response,
                                    sequence_number: self.sequence_number,
                                    acknowledgement_number: a,
                                },
                            );
                            self.sequence_number = seq_plus(self.sequence_number, n);
                        },
                        None => {},
                    }
                }
            },
            TCPConnectionState::LastAck => {
                if seg.ack && seg.payload_len == 0 {
                    self.state = TCPConnectionState::Closed;
                }
            },
            _ => {},
        }
        assert(out@ =~= step(*old(self), *seg).1);
        out
    }
}

/// The connections of this endpoint, one per local port.
#[derive(Debug, Clone)]
pub struct TCPManager {
    pub connections: HashMap<u16, TCPConnection>,
}

/// The map holds no closed connection.
pub open spec fn none_closed(m: Map<u16, TCPConnection>) -> bool {
    forall|p: u16| #[trigger] m.contains_key(p) ==> m[p].state != TCPConnectionState::Closed
}

/// A dispatch leaves no closed connection behind, and changes no port but the segment's.
pub proof fn law_dispatch_reclaims(m: Map<u16, TCPConnection>, port: u16, seg: Segment)
    requires
        none_closed(m),
    ensures
        none_closed(dispatch_spec(m, port, seg).0),
        forall|q: u16|
            q != port ==> (#[trigger] dispatch_spec(m, port, seg).0.contains_key(q) == m.contains_key(q)
                && (m.contains_key(q) ==> dispatch_spec(m, port, seg).0[q] == m[q])),
{
}

/// A SYN without ACK, sequence number `s`, to a port without a connection creates one that
/// answers with a single SYN+ACK acknowledging `s + 1` and moves to SynReceived; an ACK
/// without SYN then moves it to Established and sends nothing.
pub proof fn law_handshake(m: Map<u16, TCPConnection>, port: u16, s: u32, a: Segment)
    requires
        !m.contains_key(port),
        !a.syn,
        a.ack,
    ensures
        ({
            let syn = Segment { syn: true, ack: false, fin: false, sequence_number: s, payload_len: 0, response_len: None };
            let (m1, r1) = dispatch_spec(m, port, syn);
            let (m2, r2) = dispatch_spec(m1, port, a);
            &&& m1.contains_key(port) && m1[port].state == TCPConnectionState::SynReceived
            &&& r1.len() == 1 && r1[0].kind == ReplyKind::SynAck
            &&& r1[0].acknowledgement_number == seq_add(s, 1)
            &&& m2.contains_key(port) && m2[port].state == TCPConnectionState::Established
            &&& r2.len() == 0
        }),
{
}

/// From Established, a FIN with sequence number `f` and no payload is answered by an ACK of
/// `f + 1` then a FIN, and the connection waits in LastAck; an empty ACK then closes it and
/// removes it from the map.
pub proof fn law_teardown(m: Map<u16, TCPConnection>, port: u16, f: u32, fin: Segment, last: Segment)
    requires
        m.contains_key(port),
        m[port].state == TCPConnectionState::Established,
        fin.fin,
        fin.sequence_number == f,
        last.ack,
        last.payload_len == 0,
    ensures
        ({
            let (m1, r1) = dispatch_spec(m, port, fin);
            let (m2, r2) = dispatch_spec(m1, port, last);
            &&& r1.len() == 2
            &&& r1[0].kind == ReplyKind::Ack && r1[0].acknowledgement_number == seq_add(f, 1)
            &&& r1[1].kind == ReplyKind::Fin
            &&& m1.contains_key(port) && m1[port].state == TCPConnectionState::LastAck
            &&& r2.len() == 0
            &&& !m2.contains_key(port)
        }),
{
}

impl TCPManager {
    pub fn new() -> (r: Self)
        ensures
            r.connections@ == Map::<u16, TCPConnection>::empty(),
    {
        TCPManager { connections: HashMap::new() }
    }

    /// Routes `seg` to the connection of `port`, creating it on a fresh SYN and dropping it
    /// once closed.
    pub fn dispatch(&mut self, port: u16, seg: &Segment) -> (r: Vec<Reply>)
        ensures
            (final(self).connections@, r@) == dispatch_spec(old(self).connections@, port, *seg),
    {
        if seg.syn && !seg.ack && !self.connections.contains_key(&port) {
            self.connections.insert(port, TCPConnection::new());
        }
        let current = match self.connections.get(&port) {
            Some(c) => *c,
            None => {
                return Vec::new();
            },
        };
        let mut conn = current;
        let replies = conn.on_segment(seg);
        if conn.state == TCPConnectionState::Closed {
            self.connections.remove(&port);
        } else {
            self.connections.insert(port, conn);
        }
        replies
    }
}

/// The TCP segment of an IPv4 packet.
pub open spec fn tcp_part(b: Seq<u8>) -> Seq<u8> {
    b.subrange(ipv4_header_len(b), b.len() as int)
}

/// The payload of the TCP segment of an IPv4 packet.
pub open spec fn payload_part(b: Seq<u8>) -> Seq<u8> {
    let t = tcp_part(b);
    t.subrange(tcp_header_len(t), t.len() as int)
}

/// Whether `b` is an IPv4 packet with a well-formed header before a well-formed TCP header.
pub open spec fn inbound_ok(b: Seq<u8>) -> bool {
    ipv4_valid(b) && tcp_valid(tcp_part(b))
}

/// Whether `packet` is an IPv4 packet with well-formed IPv4 and TCP headers.
pub fn is_inbound_ok(packet: &[u8]) -> (r: bool)
    ensures
        r == inbound_ok(packet@),
{
    match IPV4HeaderView::from_slice(packet) {
        Ok(ip) => {
            let rest = packet.split_at(ip.size()).1;
            assert(rest@ =~= tcp_part(packet@));
            TCPHeaderView::from_slice(rest).is_ok()
        },
        Err(_) => false,
    }
}

/// What the state machine reads of the TCP segment of `b`, given the length of the response
/// that its payload asks for.
pub open spec fn segment_of(b: Seq<u8>, response_len: Option<u32>) -> Segment {
    let t = tcp_part(b);
    Segment {
        syn: (t[13] / 2) % 2 == 1,
        ack: (t[13] / 16) % 2 == 1,
        fin: t[13] % 2 == 1,
        sequence_number: be32(t, 4) as u32,
        payload_len: payload_part(b).len() as u32,
        response_len,
    }
}

/// Whether `p` is the packet that sends `rep` in answer to the IPv4/TCP packet `b`, carrying
/// `body` when it is the response: addresses and ports swapped, the peer's window echoed,
/// ACK set and SYN or FIN after the reply's kind, lengths and checksums left to preparing.
pub open spec fn reply_packet(p: IPV4Packet<TCPPacket<Vec<u8>>>, b: Seq<u8>, rep: Reply, body: Seq<u8>) -> bool {
    let t = tcp_part(b);
    let h = p.payload.header;
    &&& ipv4_fields(ipv4_answered(p.header), b)
    &&& h.source_port == be16(t, 2)
    &&& h.destination_port == be16(t, 0)
    &&& h.sequence_number == rep.sequence_number
    &&& h.acknowledgement_number == rep.acknowledgement_number
    &&& h.ack
    &&& h.syn == (rep.kind == ReplyKind::SynAck)
    &&& h.fin == (rep.kind == ReplyKind::Fin)
    &&& !h.cwr && !h.ece && !h.urg && !h.psh && !h.rst
    &&& h.window == be16(t, 14)
    &&& h.data_offset == 0 && h.reserved == 0 && h.checksum == 0 && h.urgent_pointer == 0
    &&& h.options@.len() == 0
    &&& p.payload.payload@ == (if rep.kind == ReplyKind::Response {
        body
    } else {
        Seq::empty()
    })
}

/// Builds the packet that sends `rep` in answer to the segment under `ip` and `tcp`.
pub fn make_ack_packet(ip: &IPV4HeaderView, tcp: &TCPHeaderView, rep: &Reply, body: &Vec<u8>) -> (r:
    IPV4Packet<TCPPacket<Vec<u8>>>)
    requires
        ip.wf(),
        tcp.wf(),
    ensures
        ipv4_fields(ipv4_answered(r.header), ip.content@),
        ({
            let t = tcp.content@;
            let h = r.payload.header;
            &&& h.source_port == be16(t, 2)
            &&& h.destination_port == be16(t, 0)
            &&& h.sequence_number == rep.sequence_number
            &&& h.acknowledgement_number == rep.acknowledgement_number
            &&& h.ack
            &&& h.syn == (rep.kind == ReplyKind::SynAck)
            &&& h.fin == (rep.kind == ReplyKind::Fin)
            &&& !h.cwr && !h.ece && !h.urg && !h.psh && !h.rst
            &&& h.window == be16(t, 14)
            &&& h.data_offset == 0 && h.reserved == 0 && h.checksum == 0 && h.urgent_pointer == 0
            &&& h.options@.len() == 0
        }),
        r.payload.payload@ == (if rep.kind == ReplyKind::Response {
            body@
        } else {
            Seq::empty()
        }),
{
    let mut ip_header = ip.to_mutable();
    ip_header.answer();
    let mut tcp_header = TCPHeader::default();
    tcp_header.answer(*tcp);
    tcp_header.ack = true;
    tcp_header.syn = matches!(rep.kind, ReplyKind::SynAck);
    tcp_header.fin = matches!(rep.kind, ReplyKind::Fin);
    tcp_header.sequence_number = rep.sequence_number;
    tcp_header.acknowledgement_number = rep.acknowledgement_number;
    tcp_header.window = tcp.get_window();
    let payload = match rep.kind {
        ReplyKind::Response => copy_range(body.as_slice(), 0, body.len()),
        _ => Vec::new(),
    };
    IPV4Packet::new(ip_header, TCPPacket::new(tcp_header, payload))
}

/// The response that the payload of the IPv4/TCP packet `b` gets: the demonstration page
/// when the payload holds a well-formed request and the reply, under the answered IPv4
/// header and a TCP header without options, fits one IPv4 packet; otherwise nothing.
pub open spec fn response_for(b: Seq<u8>) -> Seq<u8> {
    match request_version(payload_part(b)) {
        Some(v) => {
            let d = demo_bytes(v, DEMO_BODY.spec_bytes());
            if ipv4_header_len(b) + 20 + d.len() <= 0xFFFF {
                d
            } else {
                Seq::empty()
            }
        },
        None => Seq::empty(),
    }
}

/// Whether handling the IPv4/TCP packet `b` takes the connection map from `m0` to `m1` and
/// sends `r`: the segment of `b`, asking for `response_for(b)` when that is not empty, is
/// dispatched to its destination port, and one packet is sent per reply, in order.
pub open spec fn tcp_outcome(
    m0: Map<u16, TCPConnection>,
    m1: Map<u16, TCPConnection>,
    b: Seq<u8>,
    r: Seq<IPV4Packet<TCPPacket<Vec<u8>>>>,
) -> bool {
    let body = response_for(b);
    let seg = segment_of(
        b,
        if body.len() > 0 {
            Some(body.len() as u32)
        } else {
            None
        },
    );
    let (m, rs) = dispatch_spec(m0, be16(tcp_part(b), 2) as u16, seg);
    &&& m1 == m
    &&& r.len() == rs.len()
    &&& forall|i: int| 0 <= i < rs.len() ==> reply_packet(#[trigger] r[i], b, rs[i], body)
}

impl TCPManager {
    /// Handles one inbound IPv4 packet that carries TCP: a malformed one is dropped and
    /// changes nothing; otherwise its segment is dispatched by destination port and the
    /// packets to send are returned in order, before preparing.
    pub fn handle_tcp_packet(&mut self, packet: &[u8]) -> (r: Vec<IPV4Packet<TCPPacket<Vec<u8>>>>)
        ensures
            !inbound_ok(packet@) ==> final(self).connections@ == old(self).connections@ && r@.len() == 0,
            inbound_ok(packet@) ==> tcp_outcome(old(self).connections@, final(self).connections@, packet@, r@),
    {
        let ip = match IPV4HeaderView::from_slice(packet) {
            Ok(v) => v,
            Err(_) => {
                return Vec::new();
            },
        };
        let rest = packet.split_at(ip.size()).1;
        assert(rest@ =~= tcp_part(packet@));
        let tcp = match TCPHeaderView::from_slice(rest) {
            Ok(v) => v,
            Err(_) => {
                return Vec::new();
            },
        };
        let payload: &[u8] = rest.split_at(tcp.size()).1;
        assert(payload@ =~= payload_part(packet@));
        let mut body: Vec<u8> = Vec::new();
        let mut response_len: Option<u32> = None;
        match request_of(payload) {
            Some(version) => {
                proof {
                    vstd::string::axiom_str_literal_len(DEMO_BODY);
                    reveal_strlit("<html><b>Hello</b> World !</html>");
                    vstd::string::is_ascii_spec_bytes(DEMO_BODY);
                }
                let d = demo_response(version, DEMO_BODY);
                if d.len() <= 0xFFFF - 20 - ip.size() {
                    proof {
                        assert(d@.len() > 0) by {
                            reveal_strlit("HTTP/");
                            vstd::string::is_ascii_spec_bytes("HTTP/");
                        }
                    }
                    response_len = Some(d.len() as u32);
                    body = d;
                }
            },
            None => {},
        }
        let seg = Segment {
            syn: tcp.get_syn(),
            ack: tcp.get_ack(),
            fin: tcp.get_fin(),
            sequence_number: tcp.get_sequence_number(),
            payload_len: payload.len() as u32,
            response_len,
        };
        let port = tcp.get_destination_port();
        proof {
            assert(body@ == response_for(packet@));
            assert(seg == segment_of(packet@, if body@.len() > 0 { Some(body@.len() as u32) } else { None }));
        }
        let replies = self.dispatch(port, &seg);
        let mut out: Vec<IPV4Packet<TCPPacket<Vec<u8>>>> = Vec::new();
        let mut i: usize = 0;
        while i < replies.len()
            invariant
                i <= replies@.len(),
                out@.len() == i,
                ip.wf(),
                tcp.wf(),
                ip.content@ == packet@.subrange(0, ipv4_header_len(packet@)),
                tcp.content@ == tcp_part(packet@).subrange(0, tcp_header_len(tcp_part(packet@))),
                inbound_ok(packet@),
                body@ == response_for(packet@),
                forall|j: int| 0 <= j < i ==> reply_packet(#[trigger] out@[j], packet@, replies@[j], body@),
            decreases replies@.len() - i,
        {
            let p = make_ack_packet(&ip, &tcp, &replies[i], &body);
            proof {
                lemma_ipv4_fields_prefix(ipv4_answered(p.header), packet@, ipv4_header_len(packet@));
            }
            out.push(p);
            i = i + 1;
        }
        proof {
            assert(body@ == response_for(packet@));
        }
        out
    }
}

} // verus!
