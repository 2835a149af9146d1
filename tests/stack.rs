use tcp_rust::checksum::{sum_of, Checksum};
use tcp_rust::http::{demo_response, HTTPMethod, HTTPRequestHeaderView, HTTPResponseHeader, HTTPVersion, DEMO_BODY};
use tcp_rust::icmp::{ICMPHeader, ICMPHeaderView};
use tcp_rust::ip::{IPV4Header, IPV4HeaderView, IpProtocol, IpV4Addr};
use tcp_rust::manager::{ReplyKind, Segment, TCPConnection, TCPConnectionState, TCPManager, INITIAL_SEQUENCE};
use tcp_rust::packet::{tcp_checksum, Packet, PacketView};
use tcp_rust::tcp::{TCPHeader, TCPHeaderView, TCPOption};
use tcp_rust::traits::{DataView, Prepare, WriteTo};
use tcp_rust::wire::MalformedPacket;

const SAMPLE_IP: [u8; 20] = [
    0x45, 0x00, 0x00, 0x73, 0x00, 0x00, 0x40, 0x00, 0x40, 0x11, 0xb8, 0x61, 0xc0, 0xa8, 0x00, 0x01, 0xc0,
    0xa8, 0x00, 0xc7,
];

fn client_ip() -> IPV4Header {
    IPV4Header {
        version: 4,
        ihl: 5,
        dscp: 0,
        ecn: 0,
        total_length: 0,
        identification: 7,
        flags: 2,
        fragment_offset: 0,
        ttl: 64,
        protocol: IpProtocol::Tcp,
        header_checksum: 0,
        source_address: IpV4Addr(0x0a00_0001),
        destination_address: IpV4Addr(0x0a00_0002),
        options: vec![],
    }
}

fn segment(seq: u32, port: u16, syn: bool, ack: bool, fin: bool, payload: &[u8]) -> Vec<u8> {
    let mut tcp = TCPHeader::default();
    tcp.source_port = 40000;
    tcp.destination_port = port;
    tcp.sequence_number = seq;
    tcp.syn = syn;
    tcp.ack = ack;
    tcp.fin = fin;
    tcp.window = 1024;
    let mut p = Packet::new(client_ip(), Packet::new(tcp, payload.to_vec()));
    p.prepare();
    p.to_bytes()
}

#[test]
fn checksum_rfc1071_example() {
    let bytes = [0x00u8, 0x01, 0xf2, 0x03, 0xf4, 0xf5, 0xf6, 0xf7];
    let c = Checksum::new().add_slice(&bytes);
    assert_eq!(c.to_u16(), 0xddf2);
    assert_eq!(c.ones_complement(), 0x220d);
    assert_eq!(Checksum::new().add_8bytes(bytes).to_u16(), 0xddf2);
}

#[test]
fn checksum_chunking_is_invisible() {
    let bytes: Vec<u8> = (0u8..37).map(|i| i.wrapping_mul(97)).collect();
    let whole = Checksum::new().add_slice(&bytes).to_u16();
    let parts = Checksum::new()
        .add_slice(&bytes[..2])
        .add_slice(&bytes[2..4])
        .add_slice(&bytes[4..12])
        .add_slice(&bytes[12..])
        .to_u16();
    assert_eq!(whole, parts);
    let merged = Checksum::new()
        .add_slice(&bytes[..8])
        .add_checksum(Checksum::new().add_slice(&bytes[8..]))
        .to_u16();
    assert_eq!(whole, merged);
    assert_eq!(whole, sum_of(&bytes));
}

#[test]
fn checksum_odd_trailing_byte_is_high_half() {
    assert_eq!(sum_of(&[0x12]), 0x1200);
    assert_eq!(Checksum::new().add_byte(0x12).to_u16(), 0x12);
    assert_eq!(Checksum::new().add_u16(0xffff).add_u16(1).to_u16(), 1);
    assert_eq!(Checksum::new().add_u64(u64::MAX).add_u64(1).0, 1);
}

#[test]
fn ipv4_view_reads_fields() {
    let v = IPV4HeaderView::from_slice(&SAMPLE_IP).unwrap();
    assert_eq!(v.get_version(), 4);
    assert_eq!(v.get_ihl(), 5);
    assert_eq!(v.get_total_length(), 0x73);
    assert_eq!(v.get_flags(), 2);
    assert_eq!(v.get_fragment_offset(), 0);
    assert_eq!(v.get_ttl(), 64);
    assert_eq!(v.get_protocol(), IpProtocol::Udp);
    assert_eq!(v.get_header_checksum(), 0xb861);
    assert_eq!(v.get_source_address(), IpV4Addr(0xc0a8_0001));
    assert_eq!(v.get_destination_address(), IpV4Addr(0xc0a8_00c7));
    assert_eq!(v.size(), 20);
}

#[test]
fn ipv4_round_trip_and_self_verification() {
    let v = IPV4HeaderView::from_slice(&SAMPLE_IP).unwrap();
    let mut h = v.to_mutable();
    assert_eq!(h.to_bytes(), SAMPLE_IP.to_vec());
    assert_eq!(sum_of(&SAMPLE_IP), 0xffff);
    h.header_checksum = 0x1234;
    h.set_checksum();
    assert_eq!(h.header_checksum, 0xb861);
    h.ttl = 3;
    h.set_checksum();
    assert_eq!(sum_of(&h.to_bytes()), 0xffff);
}

#[test]
fn ipv4_answer_twice_is_identity() {
    let original = IPV4HeaderView::from_slice(&SAMPLE_IP).unwrap().to_mutable();
    let mut h = original.clone();
    h.answer();
    assert_eq!(h.source_address, original.destination_address);
    assert_eq!(h.destination_address, original.source_address);
    h.answer();
    assert_eq!(h, original);
}

#[test]
fn ipv4_truncated_frames_are_rejected() {
    for n in 0..20 {
        assert_eq!(IPV4HeaderView::from_slice(&SAMPLE_IP[..n]).err(), Some(MalformedPacket::Truncated));
    }
    let mut bad = SAMPLE_IP;
    bad[0] = 0x44;
    assert_eq!(IPV4HeaderView::from_slice(&bad).err(), Some(MalformedPacket::BadHeaderLength));
    bad[0] = 0x46;
    assert_eq!(IPV4HeaderView::from_slice(&bad).err(), Some(MalformedPacket::BadHeaderLength));
    let mut unknown = SAMPLE_IP;
    unknown[9] = 200;
    assert_eq!(IPV4HeaderView::from_slice(&unknown).err(), Some(MalformedPacket::UnknownProtocol));
}

#[test]
fn tcp_options_boundary() {
    let plain = segment(1, 80, true, false, false, &[]);
    let tcp = TCPHeaderView::from_slice(&plain[20..]).unwrap();
    assert_eq!(tcp.get_data_offset(), 5);
    assert!(tcp.get_parsed_options().is_empty());

    let mut with_option = plain[20..40].to_vec();
    with_option[12] = 0x60;
    with_option.extend_from_slice(&[2, 4, 0x05, 0xb4]);
    let tcp = TCPHeaderView::from_slice(&with_option).unwrap();
    let options = tcp.get_parsed_options();
    assert_eq!(options, vec![TCPOption { kind: 2, len: 4, data: Some(vec![0x05, 0xb4]) }]);
    let owned = tcp.to_mutable();
    assert_eq!(owned.to_bytes(), with_option);
}

#[test]
fn tcp_malformed_option_stops_reading() {
    let mut h = segment(1, 80, true, false, false, &[])[20..40].to_vec();
    h[12] = 0x60;
    h.extend_from_slice(&[1, 3, 0, 9]);
    let tcp = TCPHeaderView::from_slice(&h).unwrap();
    let options = tcp.get_parsed_options();
    assert_eq!(options.len(), 1);
    assert_eq!(options[0].kind, 1);
    assert_eq!(TCPHeaderView::from_slice(&h[..19]).err(), Some(MalformedPacket::Truncated));
}

#[test]
fn tcp_checksum_verifies_with_pseudo_header() {
    let bytes = segment(77, 8080, false, true, false, b"abc");
    let mut all = vec![0x0a, 0x00, 0x00, 0x01, 0x0a, 0x00, 0x00, 0x02, 0, 6, 0, 23];
    all.extend_from_slice(&bytes[20..]);
    assert_eq!(sum_of(&all), 0xffff);
    assert_eq!(sum_of(&bytes[..20]), 0xffff);
    let view = TCPHeaderView::from_slice(&bytes[20..]).unwrap();
    let mut header = view.to_mutable();
    let expected = header.checksum;
    header.checksum = 0;
    assert_eq!(tcp_checksum(&client_ip(), &header, &b"abc".to_vec()), expected);
}

#[test]
fn packet_view_composes_headers() {
    let bytes = segment(5, 80, true, false, false, b"xy");
    let view = PacketView::<IPV4HeaderView, PacketView<TCPHeaderView, &[u8]>>::from_slice(&bytes).unwrap();
    assert_eq!(view.view_size(), bytes.len());
    assert_eq!(view.get_header().get_total_length() as usize, bytes.len());
    assert_eq!(view.get_payload().get_header().get_sequence_number(), 5);
    assert_eq!(view.get_payload().get_payload(), &b"xy"[..]);
    assert!(PacketView::<IPV4HeaderView, PacketView<TCPHeaderView, &[u8]>>::from_slice(&bytes[..30]).is_err());
}

#[test]
fn icmp_echo_reply_checksum() {
    let mut header = ICMPHeader { message_type: 8, code: 0, checksum: 0 };
    header.make_echo_reply();
    let mut p = Packet::new(header, vec![1u8, 2, 3, 4, 5]);
    p.prepare();
    let bytes = p.to_bytes();
    assert_eq!(bytes[0], 0);
    assert_eq!(sum_of(&bytes), 0xffff);
    let view = ICMPHeaderView::from_slice(&bytes).unwrap();
    assert_eq!(view.get_message_type(), 0);
    assert_eq!(view.get_checksum(), p.header.checksum);
    assert_eq!(view.to_mutable(), p.header);
    assert_eq!(ICMPHeaderView::from_slice(&bytes[..3]).err(), Some(MalformedPacket::Truncated));
}

#[test]
fn handshake_scenario() {
    let mut manager = TCPManager::new();
    let s: u32 = 1000;
    let out = manager.handle_tcp_packet(&segment(s, 80, true, false, false, &[]));
    assert_eq!(out.len(), 1);
    let reply = &out[0].payload.header;
    assert!(reply.syn && reply.ack && !reply.fin);
    assert_eq!(reply.acknowledgement_number, s + 1);
    assert_eq!(reply.sequence_number, INITIAL_SEQUENCE);
    assert_eq!(reply.source_port, 80);
    assert_eq!(reply.destination_port, 40000);
    assert_eq!(reply.window, 1024);
    assert_eq!(out[0].header.source_address, IpV4Addr(0x0a00_0002));
    assert_eq!(manager.connections.get(&80).unwrap().state, TCPConnectionState::SynReceived);

    let out = manager.handle_tcp_packet(&segment(s + 1, 80, false, true, false, &[]));
    assert!(out.is_empty());
    assert_eq!(manager.connections.get(&80).unwrap().state, TCPConnectionState::Established);
}

#[test]
fn teardown_scenario() {
    let mut manager = TCPManager::new();
    manager.handle_tcp_packet(&segment(1000, 80, true, false, false, &[]));
    manager.handle_tcp_packet(&segment(1001, 80, false, true, false, &[]));
    let f: u32 = 5000;
    let out = manager.handle_tcp_packet(&segment(f, 80, false, true, true, &[]));
    assert_eq!(out.len(), 2);
    assert!(out[0].payload.header.ack && !out[0].payload.header.fin);
    assert_eq!(out[0].payload.header.acknowledgement_number, f + 1);
    assert!(out[1].payload.header.fin);
    assert!(out[1].payload.header.ack);
    assert_eq!(manager.connections.get(&80).unwrap().state, TCPConnectionState::LastAck);

    let out = manager.handle_tcp_packet(&segment(f + 1, 80, false, true, false, &[]));
    assert!(out.is_empty());
    assert!(manager.connections.get(&80).is_none());
}

#[test]
fn data_phase_answers_a_request() {
    let mut manager = TCPManager::new();
    manager.handle_tcp_packet(&segment(1000, 80, true, false, false, &[]));
    manager.handle_tcp_packet(&segment(1001, 80, false, true, false, &[]));
    let request = b"GET /index.html HTTP/1.1\r\nHost: x\r\n\r\n";
    let out = manager.handle_tcp_packet(&segment(1001, 80, false, true, false, request));
    assert_eq!(out.len(), 2);
    assert_eq!(out[0].payload.header.acknowledgement_number, 1001 + request.len() as u32);
    assert!(out[0].payload.payload.is_empty());
    let body = &out[1].payload.payload;
    assert!(body.starts_with(b"HTTP/1.1 200 OK\r\n"));
    assert!(body.ends_with(DEMO_BODY.as_bytes()));
    let conn = manager.connections.get(&80).unwrap();
    assert_eq!(conn.sequence_number, INITIAL_SEQUENCE + 1 + body.len() as u32);

    let out = manager.handle_tcp_packet(&segment(2000, 80, false, true, false, b"not http"));
    assert!(out.is_empty());
}

#[test]
fn unknown_port_without_syn_is_ignored() {
    let mut manager = TCPManager::new();
    let out = manager.handle_tcp_packet(&segment(1, 81, false, true, false, &[]));
    assert!(out.is_empty());
    assert!(manager.connections.is_empty());
    assert!(manager.handle_tcp_packet(&SAMPLE_IP[..10]).is_empty());
}

#[test]
fn state_machine_steps() {
    let mut c = TCPConnection::new();
    let seg = Segment { syn: true, ack: false, fin: false, sequence_number: u32::MAX, payload_len: 0, response_len: None };
    let replies = c.on_segment(&seg);
    assert_eq!(replies.len(), 1);
    assert_eq!(replies[0].kind, ReplyKind::SynAck);
    assert_eq!(replies[0].acknowledgement_number, 0);
    assert_eq!(c.state, TCPConnectionState::SynReceived);
    let replies = c.on_segment(&seg);
    assert!(replies.is_empty());
    assert_eq!(c.state, TCPConnectionState::SynReceived);
}

#[test]
fn http_request_head() {
    let payload = b"get /a/b HTTP/1.0\r\nHost: h\r\n\r\nbody";
    let head = HTTPRequestHeaderView::try_from(payload).unwrap();
    assert_eq!(head.get_method(), Some(HTTPMethod::Get));
    assert_eq!(head.get_version(), Some(HTTPVersion { major: 1, minor: 0 }));
    assert_eq!(head.get_path(), Some(&b"/a/b"[..]));
    assert_eq!(head.get_headers_raw(), &b"Host: h"[..]);
    assert!(HTTPRequestHeaderView::try_from(b"GET / HTTP/1.1\r\n").is_err());
    assert_eq!(HTTPMethod::Get.as_str(), "GET");
}

#[test]
fn http_demo_response_layout() {
    let r = demo_response(HTTPVersion { major: 1, minor: 1 }, DEMO_BODY);
    let text = String::from_utf8(r).unwrap();
    assert_eq!(
        text,
        "HTTP/1.1 200 OK\r\nContent-Type: text/html; charset=UTF-8\r\nContent-Length: 33\r\nConnection: close\r\n\r\n<html><b>Hello</b> World !</html>"
    );
}

#[test]
fn http_request_headers_and_owned_copy() {
    let payload = b"GET /x HTTP/1.1\r\nHost: example\r\nAccept: */*\r\n\r\n";
    let head = HTTPRequestHeaderView::try_from(payload).unwrap();
    let lines = head.get_headers();
    assert_eq!(lines, vec![&b"Host: example"[..], &b"Accept: */*"[..]]);
    let parsed = head.get_headers_parsed().unwrap();
    assert_eq!(parsed.len(), 2);
    assert_eq!(parsed[0].key, &b"Host"[..]);
    assert_eq!(parsed[0].value, &b" example"[..]);
    let owned = head.to_mutable().unwrap();
    assert_eq!(owned.method, HTTPMethod::Get);
    assert_eq!(owned.path, b"/x".to_vec());
    assert_eq!(owned.version, HTTPVersion { major: 1, minor: 1 });
    assert_eq!(owned.headers[1], (b"Accept".to_vec(), b" */*".to_vec()));

    let no_colon = HTTPRequestHeaderView::try_from(b"GET / HTTP/1.1\r\nbroken\r\n\r\n").unwrap();
    assert!(no_colon.get_headers_parsed().is_none());
    assert!(no_colon.to_mutable().is_none());
    let unknown = HTTPRequestHeaderView::try_from(b"PUT / HTTP/1.1\r\n\r\n").unwrap();
    assert_eq!(unknown.get_method(), None);
}

#[test]
fn http_response_prepare_and_size() {
    let mut h = HTTPResponseHeader {
        version: HTTPVersion { major: 1, minor: 0 },
        code: 500,
        reason: vec![],
        headers: vec![(b"K".to_vec(), b"V".to_vec())],
    };
    h.prepare();
    assert_eq!(h.reason, b"SERVER ERROR".to_vec());
    let mut out = Vec::new();
    h.write_to(&mut out);
    assert_eq!(out, b"HTTP/1.0 500 SERVER ERROR\r\nK: V\r\n\r\n".to_vec());
    assert_eq!(h.size(), out.len());
    h.code = 404;
    h.reason = b"Not Found".to_vec();
    h.prepare();
    assert_eq!(h.reason, b"Not Found".to_vec());
}

#[test]
fn ipv4_options_survive_the_round_trip() {
    let mut bytes = SAMPLE_IP.to_vec();
    bytes[0] = 0x46;
    bytes.extend_from_slice(&[0x94, 0x04, 0x00, 0x00]);
    let view = IPV4HeaderView::from_slice(&bytes).unwrap();
    assert_eq!(view.size(), 24);
    let mut h = view.to_mutable();
    assert_eq!(h.options, vec![0x94, 0x04, 0x00, 0x00]);
    assert_eq!(h.to_bytes(), bytes);
    h.options = vec![1, 2];
    h.prepare_ip_header(24);
    assert_eq!(h.ihl, 6);
    let out = h.to_bytes();
    assert_eq!(out.len(), 24);
    assert_eq!(&out[20..], &[1, 2, 0, 0]);
    assert_eq!(sum_of(&out), 0xffff);
}

#[test]
fn checksum_operators_and_wide_adds() {
    let c = Checksum::new().add_u32(0x0001_0002);
    assert_eq!(c.0, 0x0001_0002);
    assert_eq!(c.to_u16(), 3);
    assert_eq!((Checksum::new() + 5u8 + 7u16 + 1u32 + 2u64).0, 15);
    assert_eq!(u16::from(Checksum(0x1_0000)), 1);
    let x = Checksum(1234);
    assert_eq!(x.add_checksum(Checksum::new()), x);
    assert_eq!(Checksum::new().add_2bytes([0x12, 0x34]), Checksum::new().add_u64(0x1234));
}

#[test]
fn ill_formed_requests_are_ignored() {
    let mut manager = TCPManager::new();
    manager.handle_tcp_packet(&segment(1000, 80, true, false, false, &[]));
    manager.handle_tcp_packet(&segment(1001, 80, false, true, false, &[]));
    let not_utf8 = b"GET /\xff HTTP/1.1\r\n\r\n";
    assert!(manager.handle_tcp_packet(&segment(1001, 80, false, true, false, not_utf8)).is_empty());
    let unknown = b"BREW /pot HTTP/1.1\r\n\r\n";
    assert!(manager.handle_tcp_packet(&segment(1001, 80, false, true, false, unknown)).is_empty());
    let no_path = b"GET HTTP/1.1\r\n\r\n";
    assert!(manager.handle_tcp_packet(&segment(1001, 80, false, true, false, no_path)).is_empty());
    assert_eq!(manager.connections.get(&80).unwrap().sequence_number, INITIAL_SEQUENCE + 1);
}
