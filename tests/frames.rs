use tcp_rust::checksum::sum_of;
use tcp_rust::ip::{IPV4Header, IpProtocol, IpV4Addr};
use tcp_rust::manager::{TCPConnectionState, TCPManager};
use tcp_rust::packet::Packet;
use tcp_rust::stack::handle_frame;
use tcp_rust::tcp::TCPHeader;
use tcp_rust::traits::{Prepare, WriteTo};

fn ip(protocol: IpProtocol) -> IPV4Header {
    IPV4Header {
        version: 4,
        ihl: 5,
        dscp: 0,
        ecn: 0,
        total_length: 0,
        identification: 1,
        flags: 2,
        fragment_offset: 0,
        ttl: 64,
        protocol,
        header_checksum: 0,
        source_address: IpV4Addr(0x0a00_0001),
        destination_address: IpV4Addr(0x0a00_0002),
        options: vec![],
    }
}

fn framed(bytes: Vec<u8>) -> Vec<u8> {
    let mut frame = vec![0x00, 0x00, 0x08, 0x00];
    frame.extend_from_slice(&bytes);
    frame
}

#[test]
fn echo_request_gets_echo_reply() {
    let mut request = Packet::new(
        ip(IpProtocol::Icmp),
        Packet::new(tcp_rust::icmp::ICMPHeader { message_type: 8, code: 0, checksum: 0 }, vec![9u8, 8, 7]),
    );
    request.prepare();
    let frame = framed(request.to_bytes());
    let mut manager = TCPManager::new();
    let out = handle_frame(&mut manager, &frame);
    assert_eq!(out.len(), 1);
    let reply = &out[0];
    assert_eq!(&reply[..4], &[0, 0, 0x08, 0x00]);
    assert_eq!(&reply[16..20], &[0x0a, 0, 0, 2]);
    assert_eq!(&reply[20..24], &[0x0a, 0, 0, 1]);
    assert_eq!(reply[24], 0);
    assert_eq!(sum_of(&reply[4..24]), 0xffff);
    assert_eq!(sum_of(&reply[24..]), 0xffff);
    assert_eq!(&reply[28..], &[9, 8, 7]);
}

#[test]
fn frames_that_are_not_ipv4_are_dropped() {
    let mut manager = TCPManager::new();
    assert!(handle_frame(&mut manager, &[0, 0, 0x86, 0xdd, 0x60]).is_empty());
    assert!(handle_frame(&mut manager, &[0, 0, 0x08]).is_empty());
    for n in 0..20 {
        let mut frame = vec![0, 0, 0x08, 0x00];
        frame.extend(std::iter::repeat(0x45).take(n));
        assert!(handle_frame(&mut manager, &frame).is_empty());
    }
    let mut udp = Packet::new(ip(IpProtocol::Udp), vec![1u8, 2, 3, 4]);
    udp.header.prepare_ip_header(24);
    assert!(handle_frame(&mut manager, &framed(udp.to_bytes())).is_empty());
}

#[test]
fn syn_frame_gets_syn_ack_frame() {
    let mut tcp = TCPHeader::default();
    tcp.source_port = 5555;
    tcp.destination_port = 80;
    tcp.sequence_number = 42;
    tcp.syn = true;
    tcp.window = 512;
    let mut p = Packet::new(ip(IpProtocol::Tcp), Packet::new(tcp, vec![]));
    p.prepare();
    let frame = {
        let mut f = vec![0x12, 0x34, 0x08, 0x00];
        f.extend_from_slice(&p.to_bytes());
        f
    };
    let mut manager = TCPManager::new();
    let out = handle_frame(&mut manager, &frame);
    assert_eq!(out.len(), 1);
    let reply = &out[0];
    assert_eq!(&reply[..4], &[0x12, 0x34, 0x08, 0x00]);
    assert_eq!(reply.len(), 4 + 40);
    assert_eq!(sum_of(&reply[4..24]), 0xffff);
    let ack = u32::from_be_bytes([reply[32], reply[33], reply[34], reply[35]]);
    assert_eq!(ack, 43);
    assert_eq!(reply[24 + 13], 0x12);
    let mut pseudo = vec![0x0a, 0, 0, 2, 0x0a, 0, 0, 1, 0, 6, 0, 20];
    pseudo.extend_from_slice(&reply[24..]);
    assert_eq!(sum_of(&pseudo), 0xffff);
    assert_eq!(manager.connections.get(&80).unwrap().state, TCPConnectionState::SynReceived);
}
