//! Two-part packets, a header before a payload, that nest: an IPv4 header before a TCP
//! segment before its bytes is the same construct twice.
use vstd::prelude::*;
use crate::checksum::{
    fold16, internet_checksum, lemma_complement_verifies, lemma_fold16_add, lemma_word_sum_field,
    word_sum, Checksum,
};
use crate::icmp::{icmp_bytes, ICMPHeader, ICMPHeaderView};
use crate::ip::{
    ipv4_bytes, ipv4_header_len, ipv4_valid, ipv4_with_checksum, ipv4_words, IPV4Header,
    IPV4HeaderView,
};
use crate::tcp::{
    options_model, options_wire, tcp_bytes, tcp_header_len, tcp_valid, TCPHeader, TCPHeaderView,
    TCP_MAX_OPTIONS,
};
use crate::traits::{Data, DataOwned, DataView, Prepare, ToMutable, WriteTo};
use crate::wire::{u16_bytes, u32_bytes, MalformedPacket};

verus! {

/// An owned header with its payload.
#[derive(Debug, Clone)]
pub struct Packet<H, C> {
    pub header: H,
    pub payload: C,
}

/// A header view with the payload view read from the bytes after it, and the bytes that the
/// two cover together.
#[derive(Debug, Clone, Copy)]
pub struct PacketView<'a, H, C> {
    pub header: H,
    pub payload: C,
    pub content: &'a [u8],
}

pub type IPV4Packet<C> = Packet<IPV4Header, C>;

pub type TCPPacket<C> = Packet<TCPHeader, C>;

pub type ICMPPacket<C> = Packet<ICMPHeader, C>;

pub type IPV4PacketView<'a, C> = PacketView<'a, IPV4HeaderView<'a>, C>;

pub type TCPPacketView<'a, C> = PacketView<'a, TCPHeaderView<'a>, C>;

pub type ICMPPacketView<'a, C> = PacketView<'a, ICMPHeaderView<'a>, C>;

impl<H, C> Packet<H, C> {
    pub fn new(header: H, payload: C) -> (r: Self)
        ensures
            r.header == header,
            r.payload == payload,
    {
        Packet { header, payload }
    }
}

impl<H: WriteTo, C: WriteTo> WriteTo for Packet<H, C> {
    open spec fn wire(&self) -> Seq<u8> {
        self.header.wire() + self.payload.wire()
    }

    fn write_to(&self, out: &mut Vec<u8>) {
        let ghost start = out@;
        self.header.write_to(out);
        self.payload.write_to(out);
        assert(out@ =~= start + self.wire());
    }
}

impl<H: Data, C: Data> Data for Packet<H, C> {
    fn size(&self) -> (r: usize) {
        self.header.size() + self.payload.size()
    }
}

impl<H: DataOwned, C: DataOwned> DataOwned for Packet<H, C> {
}

impl<H: DataOwned, C: DataOwned> Packet<H, C> {
    /// The sum of the header's words merged with the sum of the payload's, each taken on its
    /// own.
    pub fn compute_checksum(&self) -> (r: Checksum)
        ensures
            r.reduced() == fold16((word_sum(self.header.wire()) + word_sum(self.payload.wire())) as int),
    {
        let h = self.header.compute_checksum();
        let p = self.payload.compute_checksum();
        proof {
            lemma_fold16_add(h.0 as int, word_sum(self.header.wire()) as int, p.0 as int);
            lemma_fold16_add(p.0 as int, word_sum(self.payload.wire()) as int, word_sum(self.header.wire()) as int);
        }
        h.add_checksum(p)
    }
}

impl<'a, H: DataView<'a> + Copy, C: DataView<'a> + Copy> PacketView<'a, H, C> {
    /// Joins a header view and the payload view read right after it, given the bytes that
    /// the two cover.
    pub fn new(header: H, payload: C, content: &'a [u8]) -> (r: Self)
        requires
            content@ == header.bytes() + payload.bytes(),
        ensures
            r.header == header,
            r.payload == payload,
            r.content == content,
    {
        PacketView { header, payload, content }
    }

    pub fn get_header(&self) -> (r: H)
        ensures
            r == self.header,
    {
        self.header
    }

    pub fn get_payload(&self) -> (r: C)
        ensures
            r == self.payload,
    {
        self.payload
    }
}

impl<'a, H: DataView<'a> + Copy, C: DataView<'a> + Copy> DataView<'a> for PacketView<'a, H, C> {
    open spec fn accepts(b: Seq<u8>) -> bool {
        H::accepts(b) && C::accepts(b.subrange(H::span(b), b.len() as int))
    }

    open spec fn span(b: Seq<u8>) -> int {
        H::span(b) + C::span(b.subrange(H::span(b), b.len() as int))
    }

    open spec fn bytes(&self) -> Seq<u8> {
        self.content@
    }

    open spec fn well_formed(&self) -> bool {
        &&& self.header.well_formed()
        &&& self.payload.well_formed()
        &&& self.content@ == self.header.bytes() + self.payload.bytes()
    }

    proof fn lemma_span(b: Seq<u8>) {
        H::lemma_span(b);
        C::lemma_span(b.subrange(H::span(b), b.len() as int));
    }

    /// Reads the header first, then the payload from the bytes after the header's size.
    fn from_slice(s: &'a [u8]) -> (r: Result<Self, MalformedPacket>) {
        let header = match H::from_slice(s) {
            Ok(h) => h,
            Err(e) => return Err(e),
        };
        let n = header.view_size();
        proof {
            H::lemma_span(s@);
        }
        let rest = s.split_at(n).1;
        assert(rest@ == s@.subrange(H::span(s@), s@.len() as int));
        let payload = match C::from_slice(rest) {
            Ok(c) => c,
            Err(e) => return Err(e),
        };
        let m = payload.view_size();
        proof {
            C::lemma_span(rest@);
            assert(m <= rest@.len());
            assert(n + m <= s@.len());
        }
        let total = s.len();
        assert(n + m <= total);
        let content = s.split_at(n + m).0;
        assert(content@ =~= header.bytes() + payload.bytes());
        Ok(PacketView { header, payload, content })
    }

    fn view_size(&self) -> (r: usize) {
        self.content.len()
    }

    fn view_bytes(&self) -> (r: &'a [u8]) {
        self.content
    }
}

impl<'a, H: DataView<'a> + Copy + ToMutable, C: DataView<'a> + Copy + ToMutable> ToMutable for PacketView<
    'a,
    H,
    C,
> {
    type MutableType = Packet<H::MutableType, C::MutableType>;

    open spec fn convertible(&self) -> bool {
        self.header.convertible() && self.payload.convertible()
    }

    open spec fn owns(&self, r: Self::MutableType) -> bool {
        self.header.owns(r.header) && self.payload.owns(r.payload)
    }

    fn to_mutable(&self) -> Self::MutableType {
        Packet::new(self.header.to_mutable(), self.payload.to_mutable())
    }
}

impl<'a> DataView<'a> for IPV4HeaderView<'a> {
    open spec fn accepts(b: Seq<u8>) -> bool {
        ipv4_valid(b)
    }

    open spec fn span(b: Seq<u8>) -> int {
        ipv4_header_len(b)
    }

    open spec fn bytes(&self) -> Seq<u8> {
        self.content@
    }

    open spec fn well_formed(&self) -> bool {
        self.wf()
    }

    proof fn lemma_span(b: Seq<u8>) {
    }

    fn from_slice(s: &'a [u8]) -> (r: Result<Self, MalformedPacket>) {
        IPV4HeaderView::from_slice(s)
    }

    fn view_size(&self) -> (r: usize) {
        self.size()
    }

    fn view_bytes(&self) -> (r: &'a [u8]) {
        self.as_bytes()
    }
}

impl<'a> ToMutable for IPV4HeaderView<'a> {
    type MutableType = IPV4Header;

    open spec fn convertible(&self) -> bool {
        self.wf()
    }

    open spec fn owns(&self, r: IPV4Header) -> bool {
        crate::ip::ipv4_fields(r, self.content@)
    }

    fn to_mutable(&self) -> IPV4Header {
        IPV4HeaderView::to_mutable(self)
    }
}

impl<'a> DataView<'a> for TCPHeaderView<'a> {
    open spec fn accepts(b: Seq<u8>) -> bool {
        tcp_valid(b)
    }

    open spec fn span(b: Seq<u8>) -> int {
        tcp_header_len(b)
    }

    open spec fn bytes(&self) -> Seq<u8> {
        self.content@
    }

    open spec fn well_formed(&self) -> bool {
        self.wf()
    }

    proof fn lemma_span(b: Seq<u8>) {
    }

    fn from_slice(s: &'a [u8]) -> (r: Result<Self, MalformedPacket>) {
        TCPHeaderView::from_slice(s)
    }

    fn view_size(&self) -> (r: usize) {
        self.size()
    }

    fn view_bytes(&self) -> (r: &'a [u8]) {
        self.as_bytes()
    }
}

impl<'a> ToMutable for TCPHeaderView<'a> {
    type MutableType = TCPHeader;

    open spec fn convertible(&self) -> bool {
        self.wf()
    }

    open spec fn owns(&self, r: TCPHeader) -> bool {
        crate::tcp::tcp_fields(r, self.content@)
    }

    fn to_mutable(&self) -> TCPHeader {
        TCPHeaderView::to_mutable(self)
    }
}

impl<'a> DataView<'a> for ICMPHeaderView<'a> {
    open spec fn accepts(b: Seq<u8>) -> bool {
        b.len() >= 4
    }

    open spec fn span(b: Seq<u8>) -> int {
        4
    }

    open spec fn bytes(&self) -> Seq<u8> {
        self.content@
    }

    open spec fn well_formed(&self) -> bool {
        self.wf()
    }

    proof fn lemma_span(b: Seq<u8>) {
    }

    fn from_slice(s: &'a [u8]) -> (r: Result<Self, MalformedPacket>) {
        ICMPHeaderView::from_slice(s)
    }

    fn view_size(&self) -> (r: usize) {
        self.size()
    }

    fn view_bytes(&self) -> (r: &'a [u8]) {
        self.content
    }
}

impl<'a> ToMutable for ICMPHeaderView<'a> {
    type MutableType = ICMPHeader;

    open spec fn convertible(&self) -> bool {
        self.wf()
    }

    open spec fn owns(&self, r: ICMPHeader) -> bool {
        r == crate::icmp::icmp_fields(self.content@)
    }

    fn to_mutable(&self) -> ICMPHeader {
        ICMPHeaderView::to_mutable(*self)
    }
}

impl WriteTo for IPV4Header {
    open spec fn wire(&self) -> Seq<u8> {
        ipv4_bytes(*self)
    }

    fn write_to(&self, out: &mut Vec<u8>) {
        IPV4Header::write_to(self, out)
    }
}

impl Data for IPV4Header {
    fn size(&self) -> (r: usize) {
        IPV4Header::size(self)
    }
}

impl DataOwned for IPV4Header {
}

impl WriteTo for TCPHeader {
    open spec fn wire(&self) -> Seq<u8> {
        tcp_bytes(*self)
    }

    fn write_to(&self, out: &mut Vec<u8>) {
        TCPHeader::write_to(self, out)
    }
}

impl Data for TCPHeader {
    fn size(&self) -> (r: usize) {
        TCPHeader::size(self)
    }
}

impl DataOwned for TCPHeader {
}

impl WriteTo for ICMPHeader {
    open spec fn wire(&self) -> Seq<u8> {
        icmp_bytes(*self)
    }

    fn write_to(&self, out: &mut Vec<u8>) {
        ICMPHeader::write_to(self, out)
    }
}

impl Data for ICMPHeader {
    fn size(&self) -> (r: usize) {
        ICMPHeader::size(self)
    }
}

impl DataOwned for ICMPHeader {
}

/// The header of an ICMP message whose checksum is set for the message with `payload`.
pub open spec fn icmp_with_checksum(h: ICMPHeader, payload: Seq<u8>) -> ICMPHeader {
    ICMPHeader {
        checksum: internet_checksum(icmp_bytes(ICMPHeader { checksum: 0, ..h }) + payload),
        ..h
    }
}

impl Prepare for ICMPPacket<Vec<u8>> {
    open spec fn can_prepare(&self) -> bool {
        true
    }

    open spec fn prepared(before: Self) -> Self {
        Packet {
            header: icmp_with_checksum(before.header, before.payload@),
            payload: before.payload,
        }
    }

    /// Sets the checksum over the whole message, header and data.
    fn prepare(&mut self) {
        self.header.checksum = 0;
        let bytes = self.to_bytes();
        self.header.checksum = Checksum::new().add_slice(bytes.as_slice()).ones_complement();
    }
}

/// Once its checksum is set, an ICMP message sums to all ones.
pub proof fn law_icmp_checksum_verifies(h: ICMPHeader, payload: Seq<u8>)
    ensures
        fold16(word_sum(icmp_bytes(icmp_with_checksum(h, payload)) + payload) as int) == 0xFFFF,
{
    let zeroed = ICMPHeader { checksum: 0, ..h };
    let c = icmp_with_checksum(h, payload).checksum;
    let pre = seq![h.message_type, h.code];
    assert(icmp_bytes(zeroed) + payload =~= pre + u16_bytes(0) + payload);
    assert(icmp_bytes(icmp_with_checksum(h, payload)) + payload =~= pre + u16_bytes(c) + payload);
    lemma_word_sum_field(pre, u16_bytes(0), payload);
    lemma_word_sum_field(pre, u16_bytes(c), payload);
    lemma_complement_verifies(word_sum(icmp_bytes(zeroed) + payload) as int);
}

impl Prepare for IPV4Packet<ICMPPacket<Vec<u8>>> {
    open spec fn can_prepare(&self) -> bool {
        &&& self.header.options@.len() <= 40
        &&& ipv4_bytes(self.header).len() + 4 + self.payload.payload@.len() <= 0xFFFF
    }

    open spec fn prepared(before: Self) -> Self {
        Packet {
            header: ipv4_with_checksum(
                IPV4Header {
                    ihl: ipv4_words(before.header),
                    total_length: (ipv4_bytes(before.header).len() + 4 + before.payload.payload@.len()) as u16,
                    ..before.header
                },
            ),
            payload: ICMPPacket::<Vec<u8>>::prepared(before.payload),
        }
    }

    /// Prepares the ICMP message, then the IPv4 header for the length of the whole.
    fn prepare(&mut self) {
        self.payload.prepare();
        let total = self.header.size() + 4 + self.payload.payload.len();
        self.header.prepare_ip_header(total);
    }
}

/// The pseudo-header that the TCP checksum covers ahead of the segment.
pub open spec fn tcp_pseudo_header(ip: IPV4Header, segment_len: nat) -> Seq<u8> {
    u32_bytes(ip.source_address.0) + u32_bytes(ip.destination_address.0) + seq![
        0u8,
        ip.protocol.number(),
    ] + u16_bytes(segment_len as u16)
}

/// The TCP header with its data offset set for its options.
pub open spec fn tcp_sized(h: TCPHeader) -> TCPHeader {
    TCPHeader { data_offset: (5 + (options_wire(options_model(h.options@)).len() + 3) / 4) as u8, ..h }
}

/// The TCP header with its checksum set for the pseudo-header of `ip` and `payload`.
pub open spec fn tcp_with_checksum(ip: IPV4Header, h: TCPHeader, payload: Seq<u8>) -> TCPHeader {
    let zeroed = TCPHeader { checksum: 0, ..h };
    TCPHeader {
        checksum: internet_checksum(
            tcp_pseudo_header(ip, tcp_bytes(zeroed).len() + payload.len()) + tcp_bytes(zeroed)
                + payload,
        ),
        ..h
    }
}

impl Prepare for IPV4Packet<TCPPacket<Vec<u8>>> {
    open spec fn can_prepare(&self) -> bool {
        &&& options_wire(options_model(self.payload.header.options@)).len() <= TCP_MAX_OPTIONS
        &&& self.header.options@.len() <= 40
        &&& ipv4_bytes(self.header).len() + tcp_bytes(tcp_sized(self.payload.header)).len()
            + self.payload.payload@.len() <= 0xFFFF
    }

    open spec fn prepared(before: Self) -> Self {
        let tcp = tcp_sized(before.payload.header);
        let ip = ipv4_with_checksum(
            IPV4Header {
                ihl: ipv4_words(before.header),
                total_length: (ipv4_bytes(before.header).len() + tcp_bytes(tcp).len()
                    + before.payload.payload@.len()) as u16,
                ..before.header
            },
        );
        Packet {
            header: ip,
            payload: Packet {
                header: tcp_with_checksum(ip, tcp, before.payload.payload@),
                payload: before.payload.payload,
            },
        }
    }

    /// Sizes the TCP header, prepares the IPv4 header for the length of the whole, then sets
    /// the TCP checksum over the pseudo-header and the segment.
    #[verifier::rlimit(100)]
    fn prepare(&mut self) {
        self.payload.header.set_size();
        let segment_len = self.payload.header.size() + self.payload.payload.len();
        let total = self.header.size() + segment_len;
        self.header.prepare_ip_header(total);
        self.payload.header.checksum = 0;
        let c = tcp_checksum(&self.header, &self.payload.header, &self.payload.payload);
        self.payload.header.checksum = c;
    }
}

/// The TCP checksum for `tcp`, whose checksum field is still zero, before `payload`, sent
/// under `ip`.
pub fn tcp_checksum(ip: &IPV4Header, tcp: &TCPHeader, payload: &Vec<u8>) -> (r: u16)
    requires
        tcp.checksum == 0,
        tcp_bytes(*tcp).len() + payload@.len() <= 0xFFFF,
    ensures
        r == tcp_with_checksum(*ip, *tcp, payload@).checksum,
{
    assert(*tcp == TCPHeader { checksum: 0, ..*tcp });
    let segment_len = tcp.size() + payload.len();
    let mut bytes: Vec<u8> = Vec::new();
    crate::wire::push_u32(&mut bytes, ip.source_address.0);
    crate::wire::push_u32(&mut bytes, ip.destination_address.0);
    bytes.push(0);
    bytes.push(ip.protocol.as_u8());
    crate::wire::push_u16(&mut bytes, segment_len as u16);
    tcp.write_to(&mut bytes);
    crate::wire::push_all(&mut bytes, payload.as_slice());
    assert(bytes@ =~= tcp_pseudo_header(*ip, segment_len as nat) + tcp_bytes(*tcp) + payload@);
    Checksum::new().add_slice(bytes.as_slice()).ones_complement()
}

/// Once its checksum is set, a TCP segment sums to all ones together with its pseudo-header.
#[verifier::rlimit(100)]
pub proof fn law_tcp_checksum_verifies(ip: IPV4Header, h: TCPHeader, payload: Seq<u8>)
    ensures
        ({
            let set = tcp_with_checksum(ip, h, payload);
            fold16(
                word_sum(tcp_pseudo_header(ip, tcp_bytes(set).len() + payload.len()) + tcp_bytes(set) + payload) as int,
            ) == 0xFFFF
        }),
{
    let zeroed = TCPHeader { checksum: 0, ..h };
    let set = tcp_with_checksum(ip, h, payload);
    let c = set.checksum;
    let n = tcp_bytes(zeroed).len() + payload.len();
    let pseudo = tcp_pseudo_header(ip, n);
    crate::tcp::lemma_tcp_bytes_split(zeroed);
    crate::tcp::lemma_tcp_bytes_split(set);
    let head = crate::tcp::tcp_head(h);
    let tail = crate::tcp::tcp_tail(h);
    assert(crate::tcp::tcp_head(zeroed) == head);
    assert(crate::tcp::tcp_head(set) == head);
    assert(crate::tcp::tcp_tail(zeroed) == tail);
    assert(crate::tcp::tcp_tail(set) == tail);
    assert(pseudo.len() == 12);
    assert(pseudo + tcp_bytes(zeroed) + payload =~= (pseudo + head) + u16_bytes(0) + (tail + payload));
    assert(pseudo + tcp_bytes(set) + payload =~= (pseudo + head) + u16_bytes(c) + (tail + payload));
    lemma_word_sum_field(pseudo + head, u16_bytes(0), tail + payload);
    lemma_word_sum_field(pseudo + head, u16_bytes(c), tail + payload);
    lemma_complement_verifies(word_sum(pseudo + tcp_bytes(zeroed) + payload) as int);
}

/// The IPv4 header that preparing `p` sets the checksum of.
pub open spec fn tcp_packet_ip_before(p: IPV4Packet<TCPPacket<Vec<u8>>>) -> IPV4Header {
    IPV4Header {
        ihl: ipv4_words(p.header),
        total_length: (ipv4_bytes(p.header).len() + tcp_bytes(tcp_sized(p.payload.header)).len()
            + p.payload.payload@.len()) as u16,
        ..p.header
    }
}

proof fn lemma_prepared_ip_verifies(p: IPV4Packet<TCPPacket<Vec<u8>>>)
    ensures
        fold16(word_sum(ipv4_bytes(IPV4Packet::<TCPPacket<Vec<u8>>>::prepared(p).header)) as int) == 0xFFFF,
{
    assert(IPV4Packet::<TCPPacket<Vec<u8>>>::prepared(p).header == ipv4_with_checksum(tcp_packet_ip_before(p)));
    crate::ip::law_ipv4_checksum_verifies(tcp_packet_ip_before(p));
}

proof fn lemma_prepared_tcp_verifies(p: IPV4Packet<TCPPacket<Vec<u8>>>)
    ensures
        ({
            let q = IPV4Packet::<TCPPacket<Vec<u8>>>::prepared(p);
            fold16(
                word_sum(
                    tcp_pseudo_header(q.header, tcp_bytes(q.payload.header).len() + q.payload.payload@.len())
                        + tcp_bytes(q.payload.header) + q.payload.payload@,
                ) as int,
            ) == 0xFFFF
        }),
{
    let q = IPV4Packet::<TCPPacket<Vec<u8>>>::prepared(p);
    assert(q.payload.header == tcp_with_checksum(q.header, tcp_sized(p.payload.header), p.payload.payload@));
    assert(q.payload.payload == p.payload.payload);
    law_tcp_checksum_verifies(q.header, tcp_sized(p.payload.header), p.payload.payload@);
}

proof fn lemma_prepared_length(p: IPV4Packet<TCPPacket<Vec<u8>>>)
    requires
        p.can_prepare(),
    ensures
        ({
            let q = IPV4Packet::<TCPPacket<Vec<u8>>>::prepared(p);
            q.header.total_length == ipv4_bytes(q.header).len() + tcp_bytes(q.payload.header).len()
                + q.payload.payload@.len()
        }),
{
    let q = IPV4Packet::<TCPPacket<Vec<u8>>>::prepared(p);
    let tcp = tcp_sized(p.payload.header);
    crate::tcp::lemma_tcp_bytes_split(tcp);
    crate::tcp::lemma_tcp_bytes_split(q.payload.header);
    assert(q.payload.header.options == tcp.options);
    assert(tcp_bytes(q.payload.header).len() == tcp_bytes(tcp).len());
    assert(q.header.options == p.header.options);
    assert(ipv4_bytes(q.header).len() == ipv4_bytes(p.header).len());
}

/// A prepared IPv4/TCP packet verifies: its IPv4 header sums to all ones, the TCP segment
/// sums to all ones with its pseudo-header, and, where the whole fits an IPv4 packet, the
/// length field counts the whole.
pub proof fn law_prepared_tcp_packet_verifies(p: IPV4Packet<TCPPacket<Vec<u8>>>)
    ensures
        ({
            let q = IPV4Packet::<TCPPacket<Vec<u8>>>::prepared(p);
            &&& fold16(word_sum(ipv4_bytes(q.header)) as int) == 0xFFFF
            &&& fold16(
                word_sum(
                    tcp_pseudo_header(q.header, tcp_bytes(q.payload.header).len() + q.payload.payload@.len())
                        + tcp_bytes(q.payload.header) + q.payload.payload@,
                ) as int,
            ) == 0xFFFF
            &&& p.can_prepare() ==> q.header.total_length == ipv4_bytes(q.header).len() + tcp_bytes(
                q.payload.header,
            ).len() + q.payload.payload@.len()
        }),
{
    lemma_prepared_ip_verifies(p);
    lemma_prepared_tcp_verifies(p);
    if p.can_prepare() {
        lemma_prepared_length(p);
    }
}

} // verus!
