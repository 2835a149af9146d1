//! IPv4 headers (RFC 791): a view over received bytes and an owned value for replies.
use vstd::prelude::*;
use crate::checksum::{fold16, internet_checksum, lemma_complement_verifies, lemma_word_sum_field, word_sum, Checksum};
use crate::wire::{
    be16, be32, lemma_be16_bytes, lemma_be32_bytes, lemma_u16_bytes, push_u16, push_u32, read_u16,
    read_u32, u16_bytes, u32_bytes, MalformedPacket,
};

verus! {

/// The minimum size of an IPv4 header, in bytes.
pub const IPV4_MIN_HEADER: usize = 20;

/// The transport protocols that an IPv4 header may name.
#[derive(Debug, Clone, Copy, PartialEq, Eq, Structural)]
pub enum IpProtocol {
    Icmp,
    Igmp,
    Tcp,
    Udp,
    IpV6Encap,
    Ospf,
    Sctp,
}

/// The protocol that a protocol number names, if this stack knows it.
pub open spec fn protocol_of(b: u8) -> Option<IpProtocol> {
    if b == 1 {
        Some(IpProtocol::Icmp)
    } else if b == 2 {
        Some(IpProtocol::Igmp)
    } else if b == 6 {
        Some(IpProtocol::Tcp)
    } else if b == 17 {
        Some(IpProtocol::Udp)
    } else if b == 41 {
        Some(IpProtocol::IpV6Encap)
    } else if b == 89 {
        Some(IpProtocol::Ospf)
    } else if b == 132 {
        Some(IpProtocol::Sctp)
    } else {
        None
    }
}

impl IpProtocol {
    /// The protocol's number on the wire.
    pub open spec fn number(self) -> u8 {
        match self {
            IpProtocol::Icmp => 1,
            IpProtocol::Igmp => 2,
            IpProtocol::Tcp => 6,
            IpProtocol::Udp => 17,
            IpProtocol::IpV6Encap => 41,
            IpProtocol::Ospf => 89,
            IpProtocol::Sctp => 132,
        }
    }

    pub fn as_u8(&self) -> (r: u8)
        ensures
            r == self.number(),
            protocol_of(r) == Some(*self),
    {
        match self {
            IpProtocol::Icmp => 1,
            IpProtocol::Igmp => 2,
            IpProtocol::Tcp => 6,
            IpProtocol::Udp => 17,
            IpProtocol::IpV6Encap => 41,
            IpProtocol::Ospf => 89,
            IpProtocol::Sctp => 132,
        }
    }

    pub fn from_u8(b: u8) -> (r: Option<IpProtocol>)
        ensures
            r == protocol_of(b),
            r matches Some(p) ==> p.number() == b,
    {
        if b == 1 {
            Some(IpProtocol::Icmp)
        } else if b == 2 {
            Some(IpProtocol::Igmp)
        } else if b == 6 {
            Some(IpProtocol::Tcp)
        } else if b == 17 {
            Some(IpProtocol::Udp)
        } else if b == 41 {
            Some(IpProtocol::IpV6Encap)
        } else if b == 89 {
            Some(IpProtocol::Ospf)
        } else if b == 132 {
            Some(IpProtocol::Sctp)
        } else {
            None
        }
    }
}

/// An IPv4 address, most significant byte first.
#[derive(Debug, Clone, Copy, PartialEq, Eq, Structural)]
pub struct IpV4Addr(pub u32);

/// Whether `b` starts with a well-formed IPv4 header: at least the minimum size, a header
/// length of at least five words that the bytes cover, and a known protocol.
pub open spec fn ipv4_valid(b: Seq<u8>) -> bool {
    &&& b.len() >= 20
    &&& b[0] % 16 >= 5
    &&& (b[0] % 16) * 4 <= b.len()
    &&& protocol_of(b[9]) is Some
}

/// The header length that the IHL field of `b` declares, in bytes.
pub open spec fn ipv4_header_len(b: Seq<u8>) -> int {
    (b[0] % 16) as int * 4
}

/// Whether the owned header `h` holds the fields of the header at the start of `b`, its
/// options included.
pub open spec fn ipv4_fields(h: IPV4Header, b: Seq<u8>) -> bool {
    &&& h.version == b[0] / 16
    &&& h.ihl == b[0] % 16
    &&& h.dscp == b[1] / 4
    &&& h.ecn == b[1] % 4
    &&& h.total_length == be16(b, 2)
    &&& h.identification == be16(b, 4)
    &&& h.flags == b[6] / 32
    &&& h.fragment_offset == (b[6] % 32) as nat * 256 + b[7] as nat
    &&& h.ttl == b[8]
    &&& Some(h.protocol) == protocol_of(b[9])
    &&& h.header_checksum == be16(b, 10)
    &&& h.source_address.0 == be32(b, 12)
    &&& h.destination_address.0 == be32(b, 16)
    &&& h.options@ == b.subrange(20, ipv4_header_len(b))
}

/// The 20 bytes before the options; each field keeps only the bits that its place on the
/// wire has room for.
pub open spec fn ipv4_fixed(h: IPV4Header) -> Seq<u8> {
    seq![((h.version % 16) * 16 + h.ihl % 16) as u8, ((h.dscp % 64) * 4 + h.ecn % 4) as u8]
        + u16_bytes(h.total_length) + u16_bytes(h.identification) + seq![
        ((h.flags % 8) * 32 + (h.fragment_offset / 256) % 32) as u8,
        (h.fragment_offset % 256) as u8,
        h.ttl,
        h.protocol.number(),
    ] + u16_bytes(h.header_checksum) + u32_bytes(h.source_address.0) + u32_bytes(
        h.destination_address.0,
    )
}

/// The zero bytes (end of options) that pad `n` option bytes to a multiple of four.
pub open spec fn zero_padding(n: nat) -> Seq<u8> {
    Seq::new(((4 - n % 4) % 4) as nat, |i: int| 0u8)
}

/// The bytes an owned header is written as: the fixed part, then the options padded to a
/// whole number of words.
pub open spec fn ipv4_bytes(h: IPV4Header) -> Seq<u8> {
    ipv4_fixed(h) + h.options@ + zero_padding(h.options@.len())
}

/// The header length, in words, that covers the fixed part and the padded options.
pub open spec fn ipv4_words(h: IPV4Header) -> u8 {
    (5 + (h.options@.len() + 3) / 4) as u8
}

/// The header with its source and destination swapped.
pub open spec fn ipv4_answered(h: IPV4Header) -> IPV4Header {
    IPV4Header { source_address: h.destination_address, destination_address: h.source_address, ..h }
}

/// The header with its checksum field set for the other fields.
pub open spec fn ipv4_with_checksum(h: IPV4Header) -> IPV4Header {
    IPV4Header {
        header_checksum: internet_checksum(ipv4_bytes(IPV4Header { header_checksum: 0, ..h })),
        ..h
    }
}

/// A read-only IPv4 header over the bytes it was read from, options included.
#[derive(Debug, Clone, Copy)]
pub struct IPV4HeaderView<'a> {
    pub content: &'a [u8],
}

impl<'a> IPV4HeaderView<'a> {
    /// The view covers exactly one well-formed header.
    pub open spec fn wf(&self) -> bool {
        ipv4_valid(self.content@) && self.content@.len() == ipv4_header_len(self.content@)
    }

    /// Reads the header at the start of `slice`, after checking every length it depends on.
    pub fn from_slice(slice: &'a [u8]) -> (r: Result<IPV4HeaderView<'a>, MalformedPacket>)
        ensures
            r is Ok <==> ipv4_valid(slice@),
            r matches Ok(v) ==> v.wf() && v.content@ == slice@.subrange(0, ipv4_header_len(slice@)),
            slice@.len() < 20 ==> r == Err::<IPV4HeaderView<'a>, MalformedPacket>(MalformedPacket::Truncated),
            slice@.len() >= 20 && !(slice@[0] % 16 >= 5 && (slice@[0] % 16) * 4 <= slice@.len()) ==> r
                == Err::<IPV4HeaderView<'a>, MalformedPacket>(MalformedPacket::BadHeaderLength),
            r == Err::<IPV4HeaderView<'a>, MalformedPacket>(MalformedPacket::UnknownProtocol) <==> (
            slice@.len() >= 20 && slice@[0] % 16 >= 5 && (slice@[0] % 16) * 4 <= slice@.len()
                && protocol_of(slice@[9]) is None),
    {
        if slice.len() < IPV4_MIN_HEADER {
            return Err(MalformedPacket::Truncated);
        }
        let ihl = slice[0] % 16;
        if ihl < 5 || ihl as usize * 4 > slice.len() {
            return Err(MalformedPacket::BadHeaderLength);
        }
        if IpProtocol::from_u8(slice[9]).is_none() {
            return Err(MalformedPacket::UnknownProtocol);
        }
        let content = slice.split_at(ihl as usize * 4).0;
        Ok(IPV4HeaderView { content })
    }

    /// The header's size in bytes, options included.
    pub fn size(&self) -> (r: usize)
        requires
            self.wf(),
        ensures
            r == ipv4_header_len(self.content@),
    {
        self.content.len()
    }

    pub fn as_bytes(&self) -> (r: &'a [u8])
        ensures
            r@ == self.content@,
    {
        self.content
    }

    pub fn get_version(&self) -> (r: u8)
        requires
            self.wf(),
        ensures
            r == self.content@[0] / 16,
    {
        self.content[0] / 16
    }

    pub fn get_ihl(&self) -> (r: u8)
        requires
            self.wf(),
        ensures
            r == self.content@[0] % 16,
    {
        self.content[0] % 16
    }

    pub fn get_dscp(&self) -> (r: u8)
        requires
            self.wf(),
        ensures
            r == self.content@[1] / 4,
    {
        self.content[1] / 4
    }

    pub fn get_ecn(&self) -> (r: u8)
        requires
            self.wf(),
        ensures
            r == self.content@[1] % 4,
    {
        self.content[1] % 4
    }

    pub fn get_total_length(&self) -> (r: u16)
        requires
            self.wf(),
        ensures
            r == be16(self.content@, 2),
    {
        read_u16(self.content, 2)
    }

    pub fn get_identification(&self) -> (r: u16)
        requires
            self.wf(),
        ensures
            r == be16(self.content@, 4),
    {
        read_u16(self.content, 4)
    }

    pub fn get_flags(&self) -> (r: u8)
        requires
            self.wf(),
        ensures
            r == self.content@[6] / 32,
    {
        self.content[6] / 32
    }

    pub fn get_fragment_offset(&self) -> (r: u16)
        requires
            self.wf(),
        ensures
            r == (self.content@[6] % 32) as nat * 256 + self.content@[7] as nat,
    {
        (self.content[6] % 32) as u16 * 256 + self.content[7] as u16
    }

    pub fn get_ttl(&self) -> (r: u8)
        requires
            self.wf(),
        ensures
            r == self.content@[8],
    {
        self.content[8]
    }

    pub fn get_protocol(&self) -> (r: IpProtocol)
        requires
            self.wf(),
        ensures
            Some(r) == protocol_of(self.content@[9]),
    {
        match IpProtocol::from_u8(self.content[9]) {
            Some(p) => p,
            None => IpProtocol::Icmp,
        }
    }

    pub fn get_header_checksum(&self) -> (r: u16)
        requires
            self.wf(),
        ensures
            r == be16(self.content@, 10),
    {
        read_u16(self.content, 10)
    }

    pub fn get_source_address(&self) -> (r: IpV4Addr)
        requires
            self.wf(),
        ensures
            r.0 == be32(self.content@, 12),
    {
        IpV4Addr(read_u32(self.content, 12))
    }

    pub fn get_destination_address(&self) -> (r: IpV4Addr)
        requires
            self.wf(),
        ensures
            r.0 == be32(self.content@, 16),
    {
        IpV4Addr(read_u32(self.content, 16))
    }

    /// Copies every field out into an owned header.
    pub fn to_mutable(&self) -> (r: IPV4Header)
        requires
            self.wf(),
        ensures
            ipv4_fields(r, self.content@),
    {
        IPV4Header {
            version: self.get_version(),
            ihl: self.get_ihl(),
            dscp: self.get_dscp(),
            ecn: self.get_ecn(),
            total_length: self.get_total_length(),
            identification: self.get_identification(),
            flags: self.get_flags(),
            fragment_offset: self.get_fragment_offset(),
            ttl: self.get_ttl(),
            protocol: self.get_protocol(),
            header_checksum: self.get_header_checksum(),
            source_address: self.get_source_address(),
            destination_address: self.get_destination_address(),
            options: crate::wire::copy_range(self.content, 20, self.content.len()),
        }
    }

    /// The checksum of the header's bytes as received, options included.
    pub fn compute_checksum(&self) -> (r: Checksum)
        ensures
            r.reduced() == fold16(word_sum(self.content@) as int),
    {
        Checksum::new().add_slice(self.content)
    }
}

/// An IPv4 header that can be changed and written out, options included.
#[derive(Debug, Clone, PartialEq, Eq)]
pub struct IPV4Header {
    pub version: u8,
    pub ihl: u8,
    pub dscp: u8,
    pub ecn: u8,
    pub total_length: u16,
    pub identification: u16,
    pub flags: u8,
    pub fragment_offset: u16,
    pub ttl: u8,
    pub protocol: IpProtocol,
    pub header_checksum: u16,
    pub source_address: IpV4Addr,
    pub destination_address: IpV4Addr,
    /// The option bytes after the fixed part, without the padding to a whole word.
    pub options: Vec<u8>,
}

impl IPV4Header {
    /// The number of bytes the header is written as.
    pub fn size(&self) -> (r: usize)
        requires
            self.options@.len() <= 0xFFFF,
        ensures
            r == ipv4_bytes(*self).len(),
    {
        let n = self.options.len();
        IPV4_MIN_HEADER + n + (4 - n % 4) % 4
    }

    /// Appends the header in its wire layout.
    pub fn write_to(&self, out: &mut Vec<u8>)
        ensures
            final(out)@ == old(out)@ + ipv4_bytes(*self),
    {
        let ghost start = out@;
        out.push((self.version % 16) * 16 + self.ihl % 16);
        out.push((self.dscp % 64) * 4 + self.ecn % 4);
        push_u16(out, self.total_length);
        push_u16(out, self.identification);
        out.push((self.flags % 8) * 32 + ((self.fragment_offset / 256) % 32) as u8);
        out.push((self.fragment_offset % 256) as u8);
        out.push(self.ttl);
        out.push(self.protocol.as_u8());
        push_u16(out, self.header_checksum);
        push_u32(out, self.source_address.0);
        push_u32(out, self.destination_address.0);
        assert(out@ =~= start + ipv4_fixed(*self));
        crate::wire::push_all(out, self.options.as_slice());
        let ghost o_end = out@;
        let n = self.options.len();
        let pad: usize = (4 - n % 4) % 4;
        let mut k: usize = 0;
        while k < pad
            invariant
                k <= pad,
                out@ == o_end + Seq::new(k as nat, |j: int| 0u8),
            decreases pad - k,
        {
            out.push(0);
            k = k + 1;
            assert(out@ =~= o_end + Seq::new(k as nat, |j: int| 0u8));
        }
        assert(out@ =~= start + ipv4_bytes(*self));
    }

    /// The header's bytes.
    pub fn to_bytes(&self) -> (r: Vec<u8>)
        ensures
            r@ == ipv4_bytes(*self),
    {
        let mut out: Vec<u8> = Vec::new();
        self.write_to(&mut out);
        assert(out@ =~= ipv4_bytes(*self));
        out
    }

    /// The sum of the header's words, its checksum field as it stands.
    pub fn compute_checksum(&self) -> (r: Checksum)
        ensures
            r.reduced() == fold16(word_sum(ipv4_bytes(*self)) as int),
    {
        let bytes = self.to_bytes();
        Checksum::new().add_slice(bytes.as_slice())
    }

    /// Sets the checksum field to the complement of the sum of the other fields.
    pub fn set_checksum(&mut self)
        ensures
            *final(self) == ipv4_with_checksum(*old(self)),
    {
        self.header_checksum = 0;
        self.header_checksum = self.compute_checksum().ones_complement();
    }

    /// Swaps source and destination, which turns a received header into one for the reply.
    pub fn answer(&mut self)
        ensures
            *final(self) == ipv4_answered(*old(self)),
    {
        let source = self.source_address;
        self.source_address = self.destination_address;
        self.destination_address = source;
    }

    /// Readies the header to carry `total_length` bytes in all: the header length is set to
    /// the words that are written, then the length field, then the checksum.
    pub fn prepare_ip_header(&mut self, total_length: usize)
        requires
            total_length <= 0xFFFF,
            old(self).options@.len() <= 40,
        ensures
            *final(self) == ipv4_with_checksum(
                IPV4Header { ihl: ipv4_words(*old(self)), total_length: total_length as u16, ..*old(self) },
            ),
    {
        self.ihl = (5 + (self.options.len() + 3) / 4) as u8;
        self.total_length = total_length as u16;
        self.set_checksum();
    }
}

/// Answering twice gives back the header that was answered.
pub proof fn law_answer_involution(h: IPV4Header)
    ensures
        ipv4_answered(ipv4_answered(h)) == h,
{
}

/// Once its checksum is set, a header's bytes sum to all ones.
pub proof fn law_ipv4_checksum_verifies(h: IPV4Header)
    ensures
        fold16(word_sum(ipv4_bytes(ipv4_with_checksum(h))) as int) == 0xFFFF,
{
    let zeroed = IPV4Header { header_checksum: 0, ..h };
    let set = ipv4_with_checksum(h);
    let c = set.header_checksum;
    let b0 = ipv4_bytes(zeroed);
    let b1 = ipv4_bytes(set);
    let pre = b0.subrange(0, 10);
    let post = b0.subrange(12, b0.len() as int);
    assert(b0 =~= pre + u16_bytes(0) + post);
    assert(b1 =~= pre + u16_bytes(c) + post);
    lemma_word_sum_field(pre, u16_bytes(0), post);
    lemma_word_sum_field(pre, u16_bytes(c), post);
    lemma_u16_bytes(c);
    lemma_complement_verifies(word_sum(b0) as int);
}

/// A well-formed header, options included, is written back exactly as it was read.
pub proof fn law_ipv4_round_trip(h: IPV4Header, b: Seq<u8>)
    requires
        ipv4_valid(b),
        b.len() == ipv4_header_len(b),
        ipv4_fields(h, b),
    ensures
        ipv4_bytes(h) == b,
{
    lemma_be16_bytes(b, 2);
    lemma_be16_bytes(b, 4);
    lemma_be16_bytes(b, 10);
    lemma_be32_bytes(b, 12);
    lemma_be32_bytes(b, 16);
    let (b0, b1, b6) = (b[0], b[1], b[6]);
    assert((b0 / 16 % 16) * 16 + (b0 % 16) % 16 == b0) by (bit_vector);
    assert((b1 / 4 % 64) * 4 + (b1 % 4) % 4 == b1) by (bit_vector);
    assert(((b6 / 32) % 8) * 32 + b6 % 32 == b6) by (bit_vector);
    assert(h.options@.len() % 4 == 0);
    assert(zero_padding(h.options@.len()) =~= Seq::<u8>::empty());
    assert(ipv4_fixed(h) =~= b.subrange(0, 20));
    assert(ipv4_bytes(h) =~= b);
}

/// Reading the fields of a header looks no further than its header length.
pub proof fn lemma_ipv4_fields_prefix(h: IPV4Header, b: Seq<u8>, n: int)
    requires
        ipv4_valid(b),
        ipv4_header_len(b) <= n <= b.len(),
    ensures
        ipv4_fields(h, b.subrange(0, n)) == ipv4_fields(h, b),
{
    let p = b.subrange(0, n);
    assert(p.subrange(20, ipv4_header_len(p)) =~= b.subrange(20, ipv4_header_len(b)));
}

} // verus!
