//! ICMP headers (RFC 792): type, code and checksum before an opaque body.
use vstd::prelude::*;
use crate::wire::{be16, lemma_be16_bytes, push_u16, read_u16, u16_bytes, MalformedPacket};

verus! {

/// The size of an ICMP header, in bytes.
pub const ICMP_HEADER: usize = 4;

/// The message type of an echo reply.
pub const ICMP_ECHO_REPLY: u8 = 0;

/// The message type of an echo request.
pub const ICMP_ECHO_REQUEST: u8 = 8;

pub open spec fn icmp_bytes(h: ICMPHeader) -> Seq<u8> {
    seq![h.message_type, h.code] + u16_bytes(h.checksum)
}

pub open spec fn icmp_fields(b: Seq<u8>) -> ICMPHeader {
    ICMPHeader { message_type: b[0], code: b[1], checksum: be16(b, 2) as u16 }
}

/// A read-only ICMP header over the first four bytes of a message.
#[derive(Debug, Clone, Copy)]
pub struct ICMPHeaderView<'a> {
    pub content: &'a [u8],
}

impl<'a> ICMPHeaderView<'a> {
    pub open spec fn wf(&self) -> bool {
        self.content@.len() == 4
    }

    pub fn from_slice(slice: &'a [u8]) -> (r: Result<ICMPHeaderView<'a>, MalformedPacket>)
        ensures
            r is Ok <==> slice@.len() >= 4,
            r matches Ok(v) ==> v.wf() && v.content@ == slice@.subrange(0, 4),
            r is Err ==> r == Err::<ICMPHeaderView<'a>, MalformedPacket>(MalformedPacket::Truncated),
    {
        if slice.len() < ICMP_HEADER {
            return Err(MalformedPacket::Truncated);
        }
        Ok(ICMPHeaderView { content: slice.split_at(ICMP_HEADER).0 })
    }

    pub fn size(&self) -> (r: usize)
        requires
            self.wf(),
        ensures
            r == 4,
    {
        self.content.len()
    }

    pub fn get_message_type(&self) -> (r: u8)
        requires
            self.wf(),
        ensures
            r == self.content@[0],
    {
        self.content[0]
    }

    pub fn get_code(&self) -> (r: u8)
        requires
            self.wf(),
        ensures
            r == self.content@[1],
    {
        self.content[1]
    }

    pub fn get_checksum(&self) -> (r: u16)
        requires
            self.wf(),
        ensures
            r == be16(self.content@, 2),
    {
        read_u16(self.content, 2)
    }

    /// Copies every field out into an owned header.
    pub fn to_mutable(self) -> (r: ICMPHeader)
        requires
            self.wf(),
        ensures
            r == icmp_fields(self.content@),
    {
        ICMPHeader {
            message_type: self.get_message_type(),
            code: self.get_code(),
            checksum: self.get_checksum(),
        }
    }
}

/// An ICMP header that can be changed and written out.
#[derive(Debug, Clone, Copy, PartialEq, Eq, Structural)]
pub struct ICMPHeader {
    pub message_type: u8,
    pub code: u8,
    pub checksum: u16,
}

impl ICMPHeader {
    pub fn size(&self) -> (r: usize)
        ensures
            r == icmp_bytes(*self).len(),
            r == ICMP_HEADER,
    {
        ICMP_HEADER
    }

    pub fn write_to(&self, out: &mut Vec<u8>)
        ensures
            final(out)@ == old(out)@ + icmp_bytes(*self),
    {
        let ghost start = out@;
        out.push(self.message_type);
        out.push(self.code);
        push_u16(out, self.checksum);
        assert(out@ =~= start + icmp_bytes(*self));
    }

    /// Turns an echo request into the header of its reply; the checksum is set when the
    /// packet is prepared.
    pub fn make_echo_reply(&mut self)
        ensures
            *final(self) == (ICMPHeader { message_type: ICMP_ECHO_REPLY, code: 0, ..*old(self) }),
    {
        self.message_type = ICMP_ECHO_REPLY;
        self.code = 0;
    }
}

/// A header read from four bytes is written back as those bytes.
pub proof fn law_icmp_round_trip(b: Seq<u8>)
    requires
        b.len() == 4,
    ensures
        icmp_bytes(icmp_fields(b)) == b,
{
    lemma_be16_bytes(b, 2);
    assert(icmp_bytes(icmp_fields(b)) =~= b);
}

} // verus!
