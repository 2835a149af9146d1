//! TCP headers (RFC 793): a view over received bytes, options parsed read-only, and an owned
//! value for replies.
use vstd::prelude::*;
use crate::wire::{
    be16, be32, lemma_be16_bytes, lemma_be32_bytes, push_u16, push_u32, read_u16, read_u32,
    copy_range, push_all, u16_bytes, u32_bytes, MalformedPacket,
};

verus! {

/// The minimum size of a TCP header, in bytes.
pub const TCP_MIN_HEADER: usize = 20;

/// The most option bytes that a data offset of 15 words leaves room for.
pub const TCP_MAX_OPTIONS: usize = 40;

/// An option as (kind, length, data).
pub type OptionModel = (u8, u8, Option<Seq<u8>>);

/// The options in `b`, read front to back: kinds 0 and 1 are single bytes, any other kind
/// has a length byte that counts itself and the kind. Reading stops at an option whose length
/// is below two or runs past the end.
pub open spec fn parse_options(b: Seq<u8>) -> Seq<OptionModel>
    decreases b.len(),
{
    if b.len() == 0 {
        Seq::empty()
    } else if b[0] < 2 {
        seq![(b[0], 1u8, None::<Seq<u8>>)] + parse_options(b.subrange(1, b.len() as int))
    } else if b.len() < 2 || b[1] < 2 || b[1] > b.len() {
        Seq::empty()
    } else {
        seq![
            (b[0], b[1], if b[1] > 2 {
                Some(b.subrange(2, b[1] as int))
            } else {
                None::<Seq<u8>>
            }),
        ] + parse_options(b.subrange(b[1] as int, b.len() as int))
    }
}

/// Whether reading the options of `b` reaches its end.
pub open spec fn options_complete(b: Seq<u8>) -> bool
    decreases b.len(),
{
    if b.len() == 0 {
        true
    } else if b[0] < 2 {
        options_complete(b.subrange(1, b.len() as int))
    } else if b.len() < 2 || b[1] < 2 || b[1] > b.len() {
        false
    } else {
        options_complete(b.subrange(b[1] as int, b.len() as int))
    }
}

/// The bytes one option is written as: its kind, then for a length of two or more the length
/// and the data.
pub open spec fn option_wire(o: OptionModel) -> Seq<u8> {
    if o.1 >= 2 {
        seq![o.0, o.1] + match o.2 {
            Some(d) => d,
            None => Seq::empty(),
        }
    } else {
        seq![o.0]
    }
}

pub open spec fn options_wire(s: Seq<OptionModel>) -> Seq<u8>
    decreases s.len(),
{
    if s.len() == 0 {
        Seq::empty()
    } else {
        option_wire(s[0]) + options_wire(s.drop_first())
    }
}

pub open spec fn options_model(v: Seq<TCPOption>) -> Seq<OptionModel> {
    v.map_values(|o: TCPOption| o@)
}

/// The no-operation bytes that pad `n` option bytes to a multiple of four.
pub open spec fn nop_padding(n: nat) -> Seq<u8> {
    Seq::new(((4 - n % 4) % 4) as nat, |i: int| 1u8)
}

pub open spec fn flag(f: bool, weight: u8) -> u8 {
    if f {
        weight
    } else {
        0
    }
}

/// The eight control bits packed in one byte, CWR highest.
pub open spec fn flags_byte(h: TCPHeader) -> u8 {
    (flag(h.cwr, 128) + flag(h.ece, 64) + flag(h.urg, 32) + flag(h.ack, 16) + flag(h.psh, 8)
        + flag(h.rst, 4) + flag(h.syn, 2) + flag(h.fin, 1)) as u8
}

/// The 20 bytes before the options.
pub open spec fn tcp_fixed(h: TCPHeader) -> Seq<u8> {
    u16_bytes(h.source_port) + u16_bytes(h.destination_port) + u32_bytes(h.sequence_number)
        + u32_bytes(h.acknowledgement_number) + seq![
        ((h.data_offset % 16) * 16 + h.reserved % 16) as u8,
        flags_byte(h),
    ] + u16_bytes(h.window) + u16_bytes(h.checksum) + u16_bytes(h.urgent_pointer)
}

/// The bytes an owned header is written as: the fixed part, the options, then no-operation
/// bytes up to a multiple of four.
pub open spec fn tcp_bytes(h: TCPHeader) -> Seq<u8> {
    let o = options_wire(options_model(h.options@));
    tcp_fixed(h) + o + nop_padding(o.len())
}

/// The 16 bytes before the checksum field.
pub open spec fn tcp_head(h: TCPHeader) -> Seq<u8> {
    u16_bytes(h.source_port) + u16_bytes(h.destination_port) + u32_bytes(h.sequence_number)
        + u32_bytes(h.acknowledgement_number) + seq![
        ((h.data_offset % 16) * 16 + h.reserved % 16) as u8,
        flags_byte(h),
    ] + u16_bytes(h.window)
}

/// The bytes after the checksum field.
pub open spec fn tcp_tail(h: TCPHeader) -> Seq<u8> {
    let o = options_wire(options_model(h.options@));
    u16_bytes(h.urgent_pointer) + o + nop_padding(o.len())
}

pub proof fn lemma_tcp_bytes_split(h: TCPHeader)
    ensures
        tcp_bytes(h) == tcp_head(h) + u16_bytes(h.checksum) + tcp_tail(h),
        tcp_head(h).len() == 16,
{
    assert(tcp_bytes(h) =~= tcp_head(h) + u16_bytes(h.checksum) + tcp_tail(h));
}

/// Whether `b` starts with a well-formed TCP header: at least the minimum size, and a data
/// offset of at least five words that the bytes cover.
pub open spec fn tcp_valid(b: Seq<u8>) -> bool {
    &&& b.len() >= 20
    &&& b[12] / 16 >= 5
    &&& (b[12] / 16) * 4 <= b.len()
}

pub open spec fn tcp_header_len(b: Seq<u8>) -> int {
    (b[12] / 16) as int * 4
}

/// Whether the owned header `h` holds the fields of the header bytes `b`.
pub open spec fn tcp_fields(h: TCPHeader, b: Seq<u8>) -> bool {
    &&& h.source_port == be16(b, 0)
    &&& h.destination_port == be16(b, 2)
    &&& h.sequence_number == be32(b, 4)
    &&& h.acknowledgement_number == be32(b, 8)
    &&& h.data_offset == b[12] / 16
    &&& h.reserved == b[12] % 16
    &&& h.cwr == ((b[13] / 128) % 2 == 1)
    &&& h.ece == ((b[13] / 64) % 2 == 1)
    &&& h.urg == ((b[13] / 32) % 2 == 1)
    &&& h.ack == ((b[13] / 16) % 2 == 1)
    &&& h.psh == ((b[13] / 8) % 2 == 1)
    &&& h.rst == ((b[13] / 4) % 2 == 1)
    &&& h.syn == ((b[13] / 2) % 2 == 1)
    &&& h.fin == (b[13] % 2 == 1)
    &&& h.window == be16(b, 14)
    &&& h.checksum == be16(b, 16)
    &&& h.urgent_pointer == be16(b, 18)
    &&& options_model(h.options@) == parse_options(b.subrange(20, b.len() as int))
}

/// A header of five words has no option bytes, so no options; four option bytes holding one
/// option of a kind from two up, length four, read as that one option with its two data bytes.
pub proof fn law_option_boundary(kind: u8, d0: u8, d1: u8)
    requires
        kind >= 2,
    ensures
        parse_options(Seq::<u8>::empty()) == Seq::<OptionModel>::empty(),
        parse_options(seq![kind, 4u8, d0, d1]) == seq![(kind, 4u8, Some(seq![d0, d1]))],
{
    let b = seq![kind, 4u8, d0, d1];
    assert(b.len() == 4 && b[0] == kind && b[1] == 4);
    assert(parse_options(Seq::<u8>::empty()) == Seq::<OptionModel>::empty());
    assert(b.subrange(4, 4) =~= Seq::<u8>::empty());
    assert(b.subrange(2, 4) =~= seq![d0, d1]);
    assert(parse_options(b) =~= seq![(kind, 4u8, Some(seq![d0, d1]))] + Seq::<OptionModel>::empty());
}

/// One TCP option.
#[derive(Debug, Clone, PartialEq, Eq)]
pub struct TCPOption {
    pub kind: u8,
    pub len: u8,
    pub data: Option<Vec<u8>>,
}

impl View for TCPOption {
    type V = OptionModel;

    open spec fn view(&self) -> OptionModel {
        (
            self.kind,
            self.len,
            match self.data {
                Some(d) => Some(d@),
                None => None,
            },
        )
    }
}

impl TCPOption {
    /// Appends the option in its wire layout.
    pub fn write_to(&self, out: &mut Vec<u8>)
        ensures
            final(out)@ == old(out)@ + option_wire(self@),
    {
        let ghost start = out@;
        out.push(self.kind);
        if self.len >= 2 {
            out.push(self.len);
            match &self.data {
                Some(d) => push_all(out, d.as_slice()),
                None => {},
            }
        }
        assert(out@ =~= start + option_wire(self@));
    }
}

/// A read-only TCP header over the bytes it was read from, options included.
#[derive(Debug, Clone, Copy)]
pub struct TCPHeaderView<'a> {
    pub content: &'a [u8],
}

impl<'a> TCPHeaderView<'a> {
    /// The view covers exactly one well-formed header.
    pub open spec fn wf(&self) -> bool {
        tcp_valid(self.content@) && self.content@.len() == tcp_header_len(self.content@)
    }

    /// Reads the header at the start of `slice`, after checking the data offset against the
    /// bytes at hand.
    pub fn from_slice(slice: &'a [u8]) -> (r: Result<TCPHeaderView<'a>, MalformedPacket>)
        ensures
            r is Ok <==> tcp_valid(slice@),
            r matches Ok(v) ==> v.wf() && v.content@ == slice@.subrange(0, tcp_header_len(slice@)),
            slice@.len() < 20 ==> r == Err::<TCPHeaderView<'a>, MalformedPacket>(MalformedPacket::Truncated),
            slice@.len() >= 20 && !tcp_valid(slice@) ==> r == Err::<TCPHeaderView<'a>, MalformedPacket>(
                MalformedPacket::BadHeaderLength,
            ),
    {
        if slice.len() < TCP_MIN_HEADER {
            return Err(MalformedPacket::Truncated);
        }
        let offset = slice[12] / 16;
        if offset < 5 || offset as usize * 4 > slice.len() {
            return Err(MalformedPacket::BadHeaderLength);
        }
        let content = slice.split_at(offset as usize * 4).0;
        Ok(TCPHeaderView { content })
    }

    pub fn size(&self) -> (r: usize)
        requires
            self.wf(),
        ensures
            r == tcp_header_len(self.content@),
            r == self.content@.len(),
    {
        self.content.len()
    }

    pub fn as_bytes(&self) -> (r: &'a [u8])
        ensures
            r@ == self.content@,
    {
        self.content
    }

    pub fn get_source_port(&self) -> (r: u16)
        requires
            self.wf(),
        ensures
            r == be16(self.content@, 0),
    {
        read_u16(self.content, 0)
    }

    pub fn get_destination_port(&self) -> (r: u16)
        requires
            self.wf(),
        ensures
            r == be16(self.content@, 2),
    {
        read_u16(self.content, 2)
    }

    pub fn get_sequence_number(&self) -> (r: u32)
        requires
            self.wf(),
        ensures
            r == be32(self.content@, 4),
    {
        read_u32(self.content, 4)
    }

    pub fn get_acknowledgement_number(&self) -> (r: u32)
        requires
            self.wf(),
        ensures
            r == be32(self.content@, 8),
    {
        read_u32(self.content, 8)
    }

    pub fn get_data_offset(&self) -> (r: u8)
        requires
            self.wf(),
        ensures
            r == self.content@[12] / 16,
    {
        self.content[12] / 16
    }

    pub fn get_reserved(&self) -> (r: u8)
        requires
            self.wf(),
        ensures
            r == self.content@[12] % 16,
    {
        self.content[12] % 16
    }

    pub fn get_cwr(&self) -> (r: bool)
        requires
            self.wf(),
        ensures
            r == ((self.content@[13] / 128) % 2 == 1),
    {
        (self.content[13] / 128) % 2 == 1
    }

    pub fn get_ece(&self) -> (r: bool)
        requires
            self.wf(),
        ensures
            r == ((self.content@[13] / 64) % 2 == 1),
    {
        (self.content[13] / 64) % 2 == 1
    }

    pub fn get_urg(&self) -> (r: bool)
        requires
            self.wf(),
        ensures
            r == ((self.content@[13] / 32) % 2 == 1),
    {
        (self.content[13] / 32) % 2 == 1
    }

    pub fn get_ack(&self) -> (r: bool)
        requires
            self.wf(),
        ensures
            r == ((self.content@[13] / 16) % 2 == 1),
    {
        (self.content[13] / 16) % 2 == 1
    }

    pub fn get_psh(&self) -> (r: bool)
        requires
            self.wf(),
        ensures
            r == ((self.content@[13] / 8) % 2 == 1),
    {
        (self.content[13] / 8) % 2 == 1
    }

    pub fn get_rst(&self) -> (r: bool)
        requires
            self.wf(),
        ensures
            r == ((self.content@[13] / 4) % 2 == 1),
    {
        (self.content[13] / 4) % 2 == 1
    }

    pub fn get_syn(&self) -> (r: bool)
        requires
            self.wf(),
        ensures
            r == ((self.content@[13] / 2) % 2 == 1),
    {
        (self.content[13] / 2) % 2 == 1
    }

    pub fn get_fin(&self) -> (r: bool)
        requires
            self.wf(),
        ensures
            r == (self.content@[13] % 2 == 1),
    {
        self.content[13] % 2 == 1
    }

    pub fn get_window(&self) -> (r: u16)
        requires
            self.wf(),
        ensures
            r == be16(self.content@, 14),
    {
        read_u16(self.content, 14)
    }

    pub fn get_checksum(&self) -> (r: u16)
        requires
            self.wf(),
        ensures
            r == be16(self.content@, 16),
    {
        read_u16(self.content, 16)
    }

    pub fn get_urgent_pointer(&self) -> (r: u16)
        requires
            self.wf(),
        ensures
            r == be16(self.content@, 18),
    {
        read_u16(self.content, 18)
    }

    /// The raw option bytes, padding included.
    pub fn get_options(&self) -> (r: &'a [u8])
        requires
            self.wf(),
        ensures
            r@ == self.content@.subrange(20, self.content@.len() as int),
    {
        self.content.split_at(TCP_MIN_HEADER).1
    }

    /// The options, read as `parse_options` says; a malformed option ends the reading
    /// instead of reading past the header.
    pub fn get_parsed_options(&self) -> (r: Vec<TCPOption>)
        requires
            self.wf(),
        ensures
            options_model(r@) == parse_options(self.content@.subrange(20, self.content@.len() as int)),
    {
        let b = self.content;
        let n = b.len();
        let ghost whole = b@.subrange(20, n as int);
        let mut res: Vec<TCPOption> = Vec::new();
        let mut i: usize = TCP_MIN_HEADER;
        let mut done = false;
        while i < n && !done
            invariant
                n == b@.len(),
                20 <= i <= n,
                whole == b@.subrange(20, n as int),
                done ==> parse_options(b@.subrange(i as int, n as int)) == Seq::<OptionModel>::empty(),
                options_model(res@) + parse_options(b@.subrange(i as int, n as int)) == parse_options(whole),
            decreases n - i + (if done { 0int } else { 1int }),
        {
            let ghost rest = b@.subrange(i as int, n as int);
            let kind = b[i];
            if kind < 2 {
                res.push(TCPOption { kind, len: 1, data: None });
                proof {
                    assert(rest.subrange(1, rest.len() as int) =~= b@.subrange(i + 1, n as int));
                    assert(options_model(res@) =~= options_model(res@.drop_last()).push((kind, 1u8, None::<Seq<u8>>)));
                    assert(parse_options(rest) == seq![(kind, 1u8, None::<Seq<u8>>)] + parse_options(b@.subrange(i + 1, n as int)));
                    assert(options_model(res@) + parse_options(b@.subrange(i + 1, n as int)) =~= options_model(res@.drop_last()) + parse_options(rest));
                }
                i = i + 1;
            } else if n - i < 2 || b[i + 1] < 2 || b[i + 1] as usize > n - i {
                done = true;
            } else {
                let len = b[i + 1];
                let data = if len > 2 {
                    Some(copy_range(b, i + 2, i + len as usize))
                } else {
                    None
                };
                let opt = TCPOption { kind, len, data };
                proof {
                    let m = opt@;
                    assert(rest.subrange(len as int, rest.len() as int) =~= b@.subrange(i + len, n as int));
                    if len > 2 {
                        assert(rest.subrange(2, len as int) =~= b@.subrange(i + 2, i + len));
                    }
                    assert(parse_options(rest) == seq![m] + parse_options(b@.subrange(i + len, n as int)));
                }
                res.push(opt);
                proof {
                    assert(options_model(res@) =~= options_model(res@.drop_last()).push(opt@));
                    assert(options_model(res@) + parse_options(b@.subrange(i + len, n as int)) =~= options_model(res@.drop_last()) + parse_options(rest));
                }
                i = i + len as usize;
            }
        }
        if !done {
            assert(b@.subrange(i as int, n as int) =~= Seq::<u8>::empty());
        }
        assert(options_model(res@) + Seq::<OptionModel>::empty() =~= options_model(res@));
        res
    }

    /// Copies every field out into an owned header, the options parsed.
    pub fn to_mutable(&self) -> (r: TCPHeader)
        requires
            self.wf(),
        ensures
            tcp_fields(r, self.content@),
    {
        TCPHeader {
            source_port: self.get_source_port(),
            destination_port: self.get_destination_port(),
            sequence_number: self.get_sequence_number(),
            acknowledgement_number: self.get_acknowledgement_number(),
            data_offset: self.get_data_offset(),
            reserved: self.get_reserved(),
            cwr: self.get_cwr(),
            ece: self.get_ece(),
            urg: self.get_urg(),
            ack: self.get_ack(),
            psh: self.get_psh(),
            rst: self.get_rst(),
            syn: self.get_syn(),
            fin: self.get_fin(),
            window: self.get_window(),
            checksum: self.get_checksum(),
            urgent_pointer: self.get_urgent_pointer(),
            options: self.get_parsed_options(),
        }
    }
}

/// A TCP header that can be changed and written out.
#[derive(Debug, Clone, PartialEq, Eq)]
pub struct TCPHeader {
    pub source_port: u16,
    pub destination_port: u16,
    pub sequence_number: u32,
    pub acknowledgement_number: u32,
    pub data_offset: u8,
    pub reserved: u8,
    pub cwr: bool,
    pub ece: bool,
    pub urg: bool,
    pub ack: bool,
    pub psh: bool,
    pub rst: bool,
    pub syn: bool,
    pub fin: bool,
    pub window: u16,
    pub checksum: u16,
    pub urgent_pointer: u16,
    pub options: Vec<TCPOption>,
}

proof fn lemma_options_wire_push(s: Seq<OptionModel>, o: OptionModel)
    ensures
        options_wire(s.push(o)) == options_wire(s) + option_wire(o),
    decreases s.len(),
{
    if s.len() == 0 {
        assert(s.push(o).drop_first() =~= Seq::<OptionModel>::empty());
        assert(s.push(o)[0] == o);
        assert(options_wire(Seq::<OptionModel>::empty()) == Seq::<u8>::empty());
        assert(options_wire(s.push(o)) =~= option_wire(o) + Seq::<u8>::empty());
        assert(options_wire(s) =~= Seq::<u8>::empty());
    } else {
        lemma_options_wire_push(s.drop_first(), o);
        assert(s.push(o).drop_first() =~= s.drop_first().push(o));
        assert(options_wire(s.push(o)) =~= options_wire(s) + option_wire(o));
    }
}

impl Default for TCPHeader {
    fn default() -> (r: Self)
        ensures
            r.source_port == 0 && r.destination_port == 0 && r.sequence_number == 0,
            r.acknowledgement_number == 0 && r.data_offset == 0 && r.reserved == 0,
            !r.cwr && !r.ece && !r.urg && !r.ack && !r.psh && !r.rst && !r.syn && !r.fin,
            r.window == 0 && r.checksum == 0 && r.urgent_pointer == 0,
            r.options@.len() == 0,
    {
        TCPHeader {
            source_port: 0,
            destination_port: 0,
            sequence_number: 0,
            acknowledgement_number: 0,
            data_offset: 0,
            reserved: 0,
            cwr: false,
            ece: false,
            urg: false,
            ack: false,
            psh: false,
            rst: false,
            syn: false,
            fin: false,
            window: 0,
            checksum: 0,
            urgent_pointer: 0,
            options: Vec::new(),
        }
    }
}

impl TCPHeader {
    /// The number of option bytes the header's options are written as.
    pub fn options_size(&self) -> (r: usize)
        requires
            options_wire(options_model(self.options@)).len() <= usize::MAX,
        ensures
            r == options_wire(options_model(self.options@)).len(),
    {
        let mut total: usize = 0;
        let mut i: usize = 0;
        let ghost m = options_model(self.options@);
        while i < self.options.len()
            invariant
                i <= self.options@.len(),
                m == options_model(self.options@),
                total == options_wire(m.take(i as int)).len(),
                options_wire(m).len() <= usize::MAX,
            decreases self.options@.len() - i,
        {
            let o = &self.options[i];
            proof {
                lemma_options_wire_push(m.take(i as int), m[i as int]);
                assert(m.take(i + 1) =~= m.take(i as int).push(m[i as int]));
                lemma_options_wire_prefix(m, i + 1);
            }
            let w: usize = if o.len >= 2 {
                match &o.data {
                    Some(d) => 2 + d.len(),
                    None => 2,
                }
            } else {
                1
            };
            total = total + w;
            i = i + 1;
        }
        assert(m.take(i as int) =~= m);
        total
    }

    /// Sets the data offset to cover the fixed part and the padded options.
    pub fn set_size(&mut self)
        requires
            options_wire(options_model(old(self).options@)).len() <= TCP_MAX_OPTIONS,
        ensures
            *final(self) == (TCPHeader {
                data_offset: (5 + (options_wire(options_model(old(self).options@)).len() + 3) / 4) as u8,
                ..*old(self)
            }),
    {
        let n = self.options_size();
        self.data_offset = (5 + (n + 3) / 4) as u8;
    }

    /// The number of bytes the header is written as.
    pub fn size(&self) -> (r: usize)
        requires
            tcp_bytes(*self).len() <= 0xFFFF,
        ensures
            r == tcp_bytes(*self).len(),
    {
        let n = self.options_size();
        TCP_MIN_HEADER + n + (4 - n % 4) % 4
    }

    /// Appends the header in its wire layout.
    pub fn write_to(&self, out: &mut Vec<u8>)
        ensures
            final(out)@ == old(out)@ + tcp_bytes(*self),
    {
        let ghost start = out@;
        self.write_fixed(out);
        self.write_options(out);
        assert(out@ =~= start + tcp_bytes(*self));
    }

    fn write_fixed(&self, out: &mut Vec<u8>)
        ensures
            final(out)@ == old(out)@ + tcp_fixed(*self),
    {
        let ghost start = out@;
        push_u16(out, self.source_port);
        push_u16(out, self.destination_port);
        push_u32(out, self.sequence_number);
        push_u32(out, self.acknowledgement_number);
        out.push((self.data_offset % 16) * 16 + self.reserved % 16);
        let flags: u8 = (if self.cwr { 128u8 } else { 0 }) + (if self.ece { 64u8 } else { 0 })
            + (if self.urg { 32u8 } else { 0 }) + (if self.ack { 16u8 } else { 0 })
            + (if self.psh { 8u8 } else { 0 }) + (if self.rst { 4u8 } else { 0 })
            + (if self.syn { 2u8 } else { 0 }) + (if self.fin { 1u8 } else { 0 });
        out.push(flags);
        push_u16(out, self.window);
        push_u16(out, self.checksum);
        push_u16(out, self.urgent_pointer);
        assert(out@ =~= start + tcp_fixed(*self));
    }

    fn write_options(&self, out: &mut Vec<u8>)
        ensures
            final(out)@ == old(out)@ + options_wire(options_model(self.options@)) + nop_padding(
                options_wire(options_model(self.options@)).len(),
            ),
    {
        let ghost fixed_end = out@;
        let ghost m = options_model(self.options@);
        let mut i: usize = 0;
        let mut written: usize = 0;
        while i < self.options.len()
            invariant
                i <= self.options@.len(),
                m == options_model(self.options@),
                out@ == fixed_end + options_wire(m.take(i as int)),
                written as int % 4 == options_wire(m.take(i as int)).len() % 4,
                written < 4,
            decreases self.options@.len() - i,
        {
            let ghost before = out@;
            let o = &self.options[i];
            o.write_to(out);
            let w: usize = if o.len >= 2 {
                match &o.data {
                    Some(d) => 2 + d.len() % 4,
                    None => 2,
                }
            } else {
                1
            };
            proof {
                lemma_options_wire_push(m.take(i as int), m[i as int]);
                assert(m.take(i + 1) =~= m.take(i as int).push(m[i as int]));
                assert(m[i as int] == o@);
                assert(out@ =~= fixed_end + options_wire(m.take(i + 1)));
            }
            written = (written + w) % 4;
            i = i + 1;
        }
        assert(m.take(i as int) =~= m);
        let ghost o_end = out@;
        let pad: usize = (4 - written) % 4;
        let mut k: usize = 0;
        while k < pad
            invariant
                k <= pad,
                out@ == o_end + Seq::new(k as nat, |j: int| 1u8),
            decreases pad - k,
        {
            out.push(1);
            k = k + 1;
            assert(out@ =~= o_end + Seq::new(k as nat, |j: int| 1u8));
        }
    }

    /// The header's bytes.
    pub fn to_bytes(&self) -> (r: Vec<u8>)
        ensures
            r@ == tcp_bytes(*self),
    {
        let mut out: Vec<u8> = Vec::new();
        self.write_to(&mut out);
        assert(out@ =~= tcp_bytes(*self));
        out
    }

    /// Addresses the header back to the sender of `incoming_packet`.
    pub fn answer(&mut self, incoming_packet: TCPHeaderView)
        requires
            incoming_packet.wf(),
        ensures
            *final(self) == (TCPHeader {
                source_port: be16(incoming_packet.content@, 2) as u16,
                destination_port: be16(incoming_packet.content@, 0) as u16,
                ..*old(self)
            }),
    {
        self.destination_port = incoming_packet.get_source_port();
        self.source_port = incoming_packet.get_destination_port();
    }
}

proof fn lemma_options_wire_prefix(m: Seq<OptionModel>, i: int)
    requires
        0 <= i <= m.len(),
    ensures
        options_wire(m.take(i)).len() <= options_wire(m).len(),
    decreases m.len() - i,
{
    if i < m.len() {
        lemma_options_wire_prefix(m, i + 1);
        lemma_options_wire_push(m.take(i), m[i]);
        assert(m.take(i + 1) =~= m.take(i).push(m[i]));
    } else {
        assert(m.take(i) =~= m);
    }
}

/// Options that read to the end of their bytes are written back as those bytes.
proof fn lemma_options_round_trip(b: Seq<u8>)
    requires
        options_complete(b),
    ensures
        options_wire(parse_options(b)) == b,
    decreases b.len(),
{
    if b.len() > 0 {
        let p = parse_options(b);
        if b[0] < 2 {
            let rest = b.subrange(1, b.len() as int);
            lemma_options_round_trip(rest);
            assert(p.drop_first() =~= parse_options(rest));
            assert(b =~= seq![b[0]] + rest);
        } else {
            let len = b[1] as int;
            let rest = b.subrange(len, b.len() as int);
            lemma_options_round_trip(rest);
            assert(p.drop_first() =~= parse_options(rest));
            assert(b =~= seq![b[0], b[1]] + b.subrange(2, len) + rest);
            assert(option_wire(p[0]) =~= seq![b[0], b[1]] + b.subrange(2, len));
        }
    }
}

/// A well-formed header whose options read to its end is written back exactly as it was
/// read.
pub proof fn law_tcp_round_trip(h: TCPHeader, b: Seq<u8>)
    requires
        tcp_valid(b),
        b.len() == tcp_header_len(b),
        options_complete(b.subrange(20, b.len() as int)),
        tcp_fields(h, b),
    ensures
        tcp_bytes(h) == b,
{
    lemma_options_round_trip(b.subrange(20, b.len() as int));
    lemma_be16_bytes(b, 0);
    lemma_be16_bytes(b, 2);
    lemma_be32_bytes(b, 4);
    lemma_be32_bytes(b, 8);
    lemma_be16_bytes(b, 14);
    lemma_be16_bytes(b, 16);
    lemma_be16_bytes(b, 18);
    let (b12, b13) = (b[12], b[13]);
    assert((b12 / 16 % 16) * 16 + (b12 % 16) % 16 == b12) by (bit_vector);
    assert(b13 == (if (b13 / 128) % 2 == 1 { 128u8 } else { 0 }) + (if (b13 / 64) % 2 == 1 { 64u8 } else { 0 })
        + (if (b13 / 32) % 2 == 1 { 32u8 } else { 0 }) + (if (b13 / 16) % 2 == 1 { 16u8 } else { 0 })
        + (if (b13 / 8) % 2 == 1 { 8u8 } else { 0 }) + (if (b13 / 4) % 2 == 1 { 4u8 } else { 0 })
        + (if (b13 / 2) % 2 == 1 { 2u8 } else { 0 }) + (if b13 % 2 == 1 { 1u8 } else { 0 })) by (bit_vector);
    let o = options_wire(options_model(h.options@));
    assert(o.len() == b.len() - 20);
    assert(nop_padding(o.len()) =~= Seq::<u8>::empty());
    assert(tcp_bytes(h) =~= b);
}

} // verus!
