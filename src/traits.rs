//! What every header, payload and packet offers: a size, a wire layout, and for views the
//! reading of a byte slice.
use vstd::prelude::*;
use crate::checksum::{fold16, word_sum, Checksum};
use crate::wire::MalformedPacket;

verus! {

/// A value with an exact layout on the wire.
pub trait WriteTo: Sized {
    /// The bytes this value is written as.
    spec fn wire(&self) -> Seq<u8>;

    /// Appends the value's bytes to `out`.
    fn write_to(&self, out: &mut Vec<u8>)
        ensures
            final(out)@ == old(out)@ + self.wire(),
    ;

    /// The value's bytes.
    fn to_bytes(&self) -> (r: Vec<u8>)
        ensures
            r@ == self.wire(),
    {
        let mut out: Vec<u8> = Vec::new();
        self.write_to(&mut out);
        assert(out@ =~= self.wire());
        out
    }
}

/// A value whose wire size can be told without writing it.
pub trait Data: WriteTo {
    fn size(&self) -> (r: usize)
        requires
            self.wire().len() <= 0xFFFF,
        ensures
            r == self.wire().len(),
    ;
}

/// An owned value to be sent: it can be summed as it will be written.
pub trait DataOwned: Data {
    fn compute_checksum(&self) -> (r: Checksum)
        ensures
            r.reduced() == fold16(word_sum(self.wire()) as int),
    {
        let bytes = self.to_bytes();
        Checksum::new().add_slice(bytes.as_slice())
    }
}

/// Finishing touches before a value is sent: lengths and checksums set from the rest.
pub trait Prepare: Sized {
    /// Whether the value can be prepared, lengths fitting their fields.
    spec fn can_prepare(&self) -> bool;

    /// What preparing `before` gives.
    spec fn prepared(before: Self) -> Self;

    fn prepare(&mut self)
        requires
            old(self).can_prepare(),
        ensures
            *final(self) == Self::prepared(*old(self)),
    ;
}

/// A read-only interpretation of the front of a byte slice.
pub trait DataView<'a>: Sized {
    /// Whether `b` starts with a well-formed value of this kind.
    spec fn accepts(b: Seq<u8>) -> bool;

    /// How many bytes at the front of `b` the value covers.
    spec fn span(b: Seq<u8>) -> int;

    /// The bytes the view covers.
    spec fn bytes(&self) -> Seq<u8>;

    /// The view is one that `from_slice` could have made.
    spec fn well_formed(&self) -> bool;

    proof fn lemma_span(b: Seq<u8>)
        requires
            Self::accepts(b),
        ensures
            0 <= Self::span(b) <= b.len(),
    ;

    /// Reads the value at the front of `s`, rejecting malformed bytes.
    fn from_slice(s: &'a [u8]) -> (r: Result<Self, MalformedPacket>)
        ensures
            (r is Ok) == Self::accepts(s@),
            r matches Ok(v) ==> v.well_formed() && v.bytes() == s@.subrange(0, Self::span(s@)),
    ;

    /// The number of bytes the view covers.
    fn view_size(&self) -> (r: usize)
        requires
            self.well_formed(),
        ensures
            r == self.bytes().len(),
    ;

    /// The bytes the view covers, borrowed from the slice it was read from.
    fn view_bytes(&self) -> (r: &'a [u8])
        requires
            self.well_formed(),
        ensures
            r@ == self.bytes(),
    ;

    /// The sum of the covered bytes.
    fn compute_checksum(&self) -> (r: Checksum)
        requires
            self.well_formed(),
        ensures
            r.reduced() == fold16(word_sum(self.bytes()) as int),
    {
        Checksum::new().add_slice(self.view_bytes())
    }
}

/// The conversion of a view into an owned value with the same fields.
pub trait ToMutable {
    type MutableType;

    /// Whether the value can be converted.
    spec fn convertible(&self) -> bool;

    /// Whether `r` holds every field of this value.
    spec fn owns(&self, r: Self::MutableType) -> bool;

    fn to_mutable(&self) -> (r: Self::MutableType)
        requires
            self.convertible(),
        ensures
            self.owns(r),
    ;
}

impl WriteTo for Vec<u8> {
    open spec fn wire(&self) -> Seq<u8> {
        self@
    }

    fn write_to(&self, out: &mut Vec<u8>) {
        crate::wire::push_all(out, self.as_slice());
    }
}

impl Data for Vec<u8> {
    fn size(&self) -> (r: usize) {
        self.len()
    }
}

impl DataOwned for Vec<u8> {
}

impl<'a> DataView<'a> for &'a [u8] {
    open spec fn accepts(b: Seq<u8>) -> bool {
        true
    }

    open spec fn span(b: Seq<u8>) -> int {
        b.len() as int
    }

    open spec fn bytes(&self) -> Seq<u8> {
        self@
    }

    open spec fn well_formed(&self) -> bool {
        true
    }

    proof fn lemma_span(b: Seq<u8>) {
    }

    fn from_slice(s: &'a [u8]) -> (r: Result<Self, MalformedPacket>) {
        assert(s@.subrange(0, s@.len() as int) =~= s@);
        Ok(s)
    }

    fn view_size(&self) -> (r: usize) {
        self.len()
    }

    fn view_bytes(&self) -> (r: &'a [u8]) {
        *self
    }
}

impl<'a> ToMutable for &'a [u8] {
    type MutableType = Vec<u8>;

    open spec fn convertible(&self) -> bool {
        true
    }

    open spec fn owns(&self, r: Vec<u8>) -> bool {
        r@ == self@
    }

    fn to_mutable(&self) -> (r: Vec<u8>) {
        let r = crate::wire::copy_range(self, 0, self.len());
        assert(self@.subrange(0, self@.len() as int) =~= self@);
        r
    }
}

} // verus!
