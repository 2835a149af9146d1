//! The Internet ones'-complement checksum (RFC 1071), kept in a wide accumulator.
use vstd::prelude::*;
use vstd::arithmetic::div_mod::{lemma_mod_multiples_vanish, lemma_add_mod_noop};

verus! {

/// The sum of the big-endian 16-bit words of `b`; an odd trailing byte is the high half of
/// a last word whose low half is zero.
pub open spec fn word_sum(b: Seq<u8>) -> nat
    decreases b.len(),
{
    if b.len() == 0 {
        0
    } else if b.len() == 1 {
        b[0] as nat * 256
    } else {
        (b[0] as nat * 256 + b[1] as nat) + word_sum(b.subrange(2, b.len() as int))
    }
}

/// The 16-bit ones'-complement sum that stands for a running total `n`: zero only for a zero
/// total, otherwise the representative of `n` modulo 0xFFFF in `1..=0xFFFF`.
pub open spec fn fold16(n: int) -> u16 {
    if n == 0 {
        0
    } else if n % 0xFFFF == 0 {
        0xFFFF
    } else {
        (n % 0xFFFF) as u16
    }
}

/// The checksum of a whole byte sequence, as transmitted: the complement of its folded sum.
pub open spec fn internet_checksum(b: Seq<u8>) -> u16 {
    (0xFFFF - fold16(word_sum(b) as int)) as u16
}

/// Adding with an end-around carry on 64 bits.
pub open spec fn ones_add(a: u64, v: u64) -> u64 {
    if a + v < 0x1_0000_0000_0000_0000 {
        (a + v) as u64
    } else {
        (a + v - 0xFFFF_FFFF_FFFF_FFFF) as u64
    }
}

/// The sum of the words of each chunk, chunk after chunk.
pub open spec fn chunks_sum(chunks: Seq<Seq<u8>>) -> nat
    decreases chunks.len(),
{
    if chunks.len() == 0 {
        0
    } else {
        chunks_sum(chunks.drop_last()) + word_sum(chunks.last())
    }
}

/// The chunks laid end to end.
pub open spec fn concat_all(chunks: Seq<Seq<u8>>) -> Seq<u8>
    decreases chunks.len(),
{
    if chunks.len() == 0 {
        Seq::empty()
    } else {
        concat_all(chunks.drop_last()) + chunks.last()
    }
}

pub proof fn lemma_fold16_range(n: int)
    requires
        n >= 0,
    ensures
        n == 0 <==> fold16(n) == 0,
        n <= 0xFFFF ==> fold16(n) == n,
{
}

/// `fold16` sees a total only through whether it is zero and its residue modulo 0xFFFF.
pub proof fn lemma_fold16_add(a: int, t: int, v: int)
    requires
        a >= 0,
        t >= 0,
        v >= 0,
        fold16(a) == fold16(t),
    ensures
        fold16(a + v) == fold16(t + v),
{
    lemma_add_mod_noop(a, v, 0xFFFF);
    lemma_add_mod_noop(t, v, 0xFFFF);
    if a != 0 && t != 0 {
        assert(a % 0xFFFF == t % 0xFFFF);
    }
}

/// Folding the high part of a number onto its low 16 bits keeps its residue.
proof fn lemma_fold_step(q: int, r: int)
    requires
        q >= 0,
        r >= 0,
    ensures
        (q * 65536 + r) % 0xFFFF == (q + r) % 0xFFFF,
        fold16(q * 65536 + r) == fold16(q + r),
{
    assert(q * 65536 + r == 0xFFFF * q + (q + r)) by (nonlinear_arith);
    lemma_mod_multiples_vanish(q, q + r, 0xFFFF);
}

proof fn lemma_ones_add(a: u64, v: u64)
    ensures
        fold16(ones_add(a, v) as int) == fold16(a + v),
{
    if a + v >= 0x1_0000_0000_0000_0000 {
        let s = a + v - 0xFFFF_FFFF_FFFF_FFFF;
        assert(0xFFFF_FFFF_FFFF_FFFFint == 0xFFFF * 281479271743489);
        lemma_mod_multiples_vanish(281479271743489, s, 0xFFFF);
    }
}

/// Splitting after an even number of bytes splits the word sum.
pub proof fn lemma_word_sum_concat(a: Seq<u8>, b: Seq<u8>)
    requires
        a.len() % 2 == 0,
    ensures
        word_sum(a + b) == word_sum(a) + word_sum(b),
    decreases a.len(),
{
    if a.len() > 0 {
        lemma_word_sum_concat(a.subrange(2, a.len() as int), b);
        assert((a + b).subrange(2, (a + b).len() as int) =~= a.subrange(2, a.len() as int) + b);
    } else {
        assert(a + b =~= b);
    }
}

proof fn lemma_word_sum_prefix(b: Seq<u8>, i: int, n: int)
    requires
        0 <= i,
        0 <= n,
        i % 2 == 0,
        i + n <= b.len(),
        n % 2 == 0,
    ensures
        word_sum(b.subrange(0, i + n)) == word_sum(b.subrange(0, i)) + word_sum(b.subrange(i, i + n)),
{
    lemma_word_sum_concat(b.subrange(0, i), b.subrange(i, i + n));
    assert(b.subrange(0, i + n) =~= b.subrange(0, i) + b.subrange(i, i + n));
}

proof fn lemma_word_sum_two(b: Seq<u8>)
    requires
        b.len() == 2,
    ensures
        word_sum(b) == b[0] as nat * 256 + b[1] as nat,
{
    assert(word_sum(b.subrange(2, 2)) == 0);
}

/// Feeding a byte sequence in contiguous chunks, each but the last of an even length, sums
/// the same words as feeding it at once, so the reduced checksum is the same.
pub proof fn law_chunking(chunks: Seq<Seq<u8>>)
    requires
        forall|i: int| 0 <= i < chunks.len() - 1 ==> #[trigger] chunks[i].len() % 2 == 0,
    ensures
        chunks_sum(chunks) == word_sum(concat_all(chunks)),
        fold16(chunks_sum(chunks) as int) == fold16(word_sum(concat_all(chunks)) as int),
    decreases chunks.len(),
{
    if chunks.len() > 0 {
        let init = chunks.drop_last();
        assert forall|i: int| 0 <= i < init.len() - 1 implies #[trigger] init[i].len() % 2 == 0 by {
            assert(init[i] == chunks[i]);
        }
        law_chunking(init);
        lemma_concat_all_even(init);
        lemma_word_sum_concat(concat_all(init), chunks.last());
    }
}

proof fn lemma_concat_all_even(chunks: Seq<Seq<u8>>)
    requires
        forall|i: int| 0 <= i < chunks.len() ==> #[trigger] chunks[i].len() % 2 == 0,
    ensures
        concat_all(chunks).len() % 2 == 0,
    decreases chunks.len(),
{
    if chunks.len() > 0 {
        let init = chunks.drop_last();
        assert forall|i: int| 0 <= i < init.len() implies #[trigger] init[i].len() % 2 == 0 by {
            assert(init[i] == chunks[i]);
        }
        lemma_concat_all_even(init);
        assert(chunks[chunks.len() - 1].len() % 2 == 0);
    }
}

/// A 16-bit field inside a byte sequence adds its value to the word sum, when it starts at an
/// even offset.
pub proof fn lemma_word_sum_field(pre: Seq<u8>, field: Seq<u8>, post: Seq<u8>)
    requires
        pre.len() % 2 == 0,
        field.len() == 2,
    ensures
        word_sum(pre + field + post) == word_sum(pre) + field[0] as nat * 256 + field[1] as nat
            + word_sum(post),
{
    lemma_word_sum_concat(pre, field + post);
    lemma_word_sum_concat(field, post);
    lemma_word_sum_two(field);
    assert(pre + field + post =~= pre + (field + post));
}

/// Storing the complement of a sum beside the words it covers makes them sum to all ones.
pub proof fn lemma_complement_verifies(s: int)
    requires
        s >= 0,
    ensures
        fold16(s + (0xFFFF - fold16(s))) == 0xFFFF,
{
    if s != 0 {
        let r = fold16(s) as int;
        assert((s + (0xFFFF - r)) % 0xFFFF == 0) by {
            lemma_add_mod_noop(s, 0xFFFF - r, 0xFFFF);
            if s % 0xFFFF == 0 {
                assert(r == 0xFFFF);
            } else {
                assert(r == s % 0xFFFF);
                lemma_add_mod_noop(s % 0xFFFF, 0xFFFF - r, 0xFFFF);
            }
        }
    }
}

/// A running ones'-complement sum.
#[derive(Debug, Clone, Copy, PartialEq, Eq, Structural)]
pub struct Checksum(pub u64);

impl Checksum {
    /// The 16-bit sum that this accumulator stands for.
    pub open spec fn reduced(self) -> u16 {
        fold16(self.0 as int)
    }

    pub fn new() -> (r: Self)
        ensures
            r.0 == 0,
    {
        Checksum(0)
    }

    pub fn add_u64(self, value: u64) -> (r: Self)
        ensures
            r.0 == ones_add(self.0, value),
            r.reduced() == fold16(self.0 + value),
    {
        proof {
            lemma_ones_add(self.0, value);
        }
        if self.0 <= u64::MAX - value {
            Checksum(self.0 + value)
        } else {
            let low: u64 = value - (u64::MAX - self.0);
            Checksum(low)
        }
    }

    pub fn add_u32(self, value: u32) -> (r: Self)
        ensures
            r.0 == ones_add(self.0, value as u64),
            r.reduced() == fold16(self.0 + value),
    {
        self.add_u64(value as u64)
    }

    pub fn add_u16(self, value: u16) -> (r: Self)
        ensures
            r.0 == ones_add(self.0, value as u64),
            r.reduced() == fold16(self.0 + value),
    {
        self.add_u64(value as u64)
    }

    pub fn add_u8(self, value: u16) -> (r: Self)
        ensures
            r.0 == ones_add(self.0, value as u64),
            r.reduced() == fold16(self.0 + value),
    {
        self.add_u64(value as u64)
    }

    pub fn add_byte(self, byte: u8) -> (r: Self)
        ensures
            r.0 == ones_add(self.0, byte as u64),
            r.reduced() == fold16(self.0 + byte),
    {
        self.add_u64(byte as u64)
    }

    pub fn add_2bytes(self, bytes: [u8; 2]) -> (r: Self)
        ensures
            r.0 == ones_add(self.0, (bytes@[0] * 256 + bytes@[1]) as u64),
            r.reduced() == fold16(self.0 + word_sum(bytes@)),
    {
        proof {
            lemma_word_sum_two(bytes@);
        }
        let w: u64 = bytes[0] as u64 * 256 + bytes[1] as u64;
        self.add_u64(w)
    }

    pub fn add_4bytes(self, bytes: [u8; 4]) -> (r: Self)
        ensures
            r.0 == ones_add(self.0, crate::wire::be32(bytes@, 0) as u64),
            r.reduced() == fold16(self.0 + word_sum(bytes@)),
    {
        let hi: u64 = bytes[0] as u64 * 256 + bytes[1] as u64;
        let lo: u64 = bytes[2] as u64 * 256 + bytes[3] as u64;
        proof {
            let b = bytes@;
            lemma_word_sum_two(b.subrange(0, 2));
            lemma_word_sum_two(b.subrange(2, 4));
            lemma_word_sum_concat(b.subrange(0, 2), b.subrange(2, 4));
            assert(b =~= b.subrange(0, 2) + b.subrange(2, 4));
            lemma_fold_step(hi as int, lo as int);
            lemma_fold16_add(self.0 as int, self.0 as int, 0);
            assert(fold16(self.0 + (hi * 65536 + lo)) == fold16(self.0 + (hi + lo))) by {
                lemma_fold16_add(hi * 65536 + lo, hi + lo, self.0 as int);
            }
        }
        self.add_u64(hi * 65536 + lo)
    }

    pub fn add_8bytes(self, bytes: [u8; 8]) -> (r: Self)
        ensures
            r.reduced() == fold16(self.0 + word_sum(bytes@)),
    {
        let hi: u64 = bytes[0] as u64 * 256 + bytes[1] as u64;
        let mid_hi: u64 = bytes[2] as u64 * 256 + bytes[3] as u64;
        let mid_lo: u64 = bytes[4] as u64 * 256 + bytes[5] as u64;
        let lo: u64 = bytes[6] as u64 * 256 + bytes[7] as u64;
        let a: u64 = hi * 65536 + mid_hi;
        let b: u64 = a * 65536 + mid_lo;
        assert(b < 0x1_0000_0000_0000) by (nonlinear_arith)
            requires
                b == a * 65536 + mid_lo,
                a == hi * 65536 + mid_hi,
                hi < 65536,
                mid_hi < 65536,
                mid_lo < 65536,
        ;
        let c: u64 = b * 65536 + lo;
        proof {
            let s = bytes@;
            lemma_word_sum_two(s.subrange(0, 2));
            lemma_word_sum_two(s.subrange(2, 4));
            lemma_word_sum_two(s.subrange(4, 6));
            lemma_word_sum_two(s.subrange(6, 8));
            lemma_word_sum_concat(s.subrange(4, 6), s.subrange(6, 8));
            lemma_word_sum_concat(s.subrange(2, 4), s.subrange(4, 6) + s.subrange(6, 8));
            lemma_word_sum_concat(s.subrange(0, 2), s.subrange(2, 4) + s.subrange(4, 6) + s.subrange(6, 8));
            assert(s =~= s.subrange(0, 2) + (s.subrange(2, 4) + (s.subrange(4, 6) + s.subrange(6, 8))));
            assert(s.subrange(2, 4) + (s.subrange(4, 6) + s.subrange(6, 8)) =~= s.subrange(2, 4) + s.subrange(4, 6) + s.subrange(6, 8));
            assert(word_sum(s) == hi + mid_hi + mid_lo + lo);
            lemma_fold_step(hi as int, mid_hi as int);
            lemma_fold_step(a as int, mid_lo as int);
            lemma_fold_step(b as int, lo as int);
            lemma_fold16_add(a as int, (hi + mid_hi) as int, mid_lo as int);
            lemma_fold16_add(b as int, (hi + mid_hi + mid_lo) as int, lo as int);
            lemma_fold16_add(c as int, (hi + mid_hi + mid_lo + lo) as int, self.0 as int);
        }
        self.add_u64(c)
    }

    /// Adds the words of `bytes`, in the largest chunks available.
    pub fn add_slice(self, bytes: &[u8]) -> (r: Self)
        ensures
            r.reduced() == fold16(self.0 + word_sum(bytes@)),
    {
        let n = bytes.len();
        let mut acc = self;
        let mut i: usize = 0;
        while n - i >= 8
            invariant
                n == bytes@.len(),
                i <= n,
                i % 2 == 0,
                acc.reduced() == fold16(self.0 + word_sum(bytes@.subrange(0, i as int))),
            decreases n - i,
        {
            let chunk: [u8; 8] = [
                bytes[i],
                bytes[i + 1],
                bytes[i + 2],
                bytes[i + 3],
                bytes[i + 4],
                bytes[i + 5],
                bytes[i + 6],
                bytes[i + 7],
            ];
            let next = acc.add_8bytes(chunk);
            proof {
                assert(chunk@ =~= bytes@.subrange(i as int, i + 8));
                lemma_word_sum_prefix(bytes@, i as int, 8);
                lemma_fold16_add(acc.0 as int, self.0 + word_sum(bytes@.subrange(0, i as int)), word_sum(chunk@) as int);
            }
            acc = next;
            i = i + 8;
        }
        while n - i >= 2
            invariant
                n == bytes@.len(),
                i <= n,
                i % 2 == 0,
                acc.reduced() == fold16(self.0 + word_sum(bytes@.subrange(0, i as int))),
            decreases n - i,
        {
            let chunk: [u8; 2] = [bytes[i], bytes[i + 1]];
            let next = acc.add_2bytes(chunk);
            proof {
                assert(chunk@ =~= bytes@.subrange(i as int, i + 2));
                lemma_word_sum_prefix(bytes@, i as int, 2);
                lemma_fold16_add(acc.0 as int, self.0 + word_sum(bytes@.subrange(0, i as int)), word_sum(chunk@) as int);
            }
            acc = next;
            i = i + 2;
        }
        if i < n {
            let chunk: [u8; 2] = [bytes[i], 0];
            let next = acc.add_2bytes(chunk);
            proof {
                let tail = bytes@.subrange(i as int, n as int);
                assert(i + 1 == n);
                assert(word_sum(tail) == tail[0] as nat * 256);
                lemma_word_sum_two(chunk@);
                lemma_word_sum_concat(bytes@.subrange(0, i as int), tail);
                assert(bytes@ =~= bytes@.subrange(0, i as int) + tail);
                lemma_fold16_add(acc.0 as int, self.0 + word_sum(bytes@.subrange(0, i as int)), word_sum(chunk@) as int);
            }
            acc = next;
        } else {
            assert(bytes@.subrange(0, i as int) =~= bytes@);
        }
        acc
    }

    /// Merges a partial sum computed separately.
    pub fn add_checksum(self, rhs: Self) -> (r: Self)
        ensures
            r.0 == ones_add(self.0, rhs.0),
            r.reduced() == fold16(self.0 + rhs.0),
    {
        self.add_u64(rhs.0)
    }

    /// Reduces the accumulator to 16 bits by folding the high lanes onto the low one.
    pub fn to_u16(self) -> (r: u16)
        ensures
            r == self.reduced(),
    {
        let mut s: u64 = self.0;
        while s > 0xFFFF
            invariant
                fold16(s as int) == fold16(self.0 as int),
            decreases s,
        {
            let low: u64 = s & 0xFFFF;
            let high: u64 = s >> 16;
            assert(low == s % 65536 && high == s / 65536) by (bit_vector)
                requires
                    low == s & 0xFFFF,
                    high == s >> 16,
            ;
            proof {
                lemma_fold_step(high as int, low as int);
                assert(s == high * 65536 + low);
            }
            s = low + high;
        }
        proof {
            lemma_fold16_range(s as int);
        }
        s as u16
    }

    /// The checksum as transmitted: the complement of the reduced sum.
    pub fn ones_complement(self) -> (r: u16)
        ensures
            r == 0xFFFF - self.reduced(),
    {
        let v = self.to_u16();
        let r: u16 = !v;
        assert(r == 0xFFFF - v) by (bit_vector)
            requires
                r == !v,
        ;
        r
    }
}

impl std::ops::Add<u8> for Checksum {
    type Output = Checksum;

    fn add(self, rhs: u8) -> (r: Checksum) {
        self.add_u64(rhs as u64)
    }
}

impl vstd::std_specs::ops::AddSpecImpl<u8> for Checksum {
    open spec fn obeys_add_spec() -> bool {
        true
    }

    open spec fn add_req(self, rhs: u8) -> bool {
        true
    }

    open spec fn add_spec(self, rhs: u8) -> Checksum {
        Checksum(ones_add(self.0, rhs as u64))
    }
}

impl std::ops::Add<u16> for Checksum {
    type Output = Checksum;

    fn add(self, rhs: u16) -> (r: Checksum) {
        self.add_u64(rhs as u64)
    }
}

impl vstd::std_specs::ops::AddSpecImpl<u16> for Checksum {
    open spec fn obeys_add_spec() -> bool {
        true
    }

    open spec fn add_req(self, rhs: u16) -> bool {
        true
    }

    open spec fn add_spec(self, rhs: u16) -> Checksum {
        Checksum(ones_add(self.0, rhs as u64))
    }
}

impl std::ops::Add<u32> for Checksum {
    type Output = Checksum;

    fn add(self, rhs: u32) -> (r: Checksum) {
        self.add_u64(rhs as u64)
    }
}

impl vstd::std_specs::ops::AddSpecImpl<u32> for Checksum {
    open spec fn obeys_add_spec() -> bool {
        true
    }

    open spec fn add_req(self, rhs: u32) -> bool {
        true
    }

    open spec fn add_spec(self, rhs: u32) -> Checksum {
        Checksum(ones_add(self.0, rhs as u64))
    }
}

impl std::ops::Add<u64> for Checksum {
    type Output = Checksum;

    fn add(self, rhs: u64) -> (r: Checksum) {
        self.add_u64(rhs)
    }
}

impl vstd::std_specs::ops::AddSpecImpl<u64> for Checksum {
    open spec fn obeys_add_spec() -> bool {
        true
    }

    open spec fn add_req(self, rhs: u64) -> bool {
        true
    }

    open spec fn add_spec(self, rhs: u64) -> Checksum {
        Checksum(ones_add(self.0, rhs))
    }
}

impl From<Checksum> for u16 {
    fn from(c: Checksum) -> (r: u16) {
        c.to_u16()
    }
}

impl vstd::std_specs::convert::FromSpecImpl<Checksum> for u16 {
    open spec fn obeys_from_spec() -> bool {
        true
    }

    open spec fn from_spec(c: Checksum) -> u16 {
        fold16(c.0 as int)
    }
}

/// The reduced sum of a whole byte sequence.
pub fn sum_of(bytes: &[u8]) -> (r: u16)
    ensures
        r == fold16(word_sum(bytes@) as int),
{
    Checksum::new().add_slice(bytes).to_u16()
}

} // verus!
