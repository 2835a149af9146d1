//! Arbitrary-precision natural numbers, as little-endian 64-bit limbs.
use vstd::prelude::*;
use std::cmp::Ordering;
use vstd::string::StringSliceAdditionalSpecFns;
use vstd::arithmetic::power2::{pow2, lemma2_to64, lemma_pow2_unfold, lemma_pow2_adds, lemma_pow2_pos};

verus! {

/// The base of one limb.
pub open spec fn base() -> nat {
    0x1_0000_0000_0000_0000
}

/// `base()` to the power `k`.
pub open spec fn pow64(k: nat) -> nat
    decreases k,
{
    if k == 0 {
        1
    } else {
        base() * pow64((k - 1) as nat)
    }
}

/// The number that little-endian limbs stand for.
pub open spec fn limbs_value(s: Seq<u64>) -> nat
    decreases s.len(),
{
    if s.len() == 0 {
        0
    } else {
        s[0] as nat + base() * limbs_value(s.drop_first())
    }
}

/// Limbs without a zero at the top: each number has exactly one such form.
pub open spec fn normalized(s: Seq<u64>) -> bool {
    s.len() == 0 || s.last() != 0
}

/// The limb at `i`, zero beyond the end.
pub open spec fn limb(s: Seq<u64>, i: int) -> nat {
    if 0 <= i < s.len() {
        s[i] as nat
    } else {
        0
    }
}

/// The limbs of `s` below position `i`.
pub open spec fn low(s: Seq<u64>, i: int) -> Seq<u64> {
    if i <= s.len() {
        s.take(i)
    } else {
        s
    }
}

/// Comparison as the limbs say it: the longer is greater, else the first limb from the top
/// that differs decides.
pub open spec fn cmp_limbs(a: Seq<u64>, b: Seq<u64>) -> Ordering {
    if a.len() > b.len() {
        Ordering::Greater
    } else if a.len() < b.len() {
        Ordering::Less
    } else {
        cmp_from_top(a, b, a.len() as int)
    }
}

pub open spec fn cmp_from_top(a: Seq<u64>, b: Seq<u64>, i: int) -> Ordering
    decreases i,
{
    if i <= 0 {
        Ordering::Equal
    } else if a[i - 1] > b[i - 1] {
        Ordering::Greater
    } else if a[i - 1] < b[i - 1] {
        Ordering::Less
    } else {
        cmp_from_top(a, b, i - 1)
    }
}

pub proof fn lemma_pow64_positive(k: nat)
    ensures
        pow64(k) >= 1,
        pow64(k + 1) == base() * pow64(k),
    decreases k,
{
    if k > 0 {
        lemma_pow64_positive((k - 1) as nat);
        assert(pow64(k) == base() * pow64((k - 1) as nat));
        assert(base() * pow64((k - 1) as nat) >= 1) by (nonlinear_arith)
            requires
                pow64((k - 1) as nat) >= 1,
        ;
    }
}

pub proof fn lemma_pow64_mono(j: nat, k: nat)
    requires
        j <= k,
    ensures
        pow64(j) <= pow64(k),
    decreases k - j,
{
    if j < k {
        lemma_pow64_mono(j, (k - 1) as nat);
        lemma_pow64_positive((k - 1) as nat);
        assert(pow64((k - 1) as nat) <= base() * pow64((k - 1) as nat)) by (nonlinear_arith)
            requires
                pow64((k - 1) as nat) >= 1,
        ;
    }
}

/// Appending a limb at the top adds it at its weight.
pub proof fn lemma_value_push(s: Seq<u64>, d: u64)
    ensures
        limbs_value(s.push(d)) == limbs_value(s) + d as nat * pow64(s.len()),
    decreases s.len(),
{
    assert(pow64(0) == 1);
    if s.len() == 0 {
        assert(s.push(d).drop_first() =~= Seq::<u64>::empty());
        assert(limbs_value(s.push(d).drop_first()) == 0);
        assert(s.push(d)[0] == d);
        assert(limbs_value(s.push(d)) == d as nat + base() * 0);
    } else {
        lemma_value_push(s.drop_first(), d);
        assert(s.push(d).drop_first() =~= s.drop_first().push(d));
        assert(s.push(d)[0] == s[0]);
        let v = limbs_value(s.drop_first());
        let p = pow64((s.len() - 1) as nat);
        assert(pow64(s.len()) == base() * p);
        assert(limbs_value(s.push(d)) == s[0] as nat + base() * (v + d as nat * p));
        assert(base() * (v + d as nat * p) == base() * v + d as nat * (base() * p)) by (nonlinear_arith);
    }
}

pub proof fn lemma_value_bound(s: Seq<u64>)
    ensures
        limbs_value(s) < pow64(s.len()),
    decreases s.len(),
{
    if s.len() > 0 {
        lemma_value_bound(s.drop_first());
        let v = limbs_value(s.drop_first());
        let p = pow64((s.len() - 1) as nat);
        assert(pow64(s.len()) == base() * p);
        assert(s[0] as nat + base() * v < base() * p) by (nonlinear_arith)
            requires
                v < p,
                s[0] < base(),
        ;
    }
}

/// A normalized non-empty number is at least the weight of its top limb.
pub proof fn lemma_value_lower(s: Seq<u64>)
    requires
        s.len() > 0,
        s.last() != 0,
    ensures
        limbs_value(s) >= pow64((s.len() - 1) as nat),
{
    lemma_value_push(s.drop_last(), s.last());
    assert(s.drop_last().push(s.last()) =~= s);
    assert(s.last() as nat * pow64((s.len() - 1) as nat) >= pow64((s.len() - 1) as nat)) by (nonlinear_arith)
        requires
            s.last() >= 1,
    ;
}

proof fn lemma_take_push(s: Seq<u64>, i: int)
    requires
        0 <= i < s.len(),
    ensures
        s.take(i + 1) == s.take(i).push(s[i]),
{
    assert(s.take(i + 1) =~= s.take(i).push(s[i]));
}

proof fn lemma_low_step(s: Seq<u64>, i: int)
    requires
        0 <= i,
    ensures
        limbs_value(low(s, i + 1)) == limbs_value(low(s, i)) + limb(s, i) * pow64(i as nat),
{
    if i < s.len() {
        lemma_take_push(s, i);
        lemma_value_push(s.take(i), s[i]);
        assert(low(s, i + 1) == s.take(i + 1));
        assert(low(s, i) == s.take(i));
    } else {
        assert(low(s, i + 1) == s);
        if i == s.len() {
            assert(s.take(i) =~= s);
        }
        assert(low(s, i) == s);
        assert(limb(s, i) == 0);
        assert(limb(s, i) * pow64(i as nat) == 0);
    }
}

/// For normalized limbs, the limbs' comparison is the numbers' comparison.
pub proof fn lemma_cmp_is_numeric(a: Seq<u64>, b: Seq<u64>)
    requires
        normalized(a),
        normalized(b),
    ensures
        (cmp_limbs(a, b) == Ordering::Less) == (limbs_value(a) < limbs_value(b)),
        (cmp_limbs(a, b) == Ordering::Equal) == (limbs_value(a) == limbs_value(b)),
        (cmp_limbs(a, b) == Ordering::Greater) == (limbs_value(a) > limbs_value(b)),
        (cmp_limbs(a, b) == Ordering::Equal) == (a == b),
{
    if a.len() > b.len() {
        lemma_value_lower(a);
        lemma_value_bound(b);
        lemma_pow64_mono(b.len(), (a.len() - 1) as nat);
    } else if a.len() < b.len() {
        lemma_value_lower(b);
        lemma_value_bound(a);
        lemma_pow64_mono(a.len(), (b.len() - 1) as nat);
    } else {
        lemma_cmp_top(a, b, a.len() as int);
        assert(a.take(a.len() as int) =~= a);
        assert(b.take(b.len() as int) =~= b);
        if cmp_from_top(a, b, a.len() as int) == Ordering::Equal {
            lemma_cmp_equal(a, b, a.len() as int);
            assert(a =~= b);
        }
    }
}

proof fn lemma_cmp_equal(a: Seq<u64>, b: Seq<u64>, i: int)
    requires
        0 <= i <= a.len(),
        a.len() == b.len(),
        cmp_from_top(a, b, i) == Ordering::Equal,
    ensures
        forall|j: int| 0 <= j < i ==> a[j] == b[j],
    decreases i,
{
    if i > 0 {
        lemma_cmp_equal(a, b, i - 1);
    }
}

/// Comparing the low `i` limbs from the top compares their values.
proof fn lemma_cmp_top(a: Seq<u64>, b: Seq<u64>, i: int)
    requires
        0 <= i <= a.len(),
        a.len() == b.len(),
    ensures
        (cmp_from_top(a, b, i) == Ordering::Less) == (limbs_value(a.take(i)) < limbs_value(b.take(i))),
        (cmp_from_top(a, b, i) == Ordering::Equal) == (limbs_value(a.take(i)) == limbs_value(b.take(i))),
        (cmp_from_top(a, b, i) == Ordering::Greater) == (limbs_value(a.take(i)) > limbs_value(b.take(i))),
    decreases i,
{
    if i > 0 {
        lemma_cmp_top(a, b, i - 1);
        lemma_take_push(a, i - 1);
        lemma_take_push(b, i - 1);
        lemma_value_push(a.take(i - 1), a[i - 1]);
        lemma_value_push(b.take(i - 1), b[i - 1]);
        lemma_value_bound(a.take(i - 1));
        lemma_value_bound(b.take(i - 1));
        let p = pow64((i - 1) as nat);
        let va = limbs_value(a.take(i - 1));
        let vb = limbs_value(b.take(i - 1));
        let (x, y) = (a[i - 1] as nat, b[i - 1] as nat);
        if x > y {
            assert(va + x * p > vb + y * p) by (nonlinear_arith)
                requires
                    x > y,
                    va < p,
                    vb < p,
            ;
        } else if x < y {
            assert(va + x * p < vb + y * p) by (nonlinear_arith)
                requires
                    x < y,
                    va < p,
                    vb < p,
            ;
        }
    } else {
        assert(a.take(0) =~= Seq::<u64>::empty());
        assert(b.take(0) =~= Seq::<u64>::empty());
    }
}

/// The number that decimal digits stand for, most significant first.
pub open spec fn decimal_value(s: Seq<u8>) -> nat
    decreases s.len(),
{
    if s.len() == 0 {
        0
    } else {
        decimal_value(s.drop_last()) * 10 + (s.last() - 48) as nat
    }
}

/// Every byte is an ASCII digit.
pub open spec fn all_digits(s: Seq<u8>) -> bool {
    forall|i: int| 0 <= i < s.len() ==> 48 <= #[trigger] s[i] <= 57
}

/// Digits as written without leading zeros: one digit for zero.
pub open spec fn canonical_decimal(s: Seq<u8>) -> bool {
    s.len() >= 1 && all_digits(s) && (s.len() > 1 ==> s[0] != 48)
}

/// An arbitrary-precision natural number.
#[derive(Debug, Clone)]
pub struct Natural {
    pub inner: Vec<u64>,
}

/// A conversion that does not fit the target type.
#[derive(Debug, Clone, Copy, PartialEq, Eq, Structural)]
pub struct TryFromNaturalError;

/// A negative number where a natural one was needed.
#[derive(Debug, Clone, Copy, PartialEq, Eq, Structural)]
pub struct TryFromIntError;

/// Text that is no decimal number.
#[derive(Debug, Clone, Copy, PartialEq, Eq, Structural)]
pub struct ParseNaturalError;

impl Natural {
    /// The number this value stands for.
    pub open spec fn value(&self) -> nat {
        limbs_value(self.inner@)
    }

    /// The limbs have no zero at the top.
    pub open spec fn wf(&self) -> bool {
        normalized(self.inner@)
    }

    pub fn zero() -> (r: Self)
        ensures
            r.value() == 0,
            r.wf(),
            r.inner@.len() == 0,
    {
        Natural::new(Vec::new())
    }

    pub fn is_zero(&self) -> (r: bool)
        ensures
            r == (self.inner@.len() == 0),
            self.wf() ==> (r == (self.value() == 0)),
    {
        proof {
            if self.inner@.len() > 0 && self.wf() {
                lemma_value_lower(self.inner@);
                lemma_pow64_positive((self.inner@.len() - 1) as nat);
            }
        }
        self.chunk_count() == 0
    }

    pub fn one() -> (r: Self)
        ensures
            r.value() == 1,
            r.wf(),
            r.inner@ == seq![1u64],
    {
        let mut v: Vec<u64> = Vec::new();
        v.push(1);
        proof {
            assert(v@.drop_first() =~= Seq::<u64>::empty());
            assert(limbs_value(v@.drop_first()) == 0);
            assert(v@[0] == 1);
            assert(limbs_value(v@) == 1 + base() * limbs_value(v@.drop_first()));
        }
        Natural::new(v)
    }

    /// The number with the given limbs, least significant first.
    pub fn new(inner: Vec<u64>) -> (r: Self)
        ensures
            r.inner@ == inner@,
    {
        Natural { inner }
    }

    /// The number `v`.
    pub fn from_u64(v: u64) -> (r: Self)
        ensures
            r.value() == v,
            r.wf(),
            r.inner@ == (if v == 0 {
                Seq::<u64>::empty()
            } else {
                seq![v]
            }),
    {
        let mut limbs: Vec<u64> = Vec::new();
        assert(limbs_value(limbs@) == 0);
        if v != 0 {
            limbs.push(v);
            proof {
                lemma_value_push(Seq::<u64>::empty(), v);
                assert(Seq::<u64>::empty().push(v) =~= limbs@);
                assert(pow64(0) == 1);
                assert(limbs_value(Seq::<u64>::empty()) == 0);
                assert(limbs_value(limbs@) == v as nat * 1);
            }
        }
        Natural::new(limbs)
    }

    /// A copy with the same limbs.
    pub fn duplicate(&self) -> (r: Natural)
        ensures
            r.inner@ == self.inner@,
    {
        let mut v: Vec<u64> = Vec::new();
        let mut i: usize = 0;
        while i < self.inner.len()
            invariant
                i <= self.inner@.len(),
                v@ == self.inner@.take(i as int),
            decreases self.inner@.len() - i,
        {
            v.push(self.inner[i]);
            i = i + 1;
            assert(v@ =~= self.inner@.take(i as int));
        }
        assert(self.inner@.take(i as int) =~= self.inner@);
        Natural::new(v)
    }

    pub fn chunk_count(&self) -> (r: usize)
        ensures
            r == self.inner@.len(),
    {
        self.inner.len()
    }

    /// Drops zero limbs from the top.
    pub fn fit(&mut self)
        ensures
            final(self).value() == old(self).value(),
            final(self).wf(),
            final(self).inner@ == old(self).inner@.take(final(self).inner@.len() as int),
    {
        while self.inner.len() > 0 && self.inner[self.inner.len() - 1] == 0
            invariant
                self.value() == old(self).value(),
                self.inner@ == old(self).inner@.take(self.inner@.len() as int),
                self.inner@.len() <= old(self).inner@.len(),
            decreases self.inner@.len(),
        {
            let ghost before = self.inner@;
            self.inner.pop();
            proof {
                lemma_value_push(self.inner@, 0);
                assert(self.inner@.push(0) =~= before);
                assert(self.inner@ =~= old(self).inner@.take(self.inner@.len() as int));
            }
        }
    }

    /// The position of the highest set bit, zero for zero.
    pub open spec fn ilog2_spec(&self) -> nat {
        if self.inner@.len() == 0 {
            0
        } else {
            ((self.inner@.len() - 1) * 64 + top_bit_spec(self.inner@.last())) as nat
        }
    }

    /// The position of the highest set bit, zero for zero.
    pub fn ilog2(&self) -> (r: usize)
        requires
            self.wf(),
            self.inner@.len() <= usize::MAX / 64,
        ensures
            r == self.ilog2_spec(),
            self.inner@.len() == 0 ==> r == 0,
            self.inner@.len() > 0 && self.inner@.last() != 0 ==> {
                let top = self.inner@.last();
                &&& (self.inner@.len() - 1) * 64 <= r < self.inner@.len() * 64
                &&& vstd::arithmetic::power2::pow2((r - (self.inner@.len() - 1) * 64) as nat) <= top
                &&& top < vstd::arithmetic::power2::pow2((r - (self.inner@.len() - 1) * 64 + 1) as nat)
            },
    {
        if self.is_zero() {
            return 0;
        }
        let n = self.inner.len();
        let top = self.inner[n - 1];
        (n - 1) * 64 + top_bit(top) as usize
    }

    /// The sum.
    pub fn add_natural(&self, rhs: &Natural) -> (r: Natural)
        ensures
            r.value() == self.value() + rhs.value(),
            r.wf(),
    {
        let a = &self.inner;
        let b = &rhs.inner;
        let n = if a.len() >= b.len() {
            a.len()
        } else {
            b.len()
        };
        let mut res: Vec<u64> = Vec::new();
        let mut carry: u64 = 0;
        let mut i: usize = 0;
        while i < n
            invariant
                n == if a@.len() >= b@.len() {
                    a@.len()
                } else {
                    b@.len()
                },
                a@ == self.inner@,
                b@ == rhs.inner@,
                i <= n,
                res@.len() == i,
                carry <= 1,
                limbs_value(res@) + carry * pow64(i as nat) == limbs_value(low(a@, i as int))
                    + limbs_value(low(b@, i as int)),
            decreases n - i,
        {
            let x: u64 = if i < a.len() {
                a[i]
            } else {
                0
            };
            let y: u64 = if i < b.len() {
                b[i]
            } else {
                0
            };
            let s: u128 = x as u128 + y as u128 + carry as u128;
            let d: u64 = (s % 0x1_0000_0000_0000_0000) as u64;
            let c: u64 = (s / 0x1_0000_0000_0000_0000) as u64;
            proof {
                lemma_value_push(res@, d);
                lemma_low_step(a@, i as int);
                lemma_low_step(b@, i as int);
                lemma_pow64_positive(i as nat);
                let p = pow64(i as nat);
                assert(limb(a@, i as int) == x && limb(b@, i as int) == y);
                assert(d as nat + c as nat * base() == x as nat + y as nat + carry as nat);
                assert(d as nat * p + c as nat * (base() * p) == (x as nat + y as nat + carry as nat) * p)
                    by (nonlinear_arith)
                    requires
                        d as nat + c as nat * base() == x as nat + y as nat + carry as nat,
                ;
                assert(x as nat * p + y as nat * p + carry as nat * p == (x as nat + y as nat + carry as nat) * p)
                    by (nonlinear_arith);
            }
            res.push(d);
            carry = c;
            i = i + 1;
        }
        proof {
            assert(low(a@, n as int) =~= a@);
            assert(low(b@, n as int) =~= b@);
            assert(limbs_value(res@) + carry * pow64(n as nat) == self.value() + rhs.value());
        }
        if carry > 0 {
            proof {
                lemma_value_push(res@, carry);
            }
            res.push(carry);
        } else {
            assert(carry * pow64(n as nat) == 0);
        }
        assert(limbs_value(res@) == self.value() + rhs.value());
        let mut r = Natural::new(res);
        r.fit();
        r
    }

    /// The difference, for a right side no greater than this one.
    pub fn sub_natural(&self, rhs: &Natural) -> (r: Natural)
        requires
            rhs.value() <= self.value(),
        ensures
            r.value() == self.value() - rhs.value(),
            r.wf(),
    {
        let a = &self.inner;
        let b = &rhs.inner;
        let n = if a.len() >= b.len() {
            a.len()
        } else {
            b.len()
        };
        let mut res: Vec<u64> = Vec::new();
        let mut borrow: u64 = 0;
        let mut i: usize = 0;
        while i < n
            invariant
                n == if a@.len() >= b@.len() {
                    a@.len()
                } else {
                    b@.len()
                },
                a@ == self.inner@,
                b@ == rhs.inner@,
                i <= n,
                res@.len() == i,
                borrow <= 1,
                limbs_value(res@) + limbs_value(low(b@, i as int)) == limbs_value(low(a@, i as int))
                    + borrow * pow64(i as nat),
            decreases n - i,
        {
            let x: u64 = if i < a.len() {
                a[i]
            } else {
                0
            };
            let y: u64 = if i < b.len() {
                b[i]
            } else {
                0
            };
            let need: u128 = y as u128 + borrow as u128;
            let (d, nb): (u64, u64) = if x as u128 >= need {
                ((x as u128 - need) as u64, 0)
            } else {
                ((x as u128 + 0x1_0000_0000_0000_0000 - need) as u64, 1)
            };
            proof {
                lemma_value_push(res@, d);
                lemma_low_step(a@, i as int);
                lemma_low_step(b@, i as int);
                lemma_pow64_positive(i as nat);
                let p = pow64(i as nat);
                assert(limb(a@, i as int) == x && limb(b@, i as int) == y);
                assert(d as nat + y as nat + borrow as nat == x as nat + nb as nat * base());
                assert(d as nat * p + y as nat * p + borrow as nat * p == x as nat * p + nb as nat * (base() * p))
                    by (nonlinear_arith)
                    requires
                        d as nat + y as nat + borrow as nat == x as nat + nb as nat * base(),
                ;
            }
            res.push(d);
            borrow = nb;
            i = i + 1;
        }
        proof {
            assert(low(a@, n as int) =~= a@);
            assert(low(b@, n as int) =~= b@);
            lemma_value_bound(res@);
            lemma_value_bound(a@);
            lemma_pow64_mono(a@.len(), n as nat);
            if borrow == 1 {
                assert(limbs_value(res@) + limbs_value(b@) >= pow64(n as nat));
                assert(limbs_value(a@) < pow64(n as nat));
                assert(false);
            }
        }
        let mut r = Natural::new(res);
        r.fit();
        r
    }

    /// The comparison of the limbs, which is the numbers' comparison for normalized ones.
    pub fn compare(&self, other: &Natural) -> (r: Ordering)
        ensures
            r == cmp_limbs(self.inner@, other.inner@),
            self.wf() && other.wf() ==> ((r == Ordering::Less) == (self.value() < other.value()) && (r
                == Ordering::Greater) == (self.value() > other.value()) && (r == Ordering::Equal) == (
            self.value() == other.value())),
    {
        proof {
            if self.wf() && other.wf() {
                lemma_cmp_is_numeric(self.inner@, other.inner@);
            }
        }
        compare_limbs(&self.inner, &other.inner)
    }

    /// Half the number, rounded down.
    pub fn halve(&self) -> (r: Natural)
        ensures
            r.value() == self.value() / 2,
            r.wf(),
    {
        let x = &self.inner;
        let n = x.len();
        let mut res: Vec<u64> = x.clone();
        let mut carry: u64 = 0;
        let mut i: usize = n;
        while i > 0
            invariant
                x@ == self.inner@,
                n == x@.len(),
                res@.len() == n,
                i <= n,
                carry <= 1,
                res@.subrange(0, i as int) == x@.subrange(0, i as int),
                2 * limbs_value(res@.subrange(i as int, n as int)) + carry == limbs_value(
                    x@.subrange(i as int, n as int),
                ),
            decreases i,
        {
            let xi = x[i - 1];
            let h: u64 = carry * 0x8000_0000_0000_0000 + xi / 2;
            let c: u64 = xi % 2;
            proof {
                let rs = res@.update(i - 1, h);
                lemma_suffix(rs, i - 1, n as int);
                lemma_suffix(x@, i - 1, n as int);
                assert(rs.subrange(i as int, n as int) =~= res@.subrange(i as int, n as int));
                let vr = limbs_value(res@.subrange(i as int, n as int));
                assert(2 * (h as nat + base() * vr) + c == xi as nat + base() * (2 * vr + carry)) by (nonlinear_arith)
                    requires
                        h == carry * 0x8000_0000_0000_0000 + xi / 2,
                        c == xi % 2,
                        base() == 0x1_0000_0000_0000_0000,
                ;
            }
            res.set(i - 1, h);
            carry = c;
            i = i - 1;
            proof {
                assert(res@.subrange(0, i as int) =~= x@.subrange(0, i as int));
            }
        }
        proof {
            assert(res@.subrange(0, n as int) =~= res@);
            assert(x@.subrange(0, n as int) =~= x@);
        }
        let mut r = Natural::new(res);
        r.fit();
        r
    }

    /// The number shifted right by `bits`: the number divided by two to the power `bits`,
    /// rounded down.
    pub fn shr_bits(&self, bits: usize) -> (r: Natural)
        ensures
            r.value() == self.value() / pow2(bits as nat),
            r.wf(),
    {
        let mut r = self.add_natural(&Natural::zero());
        proof {
            lemma2_to64();
        }
        let mut k: usize = 0;
        while k < bits
            invariant
                k <= bits,
                r.value() == self.value() / pow2(k as nat),
                r.wf(),
            decreases bits - k,
        {
            proof {
                lemma_pow2_unfold((k + 1) as nat);
                lemma_pow2_pos(k as nat);
                vstd::arithmetic::div_mod::lemma_div_denominator(self.value() as int, pow2(k as nat) as int, 2);
            }
            r = r.halve();
            k = k + 1;
        }
        r
    }

    /// The number times one limb.
    fn mul_limb(&self, d: u64) -> (r: Vec<u64>)
        ensures
            limbs_value(r@) == self.value() * d,
    {
        let a = &self.inner;
        let n = a.len();
        let mut res: Vec<u64> = Vec::new();
        let mut carry: u64 = 0;
        let mut i: usize = 0;
        proof {
            assert(a@.take(0) =~= Seq::<u64>::empty());
            assert(limbs_value(Seq::<u64>::empty()) == 0);
            assert(limbs_value(res@) == 0);
        }
        while i < n
            invariant
                a@ == self.inner@,
                n == a@.len(),
                i <= n,
                res@.len() == i,
                limbs_value(res@) + carry * pow64(i as nat) == limbs_value(a@.take(i as int)) * d,
            decreases n - i,
        {
            let ai = a[i];
            assert(ai as nat * d as nat + carry as nat <= 0xFFFF_FFFF_FFFF_FFFF_FFFF_FFFF_FFFF_FFFF) by (nonlinear_arith)
                requires
                    ai <= 0xFFFF_FFFF_FFFF_FFFF,
                    d <= 0xFFFF_FFFF_FFFF_FFFF,
                    carry <= 0xFFFF_FFFF_FFFF_FFFF,
            ;
            let t: u128 = ai as u128 * d as u128 + carry as u128;
            let lo: u64 = (t % 0x1_0000_0000_0000_0000) as u64;
            let hi: u64 = (t / 0x1_0000_0000_0000_0000) as u64;
            proof {
                lemma_value_push(res@, lo);
                lemma_take_push(a@, i as int);
                lemma_value_push(a@.take(i as int), ai);
                lemma_pow64_positive(i as nat);
                let p = pow64(i as nat);
                let va = limbs_value(a@.take(i as int));
                assert(lo as nat + hi as nat * base() == ai as nat * d as nat + carry as nat);
                assert(lo as nat * p + hi as nat * (base() * p) == (va + ai as nat * p) * d - va * d + carry as nat * p)
                    by (nonlinear_arith)
                    requires
                        lo as nat + hi as nat * base() == ai as nat * d as nat + carry as nat,
                ;
            }
            res.push(lo);
            carry = hi;
            i = i + 1;
        }
        proof {
            assert(a@.take(n as int) =~= a@);
        }
        if carry > 0 {
            proof {
                lemma_value_push(res@, carry);
            }
            res.push(carry);
        } else {
            assert(carry * pow64(n as nat) == 0);
        }
        res
    }

    /// The product.
    pub fn mul_natural(&self, rhs: &Natural) -> (r: Natural)
        ensures
            r.value() == self.value() * rhs.value(),
            r.wf(),
    {
        let b = &rhs.inner;
        let n = b.len();
        let mut acc = Natural::zero();
        let mut i: usize = 0;
        proof {
            assert(b@.take(0) =~= Seq::<u64>::empty());
            assert(limbs_value(Seq::<u64>::empty()) == 0);
        }
        while i < n
            invariant
                b@ == rhs.inner@,
                n == b@.len(),
                i <= n,
                acc.wf(),
                acc.value() == self.value() * limbs_value(b@.take(i as int)),
            decreases n - i,
        {
            let mut part = self.mul_limb(b[i]);
            let ghost pv = limbs_value(part@);
            let mut shifted: Vec<u64> = Vec::new();
            let mut k: usize = 0;
            while k < i
                invariant
                    k <= i,
                    shifted@ =~= Seq::new(k as nat, |j: int| 0u64),
                decreases i - k,
            {
                shifted.push(0);
                k = k + 1;
            }
            let mut j: usize = 0;
            while j < part.len()
                invariant
                    j <= part@.len(),
                    shifted@ == Seq::new(i as nat, |q: int| 0u64) + part@.take(j as int),
                decreases part@.len() - j,
            {
                shifted.push(part[j]);
                j = j + 1;
                assert(shifted@ =~= Seq::new(i as nat, |q: int| 0u64) + part@.take(j as int));
            }
            proof {
                assert(part@.take(j as int) =~= part@);
                lemma_prepend_zeros(part@, i as nat);
                lemma_take_push(b@, i as int);
                lemma_value_push(b@.take(i as int), b@[i as int]);
                let vb = limbs_value(b@.take(i as int));
                let p = pow64(i as nat);
                assert(self.value() * (vb + b@[i as int] as nat * p) == self.value() * vb + (self.value()
                    * b@[i as int] as nat) * p) by (nonlinear_arith);
            }
            let term = Natural::new(shifted);
            acc = acc.add_natural(&term);
            i = i + 1;
        }
        proof {
            assert(b@.take(n as int) =~= b@);
        }
        acc
    }

    /// The quotient and remainder of the division by a non-zero number.
    pub fn quot_rem(self, rhs: Natural) -> (r: (Natural, Natural))
        requires
            rhs.value() > 0,
            rhs.wf(),
            self.inner@.len() < usize::MAX / 128,
        ensures
            r.0.value() * rhs.value() + r.1.value() == self.value(),
            r.1.value() < rhs.value(),
            r.0.wf(),
            r.1.wf(),
    {
        let mut quotient = Natural::zero();
        let mut rem = self.add_natural(&Natural::zero());
        if matches!(rem.compare(&rhs), Ordering::Less) {
            assert(quotient.value() * rhs.value() == 0);
            return (quotient, rem);
        }
        let shift: usize = 64 * (self.inner.len() + 1);
        let mut divider = rhs.shl_bits(shift);
        proof {
            lemma_value_bound(self.inner@);
            lemma_pow64_pow2(self.inner@.len());
            lemma_pow2_adds((64 * self.inner@.len()) as nat, 64);
            lemma2_to64();
            lemma_pow2_pos((64 * self.inner@.len()) as nat);
            assert(pow2(shift as nat) == pow2((64 * self.inner@.len()) as nat) * 0x1_0000_0000_0000_0000);
            assert(rhs.value() * pow2(shift as nat) >= pow2(shift as nat)) by (nonlinear_arith)
                requires
                    rhs.value() >= 1,
            ;
            assert(quotient.value() * rhs.value() == 0);
        }
        let mut k: usize = shift;
        loop
            invariant
                k <= shift,
                quotient.wf(),
                rem.wf(),
                divider.wf(),
                rhs.wf(),
                rhs.value() > 0,
                divider.value() == rhs.value() * pow2(k as nat),
                quotient.value() * rhs.value() + rem.value() == self.value(),
                rem.value() < 2 * divider.value(),
            ensures
                quotient.wf(),
                rem.wf(),
                quotient.value() * rhs.value() + rem.value() == self.value(),
                rem.value() < rhs.value(),
            decreases k,
        {
            if !matches!(rem.compare(&divider), Ordering::Less) {
                let bit = Natural::one().shl_bits(k);
                proof {
                    assert((quotient.value() + pow2(k as nat)) * rhs.value() + (rem.value() - divider.value())
                        == quotient.value() * rhs.value() + rem.value()) by (nonlinear_arith)
                        requires
                            divider.value() == rhs.value() * pow2(k as nat),
                            rem.value() >= divider.value(),
                    ;
                }
                rem = rem.sub_natural(&divider);
                quotient = quotient.add_natural(&bit);
            }
            if k == 0 {
                proof {
                    lemma2_to64();
                    assert(divider.value() == rhs.value() * 1);
                }
                break;
            }
            proof {
                lemma_pow2_unfold(k as nat);
                assert(rhs.value() * pow2(k as nat) == 2 * (rhs.value() * pow2((k - 1) as nat))) by (nonlinear_arith)
                    requires
                        pow2(k as nat) == 2 * pow2((k - 1) as nat),
                ;
            }
            divider = divider.halve();
            k = k - 1;
        }
        proof {
            lemma2_to64();
        }
        (quotient, rem)
    }

    /// Reads decimal digits; anything else, or no digit at all, is an error.
    pub fn from_decimal(s: &str) -> (r: Result<Natural, ParseNaturalError>)
        ensures
            r is Ok <==> (s.spec_bytes().len() > 0 && all_digits(s.spec_bytes())),
            r matches Ok(n) ==> n.value() == decimal_value(s.spec_bytes()) && n.wf(),
    {
        Natural::from_decimal_bytes(s.as_bytes())
    }

    /// Reads decimal digits from bytes; anything else, or no digit at all, is an error.
    pub fn from_decimal_bytes(b: &[u8]) -> (r: Result<Natural, ParseNaturalError>)
        ensures
            r is Ok <==> (b@.len() > 0 && all_digits(b@)),
            r matches Ok(n) ==> n.value() == decimal_value(b@) && n.wf(),
    {
        if b.len() == 0 {
            return Err(ParseNaturalError);
        }
        let ten = Natural::from_u64(10);
        let mut result = Natural::zero();
        let mut i: usize = 0;
        proof {
            assert(b@.take(0) =~= Seq::<u8>::empty());
        }
        while i < b.len()
            invariant
                i <= b@.len(),
                ten.value() == 10,
                result.wf(),
                result.value() == decimal_value(b@.take(i as int)),
                all_digits(b@.take(i as int)),
            decreases b@.len() - i,
        {
            let c = b[i];
            if c < 48 || c > 57 {
                assert(!all_digits(b@)) by {
                    assert(b@[i as int] == c);
                }
                return Err(ParseNaturalError);
            }
            let digit = Natural::from_u64((c - 48) as u64);
            result = result.mul_natural(&ten).add_natural(&digit);
            proof {
                assert(b@.take(i + 1).drop_last() =~= b@.take(i as int));
                assert(b@.take(i + 1).last() == c);
                assert forall|j: int| 0 <= j < i + 1 implies 48 <= #[trigger] b@.take(i + 1)[j] <= 57 by {
                    if j < i {
                        assert(b@.take(i + 1)[j] == b@.take(i as int)[j]);
                    }
                }
            }
            i = i + 1;
        }
        assert(b@.take(i as int) =~= b@);
        Ok(result)
    }

    /// The decimal digits of the number, without leading zeros.
    pub fn to_decimal(&self) -> (r: Vec<u8>)
        requires
            self.wf(),
            self.inner@.len() < usize::MAX / 128,
        ensures
            decimal_value(r@) == self.value(),
            canonical_decimal(r@),
        decreases self.value(),
    {
        let ten = Natural::from_u64(10);
        let (q, rem) = self.duplicate().quot_rem(ten);
        let digit: u64 = rem.small_value();
        if q.is_zero() {
            let mut v: Vec<u8> = Vec::new();
            v.push(48 + digit as u8);
            proof {
                assert(v@.drop_last() =~= Seq::<u8>::empty());
                assert(decimal_value(Seq::<u8>::empty()) == 0);
                assert(v@[0] == 48 + digit);
                assert(digit < 10);
                assert(all_digits(v@));
            }
            v
        } else {
            proof {
                lemma_quotient_shorter(self.inner@, q.inner@, q.value(), rem.value());
            }
            let mut v = q.to_decimal();
            let ghost before = v@;
            v.push(48 + digit as u8);
            proof {
                assert(v@.drop_last() =~= before);
                assert forall|j: int| 0 <= j < v@.len() implies 48 <= #[trigger] v@[j] <= 57 by {
                    if j < before.len() {
                        assert(v@[j] == before[j]);
                    }
                }
                assert(v@[0] == before[0]);
                if before.len() == 1 && before[0] == 48 {
                    assert(before.drop_last() =~= Seq::<u8>::empty());
                    assert(decimal_value(Seq::<u8>::empty()) == 0);
                    assert(decimal_value(before) == 0);
                }
                assert(v@.len() > 1);
                assert(v@[0] != 48);
            }
            v
        }
    }

    /// The number as a `u64`, when it fits.
    pub fn to_u64(&self) -> (r: Result<u64, TryFromNaturalError>)
        requires
            self.wf(),
        ensures
            r is Ok <==> self.value() <= u64::MAX,
            r matches Ok(v) ==> v == self.value(),
    {
        if self.inner.len() <= 1 {
            proof {
                lemma_value_bound(self.inner@);
                if self.inner@.len() == 1 {
                    assert(pow64(1) == base() * pow64(0));
                }
            }
            Ok(self.small_value())
        } else {
            proof {
                lemma_value_lower(self.inner@);
                lemma_pow64_mono(1, (self.inner@.len() - 1) as nat);
                assert(pow64(1) == base() * pow64(0));
            }
            Err(TryFromNaturalError)
        }
    }

    /// The value of a number below one limb's base.
    pub fn small_value(&self) -> (r: u64)
        requires
            self.wf(),
            self.value() < base(),
        ensures
            r == self.value(),
    {
        if self.inner.len() == 0 {
            0
        } else {
            proof {
                if self.inner@.len() >= 2 {
                    lemma_value_lower(self.inner@);
                    lemma_pow64_mono(1, (self.inner@.len() - 1) as nat);
                    assert(pow64(1) == base() * pow64(0));
                }
                assert(self.inner@.drop_first() =~= Seq::<u64>::empty());
                assert(limbs_value(self.inner@.drop_first()) == 0);
            }
            self.inner[0]
        }
    }

    /// The number shifted left by `bits`: the number times two to the power `bits`.
    pub fn shl_bits(&self, bits: usize) -> (r: Natural)
        ensures
            r.value() == self.value() * vstd::arithmetic::power2::pow2(bits as nat),
            r.wf(),
    {
        let mut r = self.add_natural(&Natural::zero());
        proof {
            vstd::arithmetic::power2::lemma2_to64();
        }
        let mut k: usize = 0;
        while k < bits
            invariant
                k <= bits,
                r.value() == self.value() * vstd::arithmetic::power2::pow2(k as nat),
                r.wf(),
            decreases bits - k,
        {
            proof {
                vstd::arithmetic::power2::lemma_pow2_unfold((k + 1) as nat);
                assert(self.value() * vstd::arithmetic::power2::pow2((k + 1) as nat) == 2 * (self.value()
                    * vstd::arithmetic::power2::pow2(k as nat))) by (nonlinear_arith)
                    requires
                        vstd::arithmetic::power2::pow2((k + 1) as nat) == 2 * vstd::arithmetic::power2::pow2(k as nat),
                ;
            }
            r = r.add_natural(&r);
            k = k + 1;
        }
        r
    }
}

/// A quotient by ten of a number is shorter in limbs, and smaller when positive.
proof fn lemma_quotient_shorter(a: Seq<u64>, q: Seq<u64>, qv: nat, rv: nat)
    requires
        normalized(q),
        limbs_value(q) == qv,
        qv * 10 + rv == limbs_value(a),
        qv > 0,
    ensures
        q.len() <= a.len(),
        qv < limbs_value(a),
{
    if q.len() > a.len() {
        lemma_value_lower(q);
        lemma_value_bound(a);
        lemma_pow64_mono(a.len(), (q.len() - 1) as nat);
    }
}

/// The limbs of a suffix: the limb at `i`, then the rest at weight `base()`.
proof fn lemma_suffix(s: Seq<u64>, i: int, n: int)
    requires
        0 <= i < n,
        n == s.len(),
    ensures
        limbs_value(s.subrange(i, n)) == s[i] as nat + base() * limbs_value(s.subrange(i + 1, n)),
{
    assert(s.subrange(i, n).drop_first() =~= s.subrange(i + 1, n));
}

/// Zero limbs below a number multiply it by their weight.
proof fn lemma_prepend_zeros(s: Seq<u64>, k: nat)
    ensures
        limbs_value(Seq::new(k, |j: int| 0u64) + s) == limbs_value(s) * pow64(k),
    decreases k,
{
    assert(pow64(0) == 1);
    if k == 0 {
        assert(Seq::new(0, |j: int| 0u64) + s =~= s);
    } else {
        lemma_prepend_zeros(s, (k - 1) as nat);
        let t = Seq::new(k, |j: int| 0u64) + s;
        assert(t.drop_first() =~= Seq::new((k - 1) as nat, |j: int| 0u64) + s);
        assert(t[0] == 0);
        assert(pow64(k) == base() * pow64((k - 1) as nat));
        assert(limbs_value(t) == 0 + base() * limbs_value(t.drop_first()));
        assert(limbs_value(s) * (base() * pow64((k - 1) as nat)) == base() * (limbs_value(s) * pow64((k - 1) as nat)))
            by (nonlinear_arith);
    }
}

/// The weight of limb `k` is two to the power `64 * k`.
proof fn lemma_pow64_pow2(k: nat)
    ensures
        pow64(k) == pow2(64 * k),
    decreases k,
{
    lemma2_to64();
    if k > 0 {
        lemma_pow64_pow2((k - 1) as nat);
        lemma_pow2_adds((64 * (k - 1)) as nat, 64);
        assert(64 * (k - 1) + 64 == 64 * k);
    }
}

fn compare_limbs(a: &Vec<u64>, b: &Vec<u64>) -> (r: Ordering)
    ensures
        r == cmp_limbs(a@, b@),
{
    if a.len() > b.len() {
        return Ordering::Greater;
    }
    if a.len() < b.len() {
        return Ordering::Less;
    }
    let mut i: usize = a.len();
    while i > 0
        invariant
            a@.len() == b@.len(),
            i <= a@.len(),
            cmp_from_top(a@, b@, a@.len() as int) == cmp_from_top(a@, b@, i as int),
        decreases i,
    {
        if a[i - 1] > b[i - 1] {
            return Ordering::Greater;
        }
        if a[i - 1] < b[i - 1] {
            return Ordering::Less;
        }
        i = i - 1;
    }
    Ordering::Equal
}

impl PartialEq for Natural {
    fn eq(&self, other: &Natural) -> (r: bool) {
        proof {
            if self.inner@.len() == other.inner@.len() {
                lemma_cmp_equal_iff(self.inner@, other.inner@, self.inner@.len() as int);
                if forall|j: int| 0 <= j < self.inner@.len() ==> self.inner@[j] == other.inner@[j] {
                    assert(self.inner@ =~= other.inner@);
                }
            }
        }
        matches!(compare_limbs(&self.inner, &other.inner), Ordering::Equal)
    }
}

impl vstd::std_specs::cmp::PartialEqSpecImpl for Natural {
    open spec fn obeys_eq_spec() -> bool {
        true
    }

    open spec fn eq_spec(&self, other: &Natural) -> bool {
        self.inner@ == other.inner@
    }
}

impl Eq for Natural {
}

impl PartialOrd for Natural {
    fn partial_cmp(&self, other: &Natural) -> (r: Option<Ordering>) {
        Some(compare_limbs(&self.inner, &other.inner))
    }
}

impl vstd::std_specs::cmp::PartialOrdSpecImpl for Natural {
    open spec fn obeys_partial_cmp_spec() -> bool {
        true
    }

    open spec fn partial_cmp_spec(&self, other: &Natural) -> Option<Ordering> {
        Some(cmp_limbs(self.inner@, other.inner@))
    }
}

impl std::ops::Add for Natural {
    type Output = Natural;

    fn add(self, rhs: Natural) -> (r: Natural) {
        self.add_natural(&rhs)
    }
}

impl vstd::std_specs::ops::AddSpecImpl for Natural {
    open spec fn obeys_add_spec() -> bool {
        false
    }

    open spec fn add_req(self, rhs: Natural) -> bool {
        true
    }

    open spec fn add_spec(self, rhs: Natural) -> Natural {
        vstd::pervasive::arbitrary()
    }
}

impl std::ops::Sub for Natural {
    type Output = Natural;

    fn sub(self, rhs: Natural) -> (r: Natural) {
        self.sub_natural(&rhs)
    }
}

impl vstd::std_specs::ops::SubSpecImpl for Natural {
    open spec fn obeys_sub_spec() -> bool {
        false
    }

    open spec fn sub_req(self, rhs: Natural) -> bool {
        rhs.value() <= self.value()
    }

    open spec fn sub_spec(self, rhs: Natural) -> Natural {
        vstd::pervasive::arbitrary()
    }
}

impl std::ops::Mul for Natural {
    type Output = Natural;

    fn mul(self, rhs: Natural) -> (r: Natural) {
        self.mul_natural(&rhs)
    }
}

impl vstd::std_specs::ops::MulSpecImpl for Natural {
    open spec fn obeys_mul_spec() -> bool {
        false
    }

    open spec fn mul_req(self, rhs: Natural) -> bool {
        true
    }

    open spec fn mul_spec(self, rhs: Natural) -> Natural {
        vstd::pervasive::arbitrary()
    }
}

impl std::ops::Shl<usize> for Natural {
    type Output = Natural;

    fn shl(self, rhs: usize) -> (r: Natural) {
        self.shl_bits(rhs)
    }
}

impl vstd::std_specs::ops::ShlSpecImpl<usize> for Natural {
    open spec fn obeys_shl_spec() -> bool {
        false
    }

    open spec fn shl_req(self, rhs: usize) -> bool {
        true
    }

    open spec fn shl_spec(self, rhs: usize) -> Natural {
        vstd::pervasive::arbitrary()
    }
}

impl std::ops::Shr<usize> for Natural {
    type Output = Natural;

    fn shr(self, rhs: usize) -> (r: Natural) {
        self.shr_bits(rhs)
    }
}

impl vstd::std_specs::ops::ShrSpecImpl<usize> for Natural {
    open spec fn obeys_shr_spec() -> bool {
        false
    }

    open spec fn shr_req(self, rhs: usize) -> bool {
        true
    }

    open spec fn shr_spec(self, rhs: usize) -> Natural {
        vstd::pervasive::arbitrary()
    }
}

impl std::str::FromStr for Natural {
    type Err = ParseNaturalError;

    fn from_str(s: &str) -> Result<Natural, ParseNaturalError> {
        Natural::from_decimal(s)
    }
}

impl From<u8> for Natural {
    fn from(v: u8) -> (r: Natural) {
        Natural::from_u64(v as u64)
    }
}

impl vstd::std_specs::convert::FromSpecImpl<u8> for Natural {
    open spec fn obeys_from_spec() -> bool {
        false
    }

    open spec fn from_spec(v: u8) -> Natural {
        vstd::pervasive::arbitrary()
    }
}

impl From<u16> for Natural {
    fn from(v: u16) -> (r: Natural) {
        Natural::from_u64(v as u64)
    }
}

impl vstd::std_specs::convert::FromSpecImpl<u16> for Natural {
    open spec fn obeys_from_spec() -> bool {
        false
    }

    open spec fn from_spec(v: u16) -> Natural {
        vstd::pervasive::arbitrary()
    }
}

impl From<u32> for Natural {
    fn from(v: u32) -> (r: Natural) {
        Natural::from_u64(v as u64)
    }
}

impl vstd::std_specs::convert::FromSpecImpl<u32> for Natural {
    open spec fn obeys_from_spec() -> bool {
        false
    }

    open spec fn from_spec(v: u32) -> Natural {
        vstd::pervasive::arbitrary()
    }
}

impl From<u64> for Natural {
    fn from(v: u64) -> (r: Natural) {
        Natural::from_u64(v)
    }
}

impl vstd::std_specs::convert::FromSpecImpl<u64> for Natural {
    open spec fn obeys_from_spec() -> bool {
        false
    }

    open spec fn from_spec(v: u64) -> Natural {
        vstd::pervasive::arbitrary()
    }
}

impl From<usize> for Natural {
    fn from(v: usize) -> (r: Natural) {
        Natural::from_u64(v as u64)
    }
}

impl vstd::std_specs::convert::FromSpecImpl<usize> for Natural {
    open spec fn obeys_from_spec() -> bool {
        false
    }

    open spec fn from_spec(v: usize) -> Natural {
        vstd::pervasive::arbitrary()
    }
}

proof fn lemma_cmp_equal_iff(a: Seq<u64>, b: Seq<u64>, i: int)
    requires
        0 <= i <= a.len(),
        a.len() == b.len(),
    ensures
        (cmp_from_top(a, b, i) == Ordering::Equal) == (forall|j: int| 0 <= j < i ==> a[j] == b[j]),
    decreases i,
{
    if i > 0 {
        lemma_cmp_equal_iff(a, b, i - 1);
    }
}

/// The position of the highest set bit of a limb, zero for zero.
pub open spec fn top_bit_spec(x: u64) -> nat
    decreases x,
{
    if x <= 1 {
        0
    } else {
        1 + top_bit_spec(x / 2)
    }
}

/// The position of the highest set bit of a non-zero limb.
fn top_bit(x: u64) -> (r: u32)
    requires
        x != 0,
    ensures
        r == top_bit_spec(x),
        r < 64,
        vstd::arithmetic::power2::pow2(r as nat) <= x < vstd::arithmetic::power2::pow2(r as nat + 1),
{
    let mut r: u32 = 0;
    let mut v: u64 = x;
    proof {
        vstd::arithmetic::power2::lemma2_to64();
    }
    while v > 1
        invariant
            1 <= v,
            r < 64,
            r + top_bit_spec(v) == top_bit_spec(x),
            vstd::arithmetic::power2::pow2(r as nat) * v <= x,
            x < vstd::arithmetic::power2::pow2(r as nat) * (v + 1),
            vstd::arithmetic::power2::pow2(64) == 0x1_0000_0000_0000_0000,
        decreases v,
    {
        proof {
            vstd::arithmetic::power2::lemma_pow2_unfold((r + 1) as nat);
            vstd::arithmetic::power2::lemma_pow2_pos(r as nat);
            let p = vstd::arithmetic::power2::pow2(r as nat);
            let q = v / 2;
            assert(p * 2 * q <= x && x < p * 2 * (q + 1)) by (nonlinear_arith)
                requires
                    p * v <= x,
                    x < p * (v + 1),
                    q == v / 2,
                    p > 0,
            ;
            assert(p * 2 <= x) by (nonlinear_arith)
                requires
                    p * v <= x,
                    v >= 2,
                    p > 0,
            ;
            if r + 1 > 64 {
                vstd::arithmetic::power2::lemma_pow2_strictly_increases(64, (r + 1) as nat);
                assert(false);
            }
            if r + 1 == 64 {
                assert(false);
            }
        }
        v = v / 2;
        r = r + 1;
    }
    proof {
        vstd::arithmetic::power2::lemma_pow2_unfold((r + 1) as nat);
        let p = vstd::arithmetic::power2::pow2(r as nat);
        assert(v == 1);
        assert(p * v == p && p * (v + 1) == p * 2);
    }
    r
}

} // verus!
