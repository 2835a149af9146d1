//! Arbitrary-precision signed integers: a sign and a natural magnitude.
use vstd::prelude::*;
use vstd::arithmetic::power2::pow2;
use std::cmp::Ordering;
use crate::natural::{cmp_limbs, decimal_value, all_digits, Natural, ParseNaturalError};
use vstd::string::StringSliceAdditionalSpecFns;

verus! {

/// An arbitrary-precision integer; `sign` is set for negative numbers.
#[derive(Debug, Clone)]
pub struct Integer {
    pub sign: bool,
    pub abs: Natural,
}

/// A conversion that does not fit the target type.
#[derive(Debug, Clone, Copy, PartialEq, Eq, Structural)]
pub struct TryFromIntegerError;

/// The order of two integers, given by sign then magnitude.
pub open spec fn int_cmp(a: int, b: int) -> Ordering {
    if a < b {
        Ordering::Less
    } else if a == b {
        Ordering::Equal
    } else {
        Ordering::Greater
    }
}

impl Integer {
    /// The number this value stands for.
    pub open spec fn value(&self) -> int {
        if self.sign {
            -(self.abs.value() as int)
        } else {
            self.abs.value() as int
        }
    }

    /// The magnitude is normalized and zero is never negative.
    pub open spec fn wf(&self) -> bool {
        self.abs.wf() && (self.abs.value() == 0 ==> !self.sign)
    }

    pub fn new(sign: bool, abs: Natural) -> (r: Self)
        ensures
            r.sign == sign,
            r.abs == abs,
    {
        Integer { sign, abs }
    }

    /// The integer with the given sign and magnitude, zero never negative.
    fn signed(sign: bool, abs: Natural) -> (r: Self)
        requires
            abs.wf(),
        ensures
            r.wf(),
            r.abs == abs,
            r.value() == if sign {
                -(abs.value() as int)
            } else {
                abs.value() as int
            },
    {
        let zero = abs.is_zero();
        Integer { sign: sign && !zero, abs }
    }

    pub fn zero() -> (r: Self)
        ensures
            r.value() == 0,
            r.wf(),
    {
        Integer::new(false, Natural::zero())
    }

    pub fn one() -> (r: Self)
        ensures
            r.value() == 1,
            r.wf(),
    {
        Integer::new(false, Natural::one())
    }

    pub fn is_zero(&self) -> (r: bool)
        requires
            self.wf(),
        ensures
            r == (self.value() == 0),
    {
        self.abs.is_zero()
    }

    /// The integer `v`.
    pub fn from_i64(v: i64) -> (r: Self)
        ensures
            r.value() == v,
            r.wf(),
    {
        let magnitude: u64 = if v < 0 {
            (-(v as i128)) as u64
        } else {
            v as u64
        };
        Integer::signed(v < 0, Natural::from_u64(magnitude))
    }

    /// The integer `v`.
    pub fn from_u64(v: u64) -> (r: Self)
        ensures
            r.value() == v,
            r.wf(),
    {
        Integer::signed(false, Natural::from_u64(v))
    }

    /// The position of the highest set bit of a non-negative integer.
    pub fn ilog2(&self) -> (r: usize)
        requires
            self.wf(),
            self.value() >= 0,
            self.abs.inner@.len() <= usize::MAX / 64,
        ensures
            r == self.abs.ilog2_spec(),
    {
        self.abs.ilog2()
    }

    /// Reads an optional minus sign and decimal digits; `-0` is zero.
    pub fn from_decimal(s: &str) -> (r: Result<Integer, ParseNaturalError>)
        ensures
            ({
                let b = s.spec_bytes();
                let neg = b.len() > 0 && b[0] == 45;
                let digits = if neg {
                    b.subrange(1, b.len() as int)
                } else {
                    b
                };
                &&& r is Ok <==> (digits.len() > 0 && all_digits(digits))
                &&& r matches Ok(n) ==> n.wf() && n.value() == if neg {
                    -(decimal_value(digits) as int)
                } else {
                    decimal_value(digits) as int
                }
            }),
    {
        let b = s.as_bytes();
        let neg = b.len() > 0 && b[0] == 45;
        let digits = if neg {
            b.split_at(1).1
        } else {
            b
        };
        let abs = match Natural::from_decimal_bytes(digits) {
            Ok(n) => n,
            Err(e) => {
                return Err(e);
            },
        };
        Ok(Integer::signed(neg, abs))
    }

    /// The decimal form: a minus sign for negative numbers, then the digits.
    pub fn to_decimal(&self) -> (r: Vec<u8>)
        requires
            self.wf(),
            self.abs.inner@.len() < usize::MAX / 128,
        ensures
            self.sign ==> r@.len() >= 1 && r@[0] == 45 && decimal_value(r@.subrange(1, r@.len() as int))
                == self.abs.value(),
            !self.sign ==> decimal_value(r@) == self.abs.value(),
    {
        let digits = self.abs.to_decimal();
        if self.sign {
            let mut out: Vec<u8> = Vec::new();
            out.push(45);
            crate::wire::push_all(&mut out, digits.as_slice());
            assert(out@.subrange(1, out@.len() as int) =~= digits@);
            out
        } else {
            digits
        }
    }

    /// The sum.
    pub fn add_integer(&self, rhs: &Integer) -> (r: Integer)
        requires
            self.wf(),
            rhs.wf(),
        ensures
            r.value() == self.value() + rhs.value(),
            r.wf(),
    {
        if self.sign == rhs.sign {
            Integer::signed(self.sign, self.abs.add_natural(&rhs.abs))
        } else if !matches!(self.abs.compare(&rhs.abs), Ordering::Greater) {
            Integer::signed(rhs.sign, rhs.abs.sub_natural(&self.abs))
        } else {
            Integer::signed(self.sign, self.abs.sub_natural(&rhs.abs))
        }
    }

    /// The negation.
    pub fn negate(&self) -> (r: Integer)
        requires
            self.wf(),
        ensures
            r.value() == -self.value(),
            r.wf(),
    {
        Integer::signed(!self.sign, self.abs.duplicate())
    }

    /// The difference.
    pub fn sub_integer(&self, rhs: &Integer) -> (r: Integer)
        requires
            self.wf(),
            rhs.wf(),
        ensures
            r.value() == self.value() - rhs.value(),
            r.wf(),
    {
        self.add_integer(&rhs.negate())
    }

    /// The product.
    pub fn mul_integer(&self, rhs: &Integer) -> (r: Integer)
        requires
            self.wf(),
            rhs.wf(),
        ensures
            r.value() == self.value() * rhs.value(),
            r.wf(),
    {
        let abs = self.abs.mul_natural(&rhs.abs);
        proof {
            let (a, b) = (self.abs.value() as int, rhs.abs.value() as int);
            assert((-a) * b == -(a * b) && a * (-b) == -(a * b) && (-a) * (-b) == a * b) by (nonlinear_arith);
        }
        Integer::signed(self.sign != rhs.sign, abs)
    }

    /// The integer times two to the power `bits`.
    pub fn shl_bits(&self, bits: usize) -> (r: Integer)
        requires
            self.wf(),
        ensures
            r.value() == self.value() * pow2(bits as nat),
            r.wf(),
    {
        let abs = self.abs.shl_bits(bits);
        proof {
            let (a, p) = (self.abs.value() as int, pow2(bits as nat) as int);
            assert((-a) * p == -(a * p)) by (nonlinear_arith);
        }
        Integer::signed(self.sign, abs)
    }

    /// The magnitude shifted right by `bits`; a negative number whose low bits were not all
    /// zero has the shifted magnitude doubled.
    pub fn shr_bits(&self, bits: usize) -> (r: Integer)
        requires
            self.wf(),
        ensures
            r.wf(),
            ({
                let q = self.abs.value() / pow2(bits as nat);
                let m = if self.sign && q != 0 && q * pow2(bits as nat) != self.abs.value() {
                    2 * q
                } else {
                    q
                };
                r.abs.value() == m && r.sign == (self.sign && m != 0)
            }),
    {
        let mut abs = self.abs.shr_bits(bits);
        if self.sign && !abs.is_zero() {
            let back = abs.shl_bits(bits);
            proof {
                crate::natural::lemma_cmp_is_numeric(back.inner@, self.abs.inner@);
            }
            if !(back == self.abs) {
                abs = abs.shl_bits(1);
                proof {
                    vstd::arithmetic::power2::lemma2_to64();
                }
            }
        }
        Integer::signed(self.sign, abs)
    }

    /// The quotient and the non-negative remainder of the division by a non-zero integer:
    /// `self == quotient * rhs + remainder` with `0 <= remainder < |rhs|`.
    pub fn quot_rem(self, rhs: Integer) -> (r: (Integer, Natural))
        requires
            self.wf(),
            rhs.wf(),
            rhs.value() != 0,
            self.abs.inner@.len() < usize::MAX / 128,
        ensures
            r.0.value() * rhs.value() + r.1.value() == self.value(),
            r.1.value() < rhs.abs.value(),
            r.0.wf(),
            r.1.wf(),
    {
        let (quotient, remainder) = self.abs.duplicate().quot_rem(rhs.abs.duplicate());
        let sign = self.sign != rhs.sign;
        proof {
            let (q, rr, b) = (quotient.value() as int, remainder.value() as int, rhs.abs.value() as int);
            assert((-q) * b == -(q * b) && q * (-b) == -(q * b) && (-q) * (-b) == q * b) by (nonlinear_arith);
            assert((-(q + 1)) * b == -(q * b) - b && (q + 1) * (-b) == -(q * b) - b && (-(q + 1)) * (-b) == q * b + b)
                by (nonlinear_arith);
        }
        if self.sign && !remainder.is_zero() {
            let q1 = quotient.add_natural(&Natural::one());
            let r1 = rhs.abs.sub_natural(&remainder);
            (Integer::signed(sign, q1), r1)
        } else {
            (Integer::signed(sign, quotient), remainder)
        }
    }

    /// The order of the two integers.
    pub fn compare(&self, other: &Integer) -> (r: Ordering)
        requires
            self.wf(),
            other.wf(),
        ensures
            r == int_cmp(self.value(), other.value()),
    {
        match (self.sign, other.sign) {
            (false, false) => self.abs.compare(&other.abs),
            (true, true) => match self.abs.compare(&other.abs) {
                Ordering::Less => Ordering::Greater,
                Ordering::Equal => Ordering::Equal,
                Ordering::Greater => Ordering::Less,
            },
            (true, false) => Ordering::Less,
            (false, true) => Ordering::Greater,
        }
    }
}

/// The order as the signs, then the magnitudes' limbs, say it.
pub open spec fn integer_order(a: Integer, b: Integer) -> Ordering {
    match (a.sign, b.sign) {
        (false, false) => cmp_limbs(a.abs.inner@, b.abs.inner@),
        (true, true) => match cmp_limbs(a.abs.inner@, b.abs.inner@) {
            Ordering::Less => Ordering::Greater,
            Ordering::Equal => Ordering::Equal,
            Ordering::Greater => Ordering::Less,
        },
        (true, false) => Ordering::Less,
        (false, true) => Ordering::Greater,
    }
}

impl PartialEq for Integer {
    fn eq(&self, other: &Integer) -> (r: bool) {
        self.sign == other.sign && self.abs == other.abs
    }
}

impl vstd::std_specs::cmp::PartialEqSpecImpl for Integer {
    open spec fn obeys_eq_spec() -> bool {
        true
    }

    open spec fn eq_spec(&self, other: &Integer) -> bool {
        self.sign == other.sign && self.abs.inner@ == other.abs.inner@
    }
}

impl Eq for Integer {
}

impl PartialOrd for Integer {
    fn partial_cmp(&self, other: &Integer) -> (r: Option<Ordering>) {
        let o = match (self.sign, other.sign) {
            (false, false) => self.abs.compare(&other.abs),
            (true, true) => match self.abs.compare(&other.abs) {
                Ordering::Less => Ordering::Greater,
                Ordering::Equal => Ordering::Equal,
                Ordering::Greater => Ordering::Less,
            },
            (true, false) => Ordering::Less,
            (false, true) => Ordering::Greater,
        };
        Some(o)
    }
}

impl vstd::std_specs::cmp::PartialOrdSpecImpl for Integer {
    open spec fn obeys_partial_cmp_spec() -> bool {
        true
    }

    open spec fn partial_cmp_spec(&self, other: &Integer) -> Option<Ordering> {
        Some(integer_order(*self, *other))
    }
}

impl std::str::FromStr for Integer {
    type Err = ParseNaturalError;

    fn from_str(s: &str) -> Result<Integer, ParseNaturalError> {
        Integer::from_decimal(s)
    }
}

impl std::ops::Add for Integer {
    type Output = Integer;

    fn add(self, rhs: Integer) -> (r: Integer) {
        self.add_integer(&rhs)
    }
}

impl vstd::std_specs::ops::AddSpecImpl for Integer {
    open spec fn obeys_add_spec() -> bool {
        false
    }

    open spec fn add_req(self, rhs: Integer) -> bool {
        self.wf() && rhs.wf()
    }

    open spec fn add_spec(self, rhs: Integer) -> Integer {
        vstd::pervasive::arbitrary()
    }
}

impl std::ops::Sub for Integer {
    type Output = Integer;

    fn sub(self, rhs: Integer) -> (r: Integer) {
        self.sub_integer(&rhs)
    }
}

impl vstd::std_specs::ops::SubSpecImpl for Integer {
    open spec fn obeys_sub_spec() -> bool {
        false
    }

    open spec fn sub_req(self, rhs: Integer) -> bool {
        self.wf() && rhs.wf()
    }

    open spec fn sub_spec(self, rhs: Integer) -> Integer {
        vstd::pervasive::arbitrary()
    }
}

impl std::ops::Mul for Integer {
    type Output = Integer;

    fn mul(self, rhs: Integer) -> (r: Integer) {
        self.mul_integer(&rhs)
    }
}

impl vstd::std_specs::ops::MulSpecImpl for Integer {
    open spec fn obeys_mul_spec() -> bool {
        false
    }

    open spec fn mul_req(self, rhs: Integer) -> bool {
        self.wf() && rhs.wf()
    }

    open spec fn mul_spec(self, rhs: Integer) -> Integer {
        vstd::pervasive::arbitrary()
    }
}

impl std::ops::Shl<usize> for Integer {
    type Output = Integer;

    fn shl(self, rhs: usize) -> (r: Integer) {
        self.shl_bits(rhs)
    }
}

impl vstd::std_specs::ops::ShlSpecImpl<usize> for Integer {
    open spec fn obeys_shl_spec() -> bool {
        false
    }

    open spec fn shl_req(self, rhs: usize) -> bool {
        self.wf()
    }

    open spec fn shl_spec(self, rhs: usize) -> Integer {
        vstd::pervasive::arbitrary()
    }
}

impl std::ops::Shr<usize> for Integer {
    type Output = Integer;

    fn shr(self, rhs: usize) -> (r: Integer) {
        self.shr_bits(rhs)
    }
}

impl vstd::std_specs::ops::ShrSpecImpl<usize> for Integer {
    open spec fn obeys_shr_spec() -> bool {
        false
    }

    open spec fn shr_req(self, rhs: usize) -> bool {
        self.wf()
    }

    open spec fn shr_spec(self, rhs: usize) -> Integer {
        vstd::pervasive::arbitrary()
    }
}

impl From<i8> for Integer {
    fn from(v: i8) -> (r: Integer) {
        Integer::from_i64(v as i64)
    }
}

impl vstd::std_specs::convert::FromSpecImpl<i8> for Integer {
    open spec fn obeys_from_spec() -> bool {
        false
    }

    open spec fn from_spec(v: i8) -> Integer {
        vstd::pervasive::arbitrary()
    }
}

impl From<i16> for Integer {
    fn from(v: i16) -> (r: Integer) {
        Integer::from_i64(v as i64)
    }
}

impl vstd::std_specs::convert::FromSpecImpl<i16> for Integer {
    open spec fn obeys_from_spec() -> bool {
        false
    }

    open spec fn from_spec(v: i16) -> Integer {
        vstd::pervasive::arbitrary()
    }
}

impl From<i32> for Integer {
    fn from(v: i32) -> (r: Integer) {
        Integer::from_i64(v as i64)
    }
}

impl vstd::std_specs::convert::FromSpecImpl<i32> for Integer {
    open spec fn obeys_from_spec() -> bool {
        false
    }

    open spec fn from_spec(v: i32) -> Integer {
        vstd::pervasive::arbitrary()
    }
}

impl From<i64> for Integer {
    fn from(v: i64) -> (r: Integer) {
        Integer::from_i64(v)
    }
}

impl vstd::std_specs::convert::FromSpecImpl<i64> for Integer {
    open spec fn obeys_from_spec() -> bool {
        false
    }

    open spec fn from_spec(v: i64) -> Integer {
        vstd::pervasive::arbitrary()
    }
}

impl From<isize> for Integer {
    fn from(v: isize) -> (r: Integer) {
        Integer::from_i64(v as i64)
    }
}

impl vstd::std_specs::convert::FromSpecImpl<isize> for Integer {
    open spec fn obeys_from_spec() -> bool {
        false
    }

    open spec fn from_spec(v: isize) -> Integer {
        vstd::pervasive::arbitrary()
    }
}

impl From<u8> for Integer {
    fn from(v: u8) -> (r: Integer) {
        Integer::from_u64(v as u64)
    }
}

impl vstd::std_specs::convert::FromSpecImpl<u8> for Integer {
    open spec fn obeys_from_spec() -> bool {
        false
    }

    open spec fn from_spec(v: u8) -> Integer {
        vstd::pervasive::arbitrary()
    }
}

impl From<u16> for Integer {
    fn from(v: u16) -> (r: Integer) {
        Integer::from_u64(v as u64)
    }
}

impl vstd::std_specs::convert::FromSpecImpl<u16> for Integer {
    open spec fn obeys_from_spec() -> bool {
        false
    }

    open spec fn from_spec(v: u16) -> Integer {
        vstd::pervasive::arbitrary()
    }
}

impl From<u32> for Integer {
    fn from(v: u32) -> (r: Integer) {
        Integer::from_u64(v as u64)
    }
}

impl vstd::std_specs::convert::FromSpecImpl<u32> for Integer {
    open spec fn obeys_from_spec() -> bool {
        false
    }

    open spec fn from_spec(v: u32) -> Integer {
        vstd::pervasive::arbitrary()
    }
}

impl From<u64> for Integer {
    fn from(v: u64) -> (r: Integer) {
        Integer::from_u64(v)
    }
}

impl vstd::std_specs::convert::FromSpecImpl<u64> for Integer {
    open spec fn obeys_from_spec() -> bool {
        false
    }

    open spec fn from_spec(v: u64) -> Integer {
        vstd::pervasive::arbitrary()
    }
}

impl From<usize> for Integer {
    fn from(v: usize) -> (r: Integer) {
        Integer::from_u64(v as u64)
    }
}

impl vstd::std_specs::convert::FromSpecImpl<usize> for Integer {
    open spec fn obeys_from_spec() -> bool {
        false
    }

    open spec fn from_spec(v: usize) -> Integer {
        vstd::pervasive::arbitrary()
    }
}

} // verus!
