//! Arbitrary-precision integers for constant expressions.
//!
//! A [`Num`] is a sign and a little-endian sequence of base-2^32 limbs, kept
//! canonical: no trailing zero limb, and zero is never negative. The heavy
//! lifting of arithmetic is done by the `num` crate behind a trusted
//! wrapper; the mathematical value of a `Num` is pinned by [`Num::spec_int`].

use vstd::prelude::*;

verus! {

/// The integer a little-endian limb sequence denotes.
pub open spec fn mag_int(s: Seq<u32>) -> int
    decreases s.len(),
{
    if s.len() == 0 {
        0
    } else {
        s[0] + 4294967296 * mag_int(s.drop_first())
    }
}

/// The integer a sign and limb sequence denote.
pub open spec fn signed_int(negative: bool, s: Seq<u32>) -> int {
    if negative {
        -mag_int(s)
    } else {
        mag_int(s)
    }
}

/// A sign-magnitude arbitrary-precision integer.
#[derive(Debug)]
pub struct Num {
    /// True for values below zero.
    pub negative: bool,
    /// Base-2^32 limbs, least significant first.
    pub mag: Vec<u32>,
}

/// Relies on `num`'s `BigInt::new` (which reads base-2^32 digits least
/// significant first), unary negation (which flips the sign) and
/// `to_u32_digits` (which returns the sign and the normalised digits, with
/// no trailing zero limb and a non-minus sign for zero).
#[verifier::external_body]
fn bigint_negate(negative: bool, mag: &Vec<u32>) -> (r: (bool, Vec<u32>))
    ensures
        signed_int(r.0, r.1@) == -signed_int(negative, mag@),
        r.1@.len() > 0 ==> r.1@.last() != 0,
        r.0 ==> r.1@.len() > 0,
{
    let sign = if negative { num::bigint::Sign::Minus } else { num::bigint::Sign::Plus };
    let value = num::BigInt::new(sign, mag.clone());
    let (nsign, digits) = (-value).to_u32_digits();
    (nsign == num::bigint::Sign::Minus, digits)
}

impl Num {
    /// The integer this value denotes.
    pub open spec fn spec_int(&self) -> int {
        signed_int(self.negative, self.mag@)
    }

    /// Canonical form: no trailing zero limb, and zero is non-negative.
    pub open spec fn wf(&self) -> bool {
        &&& self.mag@.len() > 0 ==> self.mag@.last() != 0
        &&& self.negative ==> self.mag@.len() > 0
    }

    /// The value zero.
    pub fn zero() -> (r: Num)
        ensures
            r.wf(),
            r.spec_int() == 0,
    {
        Num { negative: false, mag: Vec::new() }
    }

    /// The value of a single unsigned limb.
    pub fn from_u32(v: u32) -> (r: Num)
        ensures
            r.wf(),
            r.spec_int() == v,
    {
        let mut mag: Vec<u32> = Vec::new();
        if v != 0 {
            mag.push(v);
        }
        let r = Num { negative: false, mag };
        proof {
            if v != 0 {
                assert(r.mag@.len() == 1);
                assert(r.mag@[0] == v);
                assert(r.mag@.drop_first() =~= Seq::<u32>::empty());
                assert(mag_int(Seq::<u32>::empty()) == 0);
                assert(mag_int(r.mag@) == v + 4294967296 * mag_int(r.mag@.drop_first()));
            }
        }
        r
    }

    /// A copy of this value.
    pub fn duplicate(&self) -> (r: Num)
        ensures
            r.negative == self.negative,
            r.mag@ == self.mag@,
    {
        Num { negative: self.negative, mag: crate::copy_vec(&self.mag) }
    }

    /// The negated value, canonical whatever the input was.
    pub fn negate(&self) -> (r: Num)
        ensures
            r.wf(),
            r.spec_int() == -self.spec_int(),
    {
        let (negative, mag) = bigint_negate(self.negative, &self.mag);
        Num { negative, mag }
    }

    /// Structural equality: same sign, same limbs.
    pub fn eq_num(&self, other: &Num) -> (r: bool)
        ensures
            r == (self.negative == other.negative && self.mag@ == other.mag@),
    {
        if self.negative != other.negative {
            return false;
        }
        if self.mag.len() != other.mag.len() {
            proof {
                assert(self.mag@.len() != other.mag@.len());
            }
            return false;
        }
        let mut i: usize = 0;
        while i < self.mag.len()
            invariant
                i <= self.mag@.len(),
                self.mag@.len() == other.mag@.len(),
                forall|j: int| 0 <= j < i ==> self.mag@[j] == other.mag@[j],
            decreases self.mag@.len() - i,
        {
            if self.mag[i] != other.mag[i] {
                return false;
            }
            i = i + 1;
        }
        proof {
            assert(self.mag@ =~= other.mag@);
        }
        true
    }
}

} // verus!
