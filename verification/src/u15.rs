//! Machine words of the architecture: unsigned integers below 2^15, with
//! arithmetic modulo 32768.
use vstd::prelude::*;
use crate::text::{decimal, push_decimal};

verus! {

/// The largest value a machine word can hold.
pub const MAX: u16 = 32767;

/// The modulus of all machine arithmetic.
pub const MATH_MODULO: u16 = 32768;

/// A 15-bit machine word.
#[derive(Debug, Clone, Copy, PartialEq, Eq, Structural, PartialOrd, Ord, Hash)]
pub struct U15(u16);

impl View for U15 {
    type V = u16;

    closed spec fn view(&self) -> u16 {
        self.0
    }
}

impl U15 {
    /// Every word lies below 2^15.
    #[verifier::type_invariant]
    pub closed spec fn inv(self) -> bool {
        self.0 < 32768
    }

    /// What the invariant says of the value.
    pub broadcast proof fn lemma_inv_range(x: U15)
        requires
            #[trigger] x.inv(),
        ensures
            x@ < 32768,
    {
    }

    /// The word with the given value; meaningful for values below 32768.
    pub closed spec fn spec_new(v: u16) -> U15 {
        U15(v)
    }

    /// The value of the word made from a value.
    pub broadcast proof fn lemma_spec_new_view(v: u16)
        ensures
            #[trigger] U15::spec_new(v)@ == v,
    {
    }

    /// A word is determined by its value.
    pub broadcast proof fn lemma_view_injective(x: U15)
        ensures
            x == U15::spec_new(#[trigger] x@),
    {
    }

    /// Makes a word; the value must fit in 15 bits.
    pub fn new(v: u16) -> (r: U15)
        requires
            v <= MAX,
        ensures
            r@ == v,
    {
        U15(v)
    }

    /// Makes a word from a signed number; the number must lie in 0..=32767.
    pub fn from_i32(num: i32) -> (r: U15)
        requires
            0 <= num <= MAX,
        ensures
            r@ == num,
    {
        U15(num as u16)
    }

    /// The character with this code; the value must fit in a byte.
    pub fn to_char(&self) -> (c: char)
        requires
            self@ <= 255,
        ensures
            c == (self@ as u8) as char,
    {
        self.0 as u8 as char
    }

    /// The value as an index.
    pub fn to_idx(&self) -> (r: usize)
        ensures
            r == self@ as usize,
            r < 32768,
    {
        proof {
            use_type_invariant(self);
        }
        self.0 as usize
    }

    /// The value as a 16-bit integer.
    pub fn to_u16(&self) -> (r: u16)
        ensures
            r == self@,
            r < 32768,
    {
        proof {
            use_type_invariant(self);
        }
        self.0
    }
}

impl U15 {
    /// The decimal representation of the value.
    pub fn to_text(&self) -> (s: String)
        ensures
            s@ == decimal(self@ as nat),
    {
        let mut s = String::new();
        push_decimal(&mut s, self.0 as u64);
        assert(s@ =~= decimal(self@ as nat));
        s
    }
}

impl core::ops::Add<U15> for U15 {
    type Output = U15;

    fn add(self, other: U15) -> (r: U15) {
        proof {
            use_type_invariant(&self);
            use_type_invariant(&other);
        }
        U15((self.0 + other.0) % 32768)
    }
}

impl vstd::std_specs::ops::AddSpecImpl<U15> for U15 {
    open spec fn obeys_add_spec() -> bool {
        true
    }

    open spec fn add_req(self, other: U15) -> bool {
        true
    }

    open spec fn add_spec(self, other: U15) -> U15 {
        U15::spec_new(((self@ + other@) % 32768) as u16)
    }
}


impl core::ops::Add<u16> for U15 {
    type Output = U15;

    fn add(self, other: u16) -> (r: U15) {
        proof {
            use_type_invariant(&self);
        }
        U15((self.0 + other) % 32768)
    }
}

impl vstd::std_specs::ops::AddSpecImpl<u16> for U15 {
    open spec fn obeys_add_spec() -> bool {
        true
    }

    /// The sum is formed in 16 bits before the reduction, so it must not overflow.
    open spec fn add_req(self, other: u16) -> bool {
        self@ + other < 65536
    }

    open spec fn add_spec(self, other: u16) -> U15 {
        U15::spec_new(((self@ + other) % 32768) as u16)
    }
}

impl core::ops::Mul<U15> for U15 {
    type Output = U15;

    fn mul(self, other: U15) -> (r: U15) {
        proof {
            use_type_invariant(&self);
            use_type_invariant(&other);
            assert(self.0 as u32 * other.0 as u32 <= 32767 * 32767) by (nonlinear_arith)
                requires
                    self.0 < 32768,
                    other.0 < 32768,
            ;
        }
        U15(((self.0 as u32 * other.0 as u32) % 32768) as u16)
    }
}

impl vstd::std_specs::ops::MulSpecImpl<U15> for U15 {
    open spec fn obeys_mul_spec() -> bool {
        true
    }

    open spec fn mul_req(self, other: U15) -> bool {
        true
    }

    open spec fn mul_spec(self, other: U15) -> U15 {
        U15::spec_new(((self@ * other@) % 32768) as u16)
    }
}

impl core::ops::Rem<U15> for U15 {
    type Output = U15;

    fn rem(self, other: U15) -> (r: U15) {
        proof {
            use_type_invariant(&self);
            let (a, b) = (self.0, other.0);
            assert(a % b <= a) by (nonlinear_arith)
                requires
                    b > 0,
            ;
        }
        U15(self.0 % other.0)
    }
}

impl vstd::std_specs::ops::RemSpecImpl<U15> for U15 {
    open spec fn obeys_rem_spec() -> bool {
        true
    }

    /// The divisor must not be zero.
    open spec fn rem_req(self, other: U15) -> bool {
        other@ != 0
    }

    open spec fn rem_spec(self, other: U15) -> U15 {
        U15::spec_new((self@ % other@) as u16)
    }
}

impl core::ops::Sub<U15> for U15 {
    type Output = U15;

    fn sub(self, other: U15) -> (r: U15) {
        proof {
            use_type_invariant(&self);
        }
        U15(self.0 - other.0)
    }
}

impl vstd::std_specs::ops::SubSpecImpl<U15> for U15 {
    open spec fn obeys_sub_spec() -> bool {
        true
    }

    /// Subtraction does not wrap: the difference must not be negative.
    open spec fn sub_req(self, other: U15) -> bool {
        self@ >= other@
    }

    open spec fn sub_spec(self, other: U15) -> U15 {
        U15::spec_new((self@ - other@) as u16)
    }
}

impl core::ops::BitAnd<U15> for U15 {
    type Output = U15;

    fn bitand(self, other: U15) -> (r: U15) {
        proof {
            use_type_invariant(&self);
            let (a, b) = (self.0, other.0);
            assert(a < 32768 ==> a & b < 32768) by (bit_vector);
        }
        U15(self.0 & other.0)
    }
}

impl vstd::std_specs::ops::BitAndSpecImpl<U15> for U15 {
    open spec fn obeys_bitand_spec() -> bool {
        true
    }

    open spec fn bitand_req(self, other: U15) -> bool {
        true
    }

    open spec fn bitand_spec(self, other: U15) -> U15 {
        U15::spec_new(self@ & other@)
    }
}

impl core::ops::BitOr<U15> for U15 {
    type Output = U15;

    fn bitor(self, other: U15) -> (r: U15) {
        proof {
            use_type_invariant(&self);
            use_type_invariant(&other);
            let (a, b) = (self.0, other.0);
            assert(a < 32768 && b < 32768 ==> a | b < 32768) by (bit_vector);
        }
        U15(self.0 | other.0)
    }
}

impl vstd::std_specs::ops::BitOrSpecImpl<U15> for U15 {
    open spec fn obeys_bitor_spec() -> bool {
        true
    }

    open spec fn bitor_req(self, other: U15) -> bool {
        true
    }

    open spec fn bitor_spec(self, other: U15) -> U15 {
        U15::spec_new(self@ | other@)
    }
}

impl core::ops::Not for U15 {
    type Output = U15;

    /// The 15-bit complement: the low fifteen bits flipped.
    fn not(self) -> (r: U15) {
        proof {
            use_type_invariant(&self);
        }
        let a: u16 = self.0;
        let flipped: u16 = 1u16 << 15u16 ^ !a;
        assert(a < 32768 ==> flipped == 32767 - a) by (bit_vector)
            requires
                flipped == 1u16 << 15u16 ^ !a,
        ;
        U15(flipped)
    }
}

impl vstd::std_specs::ops::NotSpecImpl for U15 {
    open spec fn obeys_not_spec() -> bool {
        true
    }

    open spec fn not_req(self) -> bool {
        true
    }

    open spec fn not_spec(self) -> U15 {
        U15::spec_new((32767 - self@) as u16)
    }
}

impl core::convert::From<u8> for U15 {
    fn from(num: u8) -> (r: U15) {
        U15(num as u16)
    }
}

impl vstd::std_specs::convert::FromSpecImpl<u8> for U15 {
    open spec fn obeys_from_spec() -> bool {
        true
    }

    open spec fn from_spec(num: u8) -> U15 {
        U15::spec_new(num as u16)
    }
}

/// Taking the complement twice gives the word back.
pub proof fn law_not_involution(x: U15)
    requires
        x@ < 32768,
    ensures
        U15::spec_new((32767 - (32767 - x@) as u16) as u16) == x,
{
}

/// Adding 32767 modulo 32768 steps a nonzero word down by one, and zero up
/// to 32767.
pub proof fn law_add_max_is_predecessor(x: U15)
    requires
        x@ < 32768,
    ensures
        (x@ + 32767) % 32768 == if x@ == 0 {
            32767
        } else {
            x@ - 1
        },
{
}

/// Subtracting what was added gives the word back, when the sum did not wrap.
pub proof fn law_sub_undoes_add(x: U15, y: U15)
    requires
        x@ + y@ < 32768,
    ensures
        ((((x@ + y@) % 32768) as u16) - y@) as u16 == x@,
{
}

/// Addition and multiplication of words do not depend on the order of the operands.
pub proof fn law_add_mul_commutative(x: U15, y: U15)
    ensures
        (x@ + y@) % 32768 == (y@ + x@) % 32768,
        (x@ * y@) % 32768 == (y@ * x@) % 32768,
{
    assert(x@ * y@ == y@ * x@) by (nonlinear_arith);
}

} // verus!
