//! The simulated single bit
use vstd::prelude::*;
use vstd::std_specs::convert::FromSpecImpl;
use vstd::std_specs::ops::{BitAndSpecImpl, BitOrSpecImpl, BitXorSpecImpl, NotSpecImpl};

verus! {

/// A single simulated bit, false ([Bit::F]) or true ([Bit::T])
#[derive(Debug, Clone, Copy, PartialEq, Eq, Structural, Hash, PartialOrd, Ord)]
pub enum Bit {
    F,
    T,
}

impl Bit {
    /// The truth value of the bit
    pub open spec fn view(self) -> bool {
        self is T
    }

    /// The bit with the given truth value
    pub open spec fn spec_of(b: bool) -> Bit {
        if b {
            Bit::T
        } else {
            Bit::F
        }
    }

    /// The bit with the given truth value
    pub fn of_bool(b: bool) -> (r: Bit)
        ensures
            r == Bit::spec_of(b),
            r@ == b,
    {
        if b {
            Bit::T
        } else {
            Bit::F
        }
    }

    /// A random bit from a drawn number: its lowest bit
    pub fn randomize(draw: u64) -> (r: Bit)
        ensures
            r@ == (draw & 1 == 1),
    {
        Bit::of_bool(draw & 1 == 1)
    }

    /// Return true if the bit is set
    pub fn is_true(&self) -> (r: bool)
        ensures
            r == self@,
    {
        match self {
            Bit::T => true,
            Bit::F => false,
        }
    }

    /// Return true if the bit is clear
    pub fn is_false(&self) -> (r: bool)
        ensures
            r == !self@,
    {
        !self.is_true()
    }
}

impl Default for Bit {
    fn default() -> (r: Bit)
        ensures
            r == Bit::F,
    {
        Bit::F
    }
}

impl std::ops::Deref for Bit {
    type Target = bool;

    fn deref(&self) -> (r: &bool)
        ensures
            *r == self@,
    {
        match self {
            Bit::T => &true,
            Bit::F => &false,
        }
    }
}

impl From<bool> for Bit {
    fn from(b: bool) -> (r: Bit) {
        Bit::of_bool(b)
    }
}

impl FromSpecImpl<bool> for Bit {
    open spec fn obeys_from_spec() -> bool {
        true
    }

    open spec fn from_spec(b: bool) -> Bit {
        Bit::spec_of(b)
    }
}

impl From<Bit> for bool {
    fn from(b: Bit) -> (r: bool) {
        b.is_true()
    }
}

impl FromSpecImpl<Bit> for bool {
    open spec fn obeys_from_spec() -> bool {
        true
    }

    open spec fn from_spec(b: Bit) -> bool {
        b@
    }
}

impl std::ops::Not for Bit {
    type Output = Bit;

    fn not(self) -> (r: Bit) {
        Bit::of_bool(!self.is_true())
    }
}

impl NotSpecImpl for Bit {
    open spec fn obeys_not_spec() -> bool {
        true
    }

    open spec fn not_req(self) -> bool {
        true
    }

    open spec fn not_spec(self) -> Bit {
        Bit::spec_of(!self@)
    }
}

impl std::ops::BitAnd for Bit {
    type Output = Bit;

    fn bitand(self, other: Bit) -> (r: Bit) {
        Bit::of_bool(self.is_true() && other.is_true())
    }
}

impl BitAndSpecImpl for Bit {
    open spec fn obeys_bitand_spec() -> bool {
        true
    }

    open spec fn bitand_req(self, rhs: Bit) -> bool {
        true
    }

    open spec fn bitand_spec(self, rhs: Bit) -> Bit {
        Bit::spec_of(self@ && rhs@)
    }
}

impl std::ops::BitAndAssign for Bit {
    fn bitand_assign(&mut self, other: Bit)
        ensures
            final(self)@ == (old(self)@ && other@),
    {
        *self = Bit::of_bool(self.is_true() && other.is_true());
    }
}

impl<'a> std::ops::BitAnd<&'a Bit> for Bit {
    type Output = Bit;

    fn bitand(self, other: &'a Bit) -> (r: Bit) {
        Bit::of_bool(self.is_true() && other.is_true())
    }
}

impl<'a> BitAndSpecImpl<&'a Bit> for Bit {
    open spec fn obeys_bitand_spec() -> bool {
        true
    }

    open spec fn bitand_req(self, rhs: &'a Bit) -> bool {
        true
    }

    open spec fn bitand_spec(self, rhs: &'a Bit) -> Bit {
        Bit::spec_of(self@ && rhs@)
    }
}

impl<'a> std::ops::BitAndAssign<&'a Bit> for Bit {
    fn bitand_assign(&mut self, other: &'a Bit)
        ensures
            final(self)@ == (old(self)@ && other@),
    {
        *self = Bit::of_bool(self.is_true() && other.is_true());
    }
}

impl std::ops::BitAnd<bool> for Bit {
    type Output = Bit;

    fn bitand(self, other: bool) -> (r: Bit) {
        Bit::of_bool(self.is_true() && other)
    }
}

impl BitAndSpecImpl<bool> for Bit {
    open spec fn obeys_bitand_spec() -> bool {
        true
    }

    open spec fn bitand_req(self, rhs: bool) -> bool {
        true
    }

    open spec fn bitand_spec(self, rhs: bool) -> Bit {
        Bit::spec_of(self@ && rhs)
    }
}

impl std::ops::BitAndAssign<bool> for Bit {
    fn bitand_assign(&mut self, other: bool)
        ensures
            final(self)@ == (old(self)@ && other),
    {
        *self = Bit::of_bool(self.is_true() && other);
    }
}

impl std::ops::BitOr for Bit {
    type Output = Bit;

    fn bitor(self, other: Bit) -> (r: Bit) {
        Bit::of_bool(self.is_true() || other.is_true())
    }
}

impl BitOrSpecImpl for Bit {
    open spec fn obeys_bitor_spec() -> bool {
        true
    }

    open spec fn bitor_req(self, rhs: Bit) -> bool {
        true
    }

    open spec fn bitor_spec(self, rhs: Bit) -> Bit {
        Bit::spec_of(self@ || rhs@)
    }
}

impl std::ops::BitOrAssign for Bit {
    fn bitor_assign(&mut self, other: Bit)
        ensures
            final(self)@ == (old(self)@ || other@),
    {
        *self = Bit::of_bool(self.is_true() || other.is_true());
    }
}

impl<'a> std::ops::BitOr<&'a Bit> for Bit {
    type Output = Bit;

    fn bitor(self, other: &'a Bit) -> (r: Bit) {
        Bit::of_bool(self.is_true() || other.is_true())
    }
}

impl<'a> BitOrSpecImpl<&'a Bit> for Bit {
    open spec fn obeys_bitor_spec() -> bool {
        true
    }

    open spec fn bitor_req(self, rhs: &'a Bit) -> bool {
        true
    }

    open spec fn bitor_spec(self, rhs: &'a Bit) -> Bit {
        Bit::spec_of(self@ || rhs@)
    }
}

impl<'a> std::ops::BitOrAssign<&'a Bit> for Bit {
    fn bitor_assign(&mut self, other: &'a Bit)
        ensures
            final(self)@ == (old(self)@ || other@),
    {
        *self = Bit::of_bool(self.is_true() || other.is_true());
    }
}

impl std::ops::BitOr<bool> for Bit {
    type Output = Bit;

    fn bitor(self, other: bool) -> (r: Bit) {
        Bit::of_bool(self.is_true() || other)
    }
}

impl BitOrSpecImpl<bool> for Bit {
    open spec fn obeys_bitor_spec() -> bool {
        true
    }

    open spec fn bitor_req(self, rhs: bool) -> bool {
        true
    }

    open spec fn bitor_spec(self, rhs: bool) -> Bit {
        Bit::spec_of(self@ || rhs)
    }
}

impl std::ops::BitOrAssign<bool> for Bit {
    fn bitor_assign(&mut self, other: bool)
        ensures
            final(self)@ == (old(self)@ || other),
    {
        *self = Bit::of_bool(self.is_true() || other);
    }
}

impl std::ops::BitXor for Bit {
    type Output = Bit;

    fn bitxor(self, other: Bit) -> (r: Bit) {
        Bit::of_bool(self.is_true() != other.is_true())
    }
}

impl BitXorSpecImpl for Bit {
    open spec fn obeys_bitxor_spec() -> bool {
        true
    }

    open spec fn bitxor_req(self, rhs: Bit) -> bool {
        true
    }

    open spec fn bitxor_spec(self, rhs: Bit) -> Bit {
        Bit::spec_of(self@ != rhs@)
    }
}

impl std::ops::BitXorAssign for Bit {
    fn bitxor_assign(&mut self, other: Bit)
        ensures
            final(self)@ == (old(self)@ != other@),
    {
        *self = Bit::of_bool(self.is_true() != other.is_true());
    }
}

impl<'a> std::ops::BitXor<&'a Bit> for Bit {
    type Output = Bit;

    fn bitxor(self, other: &'a Bit) -> (r: Bit) {
        Bit::of_bool(self.is_true() != other.is_true())
    }
}

impl<'a> BitXorSpecImpl<&'a Bit> for Bit {
    open spec fn obeys_bitxor_spec() -> bool {
        true
    }

    open spec fn bitxor_req(self, rhs: &'a Bit) -> bool {
        true
    }

    open spec fn bitxor_spec(self, rhs: &'a Bit) -> Bit {
        Bit::spec_of(self@ != rhs@)
    }
}

impl<'a> std::ops::BitXorAssign<&'a Bit> for Bit {
    fn bitxor_assign(&mut self, other: &'a Bit)
        ensures
            final(self)@ == (old(self)@ != other@),
    {
        *self = Bit::of_bool(self.is_true() != other.is_true());
    }
}

impl std::ops::BitXor<bool> for Bit {
    type Output = Bit;

    fn bitxor(self, other: bool) -> (r: Bit) {
        Bit::of_bool(self.is_true() != other)
    }
}

impl BitXorSpecImpl<bool> for Bit {
    open spec fn obeys_bitxor_spec() -> bool {
        true
    }

    open spec fn bitxor_req(self, rhs: bool) -> bool {
        true
    }

    open spec fn bitxor_spec(self, rhs: bool) -> Bit {
        Bit::spec_of(self@ != rhs)
    }
}

impl std::ops::BitXorAssign<bool> for Bit {
    fn bitxor_assign(&mut self, other: bool)
        ensures
            final(self)@ == (old(self)@ != other),
    {
        *self = Bit::of_bool(self.is_true() != other);
    }
}

} // verus!
