//! Selections of bits from within byte slices
use vstd::prelude::*;
use vstd::std_specs::convert::FromSpecImpl;

use crate::u8_ops::{bytes_bit, lemma_bytes_with_bit, U8Ops};

verus! {

/// A selection of `n` bits from bit `lsb` upwards within a byte slice
#[derive(Clone, Copy)]
pub struct BitRange<'a> {
    lsb: usize,
    n: usize,
    data: &'a [u8],
}

impl<'a> BitRange<'a> {
    /// The selection of `n` bits from bit `lsb` upwards of `data`
    pub closed spec fn spec_new(lsb: usize, n: usize, data: &'a [u8]) -> BitRange<'a> {
        BitRange { lsb, n, data }
    }

    pub closed spec fn spec_lsb(self) -> nat {
        self.lsb as nat
    }

    pub closed spec fn spec_n(self) -> nat {
        self.n as nat
    }

    pub closed spec fn spec_data(self) -> Seq<u8> {
        self.data@
    }

    /// Bit `i` of the selection
    pub open spec fn spec_bit(self, i: int) -> bool {
        bytes_bit(self.spec_data(), self.spec_lsb() + i)
    }

    /// Create a BitRange from provided data
    ///
    /// lsb + n should be no more than the size in bits of data
    pub fn of_u8s(data: &'a [u8], lsb: usize, n: usize) -> (r: Self)
        ensures
            r.spec_lsb() == lsb,
            r.spec_n() == n,
            r.spec_data() == data@,
    {
        Self { lsb, n, data }
    }

    /// The number of bits in the selection
    pub fn num_bits(&self) -> (r: usize)
        ensures
            r == self.spec_n(),
    {
        self.n
    }

    /// Bit `i` of the selection
    pub fn bit_at(&self, i: usize) -> (r: bool)
        requires
            i < self.spec_n(),
            self.spec_lsb() + self.spec_n() <= 8 * self.spec_data().len(),
            self.spec_lsb() + self.spec_n() <= usize::MAX,
        ensures
            r == self.spec_bit(i as int),
    {
        self.data.bit_nb_rt(self.lsb + i)
    }
}

/// A mutable selection of `n` bits from bit `lsb` upwards within a byte
/// slice
pub struct BitRangeMut<'a> {
    pub lsb: usize,
    pub n: usize,
    pub data: &'a mut [u8],
}

impl<'a> BitRangeMut<'a> {
    pub closed spec fn spec_lsb(self) -> nat {
        self.lsb as nat
    }

    pub closed spec fn spec_n(self) -> nat {
        self.n as nat
    }

    pub closed spec fn spec_data(self) -> Seq<u8> {
        self.data@
    }

    /// Create a BitRangeMut from a given data slice and bits
    ///
    /// lsb + n should be no more than the size in bits of data; the
    /// slice holds whatever the selection last wrote to it once the
    /// selection is dropped
    pub fn of_u8s(data: &'a mut [u8], lsb: usize, n: usize) -> (r: Self)
        ensures
            r.spec_lsb() == lsb,
            r.spec_n() == n,
            r.spec_data() == old(data)@,
            final(data)@ == final(r.data)@,

    {
        Self { lsb, n, data }
    }

    /// The number of bits in the selection
    pub fn num_bits(&self) -> (r: usize)
        ensures
            r == self.spec_n(),
    {
        self.n
    }

    /// Set the bits to those of a BitRange, where `NB` is the size of both
    /// selections
    pub fn set<const NB: usize>(&mut self, other: BitRange<'a>)
        requires
            old(self).spec_n() == NB,
            other.spec_n() == NB,
            old(self).spec_lsb() + old(self).spec_n() <= 8 * old(self).spec_data().len(),
            other.spec_lsb() + other.spec_n() <= 8 * other.spec_data().len(),
            old(self).spec_lsb() + old(self).spec_n() <= usize::MAX,
            other.spec_lsb() + other.spec_n() <= usize::MAX,
        ensures
            final(self).spec_lsb() == old(self).spec_lsb(),
            final(self).spec_n() == old(self).spec_n(),
            final(self).spec_data().len() == old(self).spec_data().len(),
            forall|m: int|
                0 <= m < 8 * old(self).spec_data().len() ==> #[trigger] bytes_bit(
                    final(self).spec_data(),
                    m,
                ) == if old(self).spec_lsb() <= m < old(self).spec_lsb() + NB {
                    other.spec_bit(m - old(self).spec_lsb())
                } else {
                    bytes_bit(old(self).spec_data(), m)
                },
    {
        self.set_rt(other);
    }

    /// Set the bits to those of a BitRange of the same width, where bit
    /// positions are checked against the sizes of the data
    pub fn set_rt(&mut self, other: BitRange<'a>)
        requires
            old(self).spec_n() == other.spec_n(),
            old(self).spec_lsb() + old(self).spec_n() <= 8 * old(self).spec_data().len(),
            other.spec_lsb() + other.spec_n() <= 8 * other.spec_data().len(),
            old(self).spec_lsb() + old(self).spec_n() <= usize::MAX,
            other.spec_lsb() + other.spec_n() <= usize::MAX,
        ensures
            final(self).spec_lsb() == old(self).spec_lsb(),
            final(self).spec_n() == old(self).spec_n(),
            final(self).spec_data().len() == old(self).spec_data().len(),
            forall|m: int|
                0 <= m < 8 * old(self).spec_data().len() ==> #[trigger] bytes_bit(
                    final(self).spec_data(),
                    m,
                ) == if old(self).spec_lsb() <= m < old(self).spec_lsb() + old(self).spec_n() {
                    other.spec_bit(m - old(self).spec_lsb())
                } else {
                    bytes_bit(old(self).spec_data(), m)
                },
    {
        let ghost d0 = self.data@;
        let mut i: usize = 0;
        while i < self.n
            invariant
                0 <= i <= self.n,
                self.n == old(self).spec_n(),
                self.lsb == old(self).spec_lsb(),
                self.lsb + self.n <= 8 * d0.len(),
                other.spec_lsb() + other.spec_n() <= 8 * other.spec_data().len(),
                other.spec_n() == self.n,
                self.lsb + self.n <= usize::MAX,
                other.spec_lsb() + other.spec_n() <= usize::MAX,
                self.data@.len() == d0.len(),
                d0 == old(self).spec_data(),
                forall|m: int|
                    0 <= m < 8 * d0.len() ==> #[trigger] bytes_bit(self.data@, m) == if self.lsb
                        <= m < self.lsb + i {
                        other.spec_bit(m - self.lsb)
                    } else {
                        bytes_bit(d0, m)
                    },
            decreases self.n - i,
        {
            let b = other.data.bit_nb_rt(other.lsb + i);
            let ghost before = self.data@;
            self.data.bit_set_nb_rt(self.lsb + i, b);
            proof {
                assert forall|m: int| 0 <= m < 8 * d0.len() implies #[trigger] bytes_bit(
                    self.data@,
                    m,
                ) == if self.lsb <= m < self.lsb + i + 1 {
                    other.spec_bit(m - self.lsb)
                } else {
                    bytes_bit(d0, m)
                } by {
                    lemma_bytes_with_bit(before, self.lsb + i, b, m);
                }
            }
            i = i + 1;
        }
    }
}

impl<'a> From<BitRangeMut<'a>> for BitRange<'a> {
    fn from(f: BitRangeMut<'a>) -> (r: BitRange<'a>)
        ensures
            r.spec_lsb() == f.lsb,
            r.spec_n() == f.n,
            r.spec_data() == old(f.data)@,
    {
        BitRange { lsb: f.lsb, n: f.n, data: f.data }
    }
}

impl<'a> FromSpecImpl<BitRangeMut<'a>> for BitRange<'a> {
    open spec fn obeys_from_spec() -> bool {
        true
    }

    open spec fn from_spec(f: BitRangeMut<'a>) -> BitRange<'a> {
        BitRange::spec_new(f.lsb, f.n, &*f.data)
    }
}

} // verus!
