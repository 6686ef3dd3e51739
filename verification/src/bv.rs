//! Bit vectors of a width given at compile time
use vstd::arithmetic::div_mod::*;
use vstd::arithmetic::mul::*;
use vstd::arithmetic::power2::*;
use vstd::bits::*;
use vstd::prelude::*;
use vstd::std_specs::cmp::{PartialEqSpecImpl, PartialOrdSpecImpl};
use vstd::std_specs::ops::{
    AddSpecImpl, BitAndSpecImpl, BitOrSpecImpl, BitXorSpecImpl, NotSpecImpl, ShlSpecImpl, ShrSpecImpl,
    SubSpecImpl,
};

use crate::bit::Bit;
use crate::bit_range::BitRange;
use crate::bytes::{
    add_bytes, bits_value, bytes_value, lemma_bits_value_append, lemma_bits_value_clear,
    lemma_bytes_bits_value, lemma_bytes_value_zero,
};
use crate::u8_ops::{byte_bit, bytes_bit};

verus! {

/// The largest width of a [Bv] that is stored in full
pub const BV_MAX_BITS: usize = 264;

/// The number of bytes of storage of a [Bv]
pub const BV_MAX_BYTES: usize = 33;

/// The number of bits stored for a [Bv] of `nb` bits
pub open spec fn bv_width(nb: nat) -> nat {
    if nb <= 264 {
        nb
    } else {
        264
    }
}

/// The number of bytes that hold the bits of a [Bv] of `nb` bits
pub open spec fn bv_bytes(nb: nat) -> nat {
    (bv_width(nb) + 7) / 8
}

/// The number of bits held in the top byte of a [Bv] of `nb` bits
pub open spec fn bv_top_bits(nb: nat) -> nat {
    (bv_width(nb) - 8 * (bv_bytes(nb) - 1)) as nat
}

/// Storage of an `nb`-bit vector: no bit is set at or above the width
pub open spec fn clean_bytes(s: Seq<u8>, nb: nat) -> bool {
    &&& s.len() == 33
    &&& forall|k: int| bv_bytes(nb) <= k < 33 ==> s[k] == 0
    &&& bv_bytes(nb) > 0 ==> s[bv_bytes(nb) - 1] < pow2(bv_top_bits(nb))
}

/// A byte below 2^r has no bit set from bit r upwards
proof fn lemma_byte_below(b: u8, r: nat)
    requires
        r <= 8,
    ensures
        (b < pow2(r)) == (r == 8 || (b >> (r as u8)) == 0),
{
    lemma2_to64();
    if r < 8 {
        lemma_u8_shr_is_div(b, r as u8);
        lemma_pow2_pos(r);
        if b < pow2(r) {
            lemma_basic_div(b as int, pow2(r) as int);
        } else {
            lemma_div_is_ordered(pow2(r) as int, b as int, pow2(r) as int);
            lemma_div_by_self(pow2(r) as int);
        }
    }
}

/// Bits of a byte below 2^r at or above bit r are clear
proof fn lemma_byte_below_bits(b: u8, r: nat, j: int)
    requires
        r <= j < 8,
        b < pow2(r),
    ensures
        !byte_bit(b, j),
{
    lemma_byte_below(b, r);
    let rr = r as u8;
    let jj = j as u8;
    assert((b >> rr) == 0 ==> (b >> jj) & 1 == 0) by (bit_vector)
        requires
            rr <= jj < 8,
    ;
}

/// The bits of a byte combined bitwise
proof fn lemma_byte_ops(a: u8, b: u8, j: int)
    requires
        0 <= j < 8,
    ensures
        byte_bit(a & b, j) == (byte_bit(a, j) && byte_bit(b, j)),
        byte_bit(a | b, j) == (byte_bit(a, j) || byte_bit(b, j)),
        byte_bit(a ^ b, j) == (byte_bit(a, j) != byte_bit(b, j)),
        byte_bit(!a, j) == !byte_bit(a, j),
        !byte_bit(0, j),
        byte_bit(255, j),
{
    let jj = j as u8;
    assert(((a & b) >> jj) & 1 == 1 <==> ((a >> jj) & 1 == 1 && (b >> jj) & 1 == 1))
        by (bit_vector)
        requires
            jj < 8,
    ;
    assert(((a | b) >> jj) & 1 == 1 <==> ((a >> jj) & 1 == 1 || (b >> jj) & 1 == 1))
        by (bit_vector)
        requires
            jj < 8,
    ;
    assert(((a ^ b) >> jj) & 1 == 1 <==> ((a >> jj) & 1 == 1) != ((b >> jj) & 1 == 1))
        by (bit_vector)
        requires
            jj < 8,
    ;
    assert(((!a) >> jj) & 1 == 1 <==> !((a >> jj) & 1 == 1)) by (bit_vector)
        requires
            jj < 8,
    ;
    assert((0u8 >> jj) & 1 == 0) by (bit_vector);
    assert((255u8 >> jj) & 1 == 1) by (bit_vector)
        requires
            jj < 8,
    ;
}

/// A byte is zero exactly when none of its bits is set
proof fn lemma_byte_zero(b: u8)
    ensures
        (b == 0) == (forall|j: int| 0 <= j < 8 ==> !#[trigger] byte_bit(b, j)),
{
    if b != 0 {
        assert(b != 0 ==> ((b >> 0u8) & 1 == 1 || (b >> 1u8) & 1 == 1 || (b >> 2u8) & 1 == 1 || (b
            >> 3u8) & 1 == 1 || (b >> 4u8) & 1 == 1 || (b >> 5u8) & 1 == 1 || (b >> 6u8) & 1 == 1
            || (b >> 7u8) & 1 == 1)) by (bit_vector);
        assert(byte_bit(b, 0) || byte_bit(b, 1) || byte_bit(b, 2) || byte_bit(b, 3) || byte_bit(
            b,
            4,
        ) || byte_bit(b, 5) || byte_bit(b, 6) || byte_bit(b, 7));
    } else {
        assert forall|j: int| 0 <= j < 8 implies !#[trigger] byte_bit(b, j) by {
            lemma_byte_ops(b, b, j);
        }
    }
}

/// The masked complement of a byte is below the mask
proof fn lemma_not_masked(a: u8, r: nat, j: int)
    requires
        1 <= r <= 8,
        0 <= j < 8,
    ensures
        ((!a) & ((pow2(r) - 1) as u8)) < pow2(r),
        byte_bit((!a) & ((pow2(r) - 1) as u8), j) == (j < r && !byte_bit(a, j)),
{
    lemma2_to64();
    let rr = r as u8;
    let jj = j as u8;
    let m: u8 = ((pow2(r) - 1) as u8);
    if r < 8 {
        lemma_u8_pow2_no_overflow(r);
        lemma_u8_shl_is_mul(1, rr);
        assert(m == (1u8 << rr) - 1);
        assert(((!a) & m) >> rr == 0) by (bit_vector)
            requires
                rr < 8,
                m + 1 == (1u8 << rr),
        ;
        lemma_byte_below((!a) & m, r);
        assert((((!a) & m) >> jj) & 1 == 1 <==> (jj < rr && !((a >> jj) & 1 == 1)))
            by (bit_vector)
            requires
                rr < 8,
                jj < 8,
                m + 1 == (1u8 << rr),
        ;
    } else {
        assert(m == 255);
        assert((((!a) & 255u8) >> jj) & 1 == 1 <==> !((a >> jj) & 1 == 1)) by (bit_vector)
            requires
                jj < 8,
        ;
    }
}

/// Combined bytes below 2^r stay below 2^r
proof fn lemma_ops_below(a: u8, b: u8, r: nat)
    requires
        r <= 8,
        a < pow2(r),
        b < pow2(r),
    ensures
        a & b < pow2(r),
        a | b < pow2(r),
        a ^ b < pow2(r),
{
    lemma_byte_below(a, r);
    lemma_byte_below(b, r);
    lemma_byte_below(a & b, r);
    lemma_byte_below(a | b, r);
    lemma_byte_below(a ^ b, r);
    if r < 8 {
        let rr = r as u8;
        assert((a >> rr) == 0 && (b >> rr) == 0 ==> ((a & b) >> rr) == 0 && ((a | b) >> rr) == 0
            && ((a ^ b) >> rr) == 0) by (bit_vector);
    }
}

/// A marker for the width of a bit vector
pub struct BvN<const NB: usize>();

/// A bit vector of `NB` bits (of which at most [BV_MAX_BITS] are
/// stored), with wrapping arithmetic on its unsigned value
#[derive(Clone, Copy, Eq)]
pub struct Bv<const NB: usize> {
    data: [u8; 33],
}

impl<const NB: usize> Bv<NB> {
    /// The storage bytes, little-endian
    pub closed spec fn bytes(self) -> Seq<u8> {
        self.data@
    }

    #[verifier::type_invariant]
    spec fn inv(self) -> bool {
        clean_bytes(self.data@, NB as nat)
    }

    /// The bits of the vector, least significant first
    pub open spec fn view(self) -> Seq<bool> {
        Seq::new(bv_width(NB as nat), |i: int| bytes_bit(self.bytes(), i))
    }

    /// The storage holds no bit beyond the width, as every vector that
    /// the library makes does
    pub open spec fn is_valid(self) -> bool {
        clean_bytes(self.bytes(), NB as nat)
    }

    /// The unsigned value of the vector
    pub open spec fn value(self) -> nat {
        bytes_value(self.bytes().take(bv_bytes(NB as nat) as int))
    }

    /// The number of bits held
    pub fn width() -> (r: usize)
        ensures
            r == bv_width(NB as nat),
    {
        if NB <= BV_MAX_BITS {
            NB
        } else {
            BV_MAX_BITS
        }
    }

    /// The number of bytes that hold the bits
    pub fn num_bytes() -> (r: usize)
        ensures
            r == bv_bytes(NB as nat),
            r <= 33,
    {
        (Self::width() + 7) / 8
    }

    /// The number of bits in the top byte
    fn top_bits() -> (r: usize)
        requires
            bv_bytes(NB as nat) > 0,
        ensures
            r == bv_top_bits(NB as nat),
            1 <= r <= 8,
    {
        Self::width() - 8 * (Self::num_bytes() - 1)
    }

    /// A vector from storage with no bit set beyond its width
    fn of_data(data: [u8; 33]) -> (r: Self)
        requires
            clean_bytes(data@, NB as nat),
        ensures
            r.bytes() == data@,
    {
        Bv { data }
    }

    /// Bits at or beyond the width are clear in the storage
    proof fn lemma_clean_bits(self, i: int)
        requires
            clean_bytes(self.bytes(), NB as nat),
            bv_width(NB as nat) <= i < 264,
        ensures
            !bytes_bit(self.bytes(), i),
    {
        let nb = bv_bytes(NB as nat);
        if i / 8 >= nb {
            lemma_byte_ops(0, 0, i % 8);
        } else {
            assert(i / 8 == nb - 1);
            lemma_byte_below_bits(self.data[i / 8], bv_top_bits(NB as nat), i % 8);
        }
    }

    /// The number of bits of the vector
    pub fn num_bits(&self) -> (r: usize)
        ensures
            r == NB,
    {
        NB
    }

    /// The vector with all bits clear
    pub fn zero_value() -> (r: Self)
        ensures
            r.is_valid(),
            r.value() == 0,
            forall|i: int| 0 <= i < bv_width(NB as nat) ==> !#[trigger] r@[i],
    {
        let data = [0u8; 33];
        proof {
            lemma2_to64();
            lemma_pow2_pos(bv_top_bits(NB as nat));
            lemma_bytes_value_zero(data@.take(bv_bytes(NB as nat) as int));
            assert forall|i: int| 0 <= i < bv_width(NB as nat) implies !bytes_bit(data@, i) by {
                lemma_byte_ops(0, 0, i % 8);
            }
        }
        Self::of_data(data)
    }

    /// Clear the bit vector
    pub fn zero(&mut self)
        ensures
            final(self).is_valid(),
            final(self).value() == 0,
            forall|i: int| 0 <= i < bv_width(NB as nat) ==> !#[trigger] final(self)@[i],
    {
        *self = Self::zero_value();
    }

    /// The storage bytes of the vector, little-endian
    pub fn as_u8s(&self) -> (r: &[u8])
        ensures
            r@ == self.bytes().take(bv_bytes(NB as nat) as int),
            r@.len() == bv_bytes(NB as nat),
            self.is_valid(),
            bytes_value(r@) == self.value(),
            forall|i: int| 0 <= i < bv_width(NB as nat) ==> #[trigger] self@[i] == bytes_bit(r@, i),
    {
        proof {
            use_type_invariant(self);
        }
        let n = Self::num_bytes();
        let s = self.data.as_slice();
        let (lo, _hi) = s.split_at(n);
        lo
    }

    /// Get a bit value
    pub fn bit(&self, n: usize) -> (r: bool)
        requires
            n < bv_width(NB as nat),
        ensures
            r == self@[n as int],
    {
        let b = self.data[n / 8];
        let j = (n % 8) as u8;
        let x = (b >> j) & 1;
        assert(x != 0 <==> x == 1) by (bit_vector)
            requires
                x == (b >> j) & 1,
        ;
        x != 0
    }

    /// Get a bit value as a [Bit]
    pub fn bit_as_bit(&self, n: usize) -> (r: Bit)
        requires
            n < bv_width(NB as nat),
        ensures
            r@ == self@[n as int],
    {
        if self.bit(n) {
            Bit::T
        } else {
            Bit::F
        }
    }

    /// Set a bit value
    pub fn bit_set(&mut self, n: usize, v: bool)
        requires
            n < bv_width(NB as nat),
        ensures
            final(self).is_valid(),
            final(self)@ == old(self)@.update(n as int, v),
    {
        proof {
            use_type_invariant(&*self);
        }
        let mut data = self.data;
        let nb = n / 8;
        let j = (n % 8) as u8;
        let m: u8 = 1u8 << j;
        let ghost d0 = data@;
        if v {
            data[nb] = data[nb] | m;
        } else {
            data[nb] = data[nb] & !m;
        }
        proof {
            assert(data@ == crate::u8_ops::bytes_with_bit(d0, n as int, v));
            assert forall|i: int| 0 <= i < 264 implies #[trigger] bytes_bit(data@, i) == if i
                == n {
                v
            } else {
                bytes_bit(d0, i)
            } by {
                crate::u8_ops::lemma_bytes_with_bit(d0, n as int, v, i);
            }
            // the top byte stays clean
            let nbs = bv_bytes(NB as nat);
            let tb = bv_top_bits(NB as nat);
            if nb == nbs - 1 {
                lemma_byte_below(d0[nb as int], tb);
                lemma_byte_below(data[nb as int], tb);
                if tb < 8 {
                    let t = tb as u8;
                    let x = d0[nb as int];
                    assert(j < t);
                    assert((x >> t) == 0 ==> ((x | (1u8 << j)) >> t) == 0 && ((x & !(1u8 << j))
                        >> t) == 0) by (bit_vector)
                        requires
                            j < t,
                            t < 8,
                    ;
                }
            }
            let newv = Self::view_of(data@);
            assert(newv =~= old(self)@.update(n as int, v));
        }
        *self = Self::of_data(data);
    }

    /// The view of a vector with the given storage
    spec fn view_of(data: Seq<u8>) -> Seq<bool> {
        Seq::new(bv_width(NB as nat), |i: int| bytes_bit(data, i))
    }

    /// Return true if the value is zero
    pub fn is_zero(&self) -> (r: bool)
        ensures
            r == (self.value() == 0),
            r == (forall|i: int| 0 <= i < bv_width(NB as nat) ==> !#[trigger] self@[i]),
    {
        proof {
            use_type_invariant(self);
        }
        let n = Self::num_bytes();
        let mut i: usize = 0;
        let ghost s = self.data@.take(n as int);
        while i < n
            invariant
                n == bv_bytes(NB as nat),
                n <= 33,
                i <= n,
                s == self.data@.take(n as int),
                clean_bytes(self.data@, NB as nat),
                forall|k: int| 0 <= k < i ==> self.data[k] == 0,
            decreases n - i,
        {
            if self.data[i] != 0 {
                proof {
                    lemma_bytes_value_zero(s);
                    assert(s[i as int] != 0);
                    self.lemma_zero_bits(i as int);
                }
                return false;
            }
            i = i + 1;
        }
        proof {
            lemma_bytes_value_zero(s);
            assert forall|i: int| 0 <= i < bv_width(NB as nat) implies !#[trigger] self@[i] by {
                lemma_byte_zero(self.data[i / 8]);
                assert(!byte_bit(self.data[i / 8], i % 8));
            }
        }
        true
    }

    /// A nonzero byte within the vector holds a set bit of the vector
    proof fn lemma_zero_bits(self, k: int)
        requires
            clean_bytes(self.bytes(), NB as nat),
            0 <= k < bv_bytes(NB as nat),
            self.bytes()[k] != 0,
        ensures
            !(forall|i: int| 0 <= i < bv_width(NB as nat) ==> !#[trigger] self@[i]),
    {
        lemma_byte_zero(self.data[k]);
        let j = choose|j: int| 0 <= j < 8 && #[trigger] byte_bit(self.data[k], j);
        let i = 8 * k + j;
        if i >= bv_width(NB as nat) {
            self.lemma_clean_bits(i);
            assert(i / 8 == k);
            assert(i % 8 == j);
        }
        assert(i / 8 == k);
        assert(i % 8 == j);
        assert(self@[i]);
    }

    /// Combine the storage of two vectors byte by byte: `op` 0 is and,
    /// 1 is or, 2 is exclusive or
    fn combine(&self, other: &Self, op: u8) -> (r: Self)
        requires
            op <= 2,
        ensures
            forall|i: int|
                0 <= i < bv_width(NB as nat) ==> #[trigger] r@[i] == if op == 0 {
                    self@[i] && other@[i]
                } else if op == 1 {
                    self@[i] || other@[i]
                } else {
                    self@[i] != other@[i]
                },
    {
        proof {
            use_type_invariant(self);
            use_type_invariant(other);
        }
        let mut data = self.data;
        let mut k: usize = 0;
        while k < 33
            invariant
                k <= 33,
                op <= 2,
                forall|q: int| k <= q < 33 ==> data[q] == self.data[q],
                forall|q: int|
                    0 <= q < k ==> #[trigger] data[q] == if op == 0 {
                        self.data[q] & other.data[q]
                    } else if op == 1 {
                        self.data[q] | other.data[q]
                    } else {
                        self.data[q] ^ other.data[q]
                    },
            decreases 33 - k,
        {
            let a = data[k];
            let b = other.data[k];
            data[k] = if op == 0 {
                a & b
            } else if op == 1 {
                a | b
            } else {
                a ^ b
            };
            k = k + 1;
        }
        proof {
            let nb = bv_bytes(NB as nat);
            assert forall|q: int| nb <= q < 33 implies data[q] == 0 by {
                let a = self.data[q];
                let b = other.data[q];
                assert(a == 0 && b == 0 ==> a & b == 0 && a | b == 0 && a ^ b == 0) by (bit_vector);
            }
            if nb > 0 {
                lemma_ops_below(self.data[nb - 1], other.data[nb - 1], bv_top_bits(NB as nat));
            }
            assert forall|i: int| 0 <= i < bv_width(NB as nat) implies #[trigger] bytes_bit(
                data@,
                i,
            ) == if op == 0 {
                bytes_bit(self.data@, i) && bytes_bit(other.data@, i)
            } else if op == 1 {
                bytes_bit(self.data@, i) || bytes_bit(other.data@, i)
            } else {
                bytes_bit(self.data@, i) != bytes_bit(other.data@, i)
            } by {
                lemma_byte_ops(self.data[i / 8], other.data[i / 8], i % 8);
            }
        }
        Self::of_data(data)
    }

    /// Bitwise and with another vector
    pub fn bit_and(&mut self, other: &Self)
        ensures
            final(self).is_valid(),
            forall|i: int|
                0 <= i < bv_width(NB as nat) ==> #[trigger] final(self)@[i] == (old(self)@[i]
                    && other@[i]),
    {
        *self = self.combine(other, 0);
        proof {
            use_type_invariant(&*self);
        }
    }

    /// Bitwise or with another vector
    pub fn bit_or(&mut self, other: &Self)
        ensures
            final(self).is_valid(),
            forall|i: int|
                0 <= i < bv_width(NB as nat) ==> #[trigger] final(self)@[i] == (old(self)@[i]
                    || other@[i]),
    {
        *self = self.combine(other, 1);
        proof {
            use_type_invariant(&*self);
        }
    }

    /// Bitwise exclusive or with another vector
    pub fn bit_xor(&mut self, other: &Self)
        ensures
            final(self).is_valid(),
            forall|i: int|
                0 <= i < bv_width(NB as nat) ==> #[trigger] final(self)@[i] == (old(self)@[i]
                    != other@[i]),
    {
        *self = self.combine(other, 2);
        proof {
            use_type_invariant(&*self);
        }
    }

    /// Invert every bit of the vector
    pub fn bit_not(&mut self)
        ensures
            final(self).is_valid(),
            forall|i: int|
                0 <= i < bv_width(NB as nat) ==> #[trigger] final(self)@[i] == !old(self)@[i],
    {
        proof {
            use_type_invariant(&*self);
        }
        let n = Self::num_bytes();
        let mut data = self.data;
        let mut k: usize = 0;
        while k < n
            invariant
                n == bv_bytes(NB as nat),
                n <= 33,
                k <= n,
                forall|q: int| k <= q < 33 ==> data[q] == self.data[q],
                forall|q: int| 0 <= q < k && q + 1 < n ==> #[trigger] data[q] == !self.data[q],
                n > 0 && k == n ==> data[n - 1] == (!self.data[n - 1]) & ((pow2(
                    bv_top_bits(NB as nat),
                ) - 1) as u8),
            decreases n - k,
        {
            if k + 1 < n {
                data[k] = !data[k];
            } else {
                let m = crate::utils::mask_u8_zero_none(Self::top_bits());
                proof {
                    lemma2_to64();
                }
                data[k] = (!data[k]) & m;
            }
            k = k + 1;
        }
        proof {
            let nb = bv_bytes(NB as nat);
            let tb = bv_top_bits(NB as nat);
            if nb > 0 {
                lemma_not_masked(self.data[nb - 1], tb, 0);
            }
            assert forall|i: int| 0 <= i < bv_width(NB as nat) implies #[trigger] bytes_bit(
                data@,
                i,
            ) == !bytes_bit(self.data@, i) by {
                if i / 8 + 1 < nb {
                    lemma_byte_ops(self.data[i / 8], self.data[i / 8], i % 8);
                } else {
                    lemma_not_masked(self.data[i / 8], tb, i % 8);
                }
            }
        }
        *self = Self::of_data(data);
    }

    /// Add another vector, wrapping modulo 2 to the width
    pub fn add_msk(&mut self, other: &Self)
        ensures
            final(self).is_valid(),
            final(self).value() == (old(self).value() + other.value()) % pow2(
                bv_width(NB as nat),
            ),
    {
        proof {
            use_type_invariant(&*self);
            use_type_invariant(other);
        }
        let n = Self::num_bytes();
        if n == 0 {
            proof {
                lemma2_to64();
            }
            return;
        }
        let data = add_bytes(&self.data, &other.data, 0, n, Self::top_bits());
        *self = Self::of_data(data);
    }

    /// Subtract another vector, wrapping modulo 2 to the width
    pub fn sub_msk(&mut self, other: &Self)
        ensures
            final(self).is_valid(),
            final(self).value() == (old(self).value() + pow2(bv_width(NB as nat)) - other.value())
                % (pow2(bv_width(NB as nat)) as int),
    {
        proof {
            use_type_invariant(&*self);
            use_type_invariant(other);
        }
        let n = Self::num_bytes();
        if n == 0 {
            proof {
                lemma2_to64();
            }
            return;
        }
        let mut inv: [u8; 33] = other.data;
        let mut k: usize = 0;
        while k < 33
            invariant
                k <= 33,
                forall|q: int| k <= q < 33 ==> inv[q] == other.data[q],
                forall|q: int| 0 <= q < k ==> #[trigger] inv[q] + other.data[q] == 255,
            decreases 33 - k,
        {
            let b = inv[k];
            assert(!b + b == 255) by (bit_vector);
            inv[k] = !b;
            k = k + 1;
        }
        let ghost a_val = self.value();
        let data = add_bytes(&self.data, &inv, 1, n, Self::top_bits());
        proof {
            let w = bv_width(NB as nat);
            let nn = n as int;
            let b_val = other.value();
            crate::bytes::lemma_complement_value(other.data@, inv@, nn);
            // 2^(8n) is a multiple of 2^w
            let e = (8 * nn - w) as nat;
            lemma_pow2_adds(w, e);
            lemma_pow2_pos(w);
            lemma_pow2_pos(e);
            let pw = pow2(w) as int;
            let pn = pow2(8 * nn as nat) as int;
            assert(pn == pw * pow2(e));
            crate::bytes::lemma_bytes_value_bound(other.data@.take(nn));
            assert(b_val <= pw) by {
                if b_val > pw {
                    // the value of a clean vector is below 2^w
                    self.lemma_value_bound_of(other.data@);
                }
            }
            assert((a_val + (pn - 1 - b_val) + 1) % pw == (a_val + pw - b_val) % pw) by {
                lemma_mod_multiples_vanish((pow2(e) - 1) as int, a_val + pw - b_val, pw);
                assert(a_val + (pn - 1 - b_val) + 1 == pw * (pow2(e) - 1) + (a_val + pw - b_val))
                    by (nonlinear_arith)
                    requires
                        pn == pw * pow2(e),
                ;
            }
        }
        *self = Self::of_data(data);
    }

    /// The value of a clean storage is below 2 to the width
    proof fn lemma_value_bound_of(self, data: Seq<u8>)
        requires
            clean_bytes(data, NB as nat),
        ensures
            bytes_value(data.take(bv_bytes(NB as nat) as int)) < pow2(bv_width(NB as nat)),
    {
        let n = bv_bytes(NB as nat) as int;
        let w = bv_width(NB as nat);
        if n == 0 {
            lemma2_to64();
            assert(bytes_value(data.take(0)) == 0);
        } else {
            let t = bv_top_bits(NB as nat);
            crate::bytes::lemma_bytes_value_take(data, n - 1);
            crate::bytes::lemma_bytes_value_bound(data.take(n - 1));
            let p = pow2(8 * (n - 1) as nat);
            lemma_pow2_adds(8 * (n - 1) as nat, t);
            assert(8 * (n - 1) + t == w);
            assert(bytes_value(data.take(n)) < pow2(w)) by (nonlinear_arith)
                requires
                    bytes_value(data.take(n)) == bytes_value(data.take(n - 1)) + data[n - 1] * p,
                    bytes_value(data.take(n - 1)) < p,
                    data[n - 1] < pow2(t),
                    pow2(w) == p * pow2(t),
            ;
        }
    }

    /// The value of a vector is below 2 to its width
    pub proof fn lemma_value_bound(self)
        requires
            clean_bytes(self.bytes(), NB as nat),
        ensures
            self.value() < pow2(bv_width(NB as nat)),
    {
        self.lemma_value_bound_of(self.bytes());
    }

    /// Set the vector to a u64 value, modulo 2 to the width
    pub fn set_u64(&mut self, value: u64)
        ensures
            final(self).is_valid(),
            final(self).value() == (value as nat) % pow2(bv_width(NB as nat)),
    {
        let n = Self::num_bytes();
        let mut data = [0u8; 33];
        let mut cur: u64 = value;
        let mut i: usize = 0;
        proof {
            lemma2_to64();
            assert(bytes_value(data@.take(0)) == 0);
        }
        if n == 0 {
            proof {
                lemma_pow2_pos(bv_width(NB as nat));
                lemma_bytes_value_zero(data@.take(0));
            }
            *self = Self::of_data(data);
            return;
        }
        while i + 1 < n
            invariant
                n == bv_bytes(NB as nat),
                0 < n <= 33,
                i < n,
                forall|q: int| i <= q < 33 ==> data[q] == 0,
                bytes_value(data@.take(i as int)) == (value as nat) % pow2(8 * i as nat),
                cur == (value as nat) / pow2(8 * i as nat),
                pow2(8) == 256,
            decreases n - i,
        {
            let ghost d0 = data@;
            data[i] = (cur % 256) as u8;
            proof {
                let p = pow2(8 * i as nat);
                lemma_pow2_pos(8 * i as nat);
                assert(data@.take(i as int) =~= d0.take(i as int));
                crate::bytes::lemma_bytes_value_take(data@, i as int);
                lemma_pow2_adds(8 * i as nat, 8);
                assert(8 * (i + 1) == 8 * i + 8);
                lemma_mod_breakdown(value as int, p as int, 256);
                lemma_mul_is_commutative(p as int, (cur % 256) as int);
                lemma_u64_shr_is_div(cur, 8);
                lemma_div_denominator(value as int, p as int, 256);
            }
            cur = cur >> 8;
            i = i + 1;
        }
        let ghost d0 = data@;
        let tb = Self::top_bits();
        let m = crate::utils::mask_u8_zero_none(tb);
        data[i] = ((cur % 256) as u8) & m;
        proof {
            let p = pow2(8 * i as nat);
            let q = pow2(tb as nat);
            lemma_pow2_pos(8 * i as nat);
            lemma_pow2_pos(tb as nat);
            assert(data@.take(i as int) =~= d0.take(i as int));
            crate::bytes::lemma_bytes_value_take(data@, i as int);
            lemma_pow2_adds(8 * i as nat, tb as nat);
            let vv = (cur % 256) as u8;
            assert(q <= 256) by {
                if tb < 8 {
                    lemma_pow2_strictly_increases(tb as nat, 8);
                }
            }
            if tb < 8 {
                lemma_u8_low_bits_mask_is_mod(vv, tb as nat);
                lemma_u8_pow2_no_overflow(tb as nat);
                assert(256 == q * (256nat / q)) by {
                    assert(pow2(8) == pow2((8 - tb) as nat) * q) by {
                        lemma_pow2_adds((8 - tb) as nat, tb as nat);
                    }
                    lemma_mul_is_commutative(pow2((8 - tb) as nat) as int, q as int);
                    lemma_div_multiples_vanish(pow2((8 - tb) as nat) as int, q as int);
                }
                assert(256nat / q > 0) by {
                    if 256nat / q == 0 {
                        lemma_mul_basics(q as int);
                    }
                }
                lemma_mod_mod(cur as int, q as int, (256nat / q) as int);
            } else {
                assert(vv & 255 == vv) by (bit_vector);
            }
            assert(data[i as int] as nat == (cur as nat) % q);
            lemma_mod_breakdown(value as int, p as int, q as int);
            lemma_mul_is_commutative(p as int, ((cur as nat) % q) as int);
            assert(8 * i + tb == bv_width(NB as nat));
            lemma_u8_pow2_no_overflow(0);
        }
        *self = Self::of_data(data);
    }

    /// Create a vector of a u64 value, modulo 2 to the width
    pub fn of_u64(value: u64) -> (r: Self)
        ensures
            r.is_valid(),
            r.value() == (value as nat) % pow2(bv_width(NB as nat)),
    {
        let mut s = Self::zero_value();
        s.set_u64(value);
        s
    }

    /// A random vector from drawn numbers, one per storage byte: bit `k`
    /// is bit `k % 8` of `draws[k / 8]`, so the same draws give the same
    /// vector
    pub fn randomize(draws: &[u64]) -> (r: Self)
        requires
            draws@.len() >= bv_bytes(NB as nat),
        ensures
            r.is_valid(),
            forall|k: int|
                0 <= k < bv_width(NB as nat) ==> #[trigger] r@[k] == ((draws@[k / 8] >> ((k % 8)
                    as u64)) & 1 == 1),
    {
        let w = Self::width();
        let mut r = Self::zero_value();
        let mut k: usize = 0;
        while k < w
            invariant
                w == bv_width(NB as nat),
                k <= w,
                draws@.len() >= bv_bytes(NB as nat),
                r.is_valid(),
                forall|j: int|
                    0 <= j < w ==> #[trigger] r@[j] == if j < k {
                        (draws@[j / 8] >> ((j % 8) as u64)) & 1 == 1
                    } else {
                        false
                    },
            decreases w - k,
        {
            let b = (draws[k / 8] >> ((k % 8) as u64)) & 1 == 1;
            r.bit_set(k, b);
            k = k + 1;
        }
        r
    }

    /// The value as a u64, if the vector is no more than 64 bits wide
    pub fn try_as_u64(&self) -> (r: Option<u64>)
        ensures
            self.is_valid(),
            r == if NB > 64 {
                None::<u64>
            } else {
                Some(self.value() as u64)
            },
            NB <= 64 ==> self.value() <= u64::MAX,
    {
        proof {
            use_type_invariant(self);
        }
        if NB > 64 {
            return None;
        }
        let n = Self::num_bytes();
        let mut v: u64 = 0;
        let mut i: usize = 0;
        proof {
            lemma2_to64();
            lemma2_to64_rest();
            assert(bytes_value(self.data@.take(0)) == 0);
        }
        while i < n
            invariant
                n == bv_bytes(NB as nat),
                n <= 8,
                i <= n,
                v == bytes_value(self.data@.take(i as int)),
                pow2(64) == 0x1_0000_0000_0000_0000,
            decreases n - i,
        {
            proof {
                crate::bytes::lemma_bytes_value_take(self.data@, i as int);
                crate::bytes::lemma_bytes_value_bound(self.data@.take(i as int + 1));
                lemma_pow2_pos(8 * i as nat);
                if i < 7 {
                    lemma_pow2_strictly_increases(8 * (i + 1) as nat, 64);
                }
                assert(8 * (i + 1) <= 64);
                assert(pow2(8 * (i + 1) as nat) <= pow2(64)) by {
                    if i < 7 {
                        lemma_pow2_strictly_increases(8 * (i + 1) as nat, 64);
                    }
                }
                assert(self.data@.take(i as int + 1).len() == i + 1);
                assert((self.data[i as int] as nat) * pow2(8 * i as nat) <= u64::MAX);
                lemma_u64_shl_is_mul(self.data[i as int] as u64, (8 * i) as u64);
            }
            v = v + ((self.data[i] as u64) << ((8 * i) as u64));
            i = i + 1;
        }
        Some(v)
    }

    /// Shift left by `by` bits, filling with zeros
    pub fn bit_shl(&mut self, by: usize)
        ensures
            final(self).is_valid(),
            forall|i: int|
                0 <= i < bv_width(NB as nat) ==> #[trigger] final(self)@[i] == if i >= by {
                    old(self)@[i - by]
                } else {
                    false
                },
    {
        let w = Self::width();
        let mut r = Self::zero_value();
        let mut i: usize = by;
        while i < w
            invariant
                w == bv_width(NB as nat),
                by <= i,
                forall|k: int|
                    0 <= k < w ==> #[trigger] r@[k] == if by <= k < i {
                        self@[k - by]
                    } else {
                        false
                    },
            decreases w - i,
        {
            let b = self.bit(i - by);
            r.bit_set(i, b);
            i = i + 1;
        }
        *self = r;
        proof {
            use_type_invariant(&*self);
        }
    }

    /// Logical shift right by `by` bits, filling with zeros
    pub fn bit_lshr(&mut self, by: usize)
        ensures
            final(self).is_valid(),
            forall|i: int|
                0 <= i < bv_width(NB as nat) ==> #[trigger] final(self)@[i] == if i + by < bv_width(
                    NB as nat,
                ) {
                    old(self)@[i + by]
                } else {
                    false
                },
    {
        let w = Self::width();
        let mut r = Self::zero_value();
        if by < w {
            let mut i: usize = 0;
            while i < w - by
                invariant
                    w == bv_width(NB as nat),
                    by < w,
                    i <= w - by,
                    forall|k: int|
                        0 <= k < w ==> #[trigger] r@[k] == if k < i {
                            self@[k + by]
                        } else {
                            false
                        },
                decreases w - by - i,
            {
                let b = self.bit(i + by);
                r.bit_set(i, b);
                i = i + 1;
            }
        }
        *self = r;
        proof {
            use_type_invariant(&*self);
        }
    }

    /// Treating the value as signed, the two's complement negation
    pub fn signed_neg(self) -> (r: Self)
        ensures
            r.is_valid(),
            r.value() == (pow2(bv_width(NB as nat)) - self.value()) % (pow2(
                bv_width(NB as nat),
            ) as int),
    {
        let mut s = Self::zero_value();
        s.sub_msk(&self);
        s
    }

    /// Whether the value is less than, and whether it equals, that of
    /// another vector (found from the top byte down)
    pub fn less_or_equal(&self, other: &Self) -> (r: (bool, bool))
        ensures
            r.0 == (self.value() < other.value()),
            r.1 == (self.value() == other.value()),
    {
        proof {
            use_type_invariant(self);
            use_type_invariant(other);
        }
        let n = Self::num_bytes();
        let mut k: usize = n;
        let ghost a = self.data@;
        let ghost b = other.data@;
        while k > 0
            invariant
                n == bv_bytes(NB as nat),
                n <= 33,
                k <= n,
                a == self.data@,
                b == other.data@,
                forall|q: int| k <= q < n ==> a[q] == b[q],
            decreases k,
        {
            let x = self.data[k - 1];
            let y = other.data[k - 1];
            if x != y {
                proof {
                    let kk = k - 1;
                    crate::bytes::lemma_bytes_value_split(a, kk as int, n as int);
                    crate::bytes::lemma_bytes_value_split(b, kk as int, n as int);
                    assert(a.subrange(kk + 1, n as int) =~= b.subrange(kk + 1, n as int));
                    crate::bytes::lemma_bytes_value_bound(a.take(kk as int));
                    crate::bytes::lemma_bytes_value_bound(b.take(kk as int));
                    let p = pow2(8 * kk as nat);
                    assert(a.take(kk as int).len() == kk);
                    if x < y {
                        assert(bytes_value(a.take(kk as int)) + x * p < bytes_value(b.take(
                            kk as int,
                        )) + y * p) by (nonlinear_arith)
                            requires
                                bytes_value(a.take(kk as int)) < p,
                                x < y,
                        ;
                    } else {
                        assert(bytes_value(a.take(kk as int)) + x * p > bytes_value(b.take(
                            kk as int,
                        )) + y * p) by (nonlinear_arith)
                            requires
                                bytes_value(b.take(kk as int)) < p,
                                x > y,
                        ;
                    }
                }
                return (x < y, false);
            }
            k = k - 1;
        }
        proof {
            crate::bytes::lemma_bytes_value_prefix_eq(a, b, n as int);
        }
        (false, true)
    }

    /// Compare the unsigned values of two vectors
    pub fn cmp_value(&self, other: &Self) -> (r: std::cmp::Ordering)
        ensures
            (r == std::cmp::Ordering::Less) == (self.value() < other.value()),
            (r == std::cmp::Ordering::Equal) == (self.value() == other.value()),
            (r == std::cmp::Ordering::Greater) == (self.value() > other.value()),
    {
        let (less, equal) = self.less_or_equal(other);
        if less {
            std::cmp::Ordering::Less
        } else if equal {
            std::cmp::Ordering::Equal
        } else {
            std::cmp::Ordering::Greater
        }
    }

    /// A selection of `n` bits from bit `lsb` upwards of the vector
    pub fn bit_range(&self, lsb: usize, n: usize) -> (r: BitRange<'_>)
        ensures
            r.spec_lsb() == lsb,
            r.spec_n() == n,
            r.spec_data() == self.bytes().take(bv_bytes(NB as nat) as int),
            r.spec_data().len() == bv_bytes(NB as nat),
    {
        BitRange::of_u8s(self.as_u8s(), lsb, n)
    }

    /// A selection of all of the bits of the vector
    pub fn as_bit_range(&self) -> (r: BitRange<'_>)
        ensures
            r.spec_lsb() == 0,
            r.spec_n() == NB,
            r.spec_data() == self.bytes().take(bv_bytes(NB as nat) as int),
            r.spec_data().len() == bv_bytes(NB as nat),
    {
        BitRange::of_u8s(self.as_u8s(), 0, NB)
    }

    /// A selection of `n` bits from bit `lsb` upwards, which must lie
    /// within the vector
    pub fn bits(&self, lsb: usize, n: usize) -> (r: BitRange<'_>)
        requires
            lsb + n <= NB,
        ensures
            r.spec_lsb() == lsb,
            r.spec_n() == n,
            r.spec_data() == self.bytes().take(bv_bytes(NB as nat) as int),
    {
        self.bit_range(lsb, n)
    }

    /// Set the bits from `lsb` upwards to those of a selection
    pub fn set_bits(&mut self, lsb: usize, br: BitRange<'_>)
        requires
            lsb + br.spec_n() <= bv_width(NB as nat),
            br.spec_lsb() + br.spec_n() <= 8 * br.spec_data().len(),
            br.spec_lsb() + br.spec_n() <= usize::MAX,
        ensures
            final(self).is_valid(),
            forall|i: int|
                0 <= i < bv_width(NB as nat) ==> #[trigger] final(self)@[i] == if lsb <= i < lsb
                    + br.spec_n() {
                    br.spec_bit(i - lsb)
                } else {
                    old(self)@[i]
                },
    {
        let n = br.num_bits();
        let ghost old_v = self@;
        let mut i: usize = 0;
        while i < n
            invariant
                n == br.spec_n(),
                lsb + n <= bv_width(NB as nat),
                br.spec_lsb() + n <= 8 * br.spec_data().len(),
                br.spec_lsb() + n <= usize::MAX,
                i <= n,
                forall|k: int|
                    0 <= k < bv_width(NB as nat) ==> #[trigger] self@[k] == if lsb <= k < lsb + i {
                        br.spec_bit(k - lsb)
                    } else {
                        old_v[k]
                    },
            decreases n - i,
        {
            let b = br.bit_at(i);
            self.bit_set(lsb + i, b);
            i = i + 1;
        }
        proof {
            use_type_invariant(&*self);
        }
    }

    /// A vector holding the bits of a selection of `NB` bits
    pub fn of_bit_range(br: BitRange<'_>) -> (r: Self)
        requires
            br.spec_n() == bv_width(NB as nat),
            br.spec_lsb() + br.spec_n() <= 8 * br.spec_data().len(),
            br.spec_lsb() + br.spec_n() <= usize::MAX,
        ensures
            r.is_valid(),
            forall|i: int| 0 <= i < bv_width(NB as nat) ==> #[trigger] r@[i] == br.spec_bit(i),
    {
        let mut s = Self::zero_value();
        s.set_bits(0, br);
        s
    }

    /// A vector of `BVN` bits holding `n` bits of this one from bit `lsb`
    pub fn bit_range_to_bv<const BVN: usize>(&self, lsb: usize, n: usize) -> (r: Bv<BVN>)
        requires
            n == bv_width(BVN as nat),
            lsb + n <= bv_width(NB as nat),
        ensures
            r.is_valid(),
            forall|i: int| 0 <= i < n ==> #[trigger] r@[i] == self@[lsb + i],
    {
        proof {
            use_type_invariant(self);
        }
        let br = self.bit_range(lsb, n);
        let r = Bv::<BVN>::of_bit_range(br);
        proof {
            assert forall|i: int| 0 <= i < n implies #[trigger] r@[i] == self@[lsb + i] by {
                assert(br.spec_bit(i) == bytes_bit(br.spec_data(), lsb + i));
                assert((lsb + i) / 8 < bv_bytes(NB as nat));
            }
        }
        r
    }

    /// The vector with the given bits
    pub closed spec fn of_view(bits: Seq<bool>) -> Self {
        choose|r: Self| clean_bytes(r.bytes(), NB as nat) && r@ == bits
    }

    /// The vector with the given value, modulo 2 to the width
    pub closed spec fn of_value(v: int) -> Self {
        choose|r: Self| clean_bytes(r.bytes(), NB as nat) && r.value() == v % (pow2(bv_width(NB as nat)) as int)
    }

    /// A vector is determined by its bits
    proof fn lemma_eq_by_view(a: Self, b: Self)
        requires
            clean_bytes(a.bytes(), NB as nat),
            clean_bytes(b.bytes(), NB as nat),
            a@ == b@,
        ensures
            a == b,
    {
        assert forall|k: int| 0 <= k < 33 implies a.data@[k] == b.data@[k] by {
            let x = a.data@[k];
            let y = b.data@[k];
            if x != y {
                assert(x != y ==> x ^ y != 0) by (bit_vector);
                lemma_byte_zero(x ^ y);
                let j = choose|j: int| 0 <= j < 8 && #[trigger] byte_bit(x ^ y, j);
                lemma_byte_ops(x, y, j);
                let n = 8 * k + j;
                assert(n / 8 == k && n % 8 == j);
                assert(byte_bit(x, j) != byte_bit(y, j));
                assert(bytes_bit(a.bytes(), n) == byte_bit(x, j));
                assert(bytes_bit(b.bytes(), n) == byte_bit(y, j));
                if n >= bv_width(NB as nat) {
                    a.lemma_clean_bits(n);
                    b.lemma_clean_bits(n);
                } else {
                    assert(a@[n] == bytes_bit(a.bytes(), n));
                    assert(b@[n] == bytes_bit(b.bytes(), n));
                    assert(a@[n] == b@[n]);
                }
            }
        }
        Self::lemma_eq_by_bytes(a, b);
    }

    /// Two vectors with the same storage are equal
    proof fn lemma_eq_by_bytes(a: Self, b: Self)
        requires
            a.bytes() =~= b.bytes(),
        ensures
            a == b,
    {
        assert forall|k: int| 0 <= k < 33 implies a.data[k] == b.data[k] by {
            assert(a.data@[k] == b.data@[k]);
        }
        assert(a.data =~= b.data);
    }

    /// A vector is determined by its value
    proof fn lemma_eq_by_value(a: Self, b: Self)
        requires
            clean_bytes(a.bytes(), NB as nat),
            clean_bytes(b.bytes(), NB as nat),
            a.value() == b.value(),
        ensures
            a == b,
    {
        let n = bv_bytes(NB as nat) as int;
        crate::bytes::lemma_bytes_value_injective(a.data@, b.data@, n);
        assert forall|k: int| 0 <= k < 33 implies a.data@[k] == b.data@[k] by {
            if k < n {
                assert(a.data@.take(n)[k] == b.data@.take(n)[k]);
            }
        }
        Self::lemma_eq_by_bytes(a, b);
    }

    /// A clean vector with the bits `bits` is the vector that
    /// `of_view(bits)` gives
    proof fn lemma_view_choose(s: Self, bits: Seq<bool>)
        requires
            clean_bytes(s.bytes(), NB as nat),
            s@ =~= bits,
        ensures
            s == Self::of_view(bits),
    {
        assert(exists|r: Self| clean_bytes(r.bytes(), NB as nat) && r@ == bits);
        let c = choose|r: Self| clean_bytes(r.bytes(), NB as nat) && r@ == bits;
        Self::lemma_eq_by_view(s, c);
    }

    /// The value of a vector is the value of its bits
    pub proof fn lemma_value_of_bits(self)
        requires
            self.is_valid(),
        ensures
            self.value() == bits_value(self@),
    {
        let nb = bv_bytes(NB as nat);
        let w = bv_width(NB as nat);
        let d = self.bytes();
        lemma_bytes_bits_value(d, nb);
        let all = Seq::new(8 * nb, |i: int| bytes_bit(d, i));
        let rest = all.subrange(w as int, (8 * nb) as int);
        assert(all =~= self@ + rest);
        lemma_bits_value_append(self@, rest);
        assert forall|i: int| 0 <= i < rest.len() implies !rest[i] by {
            self.lemma_clean_bits(w + i);
        }
        lemma_bits_value_clear(rest);
        assert(pow2(w) * bits_value(rest) == 0) by (nonlinear_arith)
            requires
                bits_value(rest) == 0,
        ;
    }

    /// A vector made of a full-width selection of another vector's bits
    /// is that vector: `br` is `x.as_bit_range()` (or `x.bit_range(0,
    /// width)`) and `r` is `Self::of_bit_range(br)`
    pub proof fn law_bit_range_round_trip<'a>(x: Self, br: BitRange<'a>, r: Self)
        requires
            x.is_valid(),
            r.is_valid(),
            br.spec_lsb() == 0,
            br.spec_data() == x.bytes().take(bv_bytes(NB as nat) as int),
            forall|i: int| 0 <= i < bv_width(NB as nat) ==> #[trigger] r@[i] == br.spec_bit(i),
        ensures
            r == x,
    {
        assert forall|i: int| 0 <= i < bv_width(NB as nat) implies r@[i] == x@[i] by {
            assert(r@[i] == br.spec_bit(i));
            assert(br.spec_data()[i / 8] == x.bytes()[i / 8]);
        }
        assert(r@ =~= x@);
        Self::lemma_eq_by_view(r, x);
    }

    /// Adding a vector and then subtracting it gives back the first:
    /// `s` is `x + y` and `d` is `s - y` (by the contracts of `+` and `-`)
    pub proof fn law_add_then_sub(x: Self, y: Self, s: Self, d: Self)
        requires
            x.is_valid(),
            y.is_valid(),
            d.is_valid(),
            s.value() == (x.value() + y.value()) % pow2(bv_width(NB as nat)),
            d.value() == (s.value() + pow2(bv_width(NB as nat)) - y.value()) % (pow2(
                bv_width(NB as nat),
            ) as int),
        ensures
            d == x,
    {
        let m = pow2(bv_width(NB as nat)) as int;
        lemma_pow2_pos(bv_width(NB as nat));
        x.lemma_value_bound();
        y.lemma_value_bound();
        let a = x.value() as int;
        let b = y.value() as int;
        assert(((a + b) % m + m - b) % m == a) by {
            lemma_add_mod_noop_right(m - b, a + b, m);
            assert((m - b) + (a + b) == m + a);
            lemma_mod_add_multiples_vanish(a, m);
            lemma_small_mod(a as nat, m as nat);
        }
        Self::lemma_eq_by_value(d, x);
    }

    /// Inverting every bit twice gives back the vector: `n1` is `!x` and
    /// `n2` is `!n1`
    pub proof fn law_not_not(x: Self, n1: Self, n2: Self)
        requires
            x.is_valid(),
            n2.is_valid(),
            forall|i: int| 0 <= i < bv_width(NB as nat) ==> #[trigger] n1@[i] == !x@[i],
            forall|i: int| 0 <= i < bv_width(NB as nat) ==> #[trigger] n2@[i] == !n1@[i],
        ensures
            n2 == x,
    {
        assert(n2@ =~= x@);
        Self::lemma_eq_by_view(n2, x);
    }

    /// The exclusive or of a vector with itself is zero: `z` is `x ^ x`
    pub proof fn law_xor_self(x: Self, z: Self)
        requires
            z.is_valid(),
            forall|i: int| 0 <= i < bv_width(NB as nat) ==> #[trigger] z@[i] == (x@[i] != x@[i]),
        ensures
            z.value() == 0,
    {
        if z.value() != 0 {
            let n = bv_bytes(NB as nat) as int;
            if forall|k: int| 0 <= k < n ==> #[trigger] z.bytes()[k] == 0 {
                lemma_bytes_value_zero(z.bytes().take(n));
            } else {
                let k = choose|k: int| 0 <= k < n && #[trigger] z.bytes()[k] != 0;
                z.lemma_zero_bits(k);
            }
        }
    }

    /// A clean vector whose value is `v` modulo 2 to the width is the
    /// vector that `of_value(v)` gives
    proof fn lemma_value_choose(s: Self, v: int)
        requires
            clean_bytes(s.bytes(), NB as nat),
            s.value() == v % (pow2(bv_width(NB as nat)) as int),
        ensures
            s == Self::of_value(v),
    {
        assert(exists|r: Self| clean_bytes(r.bytes(), NB as nat) && r.value() == v % (pow2(bv_width(NB as nat)) as int));
        let c = choose|r: Self| clean_bytes(r.bytes(), NB as nat) && r.value() == v % (pow2(bv_width(NB as nat)) as int);
        Self::lemma_eq_by_value(s, c);
    }
}

impl<const NB: usize> Default for Bv<NB> {
    fn default() -> (r: Self)
        ensures
            r.is_valid(),
            r.value() == 0,
            forall|i: int| 0 <= i < bv_width(NB as nat) ==> !#[trigger] r@[i],
    {
        Self::zero_value()
    }
}

impl<const NB: usize> PartialEq for Bv<NB> {
    fn eq(&self, other: &Self) -> (r: bool) {
        proof {
            use_type_invariant(self);
            use_type_invariant(other);
        }
        let mut i: usize = 0;
        while i < 33
            invariant
                i <= 33,
                clean_bytes(self.data@, NB as nat),
                clean_bytes(other.data@, NB as nat),
                forall|k: int| 0 <= k < i ==> self.data[k] == other.data[k],
            decreases 33 - i,
        {
            if self.data[i] != other.data[i] {
                proof {
                    let a = self.data[i as int];
                    let b = other.data[i as int];
                    assert(a != b ==> a ^ b != 0) by (bit_vector);
                    lemma_byte_zero(a ^ b);
                    let j = choose|j: int| 0 <= j < 8 && #[trigger] byte_bit(a ^ b, j);
                    lemma_byte_ops(a, b, j);
                    let n = 8 * i + j;
                    assert(n / 8 == i && n % 8 == j);
                    if n >= bv_width(NB as nat) {
                        self.lemma_clean_bits(n);
                        other.lemma_clean_bits(n);
                    }
                    assert(self@[n] != other@[n]);
                }
                return false;
            }
            i = i + 1;
        }
        proof {
            assert(self.data@ =~= other.data@);
        }
        true
    }
}

impl<const NB: usize> PartialEqSpecImpl for Bv<NB> {
    open spec fn obeys_eq_spec() -> bool {
        true
    }

    open spec fn eq_spec(&self, other: &Self) -> bool {
        self@ == other@
    }
}

impl<const NB: usize> PartialOrd for Bv<NB> {
    fn partial_cmp(&self, other: &Self) -> (r: Option<std::cmp::Ordering>) {
        Some(self.cmp_value(other))
    }
}

impl<const NB: usize> PartialOrdSpecImpl for Bv<NB> {
    open spec fn obeys_partial_cmp_spec() -> bool {
        true
    }

    open spec fn partial_cmp_spec(&self, other: &Self) -> Option<std::cmp::Ordering> {
        Some(
            if self.value() < other.value() {
                std::cmp::Ordering::Less
            } else if self.value() == other.value() {
                std::cmp::Ordering::Equal
            } else {
                std::cmp::Ordering::Greater
            },
        )
    }
}

impl<const NB: usize> std::ops::BitAnd for Bv<NB> {
    type Output = Self;

    fn bitand(self, other: Bv<NB>) -> (r: Self)
        ensures
            r.is_valid(),
    {
        let mut s = self;
        s.bit_and(&other);
        proof {
            use_type_invariant(&s);
            Self::lemma_view_choose(s, Seq::new(bv_width(NB as nat), |i: int| self@[i] && other@[i]));
        }
        s
    }
}

impl<const NB: usize> BitAndSpecImpl for Bv<NB> {
    open spec fn obeys_bitand_spec() -> bool {
        true
    }

    open spec fn bitand_req(self, rhs: Bv<NB>) -> bool {
        true
    }

    open spec fn bitand_spec(self, rhs: Bv<NB>) -> Self {
        Self::of_view(Seq::new(bv_width(NB as nat), |i: int| self@[i] && rhs@[i]))
    }
}

impl<'a, const NB: usize> std::ops::BitAnd<&'a Bv<NB>> for Bv<NB> {
    type Output = Self;

    fn bitand(self, other: &'a Bv<NB>) -> (r: Self)
        ensures
            r.is_valid(),
    {
        let mut s = self;
        s.bit_and(other);
        proof {
            use_type_invariant(&s);
            Self::lemma_view_choose(s, Seq::new(bv_width(NB as nat), |i: int| self@[i] && other@[i]));
        }
        s
    }
}

impl<'a, const NB: usize> BitAndSpecImpl<&'a Bv<NB>> for Bv<NB> {
    open spec fn obeys_bitand_spec() -> bool {
        true
    }

    open spec fn bitand_req(self, rhs: &'a Bv<NB>) -> bool {
        true
    }

    open spec fn bitand_spec(self, rhs: &'a Bv<NB>) -> Self {
        Self::of_view(Seq::new(bv_width(NB as nat), |i: int| self@[i] && rhs@[i]))
    }
}

impl<const NB: usize> std::ops::BitAndAssign for Bv<NB> {
    fn bitand_assign(&mut self, other: Bv<NB>)
        ensures
            final(self).is_valid(),
            forall|i: int| 0 <= i < bv_width(NB as nat) ==> #[trigger] final(self)@[i] == (old(self)@[i] && other@[i]),
    {
        self.bit_and(&other);
    }
}

impl<'a, const NB: usize> std::ops::BitAndAssign<&'a Bv<NB>> for Bv<NB> {
    fn bitand_assign(&mut self, other: &'a Bv<NB>)
        ensures
            final(self).is_valid(),
            forall|i: int| 0 <= i < bv_width(NB as nat) ==> #[trigger] final(self)@[i] == (old(self)@[i] && other@[i]),
    {
        self.bit_and(other);
    }
}

impl<const NB: usize> std::ops::BitOr for Bv<NB> {
    type Output = Self;

    fn bitor(self, other: Bv<NB>) -> (r: Self)
        ensures
            r.is_valid(),
    {
        let mut s = self;
        s.bit_or(&other);
        proof {
            use_type_invariant(&s);
            Self::lemma_view_choose(s, Seq::new(bv_width(NB as nat), |i: int| self@[i] || other@[i]));
        }
        s
    }
}

impl<const NB: usize> BitOrSpecImpl for Bv<NB> {
    open spec fn obeys_bitor_spec() -> bool {
        true
    }

    open spec fn bitor_req(self, rhs: Bv<NB>) -> bool {
        true
    }

    open spec fn bitor_spec(self, rhs: Bv<NB>) -> Self {
        Self::of_view(Seq::new(bv_width(NB as nat), |i: int| self@[i] || rhs@[i]))
    }
}

impl<'a, const NB: usize> std::ops::BitOr<&'a Bv<NB>> for Bv<NB> {
    type Output = Self;

    fn bitor(self, other: &'a Bv<NB>) -> (r: Self)
        ensures
            r.is_valid(),
    {
        let mut s = self;
        s.bit_or(other);
        proof {
            use_type_invariant(&s);
            Self::lemma_view_choose(s, Seq::new(bv_width(NB as nat), |i: int| self@[i] || other@[i]));
        }
        s
    }
}

impl<'a, const NB: usize> BitOrSpecImpl<&'a Bv<NB>> for Bv<NB> {
    open spec fn obeys_bitor_spec() -> bool {
        true
    }

    open spec fn bitor_req(self, rhs: &'a Bv<NB>) -> bool {
        true
    }

    open spec fn bitor_spec(self, rhs: &'a Bv<NB>) -> Self {
        Self::of_view(Seq::new(bv_width(NB as nat), |i: int| self@[i] || rhs@[i]))
    }
}

impl<const NB: usize> std::ops::BitOrAssign for Bv<NB> {
    fn bitor_assign(&mut self, other: Bv<NB>)
        ensures
            final(self).is_valid(),
            forall|i: int| 0 <= i < bv_width(NB as nat) ==> #[trigger] final(self)@[i] == (old(self)@[i] || other@[i]),
    {
        self.bit_or(&other);
    }
}

impl<'a, const NB: usize> std::ops::BitOrAssign<&'a Bv<NB>> for Bv<NB> {
    fn bitor_assign(&mut self, other: &'a Bv<NB>)
        ensures
            final(self).is_valid(),
            forall|i: int| 0 <= i < bv_width(NB as nat) ==> #[trigger] final(self)@[i] == (old(self)@[i] || other@[i]),
    {
        self.bit_or(other);
    }
}

impl<const NB: usize> std::ops::BitXor for Bv<NB> {
    type Output = Self;

    fn bitxor(self, other: Bv<NB>) -> (r: Self)
        ensures
            r.is_valid(),
    {
        let mut s = self;
        s.bit_xor(&other);
        proof {
            use_type_invariant(&s);
            Self::lemma_view_choose(s, Seq::new(bv_width(NB as nat), |i: int| self@[i] != other@[i]));
        }
        s
    }
}

impl<const NB: usize> BitXorSpecImpl for Bv<NB> {
    open spec fn obeys_bitxor_spec() -> bool {
        true
    }

    open spec fn bitxor_req(self, rhs: Bv<NB>) -> bool {
        true
    }

    open spec fn bitxor_spec(self, rhs: Bv<NB>) -> Self {
        Self::of_view(Seq::new(bv_width(NB as nat), |i: int| self@[i] != rhs@[i]))
    }
}

impl<'a, const NB: usize> std::ops::BitXor<&'a Bv<NB>> for Bv<NB> {
    type Output = Self;

    fn bitxor(self, other: &'a Bv<NB>) -> (r: Self)
        ensures
            r.is_valid(),
    {
        let mut s = self;
        s.bit_xor(other);
        proof {
            use_type_invariant(&s);
            Self::lemma_view_choose(s, Seq::new(bv_width(NB as nat), |i: int| self@[i] != other@[i]));
        }
        s
    }
}

impl<'a, const NB: usize> BitXorSpecImpl<&'a Bv<NB>> for Bv<NB> {
    open spec fn obeys_bitxor_spec() -> bool {
        true
    }

    open spec fn bitxor_req(self, rhs: &'a Bv<NB>) -> bool {
        true
    }

    open spec fn bitxor_spec(self, rhs: &'a Bv<NB>) -> Self {
        Self::of_view(Seq::new(bv_width(NB as nat), |i: int| self@[i] != rhs@[i]))
    }
}

impl<const NB: usize> std::ops::BitXorAssign for Bv<NB> {
    fn bitxor_assign(&mut self, other: Bv<NB>)
        ensures
            final(self).is_valid(),
            forall|i: int| 0 <= i < bv_width(NB as nat) ==> #[trigger] final(self)@[i] == (old(self)@[i] != other@[i]),
    {
        self.bit_xor(&other);
    }
}

impl<'a, const NB: usize> std::ops::BitXorAssign<&'a Bv<NB>> for Bv<NB> {
    fn bitxor_assign(&mut self, other: &'a Bv<NB>)
        ensures
            final(self).is_valid(),
            forall|i: int| 0 <= i < bv_width(NB as nat) ==> #[trigger] final(self)@[i] == (old(self)@[i] != other@[i]),
    {
        self.bit_xor(other);
    }
}

impl<const NB: usize> std::ops::Add for Bv<NB> {
    type Output = Self;

    fn add(self, other: Bv<NB>) -> (r: Self)
        ensures
            r.is_valid(),
    {
        let mut s = self;
        s.add_msk(&other);
        proof {
            use_type_invariant(&s);
            Self::lemma_value_choose(s, (self.value() + other.value()) as int);
        }
        s
    }
}

impl<const NB: usize> AddSpecImpl for Bv<NB> {
    open spec fn obeys_add_spec() -> bool {
        true
    }

    open spec fn add_req(self, rhs: Bv<NB>) -> bool {
        true
    }

    open spec fn add_spec(self, rhs: Bv<NB>) -> Self {
        Self::of_value((self.value() + rhs.value()) as int)
    }
}

impl<'a, const NB: usize> std::ops::Add<&'a Bv<NB>> for Bv<NB> {
    type Output = Self;

    fn add(self, other: &'a Bv<NB>) -> (r: Self)
        ensures
            r.is_valid(),
    {
        let mut s = self;
        s.add_msk(other);
        proof {
            use_type_invariant(&s);
            Self::lemma_value_choose(s, (self.value() + other.value()) as int);
        }
        s
    }
}

impl<'a, const NB: usize> AddSpecImpl<&'a Bv<NB>> for Bv<NB> {
    open spec fn obeys_add_spec() -> bool {
        true
    }

    open spec fn add_req(self, rhs: &'a Bv<NB>) -> bool {
        true
    }

    open spec fn add_spec(self, rhs: &'a Bv<NB>) -> Self {
        Self::of_value((self.value() + rhs.value()) as int)
    }
}

impl<const NB: usize> std::ops::AddAssign for Bv<NB> {
    fn add_assign(&mut self, other: Bv<NB>)
        ensures
            final(self).is_valid(),
            final(self).value() == (old(self).value() + other.value()) % pow2(bv_width(NB as nat)),
    {
        self.add_msk(&other);
    }
}

impl<'a, const NB: usize> std::ops::AddAssign<&'a Bv<NB>> for Bv<NB> {
    fn add_assign(&mut self, other: &'a Bv<NB>)
        ensures
            final(self).is_valid(),
            final(self).value() == (old(self).value() + other.value()) % pow2(bv_width(NB as nat)),
    {
        self.add_msk(other);
    }
}

impl<const NB: usize> std::ops::Sub for Bv<NB> {
    type Output = Self;

    fn sub(self, other: Bv<NB>) -> (r: Self)
        ensures
            r.is_valid(),
    {
        let mut s = self;
        s.sub_msk(&other);
        proof {
            use_type_invariant(&s);
            Self::lemma_value_choose(s, self.value() + pow2(bv_width(NB as nat)) - other.value());
        }
        s
    }
}

impl<const NB: usize> SubSpecImpl for Bv<NB> {
    open spec fn obeys_sub_spec() -> bool {
        true
    }

    open spec fn sub_req(self, rhs: Bv<NB>) -> bool {
        true
    }

    open spec fn sub_spec(self, rhs: Bv<NB>) -> Self {
        Self::of_value(self.value() + pow2(bv_width(NB as nat)) - rhs.value())
    }
}

impl<'a, const NB: usize> std::ops::Sub<&'a Bv<NB>> for Bv<NB> {
    type Output = Self;

    fn sub(self, other: &'a Bv<NB>) -> (r: Self)
        ensures
            r.is_valid(),
    {
        let mut s = self;
        s.sub_msk(other);
        proof {
            use_type_invariant(&s);
            Self::lemma_value_choose(s, self.value() + pow2(bv_width(NB as nat)) - other.value());
        }
        s
    }
}

impl<'a, const NB: usize> SubSpecImpl<&'a Bv<NB>> for Bv<NB> {
    open spec fn obeys_sub_spec() -> bool {
        true
    }

    open spec fn sub_req(self, rhs: &'a Bv<NB>) -> bool {
        true
    }

    open spec fn sub_spec(self, rhs: &'a Bv<NB>) -> Self {
        Self::of_value(self.value() + pow2(bv_width(NB as nat)) - rhs.value())
    }
}

impl<const NB: usize> std::ops::SubAssign for Bv<NB> {
    fn sub_assign(&mut self, other: Bv<NB>)
        ensures
            final(self).is_valid(),
            final(self).value() == (old(self).value() + pow2(bv_width(NB as nat)) - other.value()) % (pow2(bv_width(NB as nat)) as int),
    {
        self.sub_msk(&other);
    }
}

impl<'a, const NB: usize> std::ops::SubAssign<&'a Bv<NB>> for Bv<NB> {
    fn sub_assign(&mut self, other: &'a Bv<NB>)
        ensures
            final(self).is_valid(),
            final(self).value() == (old(self).value() + pow2(bv_width(NB as nat)) - other.value()) % (pow2(bv_width(NB as nat)) as int),
    {
        self.sub_msk(other);
    }
}

impl<const NB: usize> std::ops::Not for Bv<NB> {
    type Output = Self;

    fn not(self) -> (r: Self)
        ensures
            r.is_valid(),
    {
        let mut s = self;
        s.bit_not();
        proof {
            use_type_invariant(&s);
            Self::lemma_view_choose(s, Seq::new(bv_width(NB as nat), |i: int| !self@[i]));
        }
        s
    }
}

impl<const NB: usize> NotSpecImpl for Bv<NB> {
    open spec fn obeys_not_spec() -> bool {
        true
    }

    open spec fn not_req(self) -> bool {
        true
    }

    open spec fn not_spec(self) -> Self {
        Self::of_view(Seq::new(bv_width(NB as nat), |i: int| !self@[i]))
    }
}

impl<const NB: usize> std::ops::Shl<usize> for Bv<NB> {
    type Output = Self;

    fn shl(self, by: usize) -> (r: Self)
        ensures
            r.is_valid(),
    {
        let mut s = self;
        s.bit_shl(by);
        proof {
            use_type_invariant(&s);
            Self::lemma_view_choose(
                s,
                Seq::new(bv_width(NB as nat), |i: int| if i >= by { self@[i - by] } else { false }),
            );
        }
        s
    }
}

impl<const NB: usize> ShlSpecImpl<usize> for Bv<NB> {
    open spec fn obeys_shl_spec() -> bool {
        true
    }

    open spec fn shl_req(self, by: usize) -> bool {
        true
    }

    open spec fn shl_spec(self, by: usize) -> Self {
        Self::of_view(Seq::new(bv_width(NB as nat), |i: int| if i >= by { self@[i - by] } else { false }))
    }
}

impl<const NB: usize> std::ops::ShlAssign<usize> for Bv<NB> {
    fn shl_assign(&mut self, by: usize)
        ensures
            final(self).is_valid(),
            forall|i: int| 0 <= i < bv_width(NB as nat) ==> #[trigger] final(self)@[i] == if i >= by { old(self)@[i - by] } else { false },
    {
        self.bit_shl(by);
    }
}

impl<const NB: usize> std::ops::Shr<usize> for Bv<NB> {
    type Output = Self;

    fn shr(self, by: usize) -> (r: Self)
        ensures
            r.is_valid(),
    {
        let mut s = self;
        s.bit_lshr(by);
        proof {
            use_type_invariant(&s);
            Self::lemma_view_choose(
                s,
                Seq::new(bv_width(NB as nat), |i: int| if i + by < bv_width(NB as nat) { self@[i + by] } else { false }),
            );
        }
        s
    }
}

impl<const NB: usize> ShrSpecImpl<usize> for Bv<NB> {
    open spec fn obeys_shr_spec() -> bool {
        true
    }

    open spec fn shr_req(self, by: usize) -> bool {
        true
    }

    open spec fn shr_spec(self, by: usize) -> Self {
        Self::of_view(Seq::new(bv_width(NB as nat), |i: int| if i + by < bv_width(NB as nat) { self@[i + by] } else { false }))
    }
}

impl<const NB: usize> std::ops::ShrAssign<usize> for Bv<NB> {
    fn shr_assign(&mut self, by: usize)
        ensures
            final(self).is_valid(),
            forall|i: int| 0 <= i < bv_width(NB as nat) ==> #[trigger] final(self)@[i] == if i + by < bv_width(NB as nat) { old(self)@[i + by] } else { false },
    {
        self.bit_lshr(by);
    }
}

} // verus!
