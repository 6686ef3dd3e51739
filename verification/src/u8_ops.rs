//! Access to single bits of a little-endian byte slice
use vstd::prelude::*;

verus! {

/// Bit `j` (0 to 7) of a byte
pub open spec fn byte_bit(b: u8, j: int) -> bool {
    (b >> (j as u8)) & 1 == 1
}

/// Bit `n` of a little-endian byte sequence
pub open spec fn bytes_bit(s: Seq<u8>, n: int) -> bool {
    byte_bit(s[n / 8], n % 8)
}

/// A byte with bit `j` set to `v`
pub open spec fn byte_with_bit(b: u8, j: int, v: bool) -> u8 {
    if v {
        b | (1u8 << (j as u8))
    } else {
        b & !(1u8 << (j as u8))
    }
}

/// A byte sequence with bit `n` set to `v`
pub open spec fn bytes_with_bit(s: Seq<u8>, n: int, v: bool) -> Seq<u8> {
    s.update(n / 8, byte_with_bit(s[n / 8], n % 8, v))
}

/// Setting bit `j` of a byte changes that bit alone
pub proof fn lemma_byte_with_bit(b: u8, j: int, v: bool, k: int)
    requires
        0 <= j < 8,
        0 <= k < 8,
    ensures
        byte_bit(byte_with_bit(b, j, v), k) == if k == j {
            v
        } else {
            byte_bit(b, k)
        },
{
    let jj = j as u8;
    let kk = k as u8;
    assert(((b | (1u8 << jj)) >> kk) & 1 == 1 <==> (kk == jj || (b >> kk) & 1 == 1)) by (bit_vector)
        requires
            jj < 8,
            kk < 8,
    ;
    assert(((b & !(1u8 << jj)) >> kk) & 1 == 1 <==> (kk != jj && (b >> kk) & 1 == 1))
        by (bit_vector)
        requires
            jj < 8,
            kk < 8,
    ;
}

/// Setting bit `n` of a byte sequence changes that bit alone
pub proof fn lemma_bytes_with_bit(s: Seq<u8>, n: int, v: bool, m: int)
    requires
        0 <= n < 8 * s.len(),
        0 <= m < 8 * s.len(),
    ensures
        bytes_bit(bytes_with_bit(s, n, v), m) == if m == n {
            v
        } else {
            bytes_bit(s, m)
        },
{
    if m / 8 == n / 8 {
        lemma_byte_with_bit(s[n / 8], n % 8, v, m % 8);
    }
}

/// Bitwise access to a little-endian byte slice, checking the bit index
/// against a width given at compile time (`NB`) or against the length
/// of the slice (the `_rt` methods)
pub trait U8Ops {
    spec fn u8s(&self) -> Seq<u8>;

    fn bit<const NB: usize>(&self, n: usize) -> (r: bool)
        requires
            n < NB,
            n < 8 * self.u8s().len(),
        ensures
            r == bytes_bit(self.u8s(), n as int),
    ;

    fn bit_set<const NB: usize>(&mut self, n: usize, v: bool)
        requires
            n < NB,
            n < 8 * old(self).u8s().len(),
        ensures
            final(self).u8s() == bytes_with_bit(old(self).u8s(), n as int, v),
    ;

    fn bit_nb_rt(&self, n: usize) -> (r: bool)
        requires
            n < 8 * self.u8s().len(),
        ensures
            r == bytes_bit(self.u8s(), n as int),
    ;

    fn bit_set_nb_rt(&mut self, n: usize, v: bool)
        requires
            n < 8 * old(self).u8s().len(),
        ensures
            final(self).u8s() == bytes_with_bit(old(self).u8s(), n as int, v),
    ;
}

/// Read bit `n` of a byte slice
fn slice_bit(s: &[u8], n: usize) -> (r: bool)
    requires
        n < 8 * s@.len(),
    ensures
        r == bytes_bit(s@, n as int),
{
    let j = (n % 8) as u8;
    let b = s[n / 8];
    let x = (b >> j) & 1;
    assert(x != 0 <==> x == 1) by (bit_vector)
        requires
            x == (b >> j) & 1,
    ;
    x != 0
}

/// Set bit `n` of a byte slice
fn slice_bit_set(s: &mut [u8], n: usize, v: bool)
    requires
        n < 8 * old(s)@.len(),
    ensures
        final(s)@ == bytes_with_bit(old(s)@, n as int, v),
{
    let nb = n / 8;
    let m: u8 = 1u8 << ((n % 8) as u8);
    if v {
        s[nb] = s[nb] | m;
    } else {
        s[nb] = s[nb] & !m;
    }
}

impl U8Ops for [u8] {
    open spec fn u8s(&self) -> Seq<u8> {
        self@
    }

    fn bit<const NB: usize>(&self, n: usize) -> (r: bool) {
        slice_bit(self, n)
    }

    fn bit_set<const NB: usize>(&mut self, n: usize, v: bool) {
        slice_bit_set(self, n, v)
    }

    fn bit_nb_rt(&self, n: usize) -> (r: bool) {
        slice_bit(self, n)
    }

    fn bit_set_nb_rt(&mut self, n: usize, v: bool) {
        slice_bit_set(self, n, v)
    }
}

} // verus!
