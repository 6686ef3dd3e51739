//! Numeric value of little-endian byte sequences, and the byte-wise
//! arithmetic on them that bit vectors are built from
use vstd::arithmetic::div_mod::*;
use vstd::arithmetic::mul::*;
use vstd::arithmetic::power2::*;
use vstd::bits::lemma_u8_pow2_no_overflow;
use vstd::prelude::*;

use crate::u8_ops::{byte_bit, bytes_bit};

verus! {

/// The value of a sequence of bits, least significant first
pub open spec fn bits_value(b: Seq<bool>) -> nat
    decreases b.len(),
{
    if b.len() == 0 {
        0
    } else {
        bits_value(b.drop_last()) + (if b.last() {
            1nat
        } else {
            0nat
        }) * pow2((b.len() - 1) as nat)
    }
}

/// The value of two sequences of bits one after the other
pub proof fn lemma_bits_value_append(a: Seq<bool>, b: Seq<bool>)
    ensures
        bits_value(a + b) == bits_value(a) + pow2(a.len()) * bits_value(b),
    decreases b.len(),
{
    if b.len() == 0 {
        assert(a + b =~= a);
        assert(bits_value(b) == 0);
        assert(pow2(a.len()) * bits_value(b) == 0) by (nonlinear_arith)
            requires
                bits_value(b) == 0,
        ;
    } else {
        lemma_bits_value_append(a, b.drop_last());
        assert((a + b).drop_last() =~= a + b.drop_last());
        lemma_pow2_adds(a.len(), (b.len() - 1) as nat);
        let d: nat = if b.last() {
            1
        } else {
            0
        };
        let p = pow2(a.len());
        let q = pow2((b.len() - 1) as nat);
        assert(bits_value(a + b) == bits_value(a) + p * bits_value(b.drop_last()) + d * (p * q));
        assert(p * bits_value(b) == p * bits_value(b.drop_last()) + p * (d * q)) by (nonlinear_arith)
            requires
                bits_value(b) == bits_value(b.drop_last()) + d * q,
        ;
        assert(d * (p * q) == p * (d * q)) by (nonlinear_arith);
    }
}

/// Bits that are all clear have the value 0
pub proof fn lemma_bits_value_clear(b: Seq<bool>)
    requires
        forall|i: int| 0 <= i < b.len() ==> !b[i],
    ensures
        bits_value(b) == 0,
    decreases b.len(),
{
    if b.len() > 0 {
        lemma_bits_value_clear(b.drop_last());
    }
}

/// The bits of a byte, least significant first
pub open spec fn byte_bits(x: u8) -> Seq<bool> {
    Seq::new(8, |j: int| byte_bit(x, j))
}

/// A byte is the value of its bits
pub proof fn lemma_byte_bits_value(x: u8)
    ensures
        bits_value(byte_bits(x)) == x,
{
    let b = byte_bits(x);
    lemma2_to64();
    assert(b.drop_last().drop_last().drop_last().drop_last().drop_last().drop_last().drop_last().drop_last()
        =~= Seq::<bool>::empty());
    let v = |j: int| if b[j] { 1int } else { 0int };
    assert(bits_value(b) == v(0) + 2 * v(1) + 4 * v(2) + 8 * v(3) + 16 * v(4) + 32 * v(5) + 64 * v(6)
        + 128 * v(7)) by {
        reveal_with_fuel(bits_value, 9);
    }
    assert(x == ((x >> 0u8) & 1) + 2 * ((x >> 1u8) & 1) + 4 * ((x >> 2u8) & 1) + 8 * ((x >> 3u8) & 1)
        + 16 * ((x >> 4u8) & 1) + 32 * ((x >> 5u8) & 1) + 64 * ((x >> 6u8) & 1) + 128 * ((x >> 7u8)
        & 1)) by (bit_vector);
    assert forall|j: u8| j < 8 implies ((x >> j) & 1 == 1) == ((x >> j) & 1 != 0) && ((x >> j) & 1) <= 1
        by {
        assert(j < 8 ==> ((x >> j) & 1 == 1) == ((x >> j) & 1 != 0) && ((x >> j) & 1) <= 1)
            by (bit_vector);
    }
}

/// The first `8 * n` bits of a byte sequence have the value of its first
/// `n` bytes
pub proof fn lemma_bytes_bits_value(s: Seq<u8>, n: nat)
    requires
        n <= s.len(),
    ensures
        bits_value(Seq::new(8 * n, |i: int| bytes_bit(s, i))) == bytes_value(s.take(n as int)),
    decreases n,
{
    if n == 0 {
        assert(Seq::new(0, |i: int| bytes_bit(s, i)) =~= Seq::<bool>::empty());
        assert(s.take(0) =~= Seq::<u8>::empty());
    } else {
        let m = (n - 1) as nat;
        lemma_bytes_bits_value(s, m);
        let lo = Seq::new(8 * m, |i: int| bytes_bit(s, i));
        let hi = byte_bits(s[m as int]);
        assert(Seq::new(8 * n, |i: int| bytes_bit(s, i)) =~= lo + hi) by {
            assert forall|i: int| 8 * m <= i < 8 * n implies bytes_bit(s, i) == hi[i - 8 * m] by {
                assert(i / 8 == m);
                assert(i % 8 == i - 8 * m);
            }
        }
        lemma_bits_value_append(lo, hi);
        lemma_byte_bits_value(s[m as int]);
        lemma_bytes_value_take(s, m as int);
        assert(pow2(8 * m) * (s[m as int] as nat) == (s[m as int] as nat) * pow2(8 * m)) by (nonlinear_arith);
    }
}

/// The value of a little-endian sequence of bytes
pub open spec fn bytes_value(s: Seq<u8>) -> nat
    decreases s.len(),
{
    if s.len() == 0 {
        0
    } else {
        bytes_value(s.drop_last()) + (s.last() as nat) * pow2(8 * (s.len() - 1) as nat)
    }
}

/// Extending a prefix by one byte adds that byte at its weight
pub proof fn lemma_bytes_value_take(s: Seq<u8>, i: int)
    requires
        0 <= i < s.len(),
    ensures
        bytes_value(s.take(i + 1)) == bytes_value(s.take(i)) + s[i] * pow2(8 * i as nat),
{
    assert(s.take(i + 1).drop_last() =~= s.take(i));
}

/// The value of `n` bytes is less than 2^(8n)
pub proof fn lemma_bytes_value_bound(s: Seq<u8>)
    ensures
        bytes_value(s) < pow2(8 * s.len()),
    decreases s.len(),
{
    if s.len() > 0 {
        let n = (s.len() - 1) as nat;
        lemma_bytes_value_bound(s.drop_last());
        lemma_pow2_adds(8 * n, 8);
        lemma2_to64();
        assert(8 * s.len() == 8 * n + 8);
        assert(pow2(8 * s.len()) == pow2(8 * n) * 256);
        assert(bytes_value(s) <= pow2(8 * n) - 1 + 255 * pow2(8 * n)) by (nonlinear_arith)
            requires
                bytes_value(s) == bytes_value(s.drop_last()) + s.last() * pow2(8 * n),
                bytes_value(s.drop_last()) < pow2(8 * n),
                s.last() <= 255,
        ;
    } else {
        lemma_pow2_pos(0);
    }
}

/// A sequence of bytes has value 0 exactly when all its bytes are 0
pub proof fn lemma_bytes_value_zero(s: Seq<u8>)
    ensures
        (bytes_value(s) == 0) == (forall|k: int| 0 <= k < s.len() ==> s[k] == 0),
    decreases s.len(),
{
    if s.len() > 0 {
        let n = (s.len() - 1) as nat;
        let t = s.drop_last();
        lemma_bytes_value_zero(t);
        lemma_pow2_pos(8 * n);
        let w = s.last() * pow2(8 * n);
        if s.last() != 0 {
            lemma_mul_strictly_positive(s.last() as int, pow2(8 * n) as int);
            assert(!(forall|k: int| 0 <= k < s.len() ==> s[k] == 0)) by {
                assert(s[n as int] != 0);
            }
        } else {
            assert(w == 0);
            if forall|k: int| 0 <= k < t.len() ==> t[k] == 0 {
                assert forall|k: int| 0 <= k < s.len() implies s[k] == 0 by {
                    if k < n {
                        assert(t[k] == s[k]);
                    }
                }
            } else {
                let k = choose|k: int| 0 <= k < t.len() && t[k] != 0;
                assert(s[k] == t[k]);
            }
        }
    }
}

/// Two byte sequences that agree on their first `n` bytes have equal
/// prefix values
pub proof fn lemma_bytes_value_prefix_eq(s: Seq<u8>, t: Seq<u8>, n: int)
    requires
        0 <= n <= s.len(),
        n <= t.len(),
        forall|k: int| 0 <= k < n ==> s[k] == t[k],
    ensures
        bytes_value(s.take(n)) == bytes_value(t.take(n)),
{
    assert(s.take(n) =~= t.take(n));
}

/// Splitting a number at a power-of-two boundary: a low part below the
/// boundary plus a multiple of it
pub proof fn lemma_mod_split(low: nat, p: nat, v: nat, q: nat)
    requires
        low < p,
        q > 0,
    ensures
        (low + p * v) % (p * q) == low + p * (v % q),
{
    lemma_mul_strictly_positive(p as int, q as int);
    let x = low + p * v;
    lemma_mod_breakdown(x as int, p as int, q as int);
    lemma_mul_is_commutative(p as int, v as int);
    lemma_fundamental_div_mod_converse(x as int, p as int, v as int, low as int);
}

/// Adding the first `nbytes` bytes of two byte arrays (plus a carry in
/// of 0 or 1), byte by byte with a carry, giving the sum modulo
/// 2^(8*(nbytes-1)+top_bits): the top byte is masked to `top_bits` bits
pub fn add_bytes(a: &[u8; 33], b: &[u8; 33], carry_in: u16, nbytes: usize, top_bits: usize) -> (r: [u8; 33])
    requires
        0 < nbytes <= 33,
        1 <= top_bits <= 8,
        carry_in <= 1,
    ensures
        bytes_value(r@.take(nbytes as int)) == (bytes_value(a@.take(nbytes as int))
            + bytes_value(b@.take(nbytes as int)) + carry_in as nat) % pow2(
            (8 * (nbytes - 1) + top_bits) as nat,
        ),
        forall|k: int| nbytes <= k < 33 ==> r[k] == a[k],
        r[nbytes - 1] < pow2(top_bits as nat),
{
    let mut r = *a;
    let mut c: u16 = carry_in;
    let mut i: usize = 0;
    proof {
        lemma2_to64();
        assert(bytes_value(r@.take(0)) == 0);
        assert(bytes_value(a@.take(0)) == 0);
        assert(bytes_value(b@.take(0)) == 0);
        assert(c * pow2(0) == c);
    }
    while i + 1 < nbytes
        invariant
            0 < nbytes <= 33,
            i < nbytes,
            c <= 1,
            forall|k: int| i <= k < 33 ==> r[k] == a[k],
            bytes_value(r@.take(i as int)) + c * pow2(8 * i as nat) == bytes_value(
                a@.take(i as int),
            ) + bytes_value(b@.take(i as int)) + carry_in,
            pow2(8) == 256,
        decreases nbytes - i,
    {
        let v: u16 = (r[i] as u16) + (b[i] as u16) + c;
        let ghost r0 = r@;
        r[i] = (v % 256) as u8;
        let c1: u16 = if v >= 256 { 1 } else { 0 };
        proof {
            let p = pow2(8 * i as nat);
            assert(r@.take(i as int) =~= r0.take(i as int));
            lemma_bytes_value_take(r@, i as int);
            lemma_bytes_value_take(a@, i as int);
            lemma_bytes_value_take(b@, i as int);
            lemma_pow2_adds(8 * i as nat, 8);
            assert(8 * (i + 1) == 8 * i + 8);
            assert((v % 256) * p + c1 * (p * 256) == v * p) by (nonlinear_arith)
                requires
                    c1 == (if v >= 256 { 1int } else { 0 }),
                    v < 512,
            ;
            assert(v == a[i as int] + b[i as int] + c);
            assert(v * p == a[i as int] * p + b[i as int] * p + c * p) by (nonlinear_arith)
                requires
                    v == a[i as int] + b[i as int] + c,
            ;
        }
        c = c1;
        i = i + 1;
    }
    let v: u16 = (r[i] as u16) + (b[i] as u16) + c;
    let ghost r0 = r@;
    let m: u8 = crate::utils::mask_u8_zero_none(top_bits);
    let rb: u8 = ((v % 256) as u8) & m;
    r[i] = rb;
    proof {
        let p = pow2(8 * i as nat);
        let q = pow2(top_bits as nat);
        lemma_pow2_pos(top_bits as nat);
        lemma_pow2_pos(8 * i as nat);
        assert(r@.take(i as int) =~= r0.take(i as int));
        lemma_bytes_value_take(r@, i as int);
        lemma_bytes_value_take(a@, i as int);
        lemma_bytes_value_take(b@, i as int);
        lemma_bytes_value_bound(r0.take(i as int));
        assert(i + 1 == nbytes);
        // the masked byte is the sum modulo 2^top_bits
        let vv = (v % 256) as u8;
        assert(q <= 256) by {
            if top_bits < 8 {
                lemma_pow2_strictly_increases(top_bits as nat, 8);
            }
        }
        assert(256 == q * (256nat / q)) by {
            assert(pow2(8) == pow2((8 - top_bits) as nat) * q) by {
                lemma_pow2_adds((8 - top_bits) as nat, top_bits as nat);
            }
            lemma_mul_is_commutative(pow2((8 - top_bits) as nat) as int, q as int);
            lemma_div_multiples_vanish(pow2((8 - top_bits) as nat) as int, q as int);
        }
        if top_bits < 8 {
            assert(m == q - 1);
            vstd::bits::lemma_u8_low_bits_mask_is_mod(vv, top_bits as nat);
            lemma_u8_pow2_no_overflow(top_bits as nat);
            assert(rb == vv % (q as u8));
        } else {
            assert(m == 255);
            assert(vv & 255 == vv) by (bit_vector);
        }
        assert(256nat / q > 0) by {
            if 256nat / q == 0 {
                lemma_mul_basics(q as int);
            }
        }
        assert(rb as nat == (v as nat) % q) by {
            lemma_mod_mod(v as int, q as int, (256nat / q) as int);
        }
        let low = bytes_value(r0.take(i as int));
        lemma_pow2_adds(8 * i as nat, top_bits as nat);
        assert(bytes_value(a@.take(i as int + 1)) + bytes_value(b@.take(i as int + 1)) + carry_in
            == low + p * v) by (nonlinear_arith)
            requires
                low + c * p == bytes_value(a@.take(i as int)) + bytes_value(b@.take(i as int))
                    + carry_in,
                bytes_value(a@.take(i as int + 1)) == bytes_value(a@.take(i as int)) + a[i as int]
                    * p,
                bytes_value(b@.take(i as int + 1)) == bytes_value(b@.take(i as int)) + b[i as int]
                    * p,
                v == r0[i as int] + b[i as int] + c,
                r0[i as int] == a[i as int],
        ;
        lemma_mod_split(low, p, v as nat, q);
        lemma_mul_is_commutative(p as int, ((v as nat) % q) as int);
    }
    r
}

/// The complement of each of `n` bytes has the value 2^(8n) - 1 less
/// the value of the bytes
pub proof fn lemma_complement_value(b: Seq<u8>, c: Seq<u8>, n: int)
    requires
        0 <= n <= b.len(),
        n <= c.len(),
        forall|k: int| 0 <= k < n ==> c[k] + b[k] == 255,
    ensures
        bytes_value(c.take(n)) + bytes_value(b.take(n)) + 1 == pow2(8 * n as nat),
    decreases n,
{
    if n == 0 {
        lemma2_to64();
        assert(bytes_value(c.take(0)) == 0);
        assert(bytes_value(b.take(0)) == 0);
    } else {
        lemma_complement_value(b, c, n - 1);
        lemma_bytes_value_take(b, n - 1);
        lemma_bytes_value_take(c, n - 1);
        let p = pow2(8 * (n - 1) as nat);
        lemma_pow2_adds(8 * (n - 1) as nat, 8);
        lemma2_to64();
        assert(8 * n == 8 * (n - 1) + 8);
        assert(c[n - 1] * p + b[n - 1] * p == 255 * p) by (nonlinear_arith)
            requires
                c[n - 1] + b[n - 1] == 255,
        ;
    }
}

/// Splitting a value read from the top byte down: a prefix, one byte,
/// and the value of the bytes above it
pub proof fn lemma_bytes_value_split(s: Seq<u8>, k: int, n: int)
    requires
        0 <= k < n <= s.len(),
    ensures
        bytes_value(s.take(n)) == bytes_value(s.take(k)) + s[k] * pow2(8 * k as nat) + pow2(
            8 * (k + 1) as nat,
        ) * bytes_value(s.subrange(k + 1, n)),
    decreases n,
{
    if n == k + 1 {
        lemma_bytes_value_take(s, k);
        assert(s.subrange(k + 1, n).len() == 0);
        assert(bytes_value(s.subrange(k + 1, n)) == 0);
        assert(pow2(8 * (k + 1) as nat) * 0 == 0);
    } else {
        lemma_bytes_value_split(s, k, n - 1);
        lemma_bytes_value_take(s, n - 1);
        let t = s.subrange(k + 1, n);
        assert(t.drop_last() =~= s.subrange(k + 1, n - 1));
        assert(t.last() == s[n - 1]);
        let q = pow2(8 * (k + 1) as nat);
        let e = (8 * (n - 1 - (k + 1))) as nat;
        lemma_pow2_adds(8 * (k + 1) as nat, e);
        assert(8 * (k + 1) + e == 8 * (n - 1));
        assert(t.len() == n - k - 1);
        assert(bytes_value(t) == bytes_value(s.subrange(k + 1, n - 1)) + s[n - 1] * pow2(e));
        assert(q * (bytes_value(s.subrange(k + 1, n - 1)) + s[n - 1] * pow2(e)) == q
            * bytes_value(s.subrange(k + 1, n - 1)) + s[n - 1] * (q * pow2(e))) by (nonlinear_arith)
        ;
    }
}

/// Byte sequences with equal prefix values have equal prefixes
pub proof fn lemma_bytes_value_injective(a: Seq<u8>, b: Seq<u8>, n: int)
    requires
        0 <= n <= a.len(),
        n <= b.len(),
        bytes_value(a.take(n)) == bytes_value(b.take(n)),
    ensures
        a.take(n) == b.take(n),
    decreases n,
{
    if n > 0 {
        lemma_bytes_value_take(a, n - 1);
        lemma_bytes_value_take(b, n - 1);
        lemma_bytes_value_bound(a.take(n - 1));
        lemma_bytes_value_bound(b.take(n - 1));
        let p = pow2(8 * (n - 1) as nat);
        lemma_pow2_pos(8 * (n - 1) as nat);
        let x = bytes_value(a.take(n)) as int;
        lemma_fundamental_div_mod_converse(x, p as int, a[n - 1] as int, bytes_value(a.take(n - 1)) as int);
        lemma_fundamental_div_mod_converse(x, p as int, b[n - 1] as int, bytes_value(b.take(n - 1)) as int);
        lemma_bytes_value_injective(a, b, n - 1);
        assert(a.take(n) =~= b.take(n)) by {
            assert forall|k: int| 0 <= k < n implies a.take(n)[k] == b.take(n)[k] by {
                if k < n - 1 {
                    assert(a.take(n - 1)[k] == b.take(n - 1)[k]);
                }
            }
        }
    }
}

} // verus!
