//! Bit-count helpers: masks for the valid bits of the top storage word
//! of a vector, storage sizes, and small number-theory helpers used when
//! relating clock periods.
use vstd::arithmetic::div_mod::*;
use vstd::arithmetic::power2::*;
use vstd::bits::*;
use vstd::prelude::*;

verus! {

/// Value of a mask with the low `n` bits set, saturating at `width` bits
pub open spec fn low_mask(n: nat, width: nat) -> nat {
    if n >= width {
        (pow2(width) - 1) as nat
    } else {
        (pow2(n) - 1) as nat
    }
}

/// Mask for the valid bits of the top byte of a vector whose top byte
/// holds `n` bits; `n` of 8 or more means the whole byte
pub fn mask_u8_zero_none(n: usize) -> (r: u8)
    ensures
        r == low_mask(n as nat, 8),
{
    if n >= 8 {
        assert(pow2(8) == 256) by { lemma2_to64(); }
        255
    } else {
        let s = n as u8;
        proof {
            lemma_u8_pow2_no_overflow(s as nat);
            lemma_u8_shl_is_mul(1, s);
        }
        (1u8 << s) - 1
    }
}

/// As [mask_u8_zero_none], except that 0 bits means a full byte (as the
/// number of valid bits in the top byte is taken modulo 8)
pub fn mask_u8_zero_all(n: usize) -> (r: u8)
    ensures
        r == (if n == 0 { 255 } else { low_mask(n as nat, 8) }),
{
    if n >= 8 || n == 0 {
        assert(pow2(8) == 256) by { lemma2_to64(); }
        255
    } else {
        let s = n as u8;
        proof {
            lemma_u8_pow2_no_overflow(s as nat);
            lemma_u8_shl_is_mul(1, s);
        }
        (1u8 << s) - 1
    }
}

/// Mask for the low `n` bits of a u64, all ones for 64 bits or more
pub fn mask_u64_zero_none(n: usize) -> (r: u64)
    ensures
        r == low_mask(n as nat, 64),
{
    if n >= 64 {
        assert(pow2(64) == 0x1_0000_0000_0000_0000) by { lemma2_to64_rest(); }
        u64::MAX
    } else {
        let s = n as u64;
        proof {
            lemma_u64_pow2_no_overflow(s as nat);
            lemma_u64_shl_is_mul(1, s);
        }
        (1u64 << s) - 1
    }
}

/// As [mask_u64_zero_none], except that 0 bits means all 64 bits
pub fn mask_u64_zero_all(n: usize) -> (r: u64)
    ensures
        r == (if n == 0 { u64::MAX as nat } else { low_mask(n as nat, 64) }),
{
    if n >= 64 || n == 0 {
        assert(pow2(64) == 0x1_0000_0000_0000_0000) by { lemma2_to64_rest(); }
        u64::MAX
    } else {
        let s = n as u64;
        proof {
            lemma_u64_pow2_no_overflow(s as nat);
            lemma_u64_shl_is_mul(1, s);
        }
        (1u64 << s) - 1
    }
}

/// Number of bytes needed to hold `num_bits` bits
pub open spec fn bytes_of_bits(num_bits: nat) -> nat {
    (num_bits + 7) / 8
}

/// Number of u64 words needed to hold `num_bits` bits
pub open spec fn words_of_bits(num_bits: nat) -> nat {
    (num_bits + 63) / 64
}

/// Number of bytes needed to hold `num_bits` bits
pub fn num_u8_of_bits(num_bits: usize) -> (r: usize)
    requires
        num_bits + 7 <= usize::MAX,
    ensures
        r == bytes_of_bits(num_bits as nat),
{
    (num_bits + 7) / 8
}

/// Number of u64 words needed to hold `num_bits` bits
pub fn num_u64_of_bits(num_bits: usize) -> (r: usize)
    requires
        num_bits + 63 <= usize::MAX,
    ensures
        r == words_of_bits(num_bits as nat),
{
    (num_bits + 63) / 64
}

/// The mask of the valid bits of storage element `i` (of `n` elements
/// of `width` bits) of a `num_bits`-bit vector: all ones except for
/// the last element, which holds the remaining `num_bits % width` bits
pub open spec fn element_mask(i: nat, n: nat, num_bits: nat, width: nat) -> nat {
    if i + 1 < n {
        (pow2(width) - 1) as nat
    } else if num_bits % width == 0 {
        (pow2(width) - 1) as nat
    } else {
        (pow2(num_bits % width) - 1) as nat
    }
}

/// The u64 words of a `num_bits`-bit vector, each with the mask of its
/// valid bits
pub fn iter_u64_of_bits(num_bits: usize) -> (r: Vec<(usize, u64)>)
    requires
        num_bits + 63 <= usize::MAX,
    ensures
        r.len() == words_of_bits(num_bits as nat),
        forall|i: int|
            0 <= i < r.len() ==> #[trigger] r[i].0 == i && r[i].1 == element_mask(
                i as nat,
                r.len() as nat,
                num_bits as nat,
                64,
            ),
{
    let n = num_u64_of_bits(num_bits);
    let mut r: Vec<(usize, u64)> = Vec::new();
    let mut i: usize = 0;
    assert(pow2(64) == 0x1_0000_0000_0000_0000) by { lemma2_to64_rest(); }
    while i < n
        invariant
            i <= n,
            n == words_of_bits(num_bits as nat),
            r.len() == i,
            pow2(64) == 0x1_0000_0000_0000_0000,
            forall|k: int|
                0 <= k < i ==> #[trigger] r[k].0 == k && r[k].1 == element_mask(
                    k as nat,
                    n as nat,
                    num_bits as nat,
                    64,
                ),
        decreases n - i,
    {
        if i + 1 < n {
            r.push((i, u64::MAX));
        } else {
            let low = num_bits & 63;
            assert(num_bits & 63 == num_bits % 64) by (bit_vector);
            let m = mask_u64_zero_all(low);
            r.push((i, m));
        }
        i = i + 1;
    }
    r
}

/// The bytes of a `num_bits`-bit vector, each with the mask of its valid
/// bits
pub fn iter_u8_of_bits(num_bits: usize) -> (r: Vec<(usize, u8)>)
    requires
        num_bits + 7 <= usize::MAX,
    ensures
        r.len() == bytes_of_bits(num_bits as nat),
        forall|i: int|
            0 <= i < r.len() ==> #[trigger] r[i].0 == i && r[i].1 == element_mask(
                i as nat,
                r.len() as nat,
                num_bits as nat,
                8,
            ),
{
    let n = num_u8_of_bits(num_bits);
    let mut r: Vec<(usize, u8)> = Vec::new();
    let mut i: usize = 0;
    assert(pow2(8) == 256) by { lemma2_to64(); }
    while i < n
        invariant
            i <= n,
            n == bytes_of_bits(num_bits as nat),
            r.len() == i,
            pow2(8) == 256,
            forall|k: int|
                0 <= k < i ==> #[trigger] r[k].0 == k && r[k].1 == element_mask(
                    k as nat,
                    n as nat,
                    num_bits as nat,
                    8,
                ),
        decreases n - i,
    {
        if i + 1 < n {
            r.push((i, 255u8));
        } else {
            let low = num_bits & 7;
            assert(num_bits & 7 == num_bits % 8) by (bit_vector);
            let m = mask_u8_zero_all(low);
            r.push((i, m));
        }
        i = i + 1;
    }
    r
}

/// Greatest common divisor, by Euclid's algorithm
pub open spec fn gcd_spec(a: nat, b: nat) -> nat
    decreases b,
{
    if b == 0 {
        a
    } else {
        gcd_spec(b, a % b)
    }
}

/// Greatest common divisor of two positive numbers
pub fn gcd(a: usize, b: usize) -> (r: usize)
    requires
        a > 0,
        b > 0,
    ensures
        r == gcd_spec(a as nat, b as nat),
        r > 0,
{
    let mut x = a;
    let mut y = b;
    if x < y {
        x = b;
        y = a;
        assert(gcd_spec(a as nat, b as nat) == gcd_spec(x as nat, y as nat)) by {
            lemma_small_mod(a as nat, b as nat);
        }
    }
    let ghost g = gcd_spec(a as nat, b as nat);
    loop
        invariant
            y > 0,
            gcd_spec(x as nat, y as nat) == g,
            g == gcd_spec(a as nat, b as nat),
        ensures
            y == g,
            y > 0,
        decreases y,
    {
        let r = x % y;
        assert(gcd_spec(x as nat, y as nat) == gcd_spec(y as nat, r as nat));
        if r > 0 {
            x = y;
            y = r;
        } else {
            assert(gcd_spec(y as nat, 0) == y);
            break;
        }
    }
    y
}

/// `x` is `k` times `d` for some natural `k`
pub open spec fn divides(d: nat, x: nat) -> bool {
    exists|k: nat| #[trigger] (k * d) == x
}

proof fn lemma_divides_mod(a: nat, b: nat, g: nat)
    requires
        b > 0,
        divides(g, b),
        divides(g, a % b),
    ensures
        divides(g, a),
{
    let m = choose|k: nat| #[trigger] (k * g) == b;
    let n = choose|k: nat| #[trigger] (k * g) == a % b;
    lemma_fundamental_div_mod(a as int, b as int);
    let q: nat = a / b;
    let r: nat = a % b;
    let w: nat = m * q + n;
    assert(w * g == a) by (nonlinear_arith)
        requires
            a == b * q + r,
            b == m * g,
            r == n * g,
            w == m * q + n,
    ;
}

proof fn lemma_divides_of_mod(a: nat, b: nat, d: nat)
    requires
        b > 0,
        divides(d, a),
        divides(d, b),
    ensures
        divides(d, a % b),
{
    let m = choose|k: nat| #[trigger] (k * d) == a;
    let n = choose|k: nat| #[trigger] (k * d) == b;
    assert(d > 0) by (nonlinear_arith)
        requires
            n * d == b,
            b > 0,
    ;
    lemma_fundamental_div_mod(a as int, b as int);
    lemma_mod_bound(a as int, b as int);
    let q: nat = a / b;
    let r: nat = a % b;
    let w: int = m - q * n;
    assert(w * d == r) by (nonlinear_arith)
        requires
            a == b * q + r,
            b == n * d,
            a == m * d,
            w == m - q * n,
    ;
    assert(w >= 0) by (nonlinear_arith)
        requires
            w * d == r,
            r >= 0,
            d > 0,
    ;
    let wn: nat = w as nat;
    assert(wn * d == r);
}

/// The greatest common divisor divides both numbers, and every common
/// divisor of them divides it
pub proof fn law_gcd_is_greatest_common_divisor(a: nat, b: nat)
    requires
        a > 0,
    ensures
        divides(gcd_spec(a, b), a),
        divides(gcd_spec(a, b), b),
        gcd_spec(a, b) > 0,
        forall|d: nat| divides(d, a) && divides(d, b) ==> #[trigger] divides(d, gcd_spec(a, b)),
    decreases b,
{
    if b == 0 {
        assert(1 * a == a);
        assert(0 * a == 0);
    } else {
        lemma_mod_bound(a as int, b as int);
        law_gcd_is_greatest_common_divisor(b, a % b);
        lemma_divides_mod(a, b, gcd_spec(b, a % b));
        assert forall|d: nat| divides(d, a) && divides(d, b) implies #[trigger] divides(
            d,
            gcd_spec(a, b),
        ) by {
            lemma_divides_of_mod(a, b, d);
        }
    }
}

/// The least common multiple that [lcm] computes is a multiple of both
/// numbers
pub proof fn law_lcm_is_common_multiple(a: nat, b: nat)
    requires
        a > 0,
        b > 0,
    ensures
        divides(a, a * (b / gcd_spec(a, b))),
        divides(b, a * (b / gcd_spec(a, b))),
{
    law_gcd_is_greatest_common_divisor(a, b);
    let g = gcd_spec(a, b);
    let x = a * (b / g);
    let q: nat = b / g;
    assert(q * a == x) by (nonlinear_arith)
        requires
            x == a * q,
    ;
    let p = choose|k: nat| #[trigger] (k * g) == a;
    let n = choose|k: nat| #[trigger] (k * g) == b;
    lemma_fundamental_div_mod(b as int, g as int);
    lemma_div_multiples_vanish(n as int, g as int);
    assert(b / g == n) by {
        assert(n * g == g * n) by (nonlinear_arith);
        lemma_div_multiples_vanish(n as int, g as int);
    }
    assert(p * b == x) by (nonlinear_arith)
        requires
            x == a * n,
            a == p * g,
            b == n * g,
    ;
}

/// Least common multiple of two positive numbers
pub fn lcm(a: usize, b: usize) -> (r: usize)
    requires
        a > 0,
        b > 0,
        a * ((b as nat) / gcd_spec(a as nat, b as nat)) <= usize::MAX,
    ensures
        r == a * ((b as nat) / gcd_spec(a as nat, b as nat)),
{
    let g = gcd(a, b);
    let b = b / g;
    proof {
        lemma_div_pos_is_pos(b as int, g as int);
    }
    a * b
}

} // verus!
