//! Styles for formatting simulation values as text, and the text that
//! each style gives
use vstd::arithmetic::power2::*;
use vstd::prelude::*;

use crate::bytes::{bits_value, lemma_bits_value_append};

verus! {

/// The length of the text of a value that is formatted in neither
/// hexadecimal nor binary
pub const MAX_STRING_LENGTH: usize = 256;

/// Format in hexadecimal, where the value supports it
pub const AS_HEX: usize = 1;

/// Format in binary, where the value supports it (and hexadecimal is
/// not used)
pub const AS_BIN: usize = 2;

/// Prefix the digits with the bit width and `h` or `b`
pub const HDR: usize = 4;

/// Every formatting option
pub const FULL: usize = 7;

/// The decimal digit for `d` (which is less than 10)
pub open spec fn dec_char(d: nat) -> char {
    if d == 0 {
        '0'
    } else if d == 1 {
        '1'
    } else if d == 2 {
        '2'
    } else if d == 3 {
        '3'
    } else if d == 4 {
        '4'
    } else if d == 5 {
        '5'
    } else if d == 6 {
        '6'
    } else if d == 7 {
        '7'
    } else if d == 8 {
        '8'
    } else {
        '9'
    }
}

/// The lower-case hexadecimal digit for `d` (which is less than 16)
pub open spec fn hex_char(d: nat) -> char {
    if d < 10 {
        dec_char(d)
    } else if d == 10 {
        'a'
    } else if d == 11 {
        'b'
    } else if d == 12 {
        'c'
    } else if d == 13 {
        'd'
    } else if d == 14 {
        'e'
    } else {
        'f'
    }
}

/// The decimal digits of `n`, most significant first, with no leading
/// zeros
pub open spec fn dec_chars(n: nat) -> Seq<char>
    decreases n,
{
    if n < 10 {
        seq![dec_char(n)]
    } else {
        dec_chars(n / 10).push(dec_char(n % 10))
    }
}

/// Bit `i` of `bits` as a number, zero beyond the end
pub open spec fn bit_value(bits: Seq<bool>, i: int) -> nat {
    if 0 <= i < bits.len() && bits[i] {
        1
    } else {
        0
    }
}

/// The value of the `k`th group of four bits of `bits`
pub open spec fn nybble_value(bits: Seq<bool>, k: int) -> nat {
    bit_value(bits, 4 * k) + 2 * bit_value(bits, 4 * k + 1) + 4 * bit_value(bits, 4 * k + 2) + 8
        * bit_value(bits, 4 * k + 3)
}

/// The binary digits of `bits` (least significant first), most
/// significant first
pub open spec fn bin_chars(bits: Seq<bool>) -> Seq<char> {
    Seq::new(bits.len(), |i: int| if bits[bits.len() - 1 - i] { '1' } else { '0' })
}

/// The hexadecimal digits of `bits` (least significant first), most
/// significant first, one per started group of four bits
pub open spec fn hex_chars(bits: Seq<bool>) -> Seq<char> {
    let n = (bits.len() + 3) / 4;
    Seq::new(n, |i: int| hex_char(nybble_value(bits, n - 1 - i)))
}

/// The value of a numeral of binary digits, most significant first
pub open spec fn binary_numeral_value(digits: Seq<char>) -> nat
    decreases digits.len(),
{
    if digits.len() == 0 {
        0
    } else {
        2 * binary_numeral_value(digits.drop_last()) + if digits.last() == '1' {
            1nat
        } else {
            0nat
        }
    }
}

proof fn lemma_binary_numeral_append(x: Seq<char>, y: Seq<char>)
    ensures
        binary_numeral_value(x + y) == binary_numeral_value(x) * pow2(y.len())
            + binary_numeral_value(y),
    decreases y.len(),
{
    if y.len() == 0 {
        assert(x + y =~= x);
        lemma2_to64();
        assert(binary_numeral_value(y) == 0);
        assert(binary_numeral_value(x) * pow2(0) == binary_numeral_value(x)) by (nonlinear_arith)
            requires
                pow2(0) == 1,
        ;
    } else {
        lemma_binary_numeral_append(x, y.drop_last());
        assert((x + y).drop_last() =~= x + y.drop_last());
        assert((x + y).last() == y.last());
        lemma_pow2_adds(1, (y.len() - 1) as nat);
        lemma2_to64();
        assert(1 + (y.len() - 1) == y.len());
        let a = binary_numeral_value(x);
        let p = pow2((y.len() - 1) as nat);
        let b = binary_numeral_value(y.drop_last());
        assert(pow2(y.len()) == 2 * p);
        assert(2 * (a * p + b) == a * (2 * p) + 2 * b) by (nonlinear_arith);
    }
}

/// The binary digits of bits are a numeral of their value
pub proof fn lemma_bin_chars_value(bits: Seq<bool>)
    ensures
        binary_numeral_value(bin_chars(bits)) == bits_value(bits),
    decreases bits.len(),
{
    if bits.len() == 0 {
        assert(bin_chars(bits) =~= Seq::<char>::empty());
    } else {
        let rest = bits.drop_last();
        lemma_bin_chars_value(rest);
        let d = if bits.last() {
            '1'
        } else {
            '0'
        };
        assert(bin_chars(bits) =~= seq![d] + bin_chars(rest));
        lemma_binary_numeral_append(seq![d], bin_chars(rest));
        assert(binary_numeral_value(seq![d]) == if bits.last() {
            1nat
        } else {
            0nat
        }) by {
            assert(seq![d].drop_last() =~= Seq::<char>::empty());
            assert(seq![d].last() == d);
            assert(binary_numeral_value(Seq::<char>::empty()) == 0);
        }
        assert(bits_value(bits) == bits_value(rest) + (if bits.last() {
            1nat
        } else {
            0nat
        }) * pow2((bits.len() - 1) as nat));
        assert(bin_chars(rest).len() == bits.len() - 1);
    }
}

/// The value of a lower-case hexadecimal digit
pub open spec fn hex_digit_value(c: char) -> nat {
    if c == '1' {
        1
    } else if c == '2' {
        2
    } else if c == '3' {
        3
    } else if c == '4' {
        4
    } else if c == '5' {
        5
    } else if c == '6' {
        6
    } else if c == '7' {
        7
    } else if c == '8' {
        8
    } else if c == '9' {
        9
    } else if c == 'a' {
        10
    } else if c == 'b' {
        11
    } else if c == 'c' {
        12
    } else if c == 'd' {
        13
    } else if c == 'e' {
        14
    } else if c == 'f' {
        15
    } else {
        0
    }
}

/// The value of a numeral of hexadecimal digits, most significant first
pub open spec fn hex_numeral_value(digits: Seq<char>) -> nat
    decreases digits.len(),
{
    if digits.len() == 0 {
        0
    } else {
        16 * hex_numeral_value(digits.drop_last()) + hex_digit_value(digits.last())
    }
}

proof fn lemma_hex_numeral_append(x: Seq<char>, y: Seq<char>)
    ensures
        hex_numeral_value(x + y) == hex_numeral_value(x) * pow2(4 * y.len()) + hex_numeral_value(
            y,
        ),
    decreases y.len(),
{
    lemma2_to64();
    if y.len() == 0 {
        assert(x + y =~= x);
        assert(hex_numeral_value(y) == 0);
        assert(hex_numeral_value(x) * pow2(0) == hex_numeral_value(x)) by (nonlinear_arith)
            requires
                pow2(0) == 1,
        ;
    } else {
        lemma_hex_numeral_append(x, y.drop_last());
        assert((x + y).drop_last() =~= x + y.drop_last());
        assert((x + y).last() == y.last());
        lemma_pow2_adds(4, 4 * (y.len() - 1) as nat);
        assert(4 + 4 * (y.len() - 1) == 4 * y.len());
        let a = hex_numeral_value(x);
        let p = pow2(4 * (y.len() - 1) as nat);
        let b = hex_numeral_value(y.drop_last());
        assert(pow2(4 * y.len()) == 16 * p);
        assert(16 * (a * p + b) == a * (16 * p) + 16 * b) by (nonlinear_arith);
    }
}

/// The value of the last, partial or full, group of at most four bits
proof fn lemma_last_nybble(bits: Seq<bool>, m: int)
    requires
        0 <= m < bits.len() <= m + 4,
        m % 4 == 0,
    ensures
        bits_value(bits.subrange(m, bits.len() as int)) == nybble_value(bits, m / 4),
{
    let hi = bits.subrange(m, bits.len() as int);
    let k = m / 4;
    assert(4 * k == m);
    lemma2_to64();
    let v = |j: int| bit_value(bits, m + j);
    assert(nybble_value(bits, k) == v(0) + 2 * v(1) + 4 * v(2) + 8 * v(3));
    reveal_with_fuel(bits_value, 5);
    if hi.len() == 1 {
        assert(hi.drop_last() =~= Seq::<bool>::empty());
    } else if hi.len() == 2 {
        assert(hi.drop_last().drop_last() =~= Seq::<bool>::empty());
    } else if hi.len() == 3 {
        assert(hi.drop_last().drop_last().drop_last() =~= Seq::<bool>::empty());
    } else {
        assert(hi.drop_last().drop_last().drop_last().drop_last() =~= Seq::<bool>::empty());
    }
}

/// The hexadecimal digits of bits are a numeral of their value
pub proof fn lemma_hex_chars_value(bits: Seq<bool>)
    ensures
        hex_numeral_value(hex_chars(bits)) == bits_value(bits),
    decreases bits.len(),
{
    if bits.len() == 0 {
        assert(hex_chars(bits) =~= Seq::<char>::empty());
    } else {
        let n = (bits.len() + 3) / 4;
        let m = 4 * (n - 1);
        let lo = bits.take(m);
        let hi = bits.subrange(m, bits.len() as int);
        lemma_hex_chars_value(lo);
        assert(bits =~= lo + hi);
        lemma_bits_value_append(lo, hi);
        lemma_last_nybble(bits, m);
        assert(m / 4 == n - 1);
        let d = nybble_value(bits, n - 1);
        assert(d < 16);
        assert forall|k: int| 0 <= k < n - 1 implies nybble_value(bits, k) == nybble_value(lo, k) by {
            assert(bit_value(bits, 4 * k) == bit_value(lo, 4 * k));
            assert(bit_value(bits, 4 * k + 1) == bit_value(lo, 4 * k + 1));
            assert(bit_value(bits, 4 * k + 2) == bit_value(lo, 4 * k + 2));
            assert(bit_value(bits, 4 * k + 3) == bit_value(lo, 4 * k + 3));
        }
        assert(hex_chars(bits) =~= seq![hex_char(d)] + hex_chars(lo));
        lemma_hex_numeral_append(seq![hex_char(d)], hex_chars(lo));
        assert(hex_numeral_value(seq![hex_char(d)]) == d) by {
            assert(seq![hex_char(d)].drop_last() =~= Seq::<char>::empty());
            assert(seq![hex_char(d)].last() == hex_char(d));
            assert(hex_numeral_value(Seq::<char>::empty()) == 0);
            assert(hex_digit_value(hex_char(d)) == d);
        }
        assert(hex_chars(lo).len() == n - 1);
        assert(pow2(4 * (n - 1) as nat) * d == d * pow2(4 * (n - 1) as nat)) by (nonlinear_arith);
    }
}

/// Whether `style` formats in hexadecimal a value that supports it or not
pub open spec fn uses_hex(style: usize, can_hex: bool) -> bool {
    (style & AS_HEX) != 0 && can_hex
}

/// Whether `style` formats in binary a value that supports
/// hexadecimal and binary as given
pub open spec fn uses_bin(style: usize, can_hex: bool, can_bin: bool) -> bool {
    !uses_hex(style, can_hex) && (style & AS_BIN) != 0 && can_bin
}

/// The digits of a value with the bits `bits` in a style; a style that
/// picks neither hexadecimal nor binary gives [MAX_STRING_LENGTH] zeros
pub open spec fn body_chars(bits: Seq<bool>, style: usize, can_hex: bool, can_bin: bool) -> Seq<
    char,
> {
    if uses_hex(style, can_hex) {
        hex_chars(bits)
    } else if uses_bin(style, can_hex, can_bin) {
        bin_chars(bits)
    } else {
        Seq::new(256, |i: int| '0')
    }
}

/// The text of a value with the bits `bits` in a style: the digits,
/// after the width and `h` or `b` where the style asks for a header
pub open spec fn formatted(bits: Seq<bool>, style: usize, can_hex: bool, can_bin: bool) -> Seq<
    char,
> {
    let body = body_chars(bits, style, can_hex, can_bin);
    if (style & HDR) == 0 {
        body
    } else {
        dec_chars(bits.len()) + seq![if uses_hex(style, can_hex) { 'h' } else { 'b' }] + body
    }
}

/// Whether the digits of a value of `width` bits fit in a style: fewer
/// than [MAX_STRING_LENGTH] of them in hexadecimal or binary
pub open spec fn fits(width: nat, style: usize, can_hex: bool, can_bin: bool) -> bool {
    &&& uses_hex(style, can_hex) ==> (width + 3) / 4 < 256
    &&& uses_bin(style, can_hex, can_bin) ==> width < 256
}

/// Appends `c` to `s`; std documents `String::push` as appending the
/// character to the end of the string
#[verifier::external_body]
fn string_push(s: &mut String, c: char)
    ensures
        final(s)@ == old(s)@.push(c),
{
    s.push(c);
}

/// Appends `t` to `s`; std documents `String::push_str` as appending the
/// string slice to the end of the string
#[verifier::external_body]
pub(crate) fn push_str(s: &mut String, t: &str)
    ensures
        final(s)@ == old(s)@ + t@,
{
    s.push_str(t);
}

/// The decimal digit character for `d`
fn dec_digit(d: usize) -> (r: char)
    requires
        d < 10,
    ensures
        r == dec_char(d as nat),
{
    if d == 0 {
        '0'
    } else if d == 1 {
        '1'
    } else if d == 2 {
        '2'
    } else if d == 3 {
        '3'
    } else if d == 4 {
        '4'
    } else if d == 5 {
        '5'
    } else if d == 6 {
        '6'
    } else if d == 7 {
        '7'
    } else if d == 8 {
        '8'
    } else {
        '9'
    }
}

/// The hexadecimal digit character for `d`
fn hex_digit(d: usize) -> (r: char)
    requires
        d < 16,
    ensures
        r == hex_char(d as nat),
{
    if d < 10 {
        dec_digit(d)
    } else if d == 10 {
        'a'
    } else if d == 11 {
        'b'
    } else if d == 12 {
        'c'
    } else if d == 13 {
        'd'
    } else if d == 14 {
        'e'
    } else {
        'f'
    }
}

/// Append the decimal digits of `n`
pub fn push_decimal(s: &mut String, n: usize)
    ensures
        final(s)@ == old(s)@ + dec_chars(n as nat),
    decreases n,
{
    if n >= 10 {
        push_decimal(s, n / 10);
    }
    string_push(s, dec_digit(n % 10));
    proof {
        if n < 10 {
            assert(old(s)@ + dec_chars(n as nat) =~= old(s)@.push(dec_char(n as nat)));
        }
    }
}

/// Append the binary digits of `bits`, most significant first
pub fn push_bin(s: &mut String, bits: &Vec<bool>)
    ensures
        final(s)@ == old(s)@ + bin_chars(bits@),
{
    let ghost s0 = s@;
    let n = bits.len();
    let mut i: usize = 0;
    while i < n
        invariant
            n == bits@.len(),
            i <= n,
            s@ == s0 + bin_chars(bits@).take(i as int),
        decreases n - i,
    {
        let c = if bits[n - 1 - i] {
            '1'
        } else {
            '0'
        };
        string_push(s, c);
        proof {
            assert(bin_chars(bits@).take(i + 1) =~= bin_chars(bits@).take(i as int).push(c));
        }
        i = i + 1;
    }
    proof {
        assert(bin_chars(bits@).take(n as int) =~= bin_chars(bits@));
    }
}

/// Bit `i` of `bits` as a number, zero beyond the end
fn bit_at(bits: &Vec<bool>, i: usize) -> (r: usize)
    ensures
        r == bit_value(bits@, i as int),
{
    if i < bits.len() && bits[i] {
        1
    } else {
        0
    }
}

/// Append the hexadecimal digits of `bits`, most significant first
pub fn push_hex(s: &mut String, bits: &Vec<bool>)
    requires
        bits@.len() < usize::MAX - 3,
    ensures
        final(s)@ == old(s)@ + hex_chars(bits@),
{
    let ghost s0 = s@;
    let n = (bits.len() + 3) / 4;
    let mut i: usize = 0;
    while i < n
        invariant
            n == (bits@.len() + 3) / 4,
            bits@.len() < usize::MAX - 3,
            i <= n,
            s@ == s0 + hex_chars(bits@).take(i as int),
        decreases n - i,
    {
        let k = n - 1 - i;
        let d = bit_at(bits, 4 * k) + 2 * bit_at(bits, 4 * k + 1) + 4 * bit_at(bits, 4 * k + 2) + 8
            * bit_at(bits, 4 * k + 3);
        let c = hex_digit(d);
        string_push(s, c);
        proof {
            assert(hex_chars(bits@).take(i + 1) =~= hex_chars(bits@).take(i as int).push(c));
        }
        i = i + 1;
    }
    proof {
        assert(hex_chars(bits@).take(n as int) =~= hex_chars(bits@));
    }
}

/// The text of a value with the bits `bits` in a style, where the value
/// supports hexadecimal and binary formatting as given
pub fn format_bits(bits: &Vec<bool>, style: usize, can_hex: bool, can_bin: bool) -> (r: String)
    requires
        fits(bits@.len(), style, can_hex, can_bin),
    ensures
        r@ == formatted(bits@, style, can_hex, can_bin),
{
    let as_hex = (style & AS_HEX) != 0 && can_hex;
    let as_bin = !as_hex && (style & AS_BIN) != 0 && can_bin;
    let mut s = String::new();
    if (style & HDR) != 0 {
        push_decimal(&mut s, bits.len());
        string_push(
            &mut s,
            if as_hex {
                'h'
            } else {
                'b'
            },
        );
    }
    let ghost s0 = s@;
    if as_hex {
        push_hex(&mut s, bits);
    } else if as_bin {
        push_bin(&mut s, bits);
    } else {
        let mut i: usize = 0;
        while i < MAX_STRING_LENGTH
            invariant
                i <= 256,
                s@ == s0 + Seq::new(i as nat, |j: int| '0'),
            decreases 256 - i,
        {
            string_push(&mut s, '0');
            proof {
                assert(Seq::new((i + 1) as nat, |j: int| '0') =~= Seq::new(i as nat, |j: int| '0').push('0'));
            }
            i = i + 1;
        }
    }
    proof {
        let body = body_chars(bits@, style, can_hex, can_bin);
        assert(s@ =~= s0 + body);
        if (style & HDR) != 0 {
            assert(s0 =~= dec_chars(bits@.len()) + seq![if as_hex { 'h' } else { 'b' }]);
        } else {
            assert(s0 =~= Seq::<char>::empty());
        }
    }
    s
}

} // verus!
