//! Traits of simulation values
use vstd::prelude::*;

use crate::bit::Bit;
use crate::bv::{bv_width, Bv};
use crate::bytes::bits_value;
use crate::fmt::{
    binary_numeral_value, format_bits, formatted, hex_numeral_value, lemma_bin_chars_value,
    lemma_hex_chars_value, AS_BIN, AS_HEX, HDR,
};

verus! {

/// A bit-copyable simulation value of a fixed number of bits, which
/// may support formatting in hexadecimal and binary
pub trait SimCopyValue: Sized + Copy {
    /// The number of bits of a value of the type
    spec fn spec_bit_width() -> nat;

    /// Whether values of the type are formatted in hexadecimal when asked
    spec fn spec_fmt_hex() -> bool;

    /// Whether values of the type are formatted in binary when asked
    spec fn spec_fmt_bin() -> bool;

    /// The bits of the value, least significant first
    spec fn sim_bits(&self) -> Seq<bool>;

    /// The number of bits of a value of the type
    fn bit_width() -> (r: usize)
        ensures
            r == Self::spec_bit_width(),
    ;

    /// Whether values of the type are formatted in hexadecimal when asked
    fn fmt_hex() -> (r: bool)
        ensures
            r == Self::spec_fmt_hex(),
    ;

    /// Whether values of the type are formatted in binary when asked
    fn fmt_bin() -> (r: bool)
        ensures
            r == Self::spec_fmt_bin(),
    ;

    /// Bit `n` of the value
    fn value_bit(&self, n: usize) -> (r: bool)
        requires
            n < Self::spec_bit_width(),
        ensures
            r == self.sim_bits()[n as int],
    ;
}

/// The bits of a simulation value, exactly as many as its width
pub open spec fn value_bits<T: SimCopyValue>(v: &T) -> Seq<bool> {
    Seq::new(T::spec_bit_width(), |i: int| v.sim_bits()[i])
}

/// The bits of a simulation value, as a vector
pub fn bits_of<T: SimCopyValue>(v: &T) -> (r: Vec<bool>)
    ensures
        r@ == value_bits(v),
{
    let w = T::bit_width();
    let mut r: Vec<bool> = Vec::new();
    let mut i: usize = 0;
    while i < w
        invariant
            w == T::spec_bit_width(),
            i <= w,
            r@ == value_bits(v).take(i as int),
        decreases w - i,
    {
        let b = v.value_bit(i);
        r.push(b);
        proof {
            assert(value_bits(v).take(i + 1) =~= value_bits(v).take(i as int).push(b));
        }
        i = i + 1;
    }
    proof {
        assert(value_bits(v).take(w as int) =~= value_bits(v));
    }
    r
}

/// A single-bit simulation value, equivalent to a `bool`
pub trait SimBit: SimCopyValue {
    /// The truth value
    spec fn truth(&self) -> bool;

    /// Return true if the bit is set
    fn is_true(&self) -> (r: bool)
        ensures
            r == self.truth(),
    ;

    /// Return true if the bit is clear
    fn is_false(&self) -> (r: bool)
        ensures
            r == !self.truth(),
    {
        !self.is_true()
    }
}

impl SimCopyValue for Bit {
    open spec fn spec_bit_width() -> nat {
        1
    }

    open spec fn spec_fmt_hex() -> bool {
        false
    }

    open spec fn spec_fmt_bin() -> bool {
        true
    }

    open spec fn sim_bits(&self) -> Seq<bool> {
        seq![self@]
    }

    fn bit_width() -> (r: usize) {
        1
    }

    fn fmt_hex() -> (r: bool) {
        false
    }

    fn fmt_bin() -> (r: bool) {
        true
    }

    fn value_bit(&self, n: usize) -> (r: bool) {
        self.is_true()
    }
}

impl SimBit for Bit {
    open spec fn truth(&self) -> bool {
        self@
    }

    fn is_true(&self) -> (r: bool) {
        Bit::is_true(self)
    }
}

impl SimCopyValue for bool {
    open spec fn spec_bit_width() -> nat {
        1
    }

    open spec fn spec_fmt_hex() -> bool {
        false
    }

    open spec fn spec_fmt_bin() -> bool {
        true
    }

    open spec fn sim_bits(&self) -> Seq<bool> {
        seq![*self]
    }

    fn bit_width() -> (r: usize) {
        1
    }

    fn fmt_hex() -> (r: bool) {
        false
    }

    fn fmt_bin() -> (r: bool) {
        true
    }

    fn value_bit(&self, n: usize) -> (r: bool) {
        *self
    }
}

impl SimBit for bool {
    open spec fn truth(&self) -> bool {
        *self
    }

    fn is_true(&self) -> (r: bool) {
        *self
    }
}

impl<const NB: usize> SimCopyValue for Bv<NB> {
    open spec fn spec_bit_width() -> nat {
        NB as nat
    }

    open spec fn spec_fmt_hex() -> bool {
        true
    }

    open spec fn spec_fmt_bin() -> bool {
        true
    }

    open spec fn sim_bits(&self) -> Seq<bool> {
        Seq::new(NB as nat, |i: int| i < bv_width(NB as nat) && self@[i])
    }

    fn bit_width() -> (r: usize) {
        NB
    }

    fn fmt_hex() -> (r: bool) {
        true
    }

    fn fmt_bin() -> (r: bool) {
        true
    }

    fn value_bit(&self, n: usize) -> (r: bool) {
        if n < Self::width() {
            self.bit(n)
        } else {
            false
        }
    }
}

impl<const NB: usize> Bv<NB> {
    /// The style of the debug text of the vector: binary with a header
    /// below eight bits, else hexadecimal with a header
    pub open spec fn debug_style() -> usize {
        if NB < 8 {
            AS_BIN | HDR
        } else {
            AS_HEX | HDR
        }
    }

    /// The debug text of the vector: its width, then `b` and its binary
    /// digits below eight bits, else `h` and its hexadecimal digits
    pub fn debug_string(&self) -> (r: String)
        requires
            (NB + 3) / 4 < 256,
        ensures
            r@ == formatted(value_bits(self), Self::debug_style(), true, true),
    {
        let style = if NB < 8 {
            AS_BIN | HDR
        } else {
            AS_HEX | HDR
        };
        let bits = bits_of(self);
        proof {
            assert((2usize | 4usize) == 6usize && (6usize & 1usize) == 0usize && (6usize & 2usize)
                != 0usize && (1usize | 4usize) == 5usize && (5usize & 1usize) != 0usize)
                by (bit_vector);
        }
        format_bits(&bits, style, true, true)
    }
}

/// The binary text of a bit vector (of at most 264 bits) is the base-2
/// numeral of its value, with as many digits as the vector has bits
pub proof fn law_binary_text_is_value<const NB: usize>(x: Bv<NB>)
    requires
        x.is_valid(),
        NB <= 264,
    ensures
        formatted(value_bits(&x), AS_BIN, true, true).len() == NB,
        binary_numeral_value(formatted(value_bits(&x), AS_BIN, true, true)) == x.value(),
{
    assert((2usize & 1usize) == 0usize && (2usize & 2usize) != 0usize && (2usize & 4usize) == 0usize)
        by (bit_vector);
    assert(value_bits(&x) =~= x@);
    x.lemma_value_of_bits();
    lemma_bin_chars_value(x@);
}

/// The hexadecimal text of a bit vector (of at most 264 bits) is the
/// base-16 numeral of its value, with one digit for each started group of
/// four bits
pub proof fn law_hex_text_is_value<const NB: usize>(x: Bv<NB>)
    requires
        x.is_valid(),
        NB <= 264,
    ensures
        formatted(value_bits(&x), AS_HEX, true, true).len() == (NB + 3) / 4,
        hex_numeral_value(formatted(value_bits(&x), AS_HEX, true, true)) == x.value(),
{
    assert((1usize & 1usize) != 0usize && (1usize & 4usize) == 0usize) by (bit_vector);
    assert(value_bits(&x) =~= x@);
    x.lemma_value_of_bits();
    lemma_hex_chars_value(x@);
}

} // verus!
