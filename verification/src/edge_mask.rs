//! Masks of the clock edges that a component sees at one time
use vstd::prelude::*;

verus! {

/// A mask of the edges of a component's clock inputs: bit `2*i` marks a
/// posedge of input `i`, bit `2*i+1` a negedge
#[derive(Debug, Clone, Copy, PartialEq, Eq, Structural, Hash, PartialOrd, Ord)]
pub struct SimEdgeMask(u64);

/// Bits set in a mask when a posedge of `input` is added
pub open spec fn posedge_bits(input: u64) -> u64 {
    1u64 << ((2 * input) as u64)
}

/// Bits set in a mask when a negedge of `input` is added: the negedge
/// bit of the input, except that the negedge of input 15 sets all the
/// bits from 31 upwards (the edge bit is formed as a 32-bit signed value
/// before it is widened)
pub open spec fn negedge_bits(input: u64) -> u64 {
    if input < 15 {
        1u64 << ((2 * input + 1) as u64)
    } else {
        0xffff_ffff_8000_0000u64
    }
}

/// The mask marks a posedge of `input`
pub open spec fn has_posedge(m: u64, input: u64) -> bool {
    (m >> ((2 * input) as u64)) & 1 == 1
}

/// The mask marks a negedge of `input`
pub open spec fn has_negedge(m: u64, input: u64) -> bool {
    (m >> ((2 * input) as u64)) & 2 == 2
}

proof fn lemma_posedge_bits(input: usize)
    requires
        input < 16,
    ensures
        ((1i32 << (2 * input)) as u64) == posedge_bits(input as u64),
{
    let s = (2 * input) as u32;
    assert(((1i32 << s) as u64) == (1u64 << (s as u64))) by (bit_vector)
        requires
            s <= 30,
    ;
}

proof fn lemma_negedge_bits(input: usize)
    requires
        input < 16,
    ensures
        ((2i32 << (2 * input)) as u64) == negedge_bits(input as u64),
{
    let s = (2 * input) as u32;
    assert((s < 30 ==> ((2i32 << s) as u64) == (1u64 << ((s + 1) as u64))) && (s == 30 ==> ((2i32
        << s) as u64) == 0xffff_ffff_8000_0000u64)) by (bit_vector)
        requires
            s <= 30,
    ;
}

impl SimEdgeMask {
    pub closed spec fn view(self) -> u64 {
        self.0
    }

    /// The mask of no edges
    pub fn none() -> (r: Self)
        ensures
            r@ == 0,
    {
        Self(0)
    }

    /// True if the mask holds no edges
    pub fn is_none(&self) -> (r: bool)
        ensures
            r == (self@ == 0),
    {
        self.0 == 0
    }

    /// True if the mask marks a posedge of `input`
    pub fn is_posedge(&self, input: usize) -> (r: bool)
        requires
            input < 32,
        ensures
            r == has_posedge(self@, input as u64),
    {
        let s = (input * 2) as u64;
        let m = self.0 >> s;
        (m & 1) == 1
    }

    /// True if the mask marks a negedge of `input`
    pub fn is_negedge(&self, input: usize) -> (r: bool)
        requires
            input < 32,
        ensures
            r == has_negedge(self@, input as u64),
    {
        let s = (input * 2) as u64;
        let m = self.0 >> s;
        (m & 2) == 2
    }

    /// Return the mask with a posedge of `input` added
    #[must_use]
    pub fn add_posedge(self, input: usize) -> (r: Self)
        requires
            input < 16,
        ensures
            r@ == self@ | posedge_bits(input as u64),
    {
        let mut s = self;
        s.set_posedge(input);
        s
    }

    /// Return the mask with a negedge of `input` added
    #[must_use]
    pub fn add_negedge(self, input: usize) -> (r: Self)
        requires
            input < 16,
        ensures
            r@ == self@ | negedge_bits(input as u64),
    {
        let mut s = self;
        s.set_negedge(input);
        s
    }

    /// Add a posedge of `input` to the mask
    pub fn set_posedge(&mut self, input: usize)
        requires
            input < 16,
        ensures
            final(self)@ == old(self)@ | posedge_bits(input as u64),
    {
        proof {
            lemma_posedge_bits(input);
        }
        self.0 = self.0 | ((1i32 << (2 * input)) as u64);
    }

    /// Add a negedge of `input` to the mask
    pub fn set_negedge(&mut self, input: usize)
        requires
            input < 16,
        ensures
            final(self)@ == old(self)@ | negedge_bits(input as u64),
    {
        proof {
            lemma_negedge_bits(input);
        }
        self.0 = self.0 | ((2i32 << (2 * input)) as u64);
    }

    /// Return true if self contains all of the edges of `others`
    pub fn contains_all(&self, others: &SimEdgeMask) -> (r: bool)
        ensures
            r == (self@ & others@ == others@),
    {
        (self.0 & others.0) == others.0
    }
}

impl Default for SimEdgeMask {
    fn default() -> (r: SimEdgeMask)
        ensures
            r@ == 0,
    {
        SimEdgeMask(0)
    }
}

/// Adding a posedge of an input marks that posedge and leaves the other
/// edges of the mask as they were
pub proof fn law_add_posedge(m: u64, input: u64, other: u64)
    requires
        input < 16,
        other < 16,
    ensures
        has_posedge(m | posedge_bits(input), input),
        other != input ==> has_posedge(m | posedge_bits(input), other) == has_posedge(m, other),
        has_negedge(m | posedge_bits(input), other) == has_negedge(m, other),
{
    assert(((m | (1u64 << (2 * input))) >> (2 * input)) & 1 == 1 && (other != input ==> ((m | (1u64
        << (2 * input))) >> (2 * other)) & 1 == (m >> (2 * other)) & 1) && ((m | (1u64 << (2
        * input))) >> (2 * other)) & 2 == (m >> (2 * other)) & 2) by (bit_vector)
        requires
            input < 16,
            other < 16,
    ;
}

/// Adding a negedge of an input marks that negedge and leaves the other
/// edges of the mask (of inputs below 16) as they were
pub proof fn law_add_negedge(m: u64, input: u64, other: u64)
    requires
        input < 16,
        other < 16,
    ensures
        has_negedge(m | negedge_bits(input), input),
        other != input ==> has_negedge(m | negedge_bits(input), other) == has_negedge(m, other),
        has_posedge(m | negedge_bits(input), other) == has_posedge(m, other),
{
    if input < 15 {
        assert(((m | (1u64 << (2 * input + 1))) >> (2 * input)) & 2 == 2 && (other != input ==> ((m
            | (1u64 << (2 * input + 1))) >> (2 * other)) & 2 == (m >> (2 * other)) & 2) && ((m | (1u64
            << (2 * input + 1))) >> (2 * other)) & 1 == (m >> (2 * other)) & 1) by (bit_vector)
            requires
                input < 15,
                other < 16,
        ;
    } else {
        let c = 0xffff_ffff_8000_0000u64;
        assert(((m | c) >> 30u64) & 2 == 2 && (other < 15 ==> ((m | c) >> (2 * other)) & 2 == (m >> (2
            * other)) & 2) && (other < 16 ==> ((m | c) >> (2 * other)) & 1 == (m >> (2 * other)) & 1))
            by (bit_vector)
            requires
                c == 0xffff_ffff_8000_0000u64,
        ;
    }
}

/// Adding edges to a mask gives a mask that contains all of the
/// first mask's edges and all of the added ones
pub proof fn law_add_contains_all(m: u64, bits: u64)
    ensures
        (m | bits) & m == m,
        (m | bits) & bits == bits,
{
    assert((m | bits) & m == m && (m | bits) & bits == bits) by (bit_vector);
}

/// A mask holds no edges exactly when it marks neither edge of any of
/// its 32 inputs
pub proof fn law_is_none_per_input(m: u64)
    ensures
        (m == 0) == (forall|i: u64| i < 32 ==> !#[trigger] has_posedge(m, i) && !has_negedge(m, i)),
{
    if m == 0 {
        assert forall|i: u64| i < 32 implies !#[trigger] has_posedge(m, i) && !has_negedge(m, i) by {
            let k = (2 * i) as u64;
            assert((0u64 >> k) & 1u64 != 1u64 && (0u64 >> k) & 2u64 != 2u64) by (bit_vector);
        }
    } else {
        if forall|i: u64| i < 32 ==> !#[trigger] has_posedge(m, i) && !has_negedge(m, i) {
            assert(!has_posedge(m, 0) && !has_negedge(m, 0));
            assert(!has_posedge(m, 1) && !has_negedge(m, 1));
            assert(!has_posedge(m, 2) && !has_negedge(m, 2));
            assert(!has_posedge(m, 3) && !has_negedge(m, 3));
            assert(!has_posedge(m, 4) && !has_negedge(m, 4));
            assert(!has_posedge(m, 5) && !has_negedge(m, 5));
            assert(!has_posedge(m, 6) && !has_negedge(m, 6));
            assert(!has_posedge(m, 7) && !has_negedge(m, 7));
            assert(!has_posedge(m, 8) && !has_negedge(m, 8));
            assert(!has_posedge(m, 9) && !has_negedge(m, 9));
            assert(!has_posedge(m, 10) && !has_negedge(m, 10));
            assert(!has_posedge(m, 11) && !has_negedge(m, 11));
            assert(!has_posedge(m, 12) && !has_negedge(m, 12));
            assert(!has_posedge(m, 13) && !has_negedge(m, 13));
            assert(!has_posedge(m, 14) && !has_negedge(m, 14));
            assert(!has_posedge(m, 15) && !has_negedge(m, 15));
            assert(!has_posedge(m, 16) && !has_negedge(m, 16));
            assert(!has_posedge(m, 17) && !has_negedge(m, 17));
            assert(!has_posedge(m, 18) && !has_negedge(m, 18));
            assert(!has_posedge(m, 19) && !has_negedge(m, 19));
            assert(!has_posedge(m, 20) && !has_negedge(m, 20));
            assert(!has_posedge(m, 21) && !has_negedge(m, 21));
            assert(!has_posedge(m, 22) && !has_negedge(m, 22));
            assert(!has_posedge(m, 23) && !has_negedge(m, 23));
            assert(!has_posedge(m, 24) && !has_negedge(m, 24));
            assert(!has_posedge(m, 25) && !has_negedge(m, 25));
            assert(!has_posedge(m, 26) && !has_negedge(m, 26));
            assert(!has_posedge(m, 27) && !has_negedge(m, 27));
            assert(!has_posedge(m, 28) && !has_negedge(m, 28));
            assert(!has_posedge(m, 29) && !has_negedge(m, 29));
            assert(!has_posedge(m, 30) && !has_negedge(m, 30));
            assert(!has_posedge(m, 31) && !has_negedge(m, 31));
            assert(false) by (bit_vector)
                requires
                    m != 0,
                    (m >> 0u64) & 1u64 != 1u64 && (m >> 0u64) & 2u64 != 2u64,
                    (m >> 2u64) & 1u64 != 1u64 && (m >> 2u64) & 2u64 != 2u64,
                    (m >> 4u64) & 1u64 != 1u64 && (m >> 4u64) & 2u64 != 2u64,
                    (m >> 6u64) & 1u64 != 1u64 && (m >> 6u64) & 2u64 != 2u64,
                    (m >> 8u64) & 1u64 != 1u64 && (m >> 8u64) & 2u64 != 2u64,
                    (m >> 10u64) & 1u64 != 1u64 && (m >> 10u64) & 2u64 != 2u64,
                    (m >> 12u64) & 1u64 != 1u64 && (m >> 12u64) & 2u64 != 2u64,
                    (m >> 14u64) & 1u64 != 1u64 && (m >> 14u64) & 2u64 != 2u64,
                    (m >> 16u64) & 1u64 != 1u64 && (m >> 16u64) & 2u64 != 2u64,
                    (m >> 18u64) & 1u64 != 1u64 && (m >> 18u64) & 2u64 != 2u64,
                    (m >> 20u64) & 1u64 != 1u64 && (m >> 20u64) & 2u64 != 2u64,
                    (m >> 22u64) & 1u64 != 1u64 && (m >> 22u64) & 2u64 != 2u64,
                    (m >> 24u64) & 1u64 != 1u64 && (m >> 24u64) & 2u64 != 2u64,
                    (m >> 26u64) & 1u64 != 1u64 && (m >> 26u64) & 2u64 != 2u64,
                    (m >> 28u64) & 1u64 != 1u64 && (m >> 28u64) & 2u64 != 2u64,
                    (m >> 30u64) & 1u64 != 1u64 && (m >> 30u64) & 2u64 != 2u64,
                    (m >> 32u64) & 1u64 != 1u64 && (m >> 32u64) & 2u64 != 2u64,
                    (m >> 34u64) & 1u64 != 1u64 && (m >> 34u64) & 2u64 != 2u64,
                    (m >> 36u64) & 1u64 != 1u64 && (m >> 36u64) & 2u64 != 2u64,
                    (m >> 38u64) & 1u64 != 1u64 && (m >> 38u64) & 2u64 != 2u64,
                    (m >> 40u64) & 1u64 != 1u64 && (m >> 40u64) & 2u64 != 2u64,
                    (m >> 42u64) & 1u64 != 1u64 && (m >> 42u64) & 2u64 != 2u64,
                    (m >> 44u64) & 1u64 != 1u64 && (m >> 44u64) & 2u64 != 2u64,
                    (m >> 46u64) & 1u64 != 1u64 && (m >> 46u64) & 2u64 != 2u64,
                    (m >> 48u64) & 1u64 != 1u64 && (m >> 48u64) & 2u64 != 2u64,
                    (m >> 50u64) & 1u64 != 1u64 && (m >> 50u64) & 2u64 != 2u64,
                    (m >> 52u64) & 1u64 != 1u64 && (m >> 52u64) & 2u64 != 2u64,
                    (m >> 54u64) & 1u64 != 1u64 && (m >> 54u64) & 2u64 != 2u64,
                    (m >> 56u64) & 1u64 != 1u64 && (m >> 56u64) & 2u64 != 2u64,
                    (m >> 58u64) & 1u64 != 1u64 && (m >> 58u64) & 2u64 != 2u64,
                    (m >> 60u64) & 1u64 != 1u64 && (m >> 60u64) & 2u64 != 2u64,
                    (m >> 62u64) & 1u64 != 1u64 && (m >> 62u64) & 2u64 != 2u64,
            ;
        }
    }
}

/// A mask contains all the edges of another exactly when, for each of
/// the 32 inputs, each edge that the other marks it marks too
#[verifier::spinoff_prover]
pub proof fn law_contains_all_per_input(s: u64, o: u64)
    ensures
        (s & o == o) == (forall|i: u64|
            i < 32 ==> (#[trigger] has_posedge(o, i) ==> has_posedge(s, i)) && (has_negedge(o, i)
                ==> has_negedge(s, i))),
{
    if s & o == o {
        assert forall|i: u64| i < 32 implies (#[trigger] has_posedge(o, i) ==> has_posedge(s, i))
            && (has_negedge(o, i) ==> has_negedge(s, i)) by {
            let k = (2 * i) as u64;
            assert(((o >> k) & 1u64 == 1u64 ==> (s >> k) & 1u64 == 1u64) && ((o >> k) & 2u64 == 2u64
                ==> (s >> k) & 2u64 == 2u64)) by (bit_vector)
                requires
                    s & o == o,
            ;
        }
    } else {
        if forall|i: u64|
            i < 32 ==> (#[trigger] has_posedge(o, i) ==> has_posedge(s, i)) && (has_negedge(o, i)
                ==> has_negedge(s, i)) {
            assert((has_posedge(o, 0) ==> has_posedge(s, 0)) && (has_negedge(o, 0) ==> has_negedge(s, 0)));
            assert((has_posedge(o, 1) ==> has_posedge(s, 1)) && (has_negedge(o, 1) ==> has_negedge(s, 1)));
            assert((has_posedge(o, 2) ==> has_posedge(s, 2)) && (has_negedge(o, 2) ==> has_negedge(s, 2)));
            assert((has_posedge(o, 3) ==> has_posedge(s, 3)) && (has_negedge(o, 3) ==> has_negedge(s, 3)));
            assert((has_posedge(o, 4) ==> has_posedge(s, 4)) && (has_negedge(o, 4) ==> has_negedge(s, 4)));
            assert((has_posedge(o, 5) ==> has_posedge(s, 5)) && (has_negedge(o, 5) ==> has_negedge(s, 5)));
            assert((has_posedge(o, 6) ==> has_posedge(s, 6)) && (has_negedge(o, 6) ==> has_negedge(s, 6)));
            assert((has_posedge(o, 7) ==> has_posedge(s, 7)) && (has_negedge(o, 7) ==> has_negedge(s, 7)));
            assert((has_posedge(o, 8) ==> has_posedge(s, 8)) && (has_negedge(o, 8) ==> has_negedge(s, 8)));
            assert((has_posedge(o, 9) ==> has_posedge(s, 9)) && (has_negedge(o, 9) ==> has_negedge(s, 9)));
            assert((has_posedge(o, 10) ==> has_posedge(s, 10)) && (has_negedge(o, 10) ==> has_negedge(s, 10)));
            assert((has_posedge(o, 11) ==> has_posedge(s, 11)) && (has_negedge(o, 11) ==> has_negedge(s, 11)));
            assert((has_posedge(o, 12) ==> has_posedge(s, 12)) && (has_negedge(o, 12) ==> has_negedge(s, 12)));
            assert((has_posedge(o, 13) ==> has_posedge(s, 13)) && (has_negedge(o, 13) ==> has_negedge(s, 13)));
            assert((has_posedge(o, 14) ==> has_posedge(s, 14)) && (has_negedge(o, 14) ==> has_negedge(s, 14)));
            assert((has_posedge(o, 15) ==> has_posedge(s, 15)) && (has_negedge(o, 15) ==> has_negedge(s, 15)));
            assert((has_posedge(o, 16) ==> has_posedge(s, 16)) && (has_negedge(o, 16) ==> has_negedge(s, 16)));
            assert((has_posedge(o, 17) ==> has_posedge(s, 17)) && (has_negedge(o, 17) ==> has_negedge(s, 17)));
            assert((has_posedge(o, 18) ==> has_posedge(s, 18)) && (has_negedge(o, 18) ==> has_negedge(s, 18)));
            assert((has_posedge(o, 19) ==> has_posedge(s, 19)) && (has_negedge(o, 19) ==> has_negedge(s, 19)));
            assert((has_posedge(o, 20) ==> has_posedge(s, 20)) && (has_negedge(o, 20) ==> has_negedge(s, 20)));
            assert((has_posedge(o, 21) ==> has_posedge(s, 21)) && (has_negedge(o, 21) ==> has_negedge(s, 21)));
            assert((has_posedge(o, 22) ==> has_posedge(s, 22)) && (has_negedge(o, 22) ==> has_negedge(s, 22)));
            assert((has_posedge(o, 23) ==> has_posedge(s, 23)) && (has_negedge(o, 23) ==> has_negedge(s, 23)));
            assert((has_posedge(o, 24) ==> has_posedge(s, 24)) && (has_negedge(o, 24) ==> has_negedge(s, 24)));
            assert((has_posedge(o, 25) ==> has_posedge(s, 25)) && (has_negedge(o, 25) ==> has_negedge(s, 25)));
            assert((has_posedge(o, 26) ==> has_posedge(s, 26)) && (has_negedge(o, 26) ==> has_negedge(s, 26)));
            assert((has_posedge(o, 27) ==> has_posedge(s, 27)) && (has_negedge(o, 27) ==> has_negedge(s, 27)));
            assert((has_posedge(o, 28) ==> has_posedge(s, 28)) && (has_negedge(o, 28) ==> has_negedge(s, 28)));
            assert((has_posedge(o, 29) ==> has_posedge(s, 29)) && (has_negedge(o, 29) ==> has_negedge(s, 29)));
            assert((has_posedge(o, 30) ==> has_posedge(s, 30)) && (has_negedge(o, 30) ==> has_negedge(s, 30)));
            assert((has_posedge(o, 31) ==> has_posedge(s, 31)) && (has_negedge(o, 31) ==> has_negedge(s, 31)));
            assert(s & o == o) by (bit_vector)
                requires
                    ((o >> 0u64) & 1u64 == 1u64 ==> (s >> 0u64) & 1u64 == 1u64) && ((o >> 0u64) & 2u64 == 2u64 ==> (s >> 0u64) & 2u64 == 2u64),
                    ((o >> 2u64) & 1u64 == 1u64 ==> (s >> 2u64) & 1u64 == 1u64) && ((o >> 2u64) & 2u64 == 2u64 ==> (s >> 2u64) & 2u64 == 2u64),
                    ((o >> 4u64) & 1u64 == 1u64 ==> (s >> 4u64) & 1u64 == 1u64) && ((o >> 4u64) & 2u64 == 2u64 ==> (s >> 4u64) & 2u64 == 2u64),
                    ((o >> 6u64) & 1u64 == 1u64 ==> (s >> 6u64) & 1u64 == 1u64) && ((o >> 6u64) & 2u64 == 2u64 ==> (s >> 6u64) & 2u64 == 2u64),
                    ((o >> 8u64) & 1u64 == 1u64 ==> (s >> 8u64) & 1u64 == 1u64) && ((o >> 8u64) & 2u64 == 2u64 ==> (s >> 8u64) & 2u64 == 2u64),
                    ((o >> 10u64) & 1u64 == 1u64 ==> (s >> 10u64) & 1u64 == 1u64) && ((o >> 10u64) & 2u64 == 2u64 ==> (s >> 10u64) & 2u64 == 2u64),
                    ((o >> 12u64) & 1u64 == 1u64 ==> (s >> 12u64) & 1u64 == 1u64) && ((o >> 12u64) & 2u64 == 2u64 ==> (s >> 12u64) & 2u64 == 2u64),
                    ((o >> 14u64) & 1u64 == 1u64 ==> (s >> 14u64) & 1u64 == 1u64) && ((o >> 14u64) & 2u64 == 2u64 ==> (s >> 14u64) & 2u64 == 2u64),
                    ((o >> 16u64) & 1u64 == 1u64 ==> (s >> 16u64) & 1u64 == 1u64) && ((o >> 16u64) & 2u64 == 2u64 ==> (s >> 16u64) & 2u64 == 2u64),
                    ((o >> 18u64) & 1u64 == 1u64 ==> (s >> 18u64) & 1u64 == 1u64) && ((o >> 18u64) & 2u64 == 2u64 ==> (s >> 18u64) & 2u64 == 2u64),
                    ((o >> 20u64) & 1u64 == 1u64 ==> (s >> 20u64) & 1u64 == 1u64) && ((o >> 20u64) & 2u64 == 2u64 ==> (s >> 20u64) & 2u64 == 2u64),
                    ((o >> 22u64) & 1u64 == 1u64 ==> (s >> 22u64) & 1u64 == 1u64) && ((o >> 22u64) & 2u64 == 2u64 ==> (s >> 22u64) & 2u64 == 2u64),
                    ((o >> 24u64) & 1u64 == 1u64 ==> (s >> 24u64) & 1u64 == 1u64) && ((o >> 24u64) & 2u64 == 2u64 ==> (s >> 24u64) & 2u64 == 2u64),
                    ((o >> 26u64) & 1u64 == 1u64 ==> (s >> 26u64) & 1u64 == 1u64) && ((o >> 26u64) & 2u64 == 2u64 ==> (s >> 26u64) & 2u64 == 2u64),
                    ((o >> 28u64) & 1u64 == 1u64 ==> (s >> 28u64) & 1u64 == 1u64) && ((o >> 28u64) & 2u64 == 2u64 ==> (s >> 28u64) & 2u64 == 2u64),
                    ((o >> 30u64) & 1u64 == 1u64 ==> (s >> 30u64) & 1u64 == 1u64) && ((o >> 30u64) & 2u64 == 2u64 ==> (s >> 30u64) & 2u64 == 2u64),
                    ((o >> 32u64) & 1u64 == 1u64 ==> (s >> 32u64) & 1u64 == 1u64) && ((o >> 32u64) & 2u64 == 2u64 ==> (s >> 32u64) & 2u64 == 2u64),
                    ((o >> 34u64) & 1u64 == 1u64 ==> (s >> 34u64) & 1u64 == 1u64) && ((o >> 34u64) & 2u64 == 2u64 ==> (s >> 34u64) & 2u64 == 2u64),
                    ((o >> 36u64) & 1u64 == 1u64 ==> (s >> 36u64) & 1u64 == 1u64) && ((o >> 36u64) & 2u64 == 2u64 ==> (s >> 36u64) & 2u64 == 2u64),
                    ((o >> 38u64) & 1u64 == 1u64 ==> (s >> 38u64) & 1u64 == 1u64) && ((o >> 38u64) & 2u64 == 2u64 ==> (s >> 38u64) & 2u64 == 2u64),
                    ((o >> 40u64) & 1u64 == 1u64 ==> (s >> 40u64) & 1u64 == 1u64) && ((o >> 40u64) & 2u64 == 2u64 ==> (s >> 40u64) & 2u64 == 2u64),
                    ((o >> 42u64) & 1u64 == 1u64 ==> (s >> 42u64) & 1u64 == 1u64) && ((o >> 42u64) & 2u64 == 2u64 ==> (s >> 42u64) & 2u64 == 2u64),
                    ((o >> 44u64) & 1u64 == 1u64 ==> (s >> 44u64) & 1u64 == 1u64) && ((o >> 44u64) & 2u64 == 2u64 ==> (s >> 44u64) & 2u64 == 2u64),
                    ((o >> 46u64) & 1u64 == 1u64 ==> (s >> 46u64) & 1u64 == 1u64) && ((o >> 46u64) & 2u64 == 2u64 ==> (s >> 46u64) & 2u64 == 2u64),
                    ((o >> 48u64) & 1u64 == 1u64 ==> (s >> 48u64) & 1u64 == 1u64) && ((o >> 48u64) & 2u64 == 2u64 ==> (s >> 48u64) & 2u64 == 2u64),
                    ((o >> 50u64) & 1u64 == 1u64 ==> (s >> 50u64) & 1u64 == 1u64) && ((o >> 50u64) & 2u64 == 2u64 ==> (s >> 50u64) & 2u64 == 2u64),
                    ((o >> 52u64) & 1u64 == 1u64 ==> (s >> 52u64) & 1u64 == 1u64) && ((o >> 52u64) & 2u64 == 2u64 ==> (s >> 52u64) & 2u64 == 2u64),
                    ((o >> 54u64) & 1u64 == 1u64 ==> (s >> 54u64) & 1u64 == 1u64) && ((o >> 54u64) & 2u64 == 2u64 ==> (s >> 54u64) & 2u64 == 2u64),
                    ((o >> 56u64) & 1u64 == 1u64 ==> (s >> 56u64) & 1u64 == 1u64) && ((o >> 56u64) & 2u64 == 2u64 ==> (s >> 56u64) & 2u64 == 2u64),
                    ((o >> 58u64) & 1u64 == 1u64 ==> (s >> 58u64) & 1u64 == 1u64) && ((o >> 58u64) & 2u64 == 2u64 ==> (s >> 58u64) & 2u64 == 2u64),
                    ((o >> 60u64) & 1u64 == 1u64 ==> (s >> 60u64) & 1u64 == 1u64) && ((o >> 60u64) & 2u64 == 2u64 ==> (s >> 60u64) & 2u64 == 2u64),
                    ((o >> 62u64) & 1u64 == 1u64 ==> (s >> 62u64) & 1u64 == 1u64) && ((o >> 62u64) & 2u64 == 2u64 ==> (s >> 62u64) & 2u64 == 2u64),
            ;
        }
    }
}

} // verus!
