//! A counter of `NB` bits that loads, increments and decrements on the
//! rising edge of its clock, with an active-low reset to a given value
use vstd::arithmetic::div_mod::*;
use vstd::arithmetic::power2::*;
use vstd::prelude::*;

use crate::bit::Bit;
use crate::bv::{bv_width, Bv};
use crate::edge_mask::{has_posedge, SimEdgeMask};

verus! {

/// The inputs of a counter
#[derive(Clone, Copy)]
pub struct Inputs<const NB: usize> {
    pub reset_n: Bit,
    pub load: Bit,
    pub increment: Bit,
    pub decrement: Bit,
    pub data: Bv<NB>,
}

/// The clocked state of a counter
#[derive(Clone, Copy)]
pub struct State<const NB: usize> {
    pub data: Bv<NB>,
}

/// The outputs of a counter
#[derive(Clone, Copy)]
pub struct Outputs<const NB: usize> {
    pub data: Bv<NB>,
}

/// A counter, reset to `reset_value` (zero where there is none)
pub struct Counter<const NB: usize> {
    pub reset_value: Option<Bv<NB>>,
    pub inputs: Inputs<NB>,
    pub state: State<NB>,
    pub next_state: State<NB>,
    pub outputs: Outputs<NB>,
}

/// `v` is the reset value: `reset_value` where given, else zero
pub open spec fn is_reset_value<const NB: usize>(reset_value: Option<Bv<NB>>, v: Bv<NB>) -> bool {
    match reset_value {
        Some(x) => v == x,
        None => v.is_valid() && v.value() == 0,
    }
}

/// The value one in `NB` bits
pub open spec fn one(nb: nat) -> nat {
    1nat % pow2(bv_width(nb))
}

/// `next` is the value that a rising clock edge gives a counter holding
/// `state`: the reset value in reset; else one more than `state` when
/// incrementing, one less when decrementing (both wrapping), `data` when
/// loading, and `state` otherwise
pub open spec fn next_value<const NB: usize>(
    inputs: Inputs<NB>,
    reset_value: Option<Bv<NB>>,
    state: Bv<NB>,
    next: Bv<NB>,
) -> bool {
    let w = pow2(bv_width(NB as nat));
    if !inputs.reset_n@ {
        is_reset_value(reset_value, next)
    } else if inputs.increment@ {
        next.is_valid() && next.value() == (state.value() + one(NB as nat)) % w
    } else if inputs.decrement@ {
        next.is_valid() && next.value() == (state.value() + w - one(NB as nat)) % (w as int)
    } else if inputs.load@ {
        next == inputs.data
    } else {
        next == state
    }
}

impl<const NB: usize> Counter<NB> {
    /// A counter with the given reset value, all signals zero
    pub fn new(reset_value: Option<Bv<NB>>) -> (r: Self)
        ensures
            r.reset_value == reset_value,
            !r.inputs.reset_n@ && !r.inputs.load@ && !r.inputs.increment@ && !r.inputs.decrement@,
            r.inputs.data.is_valid() && r.inputs.data.value() == 0,
            r.state.data.is_valid() && r.state.data.value() == 0,
            r.next_state.data.is_valid() && r.next_state.data.value() == 0,
            r.outputs.data.is_valid() && r.outputs.data.value() == 0,
    {
        let z = Bv::<NB>::zero_value();
        Counter {
            reset_value,
            inputs: Inputs { reset_n: Bit::F, load: Bit::F, increment: Bit::F, decrement: Bit::F, data: z },
            state: State { data: z },
            next_state: State { data: z },
            outputs: Outputs { data: z },
        }
    }

    /// The reset value: that given, else zero
    fn reset_data(&self) -> (r: Bv<NB>)
        ensures
            is_reset_value(self.reset_value, r),
    {
        match self.reset_value {
            Some(v) => v,
            None => Bv::zero_value(),
        }
    }

    /// The outputs show the state
    pub fn generate_outputs(&mut self)
        ensures
            final(self).outputs.data == old(self).state.data,
            final(self).state == old(self).state,
            final(self).inputs == old(self).inputs,
            final(self).reset_value == old(self).reset_value,
    {
        self.outputs.data = self.state.data;
    }

    /// Reset: the state and outputs take the reset value
    pub fn reset(&mut self)
        ensures
            is_reset_value(old(self).reset_value, final(self).state.data),
            final(self).outputs.data == final(self).state.data,
            final(self).inputs == old(self).inputs,
            final(self).reset_value == old(self).reset_value,
    {
        self.state.data = self.reset_data();
        self.generate_outputs();
    }

    /// Configure the reset value, and reset to it
    pub fn configure(&mut self, config: Option<Bv<NB>>)
        ensures
            final(self).reset_value == config,
            is_reset_value(config, final(self).state.data),
            final(self).outputs.data == final(self).state.data,
            final(self).inputs == old(self).inputs,
    {
        self.reset_value = config;
        self.reset();
    }

    /// A clock edge: on a rising edge of the clock (input 0) the state
    /// moves to its next value and the outputs show it
    pub fn clock(&mut self, mask: SimEdgeMask)
        ensures
            final(self).inputs == old(self).inputs,
            final(self).reset_value == old(self).reset_value,
            has_posedge(mask@, 0) ==> next_value(
                old(self).inputs,
                old(self).reset_value,
                old(self).state.data,
                final(self).state.data,
            ) && final(self).outputs.data == final(self).state.data,
            !has_posedge(mask@, 0) ==> final(self).state == old(self).state && final(self).outputs
                == old(self).outputs,
    {
        if mask.is_posedge(0) {
            let mut next = self.state;
            if self.inputs.reset_n.is_false() {
                next.data = self.reset_data();
            } else {
                if self.inputs.load.is_true() {
                    next.data = self.inputs.data;
                }
                if self.inputs.increment.is_true() {
                    let mut d = self.state.data;
                    d.add_msk(&Bv::<NB>::of_u64(1));
                    next.data = d;
                } else if self.inputs.decrement.is_true() {
                    let mut d = self.state.data;
                    d.sub_msk(&Bv::<NB>::of_u64(1));
                    next.data = d;
                }
            }
            self.next_state = next;
            self.state = next;
            self.generate_outputs();
        }
    }
}

/// Incrementing a counter and then decrementing it gives back its count
pub proof fn law_increment_then_decrement<const NB: usize>(
    inc: Inputs<NB>,
    dec: Inputs<NB>,
    reset_value: Option<Bv<NB>>,
    s: Bv<NB>,
    n1: Bv<NB>,
    n2: Bv<NB>,
)
    requires
        s.is_valid(),
        inc.reset_n@ && inc.increment@,
        dec.reset_n@ && !dec.increment@ && dec.decrement@,
        next_value(inc, reset_value, s, n1),
        next_value(dec, reset_value, n1, n2),
    ensures
        n2.value() == s.value(),
{
    let w = pow2(bv_width(NB as nat)) as int;
    lemma_pow2_pos(bv_width(NB as nat));
    s.lemma_value_bound();
    let a = s.value() as int;
    let o = one(NB as nat) as int;
    assert(0 <= o < w) by {
        lemma_mod_bound(1, w);
    }
    assert(((a + o) % w + w - o) % w == a) by {
        lemma_add_mod_noop_right(w - o, a + o, w);
        assert((w - o) + (a + o) == w + a);
        lemma_mod_add_multiples_vanish(a, w);
        lemma_small_mod(a as nat, w as nat);
    }
}

/// Out of reset, with none of load, increment or decrement asserted, a
/// rising clock edge leaves the count as it was
pub proof fn law_counter_holds<const NB: usize>(
    inputs: Inputs<NB>,
    reset_value: Option<Bv<NB>>,
    s: Bv<NB>,
    n: Bv<NB>,
)
    requires
        inputs.reset_n@,
        !inputs.load@,
        !inputs.increment@,
        !inputs.decrement@,
        next_value(inputs, reset_value, s, n),
    ensures
        n == s,
{
}

/// Out of reset, loading without incrementing or decrementing takes the
/// data, incrementing adds one and decrementing (without incrementing)
/// takes one away, both wrapping at the width; in reset the count takes
/// the reset value (zero where there is none), whatever else is asserted
pub proof fn law_counter_load_and_reset<const NB: usize>(
    inputs: Inputs<NB>,
    reset_value: Option<Bv<NB>>,
    s: Bv<NB>,
    n: Bv<NB>,
)
    requires
        next_value(inputs, reset_value, s, n),
    ensures
        inputs.reset_n@ && inputs.load@ && !inputs.increment@ && !inputs.decrement@ ==> n
            == inputs.data,
        !inputs.reset_n@ && reset_value is Some ==> n == reset_value->0,
        !inputs.reset_n@ && reset_value is None ==> n.value() == 0,
        inputs.reset_n@ && inputs.increment@ ==> n.value() == (s.value() + 1) % pow2(
            bv_width(NB as nat),
        ),
        inputs.reset_n@ && !inputs.increment@ && inputs.decrement@ ==> n.value() == (s.value()
            + pow2(bv_width(NB as nat)) - 1) % (pow2(bv_width(NB as nat)) as int),
{
    if inputs.reset_n@ && (inputs.increment@ || inputs.decrement@) {
        lemma_pow2_pos(bv_width(NB as nat));
        let w = pow2(bv_width(NB as nat));
        if w > 1 {
            lemma_small_mod(1, w);
        }
    }
}

} // verus!
