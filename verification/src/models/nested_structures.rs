//! A model holding nested structures of points and colours, written and
//! read back through two byte-wide vectors
#![allow(non_camel_case_types)]
use vstd::prelude::*;

use crate::bit::Bit;
use crate::bit_range::BitRange;
use crate::bv::Bv;

verus! {

/// A line with wide colour components
#[derive(Clone, Copy)]
pub struct t_cline_lg {
    pub p_a: t_point,
    pub p_b: t_point,
    pub c: t_color_lg,
}

/// A line between two points, with a colour
#[derive(Clone, Copy)]
pub struct t_cline {
    pub p_a: t_point,
    pub p_b: t_point,
    pub c: t_color,
}

/// A colour of 8-bit components
#[derive(Clone, Copy)]
pub struct t_color_lg {
    pub r: Bv<8>,
    pub g: Bv<8>,
    pub b: Bv<8>,
}

/// A colour of 3-bit components
#[derive(Clone, Copy)]
pub struct t_color {
    pub r: Bv<3>,
    pub g: Bv<3>,
    pub b: Bv<3>,
}

/// A point of 4-bit coordinates
#[derive(Clone, Copy)]
pub struct t_point {
    pub x: Bv<4>,
    pub y: Bv<4>,
}

/// The inputs of the model
#[derive(Clone, Copy)]
pub struct Inputs {
    pub vector_input_1: Bv<8>,
    pub vector_input_0: Bv<8>,
    pub io_reset: Bit,
}

/// The outputs of the model
#[derive(Clone, Copy)]
pub struct Outputs {
    pub vector_output_1: Bv<8>,
    pub vector_output_0: Bv<8>,
}

/// The state clocked by `io_clock`
#[derive(Clone, Copy)]
pub struct State_io_clock {
    pub cline_array: [t_cline; 4],
    pub cline_2: t_cline,
    pub cline: t_cline,
}

/// `v` is valid with every bit clear
pub open spec fn is_clear<const N: usize>(v: Bv<N>) -> bool {
    v.is_valid() && v@ == Seq::new(N as nat, |i: int| false)
}

/// The point with both coordinates zero
pub open spec fn point_is_zero(p: t_point) -> bool {
    is_clear(p.x) && is_clear(p.y)
}

/// The line with every field zero
pub open spec fn cline_is_zero(c: t_cline) -> bool {
    &&& point_is_zero(c.p_a)
    &&& point_is_zero(c.p_b)
    &&& is_clear(c.c.r) && is_clear(c.c.g) && is_clear(c.c.b)
}

/// The clocked state is all zero
pub open spec fn state_is_zero(s: State_io_clock) -> bool {
    &&& cline_is_zero(s.cline)
    &&& cline_is_zero(s.cline_2)
    &&& forall|i: int| 0 <= i < 4 ==> cline_is_zero(#[trigger] s.cline_array[i])
}

/// `v` is valid and holds the bits `bits`
pub open spec fn holds_bits<const N: usize>(v: Bv<N>, bits: Seq<bool>) -> bool {
    v.is_valid() && v@ == bits
}

/// A field that is loaded from bits `lsb..lsb + n` of `vector_input_1`
/// when `load` is set, and is otherwise `other`
pub open spec fn loaded<const N: usize>(
    v: Bv<N>,
    load: bool,
    input: Bv<8>,
    lsb: int,
    other: Seq<bool>,
) -> bool {
    holds_bits(
        v,
        if load {
            input@.subrange(lsb, lsb + N)
        } else {
            other
        },
    )
}

/// The next state: the line moves to `cline_2`; the line is cleared
/// but for the fields that bits 0, 1, 2, 4 and 5 of `vector_input_0`
/// load from `vector_input_1` (the red component otherwise takes bit 7
/// of `vector_output_1`); lines 0, 2 and 3 of the array are cleared
pub open spec fn next_state_io_clock(
    inputs: Inputs,
    outputs: Outputs,
    state: State_io_clock,
    next: State_io_clock,
) -> bool {
    let sel = inputs.vector_input_0@;
    let data = inputs.vector_input_1;
    let zero3 = Seq::new(3, |i: int| false);
    let zero4 = Seq::new(4, |i: int| false);
    &&& next.cline_2 == state.cline
    &&& next.cline_array[1] == state.cline_array[1]
    &&& cline_is_zero(next.cline_array[0])
    &&& cline_is_zero(next.cline_array[2])
    &&& cline_is_zero(next.cline_array[3])
    &&& loaded(next.cline.c.r, sel[0], data, 0, seq![outputs.vector_output_1@[7], false, false])
    &&& loaded(next.cline.c.g, sel[1], data, 0, zero3)
    &&& loaded(next.cline.c.b, sel[2], data, 0, zero3)
    &&& loaded(next.cline.p_a.x, sel[4], data, 0, zero4)
    &&& loaded(next.cline.p_a.y, sel[4], data, 4, zero4)
    &&& loaded(next.cline.p_b.x, sel[5], data, 0, zero4)
    &&& loaded(next.cline.p_b.y, sel[5], data, 4, zero4)
}

/// The model
pub struct nested_structures {
    pub inputs: Inputs,
    pub outputs: Outputs,
    pub next_state_io_clock: State_io_clock,
    pub state_io_clock: State_io_clock,
}

/// A point at the origin
fn zero_point() -> (r: t_point)
    ensures
        point_is_zero(r),
{
    let r = t_point { x: Bv::zero_value(), y: Bv::zero_value() };
    assert(r.x@ =~= Seq::new(4, |i: int| false));
    assert(r.y@ =~= Seq::new(4, |i: int| false));
    r
}

/// A colour with every component zero
fn zero_color() -> (r: t_color)
    ensures
        is_clear(r.r) && is_clear(r.g) && is_clear(r.b),
{
    let r = t_color { r: Bv::zero_value(), g: Bv::zero_value(), b: Bv::zero_value() };
    assert(r.r@ =~= Seq::new(3, |i: int| false));
    assert(r.g@ =~= Seq::new(3, |i: int| false));
    assert(r.b@ =~= Seq::new(3, |i: int| false));
    r
}

/// A line with every field zero
fn zero_cline() -> (r: t_cline)
    ensures
        cline_is_zero(r),
{
    t_cline {
        p_a: zero_point(),
        p_b: zero_point(),
        c: zero_color(),
    }
}

/// Set bits `lsb..lsb + n` of a byte-wide vector from a selection of
/// `n` bits, if they lie within its byte; false (with the vector
/// unchanged) if they do not
fn set_bits_in_byte(target: &mut Bv<8>, lsb: usize, br: BitRange<'_>) -> (ok: bool)
    requires
        br.spec_lsb() + br.spec_n() <= 8 * br.spec_data().len(),
        br.spec_lsb() + br.spec_n() <= usize::MAX,
    ensures
        ok == (lsb + br.spec_n() <= 8),
        !ok ==> *final(target) == *old(target),
        ok ==> final(target).is_valid(),
{
    if lsb <= 8 && br.num_bits() <= 8 - lsb {
        target.set_bits(lsb, br);
        true
    } else {
        false
    }
}

impl nested_structures {
    /// The model with every signal and state zero
    pub fn new() -> (r: Self)
        ensures
            state_is_zero(r.state_io_clock),
            state_is_zero(r.next_state_io_clock),
            is_clear(r.inputs.vector_input_0) && is_clear(r.inputs.vector_input_1),
            !r.inputs.io_reset@,
            is_clear(r.outputs.vector_output_0) && is_clear(r.outputs.vector_output_1),
    {
        let state = State_io_clock {
            cline_array: [zero_cline(), zero_cline(), zero_cline(), zero_cline()],
            cline_2: zero_cline(),
            cline: zero_cline(),
        };
        let z = Bv::<8>::zero_value();
        assert(z@ =~= Seq::new(8, |i: int| false));
        nested_structures {
            inputs: Inputs { vector_input_1: z, vector_input_0: z, io_reset: Bit::F },
            outputs: Outputs { vector_output_1: z, vector_output_0: z },
            next_state_io_clock: state,
            state_io_clock: state,
        }
    }

    /// Clear the clocked state
    pub fn reset_active_high_io_reset(&mut self)
        ensures
            final(self).inputs == old(self).inputs,
            final(self).outputs == old(self).outputs,
            final(self).next_state_io_clock == old(self).next_state_io_clock,
            state_is_zero(final(self).state_io_clock),
    {
        self.state_io_clock = State_io_clock {
            cline_array: [zero_cline(), zero_cline(), zero_cline(), zero_cline()],
            cline_2: zero_cline(),
            cline: zero_cline(),
        };
    }

    /// Clear the clocked state while `io_reset` is high
    pub fn propagate_resets(&mut self)
        ensures
            final(self).inputs == old(self).inputs,
            final(self).outputs == old(self).outputs,
            final(self).next_state_io_clock == old(self).next_state_io_clock,
            old(self).inputs.io_reset@ ==> state_is_zero(final(self).state_io_clock),
            !old(self).inputs.io_reset@ ==> final(self).state_io_clock == old(self).state_io_clock,
    {
        if self.inputs.io_reset.is_true() {
            self.reset_active_high_io_reset();
        }
    }

    /// The outputs read back from the line, or `None` where the
    /// reads do not complete: each places an 8-bit selection
    /// into an 8-bit output, and those at bit 3 (the green component)
    /// and bit 4 (the `y` coordinates) reach past its end, so that no
    /// input completes
    pub fn propagate_to_all_locals(&self) -> (r: Option<Outputs>)
        ensures
            r is None,
    {
        let line = self.state_io_clock.cline;
        let mut out1 = Bv::<8>::zero_value();
        if self.inputs.vector_input_0.bit_as_bit(7) != Bit::F {
            if !set_bits_in_byte(&mut out1, 0, line.c.r.bit_range(0, 8)) {
                return None;
            }
            if !set_bits_in_byte(&mut out1, 3, line.c.g.bit_range(0, 8)) {
                return None;
            }
        } else {
            if !set_bits_in_byte(&mut out1, 0, line.c.b.bit_range(0, 8)) {
                return None;
            }
        }
        let mut out0 = Bv::<8>::zero_value();
        let c0 = Bv::<2>::zero_value();
        let c1 = Bv::<2>::of_u64(1);
        let c2 = Bv::<2>::of_u64(2);
        let c3 = Bv::<2>::of_u64(3);
        if !set_bits_in_byte(&mut out0, 0, c0.bit_range(0, 8)) {
            return None;
        }
        if !set_bits_in_byte(&mut out0, 0, c1.bit_range(0, 8)) {
            return None;
        }
        if !set_bits_in_byte(&mut out0, 0, c2.bit_range(0, 8)) {
            return None;
        }
        if !set_bits_in_byte(&mut out0, 0, c3.bit_range(0, 8)) {
            return None;
        }
        let p = if self.inputs.vector_input_0.bit_as_bit(6) != Bit::F {
            line.p_a
        } else {
            line.p_b
        };
        if !set_bits_in_byte(&mut out0, 0, p.x.bit_range(0, 8)) {
            return None;
        }
        if !set_bits_in_byte(&mut out0, 4, p.y.bit_range(0, 8)) {
            return None;
        }
        Some(Outputs { vector_output_1: out1, vector_output_0: out0 })
    }

    /// Compute the next clocked state from the state, the inputs and the
    /// outputs
    pub fn eval_next_state_io_clock(&mut self)
        ensures
            final(self).inputs == old(self).inputs,
            final(self).outputs == old(self).outputs,
            final(self).state_io_clock == old(self).state_io_clock,
            next_state_io_clock(
                old(self).inputs,
                old(self).outputs,
                old(self).state_io_clock,
                final(self).next_state_io_clock,
            ),
    {
        let state = self.state_io_clock;
        let sel = self.inputs.vector_input_0;
        let data = self.inputs.vector_input_1;
        let mut next = state;
        next.cline_2 = state.cline;
        next.cline = zero_cline();
        let mut red = Bv::<3>::zero_value();
        red.bit_set(2, false);
        red.bit_set(1, false);
        red.bit_set(0, self.outputs.vector_output_1.bit(7));
        next.cline.c.r = red;
        next.cline_array[0] = zero_cline();
        next.cline_array[2] = zero_cline();
        next.cline_array[3] = zero_cline();
        if sel.bit(0) {
            next.cline.c.r = data.bit_range_to_bv::<3>(0, 3);
        }
        if sel.bit(1) {
            next.cline.c.g = data.bit_range_to_bv::<3>(0, 3);
        }
        if sel.bit(2) {
            next.cline.c.b = data.bit_range_to_bv::<3>(0, 3);
        }
        if sel.bit(4) {
            next.cline.p_a.x = data.bit_range_to_bv::<4>(0, 4);
            next.cline.p_a.y = data.bit_range_to_bv::<4>(4, 4);
        }
        if sel.bit(5) {
            next.cline.p_b.x = data.bit_range_to_bv::<4>(0, 4);
            next.cline.p_b.y = data.bit_range_to_bv::<4>(4, 4);
        }
        self.next_state_io_clock = next;
        proof {
            assert(next.cline.c.r@ =~= (if sel@[0] {
                data@.subrange(0, 3)
            } else {
                seq![old(self).outputs.vector_output_1@[7], false, false]
            }));
            assert(next.cline.c.g@ =~= (if sel@[1] {
                data@.subrange(0, 3)
            } else {
                Seq::new(3, |i: int| false)
            }));
            assert(next.cline.c.b@ =~= (if sel@[2] {
                data@.subrange(0, 3)
            } else {
                Seq::new(3, |i: int| false)
            }));
            assert(next.cline.p_a.x@ =~= (if sel@[4] {
                data@.subrange(0, 4)
            } else {
                Seq::new(4, |i: int| false)
            }));
            assert(next.cline.p_a.y@ =~= (if sel@[4] {
                data@.subrange(4, 8)
            } else {
                Seq::new(4, |i: int| false)
            }));
            assert(next.cline.p_b.x@ =~= (if sel@[5] {
                data@.subrange(0, 4)
            } else {
                Seq::new(4, |i: int| false)
            }));
            assert(next.cline.p_b.y@ =~= (if sel@[5] {
                data@.subrange(4, 8)
            } else {
                Seq::new(4, |i: int| false)
            }));
        }
    }

    /// A clock edge: resets, then on a rising edge of `io_clock` the
    /// state moves to its next value
    pub fn clock(&mut self, posedge: bool)
        ensures
            final(self).inputs == old(self).inputs,
            final(self).outputs == old(self).outputs,
            !posedge && old(self).inputs.io_reset@ ==> state_is_zero(final(self).state_io_clock),
            !posedge && !old(self).inputs.io_reset@
                ==> final(self).state_io_clock == old(self).state_io_clock,
            posedge ==> final(self).state_io_clock == final(self).next_state_io_clock,
            posedge && !old(self).inputs.io_reset@ ==> next_state_io_clock(
                old(self).inputs,
                old(self).outputs,
                old(self).state_io_clock,
                final(self).state_io_clock,
            ),
            posedge && old(self).inputs.io_reset@ ==> exists|z: State_io_clock|
                state_is_zero(z) && next_state_io_clock(
                    old(self).inputs,
                    old(self).outputs,
                    z,
                    final(self).state_io_clock,
                ),
    {
        self.propagate_resets();
        let ghost s1 = self.state_io_clock;
        if posedge {
            self.eval_next_state_io_clock();
            self.state_io_clock = self.next_state_io_clock;
            proof {
                if old(self).inputs.io_reset@ {
                    assert(state_is_zero(s1));
                }
            }
        }
    }
}

} // verus!
