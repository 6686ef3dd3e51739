//! A GPIO block of sixteen inputs and sixteen outputs behind an APB
//! target: writes configure the outputs and the input event types, reads
//! return the input or output state, and each input is synchronised and
//! watched for events
#![allow(non_camel_case_types)]
use vstd::prelude::*;

use crate::bit::Bit;
use crate::bv::Bv;
use crate::bytes::bits_value;
use crate::edge_mask::{has_posedge, SimEdgeMask};
use crate::models::apb::{t_apb_request, t_apb_response};

verus! {

/// The state of one GPIO input
#[derive(Clone, Copy)]
pub struct t_gpio_input {
    pub input_type: Bv<3>,
    pub sync_value: Bit,
    pub last_sync_value: Bit,
    pub value: Bit,
    pub event: Bit,
}

/// The state of one GPIO output
#[derive(Clone, Copy)]
pub struct t_gpio_output {
    pub value: Bit,
    pub enable: Bit,
}

/// The inputs of the block
#[derive(Clone, Copy)]
pub struct Inputs {
    pub gpio_input: Bv<16>,
    pub apb_request: t_apb_request,
    pub reset_n: Bit,
}

/// The outputs of the block
#[derive(Clone, Copy)]
pub struct Outputs {
    pub gpio_input_event: Bit,
    pub gpio_output_enable: Bv<16>,
    pub gpio_output: Bv<16>,
    pub apb_response: t_apb_response,
}

/// The state clocked by `clk`
#[derive(Clone, Copy)]
pub struct State_clk {
    pub outputs: [t_gpio_output; 16],
    pub inputs: [t_gpio_input; 16],
    pub access: Bv<3>,
}

/// The block
pub struct apb_target_gpio {
    pub inputs: Inputs,
    pub outputs: Outputs,
    pub next_state_clk: State_clk,
    pub state_clk: State_clk,
}

/// The access that a request starts: none unless selected in its setup
/// phase; by the low two address bits, 0 writes the outputs (1) or reads
/// them (3), 1 reads the inputs (6), 2 writes an input's configuration
/// (2) or reads the types of inputs 0 to 7 (4), and 3 writes a
/// configuration (2) or reads the types of inputs 8 to 15 (5)
pub open spec fn access_of(req: t_apb_request) -> nat {
    let a0 = req.paddr@[0];
    let a1 = req.paddr@[1];
    let w = req.pwrite@;
    if !req.psel@ || req.penable@ {
        0
    } else if !a1 && !a0 {
        if w {
            1
        } else {
            3
        }
    } else if !a1 {
        6
    } else if !a0 {
        if w {
            2
        } else {
            4
        }
    } else {
        if w {
            2
        } else {
            5
        }
    }
}

/// The event of an input of type `t` whose event, value and last
/// synchronised value are `e`, `v` and `ls`: type 1 is a low level, 2 a
/// high level, 3 a rising edge, 4 a falling edge and 5 either edge (the
/// edges are held until cleared); other types keep the event
pub open spec fn event_next(t: nat, e: bool, v: bool, ls: bool) -> bool {
    if t == 1 {
        !v
    } else if t == 2 {
        v
    } else if t == 3 {
        e || (v && !ls)
    } else if t == 4 {
        e || (!v && ls)
    } else if t == 5 {
        e || (v != ls)
    } else {
        e
    }
}

/// `n` is the next state of input `i`, in state `s`, during `access`: it
/// samples the pin; a configuration write that names it (in data bits 0
/// to 3) sets its type from data bits 12 to 14 if bit 8 is set, and
/// clears its event if bit 9 is; with no access it takes its value and
/// event
pub open spec fn gpio_input_next(inputs: Inputs, access: nat, i: int, s: t_gpio_input, n: t_gpio_input) -> bool {
    let d = inputs.apb_request.pwdata@;
    let configure = access == 2 && bits_value(d.subrange(0, 4)) == i;
    &&& n.sync_value@ == inputs.gpio_input@[i]
    &&& n.last_sync_value@ == s.sync_value@
    &&& if configure && d[8] {
        n.input_type.is_valid() && n.input_type@ == d.subrange(12, 15)
    } else {
        n.input_type == s.input_type
    }
    &&& n.value@ == if access == 0 {
        s.last_sync_value@
    } else {
        s.value@
    }
    &&& n.event@ == if configure && d[9] {
        false
    } else if access == 0 {
        event_next(s.input_type.value(), s.event@, s.value@, s.last_sync_value@)
    } else {
        s.event@
    }
}

/// `n` is the next state of output `i`, in state `s`, during `access`: an
/// output write sets its value and enable from data bits `2i` and
/// `2i + 1`
pub open spec fn gpio_output_next(inputs: Inputs, access: nat, i: int, s: t_gpio_output, n: t_gpio_output) -> bool {
    let d = inputs.apb_request.pwdata@;
    if access == 1 {
        n.value@ == d[2 * i] && n.enable@ == d[2 * i + 1]
    } else {
        n == s
    }
}

/// `next` is the state that follows `state` on a rising clock edge
pub open spec fn next_state_clk(inputs: Inputs, state: State_clk, next: State_clk) -> bool {
    &&& next.access.is_valid()
    &&& next.access.value() == access_of(inputs.apb_request)
    &&& forall|i: int|
        0 <= i < 16 ==> gpio_input_next(
            inputs,
            state.access.value(),
            i,
            state.inputs[i],
            #[trigger] next.inputs[i],
        )
    &&& forall|i: int|
        0 <= i < 16 ==> gpio_output_next(
            inputs,
            state.access.value(),
            i,
            state.outputs[i],
            #[trigger] next.outputs[i],
        )
}

/// `p` is the read data of `state`: the input values and (from bit 16)
/// events after an input read, the output values and enables in
/// alternate bits after an output read, and zero otherwise
pub open spec fn prdata_of(state: State_clk, p: Bv<32>) -> bool {
    let acc = state.access.value();
    &&& p.is_valid()
    &&& if acc == 6 {
        forall|j: int|
            #![trigger p@[j]]
           
            0 <= j < 16 ==> p@[j] == state.inputs[j].value@ && p@[16 + j]
                == state.inputs[j].event@
    } else if acc == 3 {
        forall|j: int|
            #![trigger p@[2 * j]]
           
            0 <= j < 16 ==> p@[2 * j] == state.outputs[j].value@ && p@[2 * j + 1]
                == state.outputs[j].enable@
    } else {
        forall|k: int| 0 <= k < 32 ==> !#[trigger] p@[k]
    }
}

/// `out` is what the block drives from `state`
pub open spec fn outputs_of(state: State_clk, out: Outputs) -> bool {
    &&& out.gpio_input_event@ == exists|j: int| 0 <= j < 16 && #[trigger] state.inputs[j].event@
    &&& out.gpio_output_enable.is_valid() && out.gpio_output.is_valid()
    &&& forall|j: int|
            #![trigger out.gpio_output_enable@[j]]
           
        0 <= j < 16 ==> out.gpio_output_enable@[j] == state.outputs[j].enable@
            && out.gpio_output@[j] == state.outputs[j].value@
    &&& prdata_of(state, out.apb_response.prdata)
    &&& out.apb_response.pready@
    &&& !out.apb_response.perr@
}

/// The input has all its state zero
pub open spec fn input_is_zero(g: t_gpio_input) -> bool {
    &&& g.input_type.is_valid() && g.input_type.value() == 0
    &&& !g.sync_value@ && !g.last_sync_value@ && !g.value@ && !g.event@
}

/// The clocked state is all zero
pub open spec fn state_is_zero(s: State_clk) -> bool {
    &&& s.access.is_valid() && s.access.value() == 0
    &&& forall|i: int| 0 <= i < 16 ==> !(#[trigger] s.outputs[i]).value@ && !s.outputs[i].enable@
    &&& forall|i: int| 0 <= i < 16 ==> input_is_zero(#[trigger] s.inputs[i])
}

/// An input with all state zero
fn zero_input() -> (r: t_gpio_input)
    ensures
        input_is_zero(r),
{
    t_gpio_input {
        input_type: Bv::zero_value(),
        sync_value: Bit::F,
        last_sync_value: Bit::F,
        value: Bit::F,
        event: Bit::F,
    }
}

/// The state with every field zero
fn zero_state() -> (r: State_clk)
    ensures
        state_is_zero(r),
{
    let o = t_gpio_output { value: Bit::F, enable: Bit::F };
    let z = zero_input();
    State_clk { outputs: [o; 16], inputs: [z; 16], access: Bv::zero_value() }
}

impl apb_target_gpio {
    /// The block with every signal and state zero
    pub fn new() -> (r: Self)
        ensures
            r.inputs.gpio_input.is_valid() && r.inputs.gpio_input.value() == 0,
            !r.inputs.reset_n@,
            !r.inputs.apb_request.psel@ && !r.inputs.apb_request.penable@
                && !r.inputs.apb_request.pwrite@,
            r.inputs.apb_request.paddr.is_valid() && r.inputs.apb_request.paddr.value() == 0,
            r.inputs.apb_request.pwdata.is_valid() && r.inputs.apb_request.pwdata.value() == 0,
            !r.outputs.gpio_input_event@,
            r.outputs.gpio_output_enable.is_valid() && r.outputs.gpio_output_enable.value() == 0,
            r.outputs.gpio_output.is_valid() && r.outputs.gpio_output.value() == 0,
            r.outputs.apb_response.prdata.is_valid() && r.outputs.apb_response.prdata.value() == 0,
            !r.outputs.apb_response.pready@ && !r.outputs.apb_response.perr@,
            state_is_zero(r.state_clk),
            state_is_zero(r.next_state_clk),
    {
        let st = zero_state();
        apb_target_gpio {
            inputs: Inputs {
                gpio_input: Bv::zero_value(),
                apb_request: t_apb_request::new(),
                reset_n: Bit::F,
            },
            outputs: Outputs {
                gpio_input_event: Bit::F,
                gpio_output_enable: Bv::zero_value(),
                gpio_output: Bv::zero_value(),
                apb_response: t_apb_response::new(),
            },
            next_state_clk: st,
            state_clk: st,
        }
    }

    /// Clear the clocked state
    pub fn reset_active_low_reset_n(&mut self)
        ensures
            final(self).inputs == old(self).inputs,
            final(self).outputs == old(self).outputs,
            final(self).next_state_clk == old(self).next_state_clk,
            state_is_zero(final(self).state_clk),
    {
        self.state_clk = zero_state();
    }

    /// Clear the clocked state while `reset_n` is low
    pub fn propagate_resets(&mut self)
        ensures
            final(self).inputs == old(self).inputs,
            old(self).inputs.reset_n@ ==> final(self).state_clk == old(self).state_clk,
            !old(self).inputs.reset_n@ ==> state_is_zero(final(self).state_clk),
    {
        if !self.inputs.reset_n.is_true() {
            self.reset_active_low_reset_n();
        }
    }

    /// The outputs that the state drives, or `None` for the reads of the
    /// input types (accesses 4 and 5): those reads copy 32 bits
    /// out of each 3-bit type's single byte, past its end
    pub fn propagate_to_all_locals(&self) -> (r: Option<Outputs>)
        ensures
            r is None <==> (self.state_clk.access.value() == 4 || self.state_clk.access.value() == 5),
            r matches Some(out) ==> outputs_of(self.state_clk, out),
    {
        let st = self.state_clk;
        let mut ev = false;
        let mut en = Bv::<16>::zero_value();
        let mut out = Bv::<16>::zero_value();
        let mut i: usize = 0;
        while i < 16
            invariant
                i <= 16,
                en.is_valid() && out.is_valid(),
                ev == exists|j: int| 0 <= j < i && #[trigger] st.inputs[j].event@,
                forall|j: int| 0 <= j < i ==> #[trigger] en@[j] == st.outputs[j].enable@,
                forall|j: int| 0 <= j < i ==> #[trigger] out@[j] == st.outputs[j].value@,
            decreases 16 - i,
        {
            if st.inputs[i].event.is_true() {
                ev = true;
            }
            let ghost en0 = en@;
            let ghost out0 = out@;
            en.bit_set(i, st.outputs[i].enable.is_true());
            out.bit_set(i, st.outputs[i].value.is_true());
            proof {
                assert forall|j: int| 0 <= j < i + 1 implies #[trigger] en@[j]
                    == st.outputs[j].enable@ by {
                    if j < i {
                        assert(en0[j] == st.outputs[j].enable@);
                    }
                }
                assert forall|j: int| 0 <= j < i + 1 implies #[trigger] out@[j]
                    == st.outputs[j].value@ by {
                    if j < i {
                        assert(out0[j] == st.outputs[j].value@);
                    }
                }
            }
            i = i + 1;
        }
        let acc = st.access.try_as_u64().unwrap();
        if acc == 4 || acc == 5 {
            return None;
        }
        let mut prdata = Bv::<32>::zero_value();
        if acc == 6 {
            let mut k: usize = 0;
            while k < 16
                invariant
                    k <= 16,
                    prdata.is_valid(),
                    forall|j: int| 0 <= j < k ==> #[trigger] prdata@[j] == st.inputs[j].value@,
                    forall|j: int| 16 <= j < 16 + k ==> #[trigger] prdata@[j] == st.inputs[j - 16].event@,
                decreases 16 - k,
            {
                prdata.bit_set(16 + k, st.inputs[k].event.is_true());
                prdata.bit_set(k, st.inputs[k].value.is_true());
                k = k + 1;
            }
            proof {
                assert forall|j: int| 0 <= j < 16 implies #[trigger] prdata@[j] == st.inputs[j].value@
                    && prdata@[16 + j] == st.inputs[j].event@ by {
                    assert(prdata@[16 + j] == st.inputs[16 + j - 16].event@);
                }
            }
        } else if acc == 3 {
            let mut k: usize = 0;
            while k < 16
                invariant
                    k <= 16,
                    prdata.is_valid(),
                    forall|j: int|
                        0 <= j < 2 * k ==> #[trigger] prdata@[j] == if j % 2 == 0 {
                            st.outputs[j / 2].value@
                        } else {
                            st.outputs[j / 2].enable@
                        },
                decreases 16 - k,
            {
                prdata.bit_set(2 * k + 1, st.outputs[k].enable.is_true());
                prdata.bit_set(2 * k, st.outputs[k].value.is_true());
                k = k + 1;
            }
            proof {
                assert forall|j: int| 0 <= j < 16 implies #[trigger] prdata@[2 * j]
                    == st.outputs[j].value@ && prdata@[2 * j + 1] == st.outputs[j].enable@ by {
                    assert(prdata@[2 * j] == st.outputs[(2 * j) / 2].value@);
                    assert(prdata@[2 * j + 1] == st.outputs[(2 * j + 1) / 2].enable@);
                }
            }
        }
        Some(
            Outputs {
                gpio_input_event: Bit::of_bool(ev),
                gpio_output_enable: en,
                gpio_output: out,
                apb_response: t_apb_response { prdata, pready: Bit::T, perr: Bit::F },
            },
        )
    }

    /// Compute the next clocked state from the state and the inputs
    pub fn eval_next_state_clk(&mut self)
        ensures
            final(self).inputs == old(self).inputs,
            final(self).outputs == old(self).outputs,
            final(self).state_clk == old(self).state_clk,
            next_state_clk(old(self).inputs, old(self).state_clk, final(self).next_state_clk),
    {
        let state = self.state_clk;
        let req = self.inputs.apb_request;
        let mut next = state;
        let a0 = req.paddr.bit(0);
        let a1 = req.paddr.bit(1);
        let w = req.pwrite.is_true();
        let acc: u64 = if !a1 && !a0 {
            if w {
                1
            } else {
                3
            }
        } else if !a1 {
            6
        } else if !a0 {
            if w {
                2
            } else {
                4
            }
        } else {
            if w {
                2
            } else {
                5
            }
        };
        proof {
            vstd::arithmetic::power2::lemma2_to64();
        }
        let mut access = Bv::<3>::of_u64(acc);
        proof {
            vstd::arithmetic::div_mod::lemma_small_mod(acc as nat, 8);
        }
        if !req.psel.is_true() || req.penable.is_true() {
            access = Bv::<3>::zero_value();
        }
        next.access = access;
        let sacc = state.access.try_as_u64().unwrap();
        let d = req.pwdata;
        let sel_bv = d.bit_range_to_bv::<4>(0, 4);
        let sel = sel_bv.try_as_u64().unwrap();
        proof {
            sel_bv.lemma_value_of_bits();
            assert(sel_bv@ =~= d@.subrange(0, 4));
        }
        let mut i: usize = 0;
        while i < 16
            invariant
                i <= 16,
                state == self.state_clk,
                req == self.inputs.apb_request,
                d == req.pwdata,
                sacc == state.access.value(),
                sel == bits_value(d@.subrange(0, 4)),
                next.access == access,
                access.is_valid(),
                access.value() == access_of(req),
                forall|j: int|
                    0 <= j < i ==> gpio_input_next(
                        self.inputs,
                        sacc as nat,
                        j,
                        state.inputs[j],
                        #[trigger] next.inputs[j],
                    ),
                forall|j: int|
                    0 <= j < i ==> gpio_output_next(
                        self.inputs,
                        sacc as nat,
                        j,
                        state.outputs[j],
                        #[trigger] next.outputs[j],
                    ),
            decreases 16 - i,
        {
            if sacc == 1 {
                next.outputs[i] = t_gpio_output {
                    value: d.bit_as_bit(2 * i),
                    enable: d.bit_as_bit(2 * i + 1),
                };
            } else {
                next.outputs[i] = state.outputs[i];
            }
            let s = state.inputs[i];
            let mut n = s;
            if sacc == 2 && sel == i as u64 {
                if d.bit(8) {
                    n.input_type = d.bit_range_to_bv::<3>(12, 3);
                }
                if d.bit(9) {
                    n.event = Bit::F;
                }
            }
            n.sync_value = self.inputs.gpio_input.bit_as_bit(i);
            n.last_sync_value = s.sync_value;
            if sacc == 0 {
                n.value = s.last_sync_value;
                let t = s.input_type.try_as_u64().unwrap();
                let e = s.event.is_true();
                let v = s.value.is_true();
                let ls = s.last_sync_value.is_true();
                if t == 1 {
                    n.event = Bit::of_bool(!v);
                } else if t == 2 {
                    n.event = Bit::of_bool(v);
                } else if t == 3 {
                    n.event = Bit::of_bool(e || (v && !ls));
                } else if t == 4 {
                    n.event = Bit::of_bool(e || (!v && ls));
                } else if t == 5 {
                    n.event = Bit::of_bool(e || (v != ls));
                }
            }
            next.inputs[i] = n;
            proof {
                if sacc == 2 && sel == i as u64 && d@[8] {
                    assert(n.input_type@ =~= d@.subrange(12, 15));
                }
            }
            i = i + 1;
        }
        self.next_state_clk = next;
    }

    /// A clock edge: resets, then the outputs are driven from the state
    /// and on a rising edge of the clock (input 0) the state moves to its
    /// next value. False, with the state left as the resets leave it,
    /// where the outputs cannot be driven
    pub fn clock(&mut self, mask: SimEdgeMask) -> (ok: bool)
        ensures
            final(self).inputs == old(self).inputs,
            ok == (!old(self).inputs.reset_n@ || !(old(self).state_clk.access.value() == 4
                || old(self).state_clk.access.value() == 5)),
            ok && old(self).inputs.reset_n@ ==> outputs_of(old(self).state_clk, final(self).outputs),
            ok && old(self).inputs.reset_n@ && has_posedge(mask@, 0) ==> next_state_clk(
                old(self).inputs,
                old(self).state_clk,
                final(self).state_clk,
            ),
            ok && old(self).inputs.reset_n@ && !has_posedge(mask@, 0) ==> final(self).state_clk
                == old(self).state_clk,
    {
        self.propagate_resets();
        match self.propagate_to_all_locals() {
            Some(out) => {
                self.outputs = out;
            },
            None => {
                return false;
            },
        }
        if mask.is_posedge(0) {
            self.eval_next_state_clk();
            self.state_clk = self.next_state_clk;
        }
        true
    }
}

/// With no access in progress, an input samples its pin into its sync
/// value, moves the sync value on to its last synchronised value and
/// that on to its value (the value is the older sample, the last
/// synchronised value the newer). Its event then follows its type: type
/// 1 is a low value and type 2 a high one; type 3 is set when the value
/// is high and the newer sample low, type 4 when the value is low and
/// the newer sample high (the opposite transition), type 5 on either;
/// types 3 to 5 hold an event once set, and a type 3 or 4 event is not
/// set by the other's transition
pub proof fn law_gpio_input_events(inputs: Inputs, i: int, s: t_gpio_input, n: t_gpio_input)
    requires
        0 <= i < 16,
        gpio_input_next(inputs, 0, i, s, n),
    ensures
        n.sync_value@ == inputs.gpio_input@[i],
        n.last_sync_value@ == s.sync_value@,
        n.value@ == s.last_sync_value@,
        n.input_type == s.input_type,
        s.input_type.value() == 1 ==> n.event@ == !s.value@,
        s.input_type.value() == 2 ==> n.event@ == s.value@,
        s.input_type.value() == 3 && s.value@ && !s.last_sync_value@ ==> n.event@,
        s.input_type.value() == 4 && !s.value@ && s.last_sync_value@ ==> n.event@,
        s.input_type.value() == 5 && s.value@ != s.last_sync_value@ ==> n.event@,
        3 <= s.input_type.value() <= 5 && s.event@ ==> n.event@,
        s.input_type.value() == 3 && !s.event@ && !(s.value@ && !s.last_sync_value@) ==> !n.event@,
        s.input_type.value() == 4 && !s.event@ && !(!s.value@ && s.last_sync_value@) ==> !n.event@,
        s.input_type.value() == 5 && !s.event@ && s.value@ == s.last_sync_value@ ==> !n.event@,
        (s.input_type.value() == 0 || s.input_type.value() > 5) ==> n.event@ == s.event@,
{
}

/// An output write sets each output's value and enable from its pair of
/// data bits, and leaves them as they were for any other access
pub proof fn law_gpio_output_write(inputs: Inputs, access: nat, i: int, s: t_gpio_output, n: t_gpio_output)
    requires
        0 <= i < 16,
        gpio_output_next(inputs, access, i, s, n),
    ensures
        access == 1 ==> n.value@ == inputs.apb_request.pwdata@[2 * i] && n.enable@
            == inputs.apb_request.pwdata@[2 * i + 1],
        access != 1 ==> n == s,
{
}

/// The request is the setup phase of a transfer at `addr` (its low two
/// address bits), writing if `write`
pub open spec fn setup_phase(req: t_apb_request, addr: int, write: bool) -> bool {
    &&& req.psel@ && !req.penable@
    &&& req.pwrite@ == write
    &&& req.paddr@[0] == (addr % 2 == 1)
    &&& req.paddr@[1] == (addr / 2 == 1)
}

/// Writing the outputs (address 0) and then reading them back gives the
/// data that was written: the write's setup phase, its enable phase
/// (whose data is written), then a read's setup phase, after which the
/// read data is the written data
pub proof fn law_write_then_read_outputs(
    in1: Inputs,
    s0: State_clk,
    s1: State_clk,
    in2: Inputs,
    s2: State_clk,
    in3: Inputs,
    s3: State_clk,
    out: Outputs,
)
    requires
        setup_phase(in1.apb_request, 0, true),
        next_state_clk(in1, s0, s1),
        in2.apb_request.penable@,
        next_state_clk(in2, s1, s2),
        setup_phase(in3.apb_request, 0, false),
        next_state_clk(in3, s2, s3),
        outputs_of(s3, out),
    ensures
        forall|k: int| 0 <= k < 32 ==> #[trigger] out.apb_response.prdata@[k] == in2.apb_request.pwdata@[k],
        forall|j: int| 0 <= j < 16 ==> #[trigger] out.gpio_output@[j] == in2.apb_request.pwdata@[2 * j],
        forall|j: int|
            0 <= j < 16 ==> #[trigger] out.gpio_output_enable@[j] == in2.apb_request.pwdata@[2 * j + 1],
{
    assert(s1.access.value() == 1);
    assert(s2.access.value() == 0);
    assert(s3.access.value() == 3);
    assert forall|j: int| 0 <= j < 16 implies #[trigger] s3.outputs[j] == s2.outputs[j]
        && s2.outputs[j].value@ == in2.apb_request.pwdata@[2 * j] && s2.outputs[j].enable@
        == in2.apb_request.pwdata@[2 * j + 1] by {
        assert(gpio_output_next(in3, s2.access.value(), j, s2.outputs[j], s3.outputs[j]));
        assert(gpio_output_next(in2, s1.access.value(), j, s1.outputs[j], s2.outputs[j]));
    }
    assert forall|k: int| 0 <= k < 32 implies #[trigger] out.apb_response.prdata@[k]
        == in2.apb_request.pwdata@[k] by {
        let j = k / 2;
        assert(s3.outputs[j] == s2.outputs[j]);
        if k % 2 == 0 {
            assert(out.apb_response.prdata@[2 * j] == s3.outputs[j].value@);
        } else {
            assert(out.apb_response.prdata@[2 * j] == s3.outputs[j].value@);
            assert(out.apb_response.prdata@[2 * j + 1] == s3.outputs[j].enable@);
        }
    }
    assert forall|j: int| 0 <= j < 16 implies #[trigger] out.gpio_output@[j] == in2.apb_request.pwdata@[2
        * j] by {
        assert(s3.outputs[j] == s2.outputs[j]);
        assert(out.gpio_output_enable@[j] == s3.outputs[j].enable@);
    }
    assert forall|j: int| 0 <= j < 16 implies #[trigger] out.gpio_output_enable@[j]
        == in2.apb_request.pwdata@[2 * j + 1] by {
        assert(s3.outputs[j] == s2.outputs[j]);
    }
}

/// Reading the inputs (address 1): after the read's setup phase the read
/// data holds each input's value (bits 0 to 15) and event (bits 16 to
/// 31)
pub proof fn law_read_inputs(in1: Inputs, s0: State_clk, s1: State_clk, out: Outputs)
    requires
        setup_phase(in1.apb_request, 1, false) || setup_phase(in1.apb_request, 1, true),
        next_state_clk(in1, s0, s1),
        outputs_of(s1, out),
    ensures
        forall|j: int| 0 <= j < 16 ==> #[trigger] out.apb_response.prdata@[j] == s1.inputs[j].value@,
        forall|j: int|
            0 <= j < 16 ==> #[trigger] out.apb_response.prdata@[16 + j] == s1.inputs[j].event@,
{
    assert(s1.access.value() == 6);
    assert forall|j: int| 0 <= j < 16 implies #[trigger] out.apb_response.prdata@[16 + j]
        == s1.inputs[j].event@ by {
        assert(out.apb_response.prdata@[j] == s1.inputs[j].value@);
    }
}

/// Configuring an input (a write at address 2 or 3): in the enable phase
/// that follows, the input named by data bits 0 to 3 takes its type from
/// data bits 12 to 14 if bit 8 is set and has its event cleared if bit 9
/// is; every other input keeps its type
pub proof fn law_configure_input(
    in1: Inputs,
    s0: State_clk,
    s1: State_clk,
    in2: Inputs,
    s2: State_clk,
    addr: int,
    i: int,
)
    requires
        addr == 2 || addr == 3,
        setup_phase(in1.apb_request, addr, true),
        next_state_clk(in1, s0, s1),
        next_state_clk(in2, s1, s2),
        0 <= i < 16,
    ensures
        ({
            let d = in2.apb_request.pwdata@;
            let named = bits_value(d.subrange(0, 4)) == i;
            &&& named && d[8] ==> s2.inputs[i].input_type.is_valid() && s2.inputs[i].input_type@
                == d.subrange(12, 15)
            &&& named && d[9] ==> !s2.inputs[i].event@
            &&& !(named && d[8]) ==> s2.inputs[i].input_type == s1.inputs[i].input_type
        }),
{
    assert(s1.access.value() == 2);
    assert(gpio_input_next(in2, s1.access.value(), i, s1.inputs[i], s2.inputs[i]));
}

} // verus!
