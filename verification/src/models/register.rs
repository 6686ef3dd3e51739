//! A register of `NB` bits with an enable and an active-low reset to a
//! given value
use vstd::prelude::*;

use crate::bit::Bit;
use crate::bv::Bv;
use crate::edge_mask::{has_posedge, SimEdgeMask};
use crate::models::counter::is_reset_value;

verus! {

/// The inputs of a register
#[derive(Clone, Copy)]
pub struct Inputs<const NB: usize> {
    pub reset_n: Bit,
    pub enable: Bit,
    pub data: Bv<NB>,
}

/// The outputs of a register
#[derive(Clone, Copy)]
pub struct Outputs<const NB: usize> {
    pub data: Bv<NB>,
}

/// A register, reset to `reset_value` (zero where there is none)
pub struct Register<const NB: usize> {
    pub reset_value: Option<Bv<NB>>,
    pub inputs: Inputs<NB>,
    pub outputs: Outputs<NB>,
}

impl<const NB: usize> Register<NB> {
    /// A register with the given reset value, all signals zero
    pub fn new(reset_value: Option<Bv<NB>>) -> (r: Self)
        ensures
            r.reset_value == reset_value,
            !r.inputs.reset_n@ && !r.inputs.enable@,
            r.inputs.data.is_valid() && r.inputs.data.value() == 0,
            r.outputs.data.is_valid() && r.outputs.data.value() == 0,
    {
        let z = Bv::<NB>::zero_value();
        Register {
            reset_value,
            inputs: Inputs { reset_n: Bit::F, enable: Bit::F, data: z },
            outputs: Outputs { data: z },
        }
    }

    /// The reset value: that given, else zero
    fn reset_data(&self) -> (r: Bv<NB>)
        ensures
            is_reset_value(self.reset_value, r),
    {
        match self.reset_value {
            Some(v) => v,
            None => Bv::zero_value(),
        }
    }

    /// Reset: the output takes the reset value
    pub fn reset(&mut self)
        ensures
            is_reset_value(old(self).reset_value, final(self).outputs.data),
            final(self).inputs == old(self).inputs,
            final(self).reset_value == old(self).reset_value,
    {
        self.outputs.data = self.reset_data();
    }

    /// Configure the reset value
    pub fn configure(&mut self, config: Option<Bv<NB>>)
        ensures
            final(self).reset_value == config,
            final(self).inputs == old(self).inputs,
            final(self).outputs == old(self).outputs,
    {
        self.reset_value = config;
    }

    /// A clock edge: on a rising edge of the clock (input 0) the output
    /// takes the reset value in reset, else the data while enabled
    pub fn clock(&mut self, mask: SimEdgeMask)
        ensures
            final(self).inputs == old(self).inputs,
            final(self).reset_value == old(self).reset_value,
            has_posedge(mask@, 0) && !old(self).inputs.reset_n@ ==> is_reset_value(
                old(self).reset_value,
                final(self).outputs.data,
            ),
            has_posedge(mask@, 0) && old(self).inputs.reset_n@ && old(self).inputs.enable@
                ==> final(self).outputs.data == old(self).inputs.data,
            !(has_posedge(mask@, 0) && (!old(self).inputs.reset_n@ || old(self).inputs.enable@))
                ==> final(self).outputs == old(self).outputs,
    {
        if mask.is_posedge(0) {
            if self.inputs.reset_n.is_false() {
                self.outputs.data = self.reset_data();
            } else if self.inputs.enable.is_true() {
                self.outputs.data = self.inputs.data;
            }
        }
    }
}

} // verus!
