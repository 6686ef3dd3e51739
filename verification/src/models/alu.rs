//! A 16-bit arithmetic and logic unit with a two-bit operation select
use vstd::arithmetic::power2::*;
use vstd::bits::*;
use vstd::prelude::*;

use crate::bv::Bv;

verus! {

/// The inputs of the unit
#[derive(Clone, Copy)]
pub struct Inputs {
    pub op: Bv<2>,
    pub b: Bv<16>,
    pub a: Bv<16>,
}

/// The outputs of the unit
#[derive(Clone, Copy)]
pub struct Outputs {
    pub r: Bv<16>,
}

/// The internal signals of the unit
#[derive(Clone, Copy)]
pub struct Locals {
    pub x: Bv<16>,
}

/// The clock enables of the unit (it has none)
#[derive(Clone, Copy)]
pub struct ClockEnables {}

/// The unit: purely combinational
#[allow(non_camel_case_types)]
pub struct alu {
    pub inputs: Inputs,
    pub outputs: Outputs,
    pub locals: Locals,
    pub clock_enables: ClockEnables,
}

/// `r` is the result of operation `op` on `a` and `b`: 0 adds, 1
/// subtracts `b` from `a` (both wrapping at 16 bits), 2 is bitwise or,
/// and 3 shifts `a` right by the value of `b`
pub open spec fn alu_result(op: nat, a: Bv<16>, b: Bv<16>, r: Bv<16>) -> bool {
    &&& r.is_valid()
    &&& if op == 0 {
        r.value() == (a.value() + b.value()) % pow2(16)
    } else if op == 1 {
        r.value() == (a.value() + pow2(16) - b.value()) % (pow2(16) as int)
    } else if op == 2 {
        forall|i: int| 0 <= i < 16 ==> #[trigger] r@[i] == (a@[i] || b@[i])
    } else {
        forall|i: int|
            0 <= i < 16 ==> #[trigger] r@[i] == if i + b.value() < 16 {
                a@[i + b.value()]
            } else {
                false
            }
    }
}

impl alu {
    /// A unit with every signal zero
    pub fn new() -> (r: Self)
        ensures
            r.inputs.op.is_valid() && r.inputs.op.value() == 0,
            r.inputs.a.is_valid() && r.inputs.a.value() == 0,
            r.inputs.b.is_valid() && r.inputs.b.value() == 0,
            r.outputs.r.is_valid() && r.outputs.r.value() == 0,
            r.locals.x.is_valid() && r.locals.x.value() == 0,
    {
        alu {
            inputs: Inputs { op: Bv::zero_value(), b: Bv::zero_value(), a: Bv::zero_value() },
            outputs: Outputs { r: Bv::zero_value() },
            locals: Locals { x: Bv::zero_value() },
            clock_enables: ClockEnables {  },
        }
    }

    /// Compute the result of the selected operation, and the local copy
    /// of it that is zero for an add
    pub fn propagate_to_all_locals(&mut self)
        ensures
            final(self).inputs == old(self).inputs,
            alu_result(
                old(self).inputs.op.value(),
                old(self).inputs.a,
                old(self).inputs.b,
                final(self).outputs.r,
            ),
            final(self).locals.x.is_valid(),
            old(self).inputs.op.value() != 0 ==> final(self).locals.x == final(self).outputs.r,
            old(self).inputs.op.value() == 0 ==> final(self).locals.x.value() == 0,
    {
        let a = self.inputs.a;
        let b = self.inputs.b;
        let mut r = Bv::<16>::zero_value();
        let op = self.inputs.op.try_as_u64().unwrap();
        proof {
            self.inputs.op.lemma_value_bound();
            lemma2_to64();
        }
        match op {
            0 => {
                r = a;
                r.add_msk(&b);
            },
            1 => {
                r = a;
                r.sub_msk(&b);
            },
            2 => {
                r = a;
                r.bit_or(&b);
            },
            3 => {
                let bv = b.try_as_u64().unwrap();
                proof {
                    b.lemma_value_bound();
                }
                let by = bv as usize;
                let mut shifted = a;
                shifted.bit_lshr(by);
                r.bit_or(&shifted);
            },
            _ => {
                proof {
                    assert(false);
                }
            },
        }
        self.outputs.r = r;
        let mut x = Bv::<16>::zero_value();
        if !self.inputs.op.is_zero() {
            x = self.outputs.r;
        }
        self.locals.x = x;
    }

    /// Reset and clock both recompute the outputs from the inputs
    pub fn propagate_all(&mut self)
        ensures
            final(self).inputs == old(self).inputs,
            alu_result(
                old(self).inputs.op.value(),
                old(self).inputs.a,
                old(self).inputs.b,
                final(self).outputs.r,
            ),
    {
        self.propagate_to_all_locals();
    }
}

/// Subtracting `b` from the sum of `a` and `b` gives back `a`: the result
/// of operation 1 on the result of operation 0
pub proof fn law_sub_undoes_add(a: Bv<16>, b: Bv<16>, r1: Bv<16>, r2: Bv<16>)
    requires
        a.is_valid(),
        b.is_valid(),
        alu_result(0, a, b, r1),
        alu_result(1, r1, b, r2),
    ensures
        r2 == a,
{
    Bv::<16>::law_add_then_sub(a, b, r1, r2);
}

/// Or-ing is symmetric in its operands, and shifting by zero keeps every
/// bit
pub proof fn law_or_and_shift(a: Bv<16>, b: Bv<16>, r1: Bv<16>, r2: Bv<16>, r3: Bv<16>)
    requires
        alu_result(2, a, b, r1),
        alu_result(2, b, a, r2),
        alu_result(3, a, b, r3),
    ensures
        r1@ == r2@,
        b.value() == 0 ==> forall|i: int| 0 <= i < 16 ==> #[trigger] r3@[i] == a@[i],
        b.value() >= 16 ==> forall|i: int| 0 <= i < 16 ==> !#[trigger] r3@[i],
{
    assert(r1@ =~= r2@);
}

} // verus!
