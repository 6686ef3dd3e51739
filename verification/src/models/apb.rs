//! The request and response of an APB target
#![allow(non_camel_case_types)]
use vstd::prelude::*;

use crate::bit::Bit;
use crate::bv::Bv;

verus! {

/// A request on an APB bus
#[derive(Clone, Copy)]
pub struct t_apb_request {
    pub paddr: Bv<32>,
    pub penable: Bit,
    pub psel: Bit,
    pub pwrite: Bit,
    pub pwdata: Bv<32>,
}

/// The response of an APB target
#[derive(Clone, Copy)]
pub struct t_apb_response {
    pub prdata: Bv<32>,
    pub pready: Bit,
    pub perr: Bit,
}

impl t_apb_request {
    /// An idle request, all zero
    pub fn new() -> (r: Self)
        ensures
            !r.psel@ && !r.penable@ && !r.pwrite@,
            r.paddr.is_valid() && r.paddr.value() == 0,
            r.pwdata.is_valid() && r.pwdata.value() == 0,
    {
        t_apb_request {
            paddr: Bv::zero_value(),
            penable: Bit::F,
            psel: Bit::F,
            pwrite: Bit::F,
            pwdata: Bv::zero_value(),
        }
    }
}

impl t_apb_response {
    /// A response of zeros
    pub fn new() -> (r: Self)
        ensures
            !r.pready@ && !r.perr@,
            r.prdata.is_valid() && r.prdata.value() == 0,
    {
        t_apb_response { prdata: Bv::zero_value(), pready: Bit::F, perr: Bit::F }
    }
}

} // verus!
