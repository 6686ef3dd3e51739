//! Simulation models of small hardware components: their combinational
//! logic and next-state functions over bit vectors
pub mod alu;
pub mod apb;
pub mod apb_target_gpio;
pub mod counter;
pub mod memories;
pub mod nested_structures;
pub mod register;
pub mod threaded;
