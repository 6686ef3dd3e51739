//! Ports of component instances: the state that a simulation connects
use std::any::TypeId;
use vstd::prelude::*;

verus! {

/// std's `TypeId`, carried through as an opaque value
#[verifier::external_type_specification]
#[verifier::external_body]
pub struct ExTypeId(TypeId);

/// The kind of a piece of state of a component
#[derive(Debug, Clone, Copy, PartialEq, Eq, Structural)]
pub enum StateType {
    ClockInput,
    ClockOutput,
    Input,
    Output,
    Internal,
}

/// The description of a port: its name, its index among the ports of its
/// kind, and its kind
#[derive(Debug, Clone, Copy)]
pub struct PortInfo<'a> {
    name: &'a str,
    kind_index: usize,
    state_type: StateType,
}

impl<'a> PortInfo<'a> {
    /// The name
    pub closed spec fn spec_name(&self) -> Seq<char> {
        self.name@
    }

    /// The index among the ports of the same kind
    pub closed spec fn spec_kind_index(&self) -> usize {
        self.kind_index
    }

    /// The kind
    pub closed spec fn spec_state_type(&self) -> StateType {
        self.state_type
    }

    /// A clock input
    pub fn clk(name: &'a str, kind_index: usize) -> (r: Self)
        ensures
            r.spec_name() == name@,
            r.spec_kind_index() == kind_index,
            r.spec_state_type() == StateType::ClockInput,
    {
        Self { name, kind_index, state_type: StateType::ClockInput }
    }

    /// An input
    pub fn input(name: &'a str, kind_index: usize) -> (r: Self)
        ensures
            r.spec_name() == name@,
            r.spec_kind_index() == kind_index,
            r.spec_state_type() == StateType::Input,
    {
        Self { name, kind_index, state_type: StateType::Input }
    }

    /// An output
    pub fn output(name: &'a str, kind_index: usize) -> (r: Self)
        ensures
            r.spec_name() == name@,
            r.spec_kind_index() == kind_index,
            r.spec_state_type() == StateType::Output,
    {
        Self { name, kind_index, state_type: StateType::Output }
    }

    /// Internal state
    pub fn internal(name: &'a str, kind_index: usize) -> (r: Self)
        ensures
            r.spec_name() == name@,
            r.spec_kind_index() == kind_index,
            r.spec_state_type() == StateType::Internal,
    {
        Self { name, kind_index, state_type: StateType::Internal }
    }

    /// The name
    pub fn name(&self) -> (r: &str)
        ensures
            r@ == self.spec_name(),
    {
        self.name
    }

    /// The kind
    pub fn state_type(&self) -> (r: StateType)
        ensures
            r == self.spec_state_type(),
    {
        self.state_type
    }

    /// The index among the ports of the same kind
    pub fn kind_index(&self) -> (r: usize)
        ensures
            r == self.spec_kind_index(),
    {
        self.kind_index
    }
}

/// The `TypeId` of `()`, from std's `TypeId::of`; nothing is claimed of
/// the value
#[verifier::external_body]
fn unit_type_id() -> TypeId {
    TypeId::of::<()>()
}

/// A port of an instance: where its state is, and its kind
pub struct Port {
    state_index: usize,
    kind_index: usize,
    state_type: StateType,
    type_id: TypeId,
}

impl Port {
    /// The index of the state
    pub closed spec fn spec_state_index(&self) -> usize {
        self.state_index
    }

    /// The index among the ports of the same kind
    pub closed spec fn spec_kind_index(&self) -> usize {
        self.kind_index
    }

    /// The kind
    pub closed spec fn spec_state_type(&self) -> StateType {
        self.state_type
    }

    /// The type of the value of the port
    pub closed spec fn spec_type_id(&self) -> TypeId {
        self.type_id
    }

    /// A port of the state at `state_index`, described by `info`, whose
    /// value has the type `type_id` (that of `()` if none is given)
    pub fn new(state_index: usize, info: &PortInfo, type_id: Option<TypeId>) -> (r: Self)
        ensures
            r.spec_state_index() == state_index,
            r.spec_kind_index() == info.spec_kind_index(),
            r.spec_state_type() == info.spec_state_type(),
            type_id is Some ==> r.spec_type_id() == type_id->0,
    {
        let type_id = match type_id {
            Some(t) => t,
            None => unit_type_id(),
        };
        Port {
            state_index,
            kind_index: info.kind_index(),
            state_type: info.state_type(),
            type_id,
        }
    }

    /// The index of the state
    pub fn state_index(&self) -> (r: usize)
        ensures
            r == self.spec_state_index(),
    {
        self.state_index
    }
}

} // verus!
