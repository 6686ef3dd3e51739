//! The control state of a simulation: its names, namespaces, clocks, and
//! whether it is running
use vstd::prelude::*;

use crate::clock::Schedule;
use crate::clock_array::{ClockArray, ClockIndex, InstanceHandle};
use crate::fmt::push_str;
use crate::names::{full_name_text, namespaces_precede, Name, Names, NamespaceStack, NsName, SimNsName};

verus! {

/// A reset of a simulation
#[derive(Debug, Clone, Copy, PartialEq, Eq, Structural)]
pub enum SimReset {
    Restart,
}

/// Whether a simulation has started, is running or paused, or has stopped
#[derive(Debug, Clone, Copy, PartialEq, Eq, Structural)]
pub enum RunState {
    Idle,
    Running,
    Paused,
    Stopped,
}

/// The name of a run state, as its debug text
pub open spec fn run_state_text(s: RunState) -> Seq<char> {
    match s {
        RunState::Idle => "Idle"@,
        RunState::Running => "Running"@,
        RunState::Paused => "Paused"@,
        RunState::Stopped => "Stopped"@,
    }
}

/// Append the name of a run state
fn push_run_state(s: &mut String, st: RunState)
    ensures
        final(s)@ == old(s)@ + run_state_text(st),
{
    match st {
        RunState::Idle => push_str(s, "Idle"),
        RunState::Running => push_str(s, "Running"),
        RunState::Paused => push_str(s, "Paused"),
        RunState::Stopped => push_str(s, "Stopped"),
    }
}

/// The text of a refused change of run state: `prefix` and the state
/// that the simulation was in
fn state_error(prefix: &str, st: RunState) -> (r: String)
    ensures
        r@ == prefix@ + run_state_text(st),
{
    let mut s = String::new();
    push_str(&mut s, prefix);
    push_run_state(&mut s, st);
    s
}

/// The control state of a simulation: the names of its objects, the
/// stack of namespaces that new objects are named in, its clocks, and its
/// run state
pub struct SimulationContents {
    names: Names,
    namespace_stack: NamespaceStack,
    clocks: ClockArray,
    run_state: RunState,
    input_edges: Vec<InputEdges>,
}

/// The edges of an input of an instance that the instance registered as
/// driving it
#[derive(Debug, Clone, Copy, PartialEq, Eq, Structural)]
pub struct InputEdges {
    pub instance: InstanceHandle,
    pub input: usize,
    pub posedge: bool,
    pub negedge: bool,
}

/// The edges last registered for an input of an instance, if any were
pub open spec fn registered_edges(regs: Seq<InputEdges>, instance: InstanceHandle, input: usize) -> Option<
    InputEdges,
>
    decreases regs.len(),
{
    if regs.len() == 0 {
        None
    } else if regs.last().instance == instance && regs.last().input == input {
        Some(regs.last())
    } else {
        registered_edges(regs.drop_last(), instance, input)
    }
}

/// The edges found for an input of an instance are those of the latest
/// registration for that same instance and that same input: a
/// registration is found for its own input, one for any other input (of
/// the same instance or another) does not change what is found, and
/// nothing is found for an input with no registration
pub proof fn law_registered_edges(regs: Seq<InputEdges>, e: InputEdges, instance: InstanceHandle, input: usize)
    ensures
        registered_edges(regs.push(e), e.instance, e.input) == Some(e),
        !(e.instance == instance && e.input == input) ==> registered_edges(regs.push(e), instance, input)
            == registered_edges(regs, instance, input),
        registered_edges(regs, instance, input) matches Some(f) ==> f.instance == instance && f.input
            == input && regs.contains(f),
        registered_edges(regs, instance, input) is None <==> !(exists|k: int|
            0 <= k < regs.len() && #[trigger] regs[k].instance == instance && regs[k].input == input),
    decreases regs.len(),
{
    assert(regs.push(e).drop_last() =~= regs);
    if regs.len() > 0 {
        law_registered_edges(regs.drop_last(), regs.last(), instance, input);
        assert(regs.drop_last().push(regs.last()) =~= regs);
        if registered_edges(regs, instance, input) is Some {
            let f = registered_edges(regs, instance, input)->0;
            if !(regs.last().instance == instance && regs.last().input == input) {
                let k = choose|k: int| 0 <= k < regs.drop_last().len() && regs.drop_last()[k] == f;
                assert(regs[k] == f);
            } else {
                assert(regs[regs.len() - 1] == f);
            }
        }
        if exists|k: int| 0 <= k < regs.len() && #[trigger] regs[k].instance == instance && regs[k].input == input {
            let k = choose|k: int| 0 <= k < regs.len() && #[trigger] regs[k].instance == instance && regs[k].input == input;
            if k < regs.len() - 1 {
                assert(regs.drop_last()[k].instance == instance);
            }
        } else {
            assert forall|k: int| 0 <= k < regs.drop_last().len() implies !(#[trigger] regs.drop_last()[k].instance
                == instance && regs.drop_last()[k].input == input) by {
                assert(regs[k] == regs.drop_last()[k]);
            }
        }
    }
}

impl SimulationContents {
    pub closed spec fn spec_names(&self) -> Names {
        self.names
    }

    pub closed spec fn spec_namespace_stack(&self) -> NamespaceStack {
        self.namespace_stack
    }

    pub closed spec fn spec_clocks(&self) -> ClockArray {
        self.clocks
    }

    pub closed spec fn spec_run_state(&self) -> RunState {
        self.run_state
    }

    /// The edges registered by instances for their inputs, in order
    pub closed spec fn spec_input_edges(&self) -> Seq<InputEdges> {
        self.input_edges@
    }

    /// The names and clocks are well formed, and each namespace of a full
    /// name is the root or a full name that is there
    pub closed spec fn wf(&self) -> bool {
        &&& self.names.wf()
        &&& self.clocks.wf()
        &&& namespaces_precede(self.names.spec_full_names())
    }

    /// Each full name is in the root namespace or in a full name added
    /// before it
    pub proof fn lemma_namespaces_precede(&self)
        requires
            self.wf(),
        ensures
            namespaces_precede(self.spec_names().spec_full_names()),
    {
    }

    /// The namespace that new objects are named in is the root or a full
    /// name that is there
    pub open spec fn namespace_ok(&self) -> bool {
        let top = if self.spec_namespace_stack()@.len() == 0 {
            SimNsName(0)
        } else {
            self.spec_namespace_stack()@.last()
        };
        top.0 == 0 || top.0 < self.spec_names().spec_full_names().len()
    }

    /// A simulation with no clocks and no names but the empty one, idle
    pub fn new() -> (r: SimulationContents)
        ensures
            r.wf(),
            r.spec_run_state() == RunState::Idle,
            r.spec_names().spec_names() == seq![Seq::<char>::empty()],
            r.spec_names().spec_full_names() == Seq::<NsName>::empty(),
            r.spec_namespace_stack()@ == Seq::<SimNsName>::empty(),
            r.spec_clocks().spec_clocks() == Seq::<crate::clock::Clock>::empty(),
            r.spec_clocks().spec_names() == Seq::<SimNsName>::empty(),
            r.spec_clocks().spec_uses() == Seq::<crate::clock_array::ClockUse>::empty(),
            r.spec_clocks().spec_schedule() is None,
            r.spec_clocks().spec_cached() == Seq::<(usize, usize)>::empty(),
            r.spec_input_edges() == Seq::<InputEdges>::empty(),
    {
        SimulationContents {
            names: Names::new(),
            namespace_stack: NamespaceStack::new(),
            clocks: ClockArray::new(),
            run_state: RunState::Idle,
            input_edges: Vec::new(),
        }
    }

    /// The namespace that new objects are named in
    pub open spec fn spec_top(&self) -> SimNsName {
        if self.spec_namespace_stack()@.len() == 0 {
            SimNsName(0)
        } else {
            self.spec_namespace_stack()@.last()
        }
    }

    /// Add the full name `name` in the current namespace, unless it is
    /// there; if it is, the error is the text of the full name (its
    /// namespaces and itself, joined by `.`)
    pub fn insert_full_name(&mut self, name: &str) -> (r: Result<SimNsName, String>)
        requires
            old(self).wf(),
            old(self).namespace_ok(),
            old(self).spec_names().spec_names().len() < usize::MAX,
            old(self).spec_names().spec_full_names().len() < usize::MAX,
        ensures
            final(self).wf(),
            final(self).namespace_ok(),
            final(self).spec_run_state() == old(self).spec_run_state(),
            final(self).spec_namespace_stack() == old(self).spec_namespace_stack(),
            final(self).spec_clocks() == old(self).spec_clocks(),
            old(self).spec_names().spec_names().contains(name@) ==> final(self).spec_names().spec_names()
                == old(self).spec_names().spec_names(),
            !old(self).spec_names().spec_names().contains(name@) ==> final(self).spec_names().spec_names()
                == old(self).spec_names().spec_names().push(name@),
            ({
                let full = NsName {
                    namespace: old(self).spec_top(),
                    name: crate::indexed_vec::StringIndex(final(self).spec_names().name_index(name@)),
                };
                let old_full = old(self).spec_names().spec_full_names();
                &&& r is Err == old_full.contains(full)
                &&& match r {
                    Ok(i) => final(self).spec_names().spec_full_names() == old_full.push(full) && i.0
                        == old_full.len(),
                    Err(e) => final(self).spec_names().spec_full_names() == old_full && exists|k: int|
                        0 <= k < old_full.len() && old_full[k] == full && e@ == full_name_text(
                            old_full,
                            final(self).spec_names().spec_names(),
                            k,
                            old_full.len(),
                        ),
                }
            }),
    {
        let namespace = self.namespace_stack.top();
        let full_name = self.names.insert_full_name(namespace, name);
        match full_name {
            Err(ns_name) => {
                Err(self.names.full_name_string(ns_name))
            },
            Ok(full_name) => {
                proof {
                    let fn0 = old(self).names.spec_full_names();
                    assert forall|i: int| 0 <= i < self.names.spec_full_names().len() implies (
                    #[trigger] self.names.spec_full_names()[i]).namespace.0 == 0
                        || self.names.spec_full_names()[i].namespace.0 < i by {
                        if i < fn0.len() {
                            assert(self.names.spec_full_names()[i] == fn0[i]);
                        }
                    }
                }
                Ok(full_name)
            },
        }
    }

    /// Add a clock named `name` in the current namespace (see
    /// [ClockArray::add_clock]); a name that is already there is refused
    pub fn add_clock(&mut self, name: &str, delay: usize, period: usize, negedge_offset: usize) -> (r:
        Result<ClockIndex, String>)
        requires
            old(self).wf(),
            old(self).namespace_ok(),
            period > 0,
            negedge_offset < period,
            old(self).spec_names().spec_names().len() < usize::MAX,
            old(self).spec_names().spec_full_names().len() < usize::MAX,
            old(self).spec_clocks().spec_clocks().len() < usize::MAX,
        ensures
            final(self).wf(),
            final(self).namespace_ok(),
            final(self).spec_run_state() == old(self).spec_run_state(),
            final(self).spec_namespace_stack() == old(self).spec_namespace_stack(),
            old(self).spec_names().spec_names().contains(name@) ==> final(self).spec_names().spec_names()
                == old(self).spec_names().spec_names(),
            !old(self).spec_names().spec_names().contains(name@) ==> final(self).spec_names().spec_names()
                == old(self).spec_names().spec_names().push(name@),
            ({
                let full = NsName {
                    namespace: old(self).spec_top(),
                    name: crate::indexed_vec::StringIndex(final(self).spec_names().name_index(name@)),
                };
                let old_full = old(self).spec_names().spec_full_names();
                match r {
                    Ok(i) => {
                        &&& !old_full.contains(full)
                        &&& final(self).spec_names().spec_full_names() == old_full.push(full)
                        &&& !old(self).spec_clocks().spec_names().contains(SimNsName(old_full.len() as usize))
                        &&& i.0 == old(self).spec_clocks().spec_clocks().len()
                        &&& final(self).spec_clocks().spec_clocks().len() == old(self).spec_clocks().spec_clocks().len() + 1
                        &&& final(self).spec_clocks().spec_clocks().take(old(self).spec_clocks().spec_clocks().len() as int)
                            == old(self).spec_clocks().spec_clocks()
                        &&& final(self).spec_clocks().spec_names() == old(self).spec_clocks().spec_names().push(
                            SimNsName(old_full.len() as usize),
                        )
                        &&& final(self).spec_clocks().spec_clocks().last().spec_delay() == delay
                        &&& final(self).spec_clocks().spec_clocks().last().spec_period() == period
                        &&& final(self).spec_clocks().spec_clocks().last().spec_negedge_offset()
                            == negedge_offset
                    },
                    Err(e) => final(self).spec_clocks().spec_clocks() == old(self).spec_clocks().spec_clocks()
                        && ((old_full.contains(full) && final(self).spec_names().spec_full_names() == old_full
                        && exists|k: int|
                        0 <= k < old_full.len() && old_full[k] == full && e@ == "Duplicate name "@
                            + full_name_text(
                            old_full,
                            final(self).spec_names().spec_names(),
                            k,
                            old_full.len(),
                        ) + " when trying to create clock"@) || (!old_full.contains(full)
                        && final(self).spec_names().spec_full_names() == old_full.push(full)
                        && old(self).spec_clocks().spec_names().contains(SimNsName(old_full.len() as usize))
                        && e@ == "Clock already exists"@)),
                }
            }),
    {
        match self.insert_full_name(name) {
            Err(text) => {
                let mut e = String::new();
                push_str(&mut e, "Duplicate name ");
                push_str(&mut e, text.as_str());
                push_str(&mut e, " when trying to create clock");
                Err(e)
            },
            Ok(full_name) => self.clocks.add_clock(full_name, delay, period, negedge_offset),
        }
    }

    /// Find a clock by name; no clock is found this way, as a simulation
    /// does not look clocks up by name
    pub fn find_clock(&self, name: SimNsName) -> (r: Option<ClockIndex>)
        ensures
            r is None,
    {
        None
    }

    /// Add a name, if it is not there, and return its index
    pub fn add_name(&mut self, name: &str) -> (r: Name)
        requires
            old(self).wf(),
            old(self).spec_names().spec_names().len() < usize::MAX,
        ensures
            final(self).wf(),
            final(self).spec_names().spec_full_names() == old(self).spec_names().spec_full_names(),
            final(self).spec_clocks() == old(self).spec_clocks(),
            final(self).spec_namespace_stack() == old(self).spec_namespace_stack(),
            final(self).spec_run_state() == old(self).spec_run_state(),
            old(self).spec_names().spec_names().contains(name@) ==> final(self).spec_names().spec_names()
                == old(self).spec_names().spec_names(),
            !old(self).spec_names().spec_names().contains(name@) ==> final(self).spec_names().spec_names()
                == old(self).spec_names().spec_names().push(name@),
            r.0 < final(self).spec_names().spec_names().len(),
            final(self).spec_names().spec_names()[r.0 as int] == name@,
    {
        let r = self.names.add_name(name);
        proof {
            assert(self.names.spec_full_names() == old(self).names.spec_full_names());
        }
        r
    }

    /// Find a name, returning its index if it is there
    pub fn find_name(&self, name: &str) -> (r: Option<Name>)
        ensures
            match r {
                Some(n) => n.0 < self.spec_names().spec_names().len()
                    && self.spec_names().spec_names()[n.0 as int] == name@,
                None => !self.spec_names().spec_names().contains(name@),
            },
    {
        self.names.find_name(name)
    }

    /// Push a namespace (a full name that is there, not the root) that new
    /// objects are named in
    pub fn push_namespace(&mut self, ns: SimNsName)
        requires
            ns.0 != 0,
        ensures
            final(self).spec_namespace_stack()@ == old(self).spec_namespace_stack()@.push(ns),
            final(self).spec_names() == old(self).spec_names(),
            final(self).spec_clocks() == old(self).spec_clocks(),
            final(self).spec_run_state() == old(self).spec_run_state(),
            old(self).wf() ==> final(self).wf(),
    {
        self.namespace_stack.push(ns);
    }

    /// Pop the namespace last pushed
    pub fn pop_namespace(&mut self) -> (r: SimNsName)
        requires
            old(self).spec_namespace_stack()@.len() > 0,
        ensures
            r == old(self).spec_namespace_stack()@.last(),
            final(self).spec_namespace_stack()@ == old(self).spec_namespace_stack()@.drop_last(),
            final(self).spec_names() == old(self).spec_names(),
            final(self).spec_clocks() == old(self).spec_clocks(),
            final(self).spec_run_state() == old(self).spec_run_state(),
            old(self).wf() ==> final(self).wf(),
    {
        self.namespace_stack.pop()
    }

    /// Record that an instance uses the posedge and/or the negedge of
    /// whatever drives one of its inputs
    pub fn register_input_edge(&mut self, instance: InstanceHandle, input: usize, posedge: bool, negedge: bool)
        ensures
            final(self).spec_input_edges() == old(self).spec_input_edges().push(
                InputEdges { instance, input, posedge, negedge },
            ),
            final(self).spec_clocks() == old(self).spec_clocks(),
            final(self).spec_names() == old(self).spec_names(),
            final(self).spec_namespace_stack() == old(self).spec_namespace_stack(),
            final(self).spec_run_state() == old(self).spec_run_state(),
            old(self).wf() ==> final(self).wf(),
    {
        self.input_edges.push(InputEdges { instance, input, posedge, negedge });
    }

    /// The edges last registered for an input of an instance
    fn find_input_edges(&self, instance: InstanceHandle, input: usize) -> (r: Option<InputEdges>)
        ensures
            r == registered_edges(self.spec_input_edges(), instance, input),
    {
        let mut k: usize = self.input_edges.len();
        proof {
            assert(self.input_edges@.take(k as int) =~= self.input_edges@);
        }
        while k > 0
            invariant
                k <= self.input_edges@.len(),
                registered_edges(self.input_edges@, instance, input) == registered_edges(
                    self.input_edges@.take(k as int),
                    instance,
                    input,
                ),
            decreases k,
        {
            let e = self.input_edges[k - 1];
            proof {
                let t = self.input_edges@.take(k as int);
                assert(t.drop_last() =~= self.input_edges@.take(k - 1));
                assert(t.last() == e);
            }
            if e.instance.0 == instance.0 && e.input == input {
                return Some(e);
            }
            k = k - 1;
        }
        proof {
            assert(self.input_edges@.take(0) =~= Seq::<InputEdges>::empty());
        }
        None
    }

    /// Connect a clock to an input of an instance: the clock's posedge
    /// and/or negedge drive the input, as the instance last registered
    /// for it (neither, if it registered nothing)
    pub fn connect_clock(&mut self, clock: ClockIndex, instance: InstanceHandle, input: usize)
        requires
            old(self).wf(),
            input < 16,
        ensures
            final(self).wf(),
            ({
                let reg = registered_edges(old(self).spec_input_edges(), instance, input);
                let p = reg matches Some(e) && e.posedge;
                let n = reg matches Some(e) && e.negedge;
                let pos_use = crate::clock_array::ClockUse { clock, posedge: true, instance, input };
                let neg_use = crate::clock_array::ClockUse { clock, posedge: false, instance, input };
                final(self).spec_clocks().spec_uses() == old(self).spec_clocks().spec_uses() + (if p {
                    seq![pos_use]
                } else {
                    Seq::empty()
                }) + (if n {
                    seq![neg_use]
                } else {
                    Seq::empty()
                })
            }),
            final(self).spec_clocks().spec_clocks() == old(self).spec_clocks().spec_clocks(),
            final(self).spec_clocks().spec_schedule() == old(self).spec_clocks().spec_schedule(),
            final(self).spec_clocks().spec_scheduled() == old(self).spec_clocks().spec_scheduled(),
            final(self).spec_names() == old(self).spec_names(),
            final(self).spec_run_state() == old(self).spec_run_state(),
            final(self).spec_input_edges() == old(self).spec_input_edges(),
    {
        let ghost u0 = self.clocks.spec_uses();
        match self.find_input_edges(instance, input) {
            Some(e) => {
                if e.posedge {
                    self.clocks.edge_used_by(clock, instance, input, true);
                }
                let ghost u1 = self.clocks.spec_uses();
                if e.negedge {
                    self.clocks.edge_used_by(clock, instance, input, false);
                }
                proof {
                    let pos_use = crate::clock_array::ClockUse { clock, posedge: true, instance, input };
                    let neg_use = crate::clock_array::ClockUse { clock, posedge: false, instance, input };
                    assert(u1 =~= u0 + (if e.posedge { seq![pos_use] } else { Seq::empty() }));
                    assert(self.clocks.spec_uses() =~= u1 + (if e.negedge { seq![neg_use] } else { Seq::empty() }));
                }
            },
            None => {
                proof {
                    assert(u0 =~= u0 + Seq::<crate::clock_array::ClockUse>::empty() + Seq::<
                        crate::clock_array::ClockUse,
                    >::empty());
                }
            },
        }
    }

    /// Derive the schedule of the clocks, ready to simulate
    pub fn prepare_simulation(&mut self)
        requires
            old(self).wf(),
        ensures
            final(self).wf(),
            final(self).spec_names() == old(self).spec_names(),
            final(self).spec_run_state() == old(self).spec_run_state(),
            final(self).spec_clocks().spec_clocks() == old(self).spec_clocks().spec_clocks(),
            old(self).spec_clocks().spec_clocks().len() > 0 ==> (final(self).spec_clocks().spec_schedule() is Some && final(self).spec_clocks().spec_scheduled()
                == old(self).spec_clocks().spec_clocks()
                && final(self).spec_clocks().spec_schedule()->0.spec_time() == 0
                && final(self).spec_clocks().spec_schedule()->0.spec_next_time() == 0),
    {
        self.clocks.derive_schedule();
    }

    /// Whether the schedule can move on within the range of `usize`
    pub fn has_room(&self) -> (r: bool)
        requires
            self.wf(),
            self.spec_clocks().spec_schedule() is Some,
        ensures
            r == self.spec_clocks().spec_schedule()->0.has_headroom(
                self.spec_clocks().spec_scheduled(),
            ),
    {
        self.clocks.has_room()
    }

    /// Move time on to the next clock edges, returning the masks of the
    /// clocks with a posedge and with a negedge then (see
    /// [ClockArray::next_edges])
    pub fn next_edges(&mut self) -> (r: (usize, usize))
        requires
            old(self).wf(),
            old(self).spec_clocks().spec_schedule() is Some,
            old(self).spec_clocks().spec_schedule()->0.has_headroom(
                old(self).spec_clocks().spec_scheduled(),
            ),
            old(self).spec_clocks().spec_clocks().len() <= usize::BITS,
        ensures
            final(self).wf(),
            final(self).spec_names() == old(self).spec_names(),
            final(self).spec_run_state() == old(self).spec_run_state(),
            final(self).spec_clocks().spec_schedule() is Some,
            final(self).spec_clocks().spec_scheduled() == old(self).spec_clocks().spec_scheduled(),
            Schedule::moved_on(
                old(self).spec_clocks().spec_schedule()->0,
                final(self).spec_clocks().spec_schedule()->0,
                old(self).spec_clocks().spec_scheduled(),
            ),
            forall|i: usize|
                i < old(self).spec_clocks().spec_scheduled().len() ==> (crate::clock::mask_bit(r.0, i)
                    == crate::clock::posedge_at(
                    old(self).spec_clocks().spec_scheduled()[i as int],
                    final(self).spec_clocks().spec_schedule()->0.spec_time() as int,
                ) && crate::clock::mask_bit(r.1, i) == crate::clock::negedge_at(
                    old(self).spec_clocks().spec_scheduled()[i as int],
                    final(self).spec_clocks().spec_schedule()->0.spec_time() as int,
                )),
    {
        self.clocks.next_edges()
    }

    /// The time of the simulation
    pub fn time(&self) -> (r: usize)
        requires
            self.spec_clocks().spec_schedule() is Some,
        ensures
            r == self.spec_clocks().spec_schedule()->0.spec_time(),
    {
        self.clocks.time()
    }

    /// The clocks of the simulation
    pub fn clocks(&self) -> (r: &ClockArray)
        ensures
            *r == self.spec_clocks(),
    {
        &self.clocks
    }

    /// The names of the simulation
    pub fn names(&self) -> (r: &Names)
        ensures
            *r == self.spec_names(),
    {
        &self.names
    }

    /// The run state
    pub fn run_state(&self) -> (r: RunState)
        ensures
            r == self.spec_run_state(),
    {
        self.run_state
    }

    /// Start an idle simulation, running or paused; any other is refused
    pub fn start(&mut self, start_running: bool) -> (r: Result<(), String>)
        ensures
            final(self).spec_names() == old(self).spec_names(),
            final(self).spec_clocks() == old(self).spec_clocks(),
            final(self).spec_namespace_stack() == old(self).spec_namespace_stack(),
            r is Ok == (old(self).spec_run_state() == RunState::Idle),
            r is Ok ==> final(self).spec_run_state() == if start_running {
                RunState::Running
            } else {
                RunState::Paused
            },
            r matches Err(e) ==> final(self).spec_run_state() == old(self).spec_run_state() && e@
                == "Could not start; it was already in state "@ + run_state_text(
                old(self).spec_run_state(),
            ),
    {
        match self.run_state {
            RunState::Idle => {
                self.run_state = if start_running {
                    RunState::Running
                } else {
                    RunState::Paused
                };
                Ok(())
            },
            st => Err(state_error("Could not start; it was already in state ", st)),
        }
    }

    /// Pause a running simulation (a paused one stays paused); an idle or
    /// stopped one is refused
    pub fn pause(&mut self) -> (r: Result<(), String>)
        ensures
            final(self).spec_names() == old(self).spec_names(),
            final(self).spec_clocks() == old(self).spec_clocks(),
            final(self).spec_namespace_stack() == old(self).spec_namespace_stack(),
            r is Ok == (old(self).spec_run_state() == RunState::Running || old(self).spec_run_state()
                == RunState::Paused),
            r is Ok ==> final(self).spec_run_state() == RunState::Paused,
            r matches Err(e) ==> final(self).spec_run_state() == old(self).spec_run_state() && e@
                == "Could not pause; it was already in state "@ + run_state_text(
                old(self).spec_run_state(),
            ),
    {
        match self.run_state {
            RunState::Paused => Ok(()),
            RunState::Running => {
                self.run_state = RunState::Paused;
                Ok(())
            },
            st => Err(state_error("Could not pause; it was already in state ", st)),
        }
    }

    /// Resume a paused simulation (a running one stays running); an idle
    /// or stopped one is refused
    pub fn resume(&mut self) -> (r: Result<(), String>)
        ensures
            final(self).spec_names() == old(self).spec_names(),
            final(self).spec_clocks() == old(self).spec_clocks(),
            final(self).spec_namespace_stack() == old(self).spec_namespace_stack(),
            r is Ok == (old(self).spec_run_state() == RunState::Running || old(self).spec_run_state()
                == RunState::Paused),
            r is Ok ==> final(self).spec_run_state() == RunState::Running,
            r matches Err(e) ==> final(self).spec_run_state() == old(self).spec_run_state() && e@
                == "Could not resume; it was already in state "@ + run_state_text(
                old(self).spec_run_state(),
            ),
    {
        match self.run_state {
            RunState::Running => Ok(()),
            RunState::Paused => {
                self.run_state = RunState::Running;
                Ok(())
            },
            st => Err(state_error("Could not resume; it was already in state ", st)),
        }
    }

    /// Stop a running or paused simulation; an idle or stopped one is
    /// refused
    pub fn stop(&mut self) -> (r: Result<(), String>)
        ensures
            final(self).spec_names() == old(self).spec_names(),
            final(self).spec_clocks() == old(self).spec_clocks(),
            final(self).spec_namespace_stack() == old(self).spec_namespace_stack(),
            r is Ok == (old(self).spec_run_state() == RunState::Running || old(self).spec_run_state()
                == RunState::Paused),
            r is Ok ==> final(self).spec_run_state() == RunState::Stopped,
            r matches Err(e) ==> final(self).spec_run_state() == old(self).spec_run_state() && e@
                == "Could not stop; it was already in state "@ + run_state_text(
                old(self).spec_run_state(),
            ),
    {
        match self.run_state {
            RunState::Running | RunState::Paused => {
                self.run_state = RunState::Stopped;
                Ok(())
            },
            st => Err(state_error("Could not stop; it was already in state ", st)),
        }
    }
}

impl Default for SimulationContents {
    fn default() -> (r: SimulationContents)
        ensures
            r.wf(),
            r.spec_run_state() == RunState::Idle,
    {
        SimulationContents::new()
    }
}

} // verus!
