//! The clocks of a simulation, their schedule, and the edges that each
//! instance sees when clocks fire
use vstd::prelude::*;
use vstd::std_specs::convert::FromSpecImpl;

use crate::clock::{mask_bit, Clock, Schedule};
use crate::edge_mask::{
    has_negedge, has_posedge, law_add_negedge, law_add_posedge, negedge_bits, posedge_bits,
    SimEdgeMask,
};
use crate::index::Idx;
use crate::indexed_vec::VecWithIndex;
use crate::names::SimNsName;

verus! {

/// The index of a clock in a [ClockArray]
#[derive(Debug, Clone, Copy, PartialEq, Eq, Structural, Hash, PartialOrd, Ord)]
pub struct ClockIndex(pub usize);

impl Idx for ClockIndex {
    open spec fn spec_index(self) -> usize {
        self.0
    }

    fn from_usize(n: usize) -> (r: ClockIndex) {
        ClockIndex(n)
    }

    fn index(self) -> (r: usize) {
        self.0
    }
}

impl Default for ClockIndex {
    fn default() -> (r: ClockIndex)
        ensures
            r.0 == 0,
    {
        ClockIndex(0)
    }
}

impl From<usize> for ClockIndex {
    fn from(n: usize) -> (r: ClockIndex) {
        ClockIndex(n)
    }
}

impl FromSpecImpl<usize> for ClockIndex {
    open spec fn obeys_from_spec() -> bool {
        true
    }

    open spec fn from_spec(n: usize) -> ClockIndex {
        ClockIndex(n)
    }
}

/// The handle of an instance of a component in a simulation
#[derive(Debug, Clone, Copy, PartialEq, Eq, Structural, Hash, PartialOrd, Ord)]
pub struct InstanceHandle(pub usize);

impl Idx for InstanceHandle {
    open spec fn spec_index(self) -> usize {
        self.0
    }

    fn from_usize(n: usize) -> (r: InstanceHandle) {
        InstanceHandle(n)
    }

    fn index(self) -> (r: usize) {
        self.0
    }
}

impl Default for InstanceHandle {
    fn default() -> (r: InstanceHandle)
        ensures
            r.0 == 0,
    {
        InstanceHandle(0)
    }
}

/// A clock input of an instance that a clock edge drives
#[derive(Debug, Clone, Copy, PartialEq, Eq, Structural)]
pub struct ClockUse {
    /// The clock
    pub clock: ClockIndex,
    /// Its posedge (else its negedge)
    pub posedge: bool,
    /// The instance
    pub instance: InstanceHandle,
    /// The clock input of the instance
    pub input: usize,
}

/// The edge bits that a use contributes when the clocks in the masks `ie`
/// (posedges, negedges) fire, among the first `n` clocks
pub open spec fn use_bits(u: ClockUse, ie: (usize, usize), n: nat) -> u64 {
    if u.clock.0 < n && u.posedge && mask_bit(ie.0, u.clock.0) {
        posedge_bits(u.input as u64)
    } else if u.clock.0 < n && !u.posedge && mask_bit(ie.1, u.clock.0) {
        negedge_bits(u.input as u64)
    } else {
        0
    }
}

/// The edge mask of instance `h` when the clocks in the masks `ie` fire:
/// every edge of its inputs that some use in `uses` drives
pub open spec fn instance_mask(uses: Seq<ClockUse>, ie: (usize, usize), n: nat, h: InstanceHandle) -> u64
    decreases uses.len(),
{
    if uses.len() == 0 {
        0
    } else {
        instance_mask(uses.drop_last(), ie, n, h) | if uses.last().instance == h {
            use_bits(uses.last(), ie, n)
        } else {
            0
        }
    }
}

/// `edges` lists, once each, exactly the instances that see an edge
/// when the clocks in `ie` fire, each with its edge mask
pub open spec fn instance_edges_of(
    edges: Seq<(InstanceHandle, SimEdgeMask)>,
    uses: Seq<ClockUse>,
    ie: (usize, usize),
    n: nat,
) -> bool {
    &&& forall|i: int, j: int|
        0 <= i < j < edges.len() ==> (#[trigger] edges[i]).0 != (#[trigger] edges[j]).0
    &&& forall|i: int|
        0 <= i < edges.len() ==> (#[trigger] edges[i]).1@ == instance_mask(uses, ie, n, edges[i].0)
            && edges[i].1@ != 0
    &&& forall|h: InstanceHandle|
        #[trigger] instance_mask(uses, ie, n, h) != 0 ==> exists|i: int|
            0 <= i < edges.len() && (#[trigger] edges[i]).0 == h
}

/// The edges of a posedge or negedge of an input are never empty
proof fn lemma_edge_bits_nonzero(input: u64)
    requires
        input < 16,
    ensures
        posedge_bits(input) != 0,
        negedge_bits(input) != 0,
{
    assert((input < 16 ==> (1u64 << ((2 * input) as u64)) != 0) && (input < 15 ==> (1u64 << ((2
        * input + 1) as u64)) != 0)) by (bit_vector);
}

proof fn lemma_or_zero(a: u64, b: u64)
    ensures
        a | 0 == a,
        b != 0 ==> (a | b) != 0,
        (a | b) | 0 == a | b,
        0u64 | b == b,
{
    assert(a | 0 == a && (b != 0 ==> (a | b) != 0) && (a | b) | 0 == a | b && 0u64 | b == b) by (bit_vector);
}

/// Whether a use is driven when the clocks in the masks `ie` fire, among
/// the first `n` clocks
pub open spec fn fires(u: ClockUse, ie: (usize, usize), n: nat) -> bool {
    &&& u.clock.0 < n
    &&& if u.posedge {
        mask_bit(ie.0, u.clock.0)
    } else {
        mask_bit(ie.1, u.clock.0)
    }
}

/// An instance sees a posedge (negedge) of one of its inputs exactly when
/// some use of a clock's posedge (negedge) that fires drives that input
/// of that instance
pub proof fn law_instance_edges(
    uses: Seq<ClockUse>,
    ie: (usize, usize),
    n: nat,
    h: InstanceHandle,
    j: usize,
)
    requires
        j < 16,
        forall|k: int| 0 <= k < uses.len() ==> (#[trigger] uses[k]).input < 16,
    ensures
        has_posedge(instance_mask(uses, ie, n, h), j as u64) <==> exists|k: int|
            0 <= k < uses.len() && (#[trigger] uses[k]).instance == h && uses[k].posedge
                && uses[k].input == j && fires(uses[k], ie, n),
        has_negedge(instance_mask(uses, ie, n, h), j as u64) <==> exists|k: int|
            0 <= k < uses.len() && (#[trigger] uses[k]).instance == h && !uses[k].posedge
                && uses[k].input == j && fires(uses[k], ie, n),
    decreases uses.len(),
{
    if uses.len() == 0 {
        assert(has_posedge(0, j as u64) == false && has_negedge(0, j as u64) == false) by {
            let jj = j as u64;
            assert(jj < 16 ==> (0u64 >> (2 * jj)) & 1 == 0 && (0u64 >> (2 * jj)) & 2 == 0)
                by (bit_vector);
        }
    } else {
        let pre = uses.drop_last();
        let u = uses.last();
        assert forall|k: int| 0 <= k < pre.len() implies (#[trigger] pre[k]).input < 16 by {
            assert(pre[k] == uses[k]);
        }
        law_instance_edges(pre, ie, n, h, j);
        let m0 = instance_mask(pre, ie, n, h);
        let m = instance_mask(uses, ie, n, h);
        assert(uses[uses.len() - 1] == u);
        if u.instance == h && fires(u, ie, n) {
            if u.posedge {
                assert(m == m0 | posedge_bits(u.input as u64));
                law_add_posedge(m0, u.input as u64, j as u64);
            } else {
                assert(m == m0 | negedge_bits(u.input as u64));
                law_add_negedge(m0, u.input as u64, j as u64);
            }
        } else {
            assert(use_bits(u, ie, n) == 0 || u.instance != h);
            lemma_or_zero(m0, 0);
            assert(m == m0);
        }
        // the uses before the last one are those of `pre`
        assert forall|k: int| 0 <= k < pre.len() implies #[trigger] pre[k] == uses[k] by {}
        if has_posedge(m, j as u64) {
            if !(u.instance == h && u.posedge && u.input == j && fires(u, ie, n)) {
                let k = choose|k: int|
                    0 <= k < pre.len() && (#[trigger] pre[k]).instance == h && pre[k].posedge
                        && pre[k].input == j && fires(pre[k], ie, n);
                assert(uses[k] == pre[k]);
            }
        } else {
            assert forall|k: int| 0 <= k < uses.len() && (#[trigger] uses[k]).instance == h
                && uses[k].posedge && uses[k].input == j implies !fires(uses[k], ie, n) by {
                if k < pre.len() {
                    assert(pre[k] == uses[k]);
                }
            }
        }
        if has_negedge(m, j as u64) {
            if !(u.instance == h && !u.posedge && u.input == j && fires(u, ie, n)) {
                let k = choose|k: int|
                    0 <= k < pre.len() && (#[trigger] pre[k]).instance == h && !pre[k].posedge
                        && pre[k].input == j && fires(pre[k], ie, n);
                assert(uses[k] == pre[k]);
            }
        } else {
            assert forall|k: int| 0 <= k < uses.len() && (#[trigger] uses[k]).instance == h
                && !uses[k].posedge && uses[k].input == j implies !fires(uses[k], ie, n) by {
                if k < pre.len() {
                    assert(pre[k] == uses[k]);
                }
            }
        }
    }
}

/// The edges of the instances when the clocks in `ie` fire, computed from
/// the uses of clock edges, for the first `n` clocks
pub fn derive_instance_edges(uses: &Vec<ClockUse>, ie: (usize, usize), n: usize) -> (r: Vec<
    (InstanceHandle, SimEdgeMask),
>)
    requires
        n <= usize::BITS,
        forall|k: int| 0 <= k < uses@.len() ==> (#[trigger] uses@[k]).input < 16,
    ensures
        instance_edges_of(r@, uses@, ie, n as nat),
{
    let mut r: Vec<(InstanceHandle, SimEdgeMask)> = Vec::new();
    let mut k: usize = 0;
    while k < uses.len()
        invariant
            n <= usize::BITS,
            forall|q: int| 0 <= q < uses@.len() ==> (#[trigger] uses@[q]).input < 16,
            k <= uses@.len(),
            instance_edges_of(r@, uses@.take(k as int), ie, n as nat),
        decreases uses@.len() - k,
    {
        let u = uses[k];
        let ghost pre = uses@.take(k as int);
        let ghost post = uses@.take(k + 1);
        proof {
            assert(post.drop_last() =~= pre);
            assert(post.last() == u);
            lemma_edge_bits_nonzero(u.input as u64);
        }
        let selected = u.clock.0 < n && if u.posedge {
            (ie.0 >> u.clock.0) & 1 == 1
        } else {
            (ie.1 >> u.clock.0) & 1 == 1
        };
        if selected {
            let mut found: Option<usize> = None;
            let mut j: usize = 0;
            while j < r.len()
                invariant
                    j <= r@.len(),
                    found is None ==> forall|q: int| 0 <= q < j ==> (#[trigger] r@[q]).0 != u.instance,
                    found matches Some(f) ==> f < r@.len() && r@[f as int].0 == u.instance,
                decreases r@.len() - j,
            {
                if found.is_none() && r[j].0 == u.instance {
                    found = Some(j);
                }
                j = j + 1;
            }
            let ghost r0 = r@;
            let mut m = SimEdgeMask::none();
            match found {
                Some(f) => {
                    m = r[f].1;
                },
                None => {},
            }
            let ghost m0 = m@;
            if u.posedge {
                m.set_posedge(u.input);
            } else {
                m.set_negedge(u.input);
            }
            proof {
                assert(m@ == m0 | use_bits(u, ie, n as nat));
            }
            match found {
                Some(f) => {
                    r.set(f, (u.instance, m));
                },
                None => {
                    r.push((u.instance, m));
                },
            }
            proof {
                assert forall|h: InstanceHandle| #[trigger]
                    instance_mask(post, ie, n as nat, h) == instance_mask(pre, ie, n as nat, h) | if h
                        == u.instance {
                        use_bits(u, ie, n as nat)
                    } else {
                        0
                    } by {}
                assert forall|h: InstanceHandle| h != u.instance implies #[trigger] instance_mask(
                    post,
                    ie,
                    n as nat,
                    h,
                ) == instance_mask(pre, ie, n as nat, h) by {
                    lemma_or_zero(instance_mask(pre, ie, n as nat, h), 0);
                }
                lemma_or_zero(instance_mask(pre, ie, n as nat, u.instance), use_bits(u, ie, n as nat));
                if found is None {
                    assert(instance_mask(pre, ie, n as nat, u.instance) == 0);
                    assert(m0 == 0);
                    lemma_or_zero(0, use_bits(u, ie, n as nat));
                }
                assert forall|i: int, j: int| 0 <= i < j < r@.len() implies (#[trigger] r@[i]).0 != (
                #[trigger] r@[j]).0 by {
                    if found is None && j == r@.len() - 1 {
                        assert(r0[i] == r@[i]);
                    }
                }
                assert forall|i: int| 0 <= i < r@.len() implies (#[trigger] r@[i]).1@ == instance_mask(
                    post,
                    ie,
                    n as nat,
                    r@[i].0,
                ) && r@[i].1@ != 0 by {
                    if i < r0.len() {
                        if found != Some(i as usize) {
                            assert(r0[i] == r@[i]);
                            assert(r0[i].0 != u.instance);
                        }
                    }
                }
                assert forall|h: InstanceHandle| #[trigger]
                    instance_mask(post, ie, n as nat, h) != 0 implies exists|i: int|
                    0 <= i < r@.len() && (#[trigger] r@[i]).0 == h by {
                    if h == u.instance {
                        match found {
                            Some(f) => {
                                assert(r@[f as int].0 == h);
                            },
                            None => {
                                assert(r@[r@.len() - 1].0 == h);
                            },
                        }
                    } else {
                        let i = choose|i: int| 0 <= i < r0.len() && (#[trigger] r0[i]).0 == h;
                        if found != Some(i as usize) {
                            assert(r@[i].0 == h);
                        }
                    }
                }
            }
        } else {
            proof {
                assert forall|h: InstanceHandle| #[trigger] instance_mask(post, ie, n as nat, h)
                    == instance_mask(pre, ie, n as nat, h) by {
                    assert(use_bits(u, ie, n as nat) == 0);
                    lemma_or_zero(instance_mask(pre, ie, n as nat, h), 0);
                }
            }
        }
        k = k + 1;
    }
    proof {
        assert(uses@.take(uses@.len() as int) =~= uses@);
    }
    r
}


/// The edges of the instances for one pair of clock masks, derived when
/// the array had `n_clocks` clocks and `n_uses` uses of clock edges
struct CachedEdges {
    ie: (usize, usize),
    n_clocks: usize,
    n_uses: usize,
    edges: Vec<(InstanceHandle, SimEdgeMask)>,
}

/// The clocks of a simulation, found by name or index; the schedule of
/// their edges once it is derived; which instance inputs each clock edge
/// drives; and, for each pair of clock masks that has fired, the edges
/// that each instance sees
pub struct ClockArray {
    clocks: VecWithIndex<SimNsName, ClockIndex, Clock>,
    schedule: Option<Schedule>,
    scheduled: usize,
    instance_edges: Vec<CachedEdges>,
    clock_uses: Vec<ClockUse>,
}

impl ClockArray {
    /// The clocks, in the order they were added
    pub closed spec fn spec_clocks(&self) -> Seq<Clock> {
        self.clocks.spec_items()
    }

    /// The names of the clocks, in the order they were added
    pub closed spec fn spec_names(&self) -> Seq<SimNsName> {
        self.clocks.spec_keys()
    }

    /// The uses of clock edges by instances, in the order they were added
    pub closed spec fn spec_uses(&self) -> Seq<ClockUse> {
        self.clock_uses@
    }

    /// The schedule, once derived
    pub closed spec fn spec_schedule(&self) -> Option<Schedule> {
        self.schedule
    }

    /// The clocks that the schedule runs: those there when it was derived
    pub closed spec fn spec_scheduled(&self) -> Seq<Clock> {
        self.clocks.spec_items().take(self.scheduled as int)
    }

    /// The pairs of clock masks whose instance edges have been derived
    pub closed spec fn spec_cached(&self) -> Seq<(usize, usize)> {
        self.instance_edges@.map_values(|c: CachedEdges| c.ie)
    }

    /// The clocks are well formed and each is held under its own name;
    /// the schedule runs the clocks that were there when it was derived;
    /// each use of a clock edge is of an input below 16; and the edges
    /// derived for a pair of masks are those of the clocks and uses that
    /// were there when they were derived
    pub closed spec fn wf(&self) -> bool {
        &&& self.clocks.wf()
        &&& forall|i: int|
            0 <= i < self.spec_clocks().len() ==> (#[trigger] self.spec_clocks()[i]).wf()
                && self.spec_clocks()[i].spec_name() == self.spec_names()[i]
        &&& self.scheduled <= self.spec_clocks().len()
        &&& self.schedule matches Some(s) ==> s.wf(self.spec_scheduled())
        &&& forall|k: int| 0 <= k < self.clock_uses@.len() ==> (#[trigger] self.clock_uses@[k]).input < 16
        &&& forall|k: int|
            0 <= k < self.instance_edges@.len() ==> {
                let c = #[trigger] self.instance_edges@[k];
                &&& c.n_clocks <= usize::BITS
                &&& c.n_uses <= self.clock_uses@.len()
                &&& instance_edges_of(
                    c.edges@,
                    self.clock_uses@.take(c.n_uses as int),
                    c.ie,
                    c.n_clocks as nat,
                )
            }
    }

    /// An array with no clocks
    pub fn new() -> (r: ClockArray)
        ensures
            r.wf(),
            r.spec_clocks() == Seq::<Clock>::empty(),
            r.spec_names() == Seq::<SimNsName>::empty(),
            r.spec_uses() == Seq::<ClockUse>::empty(),
            r.spec_schedule() is None,
            r.spec_cached() == Seq::<(usize, usize)>::empty(),
    {
        let r = ClockArray {
            clocks: VecWithIndex::new(),
            schedule: None,
            scheduled: 0,
            instance_edges: Vec::new(),
            clock_uses: Vec::new(),
        };
        proof {
            assert(r.spec_cached() =~= Seq::<(usize, usize)>::empty());
        }
        r
    }

    /// Add a clock with a name that no clock has: its first posedge is
    /// after `delay`, then one every `period`; its negedge follows each
    /// posedge after `negedge_offset` (none is simulated if that is 0)
    ///
    /// A clock with the name already there is refused
    pub fn add_clock(&mut self, name: SimNsName, delay: usize, period: usize, negedge_offset: usize) -> (r:
        Result<ClockIndex, String>)
        requires
            old(self).wf(),
            period > 0,
            negedge_offset < period,
            old(self).spec_clocks().len() < usize::MAX,
        ensures
            final(self).wf(),
            r is Err == old(self).spec_names().contains(name),
            final(self).spec_uses() == old(self).spec_uses(),
            final(self).spec_schedule() == old(self).spec_schedule(),
            final(self).spec_scheduled() == old(self).spec_scheduled(),
            final(self).spec_cached() == old(self).spec_cached(),
            match r {
                Ok(i) => {
                    &&& i.0 == old(self).spec_clocks().len()
                    &&& final(self).spec_names() == old(self).spec_names().push(name)
                    &&& final(self).spec_clocks().len() == old(self).spec_clocks().len() + 1
                    &&& final(self).spec_clocks().take(old(self).spec_clocks().len() as int)
                        == old(self).spec_clocks()
                    &&& final(self).spec_clocks().last().spec_name() == name
                    &&& final(self).spec_clocks().last().spec_delay() == delay
                    &&& final(self).spec_clocks().last().spec_period() == period
                    &&& final(self).spec_clocks().last().spec_negedge_offset() == negedge_offset
                },
                Err(e) => {
                    &&& e@ == "Clock already exists"@
                    &&& final(self).spec_clocks() == old(self).spec_clocks()
                    &&& final(self).spec_names() == old(self).spec_names()
                },
            },
    {
        let clock = Clock::new(name, delay, period, negedge_offset);
        let r = self.clocks.insert(name, move |k: &SimNsName| -> (c: Clock)
            ensures c == clock,
            { clock });
        proof {
            self.clocks.lemma_wf();
            if r is Ok {
                let n = old(self).spec_clocks().len();
                assert forall|i: int| 0 <= i < self.spec_clocks().len() implies (#[trigger] self.spec_clocks()[i]).wf()
                    && self.spec_clocks()[i].spec_name() == self.spec_names()[i] by {
                    if i < n {
                        assert(self.spec_clocks().take(n as int)[i] == self.spec_clocks()[i]);
                    } else {
                        assert(self.spec_clocks()[i] == self.spec_clocks().last());
                        assert(self.spec_clocks()[i] == clock);
                        assert(self.spec_names()[i] == name);
                    }
                }
                assert(self.spec_scheduled() =~= old(self).spec_scheduled()) by {
                    assert(self.spec_clocks().take(n as int) == old(self).spec_clocks());
                }
            }
        }
        match r {
            Ok(i) => Ok(i),
            Err(_) => Err("Clock already exists".to_owned()),
        }
    }

    /// Find a clock by name
    pub fn find_clock(&self, name: SimNsName) -> (r: Option<ClockIndex>)
        requires
            self.wf(),
        ensures
            match r {
                Some(i) => i.0 < self.spec_names().len() && self.spec_names()[i.0 as int] == name,
                None => !self.spec_names().contains(name),
            },
    {
        self.clocks.find_key(&name)
    }

    /// The clocks, in the order they were added
    pub fn clocks(&self) -> (r: &[Clock])
        ensures
            r@ == self.spec_clocks(),
    {
        self.clocks.items()
    }

    /// Derive the schedule of the clocks, starting at time 0; with no
    /// clocks there is no schedule
    pub fn derive_schedule(&mut self)
        requires
            old(self).wf(),
        ensures
            final(self).wf(),
            final(self).spec_clocks() == old(self).spec_clocks(),
            final(self).spec_names() == old(self).spec_names(),
            final(self).spec_uses() == old(self).spec_uses(),
            final(self).spec_cached() == old(self).spec_cached(),
            old(self).spec_clocks().len() == 0 ==> final(self).spec_schedule() == old(self).spec_schedule() && final(self).spec_scheduled() == old(self).spec_scheduled(),
            old(self).spec_clocks().len() > 0 ==> (final(self).spec_scheduled()
                == old(self).spec_clocks() && final(self).spec_schedule() is Some
                && final(self).spec_schedule()->0.spec_time() == 0
                && final(self).spec_schedule()->0.spec_next_time() == 0),
    {
        if self.clocks.is_empty() {
            return;
        }
        let clocks = self.clocks.items();
        proof {
            assert forall|i: int| 0 <= i < clocks@.len() implies #[trigger] clocks@[i].wf() by {
                assert(self.spec_clocks()[i].wf());
            }
        }
        let schedule = Schedule::new(clocks);
        self.schedule = Some(schedule);
        self.scheduled = self.clocks.len();
        proof {
            assert(self.spec_scheduled() =~= self.spec_clocks());
        }
    }

    /// Record that the posedge (or negedge) of a clock drives an input of
    /// an instance
    pub fn edge_used_by(&mut self, clock: ClockIndex, instance: InstanceHandle, input: usize, posedge: bool)
        requires
            old(self).wf(),
            input < 16,
        ensures
            final(self).wf(),
            final(self).spec_uses() == old(self).spec_uses().push(
                ClockUse { clock, posedge, instance, input },
            ),
            final(self).spec_clocks() == old(self).spec_clocks(),
            final(self).spec_names() == old(self).spec_names(),
            final(self).spec_schedule() == old(self).spec_schedule(),
            final(self).spec_scheduled() == old(self).spec_scheduled(),
            final(self).spec_cached() == old(self).spec_cached(),
    {
        self.clock_uses.push(ClockUse { clock, posedge, instance, input });
        proof {
            assert forall|k: int| 0 <= k < self.instance_edges@.len() implies {
                let c = #[trigger] self.instance_edges@[k];
                &&& c.n_clocks <= usize::BITS
                &&& c.n_uses <= self.clock_uses@.len()
                &&& instance_edges_of(
                    c.edges@,
                    self.clock_uses@.take(c.n_uses as int),
                    c.ie,
                    c.n_clocks as nat,
                )
            } by {
                let c = self.instance_edges@[k];
                assert(self.clock_uses@.take(c.n_uses as int) =~= old(self).clock_uses@.take(
                    c.n_uses as int,
                ));
            }
        }
    }

    /// The position of the derived edges for a pair of masks, if they
    /// have been derived
    fn cached_position(&self, ie: (usize, usize)) -> (r: Option<usize>)
        ensures
            match r {
                Some(k) => k < self.instance_edges@.len() && self.instance_edges@[k as int].ie == ie,
                None => !self.spec_cached().contains(ie),
            },
    {
        let mut k: usize = 0;
        while k < self.instance_edges.len()
            invariant
                k <= self.instance_edges@.len(),
                forall|q: int| 0 <= q < k ==> self.instance_edges@[q].ie != ie,
            decreases self.instance_edges@.len() - k,
        {
            if self.instance_edges[k].ie.0 == ie.0 && self.instance_edges[k].ie.1 == ie.1 {
                return Some(k);
            }
            k = k + 1;
        }
        proof {
            if self.spec_cached().contains(ie) {
                let q = choose|q: int| 0 <= q < self.spec_cached().len() && self.spec_cached()[q] == ie;
                assert(self.instance_edges@[q].ie == ie);
            }
        }
        None
    }

    /// Derive the edges that each instance sees when the clocks in the
    /// masks `ie` fire, unless they have been derived already
    pub fn derive_instance_edges_of_masks(&mut self, ie: &(usize, usize))
        requires
            old(self).wf(),
            old(self).spec_clocks().len() <= usize::BITS,
        ensures
            final(self).wf(),
            final(self).spec_clocks() == old(self).spec_clocks(),
            final(self).spec_names() == old(self).spec_names(),
            final(self).spec_uses() == old(self).spec_uses(),
            final(self).spec_schedule() == old(self).spec_schedule(),
            final(self).spec_scheduled() == old(self).spec_scheduled(),
            old(self).spec_cached().contains(*ie) ==> final(self).spec_cached() == old(self).spec_cached(),
            !old(self).spec_cached().contains(*ie) ==> final(self).spec_cached() == old(self).spec_cached().push(*ie),
            !old(self).spec_cached().contains(*ie) ==> instance_edges_of(
                final(self).cached_edges(*ie),
                old(self).spec_uses(),
                *ie,
                old(self).spec_clocks().len(),
            ),
    {
        match self.cached_position(*ie) {
            Some(k) => {
                proof {
                    assert(self.spec_cached()[k as int] == *ie);
                }
                return;
            },
            None => {},
        }
        proof {
            self.clocks.lemma_wf();
            assert(self.clock_uses@.take(self.clock_uses@.len() as int) =~= self.clock_uses@);
        }
        let edges = derive_instance_edges(&self.clock_uses, *ie, self.clocks.len());
        let c = CachedEdges {
            ie: *ie,
            n_clocks: self.clocks.len(),
            n_uses: self.clock_uses.len(),
            edges,
        };
        self.instance_edges.push(c);
        proof {
            assert(self.spec_cached() =~= old(self).spec_cached().push(*ie));
            let k = self.instance_edges@.len() - 1;
            assert(self.spec_cached()[k] == *ie);
            assert forall|q: int| 0 <= q < k implies self.instance_edges@[q].ie != *ie by {
                assert(old(self).spec_cached()[q] == self.instance_edges@[q].ie);
            }
            self.lemma_cached_edges_first(*ie, k);
        }
    }

    /// The edges derived for a pair of masks (the first derivation, were
    /// there several)
    pub closed spec fn cached_edges(&self, ie: (usize, usize)) -> Seq<(InstanceHandle, SimEdgeMask)> {
        let k = choose|k: int| 0 <= k < self.instance_edges@.len() && self.instance_edges@[k].ie == ie
            && forall|q: int| 0 <= q < k ==> self.instance_edges@[q].ie != ie;
        self.instance_edges@[k].edges@
    }

    proof fn lemma_cached_edges_first(&self, ie: (usize, usize), k: int)
        requires
            0 <= k < self.instance_edges@.len(),
            self.instance_edges@[k].ie == ie,
            forall|q: int| 0 <= q < k ==> self.instance_edges@[q].ie != ie,
        ensures
            self.cached_edges(ie) == self.instance_edges@[k].edges@,
    {
        let j = choose|j: int| 0 <= j < self.instance_edges@.len() && self.instance_edges@[j].ie == ie
            && forall|q: int| 0 <= q < j ==> self.instance_edges@[q].ie != ie;
        assert(j == k) by {
            if j < k {
                assert(self.instance_edges@[j].ie != ie);
            }
            if k < j {
                assert(self.instance_edges@[k].ie != ie);
            }
        }
    }

    /// Whether the schedule can move on to its next edges within the
    /// range of `usize`
    pub fn has_room(&self) -> (r: bool)
        requires
            self.wf(),
            self.spec_schedule() is Some,
        ensures
            r == self.spec_schedule()->0.has_headroom(self.spec_scheduled()),
    {
        let n = self.scheduled;
        let (scheduled, _rest) = self.clocks.items().split_at(n);
        match &self.schedule {
            Some(s) => s.has_room(scheduled),
            None => false,
        }
    }

    /// Move time on to the next time at which a scheduled clock has an
    /// edge; returns the masks of the clocks with a posedge and with a
    /// negedge then (bit `i` for clock `i`), after deriving the edges
    /// that the instances see for them
    pub fn next_edges(&mut self) -> (r: (usize, usize))
        requires
            old(self).wf(),
            old(self).spec_schedule() is Some,
            old(self).spec_schedule()->0.has_headroom(old(self).spec_scheduled()),
            old(self).spec_clocks().len() <= usize::BITS,
        ensures
            final(self).wf(),
            final(self).spec_clocks() == old(self).spec_clocks(),
            final(self).spec_names() == old(self).spec_names(),
            final(self).spec_uses() == old(self).spec_uses(),
            final(self).spec_scheduled() == old(self).spec_scheduled(),
            final(self).spec_schedule() is Some,
            Schedule::moved_on(
                old(self).spec_schedule()->0,
                final(self).spec_schedule()->0,
                old(self).spec_scheduled(),
            ),
            forall|i: usize|
                i < old(self).spec_scheduled().len() ==> (mask_bit(r.0, i) == crate::clock::posedge_at(
                    old(self).spec_scheduled()[i as int],
                    final(self).spec_schedule()->0.spec_time() as int,
                ) && mask_bit(r.1, i) == crate::clock::negedge_at(
                    old(self).spec_scheduled()[i as int],
                    final(self).spec_schedule()->0.spec_time() as int,
                )),
            forall|i: usize|
                old(self).spec_scheduled().len() <= i < usize::BITS ==> !mask_bit(r.0, i) && !mask_bit(
                    r.1,
                    i,
                ),
            final(self).spec_cached().contains(r),
            !old(self).spec_cached().contains(r) ==> final(self).spec_cached() == old(self).spec_cached().push(r) && instance_edges_of(
                final(self).cached_edges(r),
                old(self).spec_uses(),
                r,
                old(self).spec_clocks().len(),
            ),
            old(self).spec_cached().contains(r) ==> final(self).spec_cached() == old(self).spec_cached(),
    {
        let n = self.scheduled;
        let mut schedule = self.schedule.take().unwrap();
        let (scheduled, _rest) = self.clocks.items().split_at(n);
        proof {
            assert(scheduled@ =~= self.spec_scheduled());
        }
        let ie = schedule.next_edges(scheduled);
        self.schedule = Some(schedule);
        self.derive_instance_edges_of_masks(&ie);
        proof {
            if !old(self).spec_cached().contains(ie) {
                assert(self.spec_cached()[self.spec_cached().len() - 1] == ie);
            }
        }
        ie
    }

    /// The edges that each instance sees for a pair of clock masks, if
    /// they have been derived; else none
    pub fn instance_edges(&self, edges: &(usize, usize)) -> (r: &[(InstanceHandle, SimEdgeMask)])
        requires
            self.wf(),
        ensures
            self.spec_cached().contains(*edges) ==> r@ == self.cached_edges(*edges),
            !self.spec_cached().contains(*edges) ==> r@.len() == 0,
    {
        let mut k: usize = 0;
        while k < self.instance_edges.len()
            invariant
                k <= self.instance_edges@.len(),
                forall|q: int| 0 <= q < k ==> self.instance_edges@[q].ie != *edges,
            decreases self.instance_edges@.len() - k,
        {
            if self.instance_edges[k].ie.0 == edges.0 && self.instance_edges[k].ie.1 == edges.1 {
                proof {
                    self.lemma_cached_edges_first(*edges, k as int);
                    assert(self.spec_cached()[k as int] == *edges);
                }
                return self.instance_edges[k].edges.as_slice();
            }
            k = k + 1;
        }
        proof {
            if self.spec_cached().contains(*edges) {
                let q = choose|q: int| 0 <= q < self.spec_cached().len() && self.spec_cached()[q] == *edges;
                assert(self.instance_edges@[q].ie == *edges);
            }
        }
        &[]
    }

    /// Whether the schedule has been derived
    pub fn is_prepared(&self) -> (r: bool)
        ensures
            r == self.spec_schedule() is Some,
    {
        self.schedule.is_some()
    }

    /// The current time of the schedule
    pub fn time(&self) -> (r: usize)
        requires
            self.spec_schedule() is Some,
        ensures
            r == self.spec_schedule()->0.spec_time(),
    {
        match &self.schedule {
            Some(s) => s.time(),
            None => 0,
        }
    }
}

impl Default for ClockArray {
    fn default() -> (r: ClockArray)
        ensures
            r.wf(),
            r.spec_clocks() == Seq::<Clock>::empty(),
            r.spec_schedule() is None,
    {
        ClockArray::new()
    }
}


} // verus!
