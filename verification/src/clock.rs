//! Clocks, and the schedule of their edges over simulated time
use vstd::arithmetic::div_mod::*;
use vstd::arithmetic::mul::*;
use vstd::prelude::*;

use crate::names::SimNsName;

verus! {

/// Bit `i` of a mask of clocks
pub open spec fn mask_bit(m: usize, i: usize) -> bool {
    (m >> i) & 1usize == 1usize
}

proof fn lemma_mask_set(m: usize, i: usize, j: usize)
    requires
        i < usize::BITS,
        j < usize::BITS,
    ensures
        mask_bit(m | (1usize << i), j) == (i == j || mask_bit(m, j)),
{
    assert(((m | (1usize << i)) >> j) & 1usize == 1usize <==> (i == j || (m >> j) & 1usize
        == 1usize)) by (bit_vector)
        requires
            i < usize::BITS,
            j < usize::BITS,
    ;
}

proof fn lemma_mask_zero(j: usize)
    requires
        j < usize::BITS,
    ensures
        !mask_bit(0, j),
{
    assert((0usize >> j) & 1usize == 0usize) by (bit_vector);
}

proof fn lemma_mask_nonzero(m: usize, j: usize)
    requires
        j < usize::BITS,
        mask_bit(m, j),
    ensures
        m != 0,
{
    assert((m >> j) & 1usize == 1usize ==> m != 0) by (bit_vector);
}

/// Two distinct times less than a period apart have different residues
proof fn lemma_residues_differ(a: int, b: int, p: int)
    requires
        p > 0,
        a < b < a + p,
    ensures
        a % p != b % p,
{
    lemma_fundamental_div_mod(a, p);
    lemma_fundamental_div_mod(b, p);
    lemma_mod_bound(a, p);
    lemma_mod_bound(b, p);
    if a % p == b % p {
        assert(b - a == p * (b / p) - p * (a / p));
        lemma_mul_is_distributive_sub(p, b / p, a / p);
        assert(b - a == p * (b / p - a / p));
        if b / p - a / p >= 1 {
            lemma_mul_inequality(1, b / p - a / p, p);
        } else {
            lemma_mul_inequality(b / p - a / p, 0, p);
        }
    }
}

// Clocks
/// A clock, with posedges repeating every `period` from its first posedge
/// at `delay`, and a negedge `negedge_offset` after each posedge (none
/// if the offset is 0)
#[derive(Clone, Copy)]
pub struct Clock {
    name: SimNsName,
    delay: usize,
    period: usize,
    negedge_offset: usize,
}

impl Clock {
    pub closed spec fn spec_name(self) -> SimNsName {
        self.name
    }

    pub closed spec fn spec_delay(self) -> nat {
        self.delay as nat
    }

    pub closed spec fn spec_period(self) -> nat {
        self.period as nat
    }

    pub closed spec fn spec_negedge_offset(self) -> nat {
        self.negedge_offset as nat
    }

    /// A clock has a period of at least one, and a negedge within that
    /// period
    pub open spec fn wf(self) -> bool {
        &&& self.spec_period() > 0
        &&& self.spec_negedge_offset() < self.spec_period()
    }

    /// Create a new clock
    pub fn new(name: SimNsName, delay: usize, period: usize, negedge_offset: usize) -> (r: Clock)
        requires
            period > 0,
            negedge_offset < period,
        ensures
            r.spec_name() == name,
            r.spec_delay() == delay,
            r.spec_period() == period,
            r.spec_negedge_offset() == negedge_offset,
            r.wf(),
    {
        Clock { name, delay, period, negedge_offset }
    }

    pub fn name(&self) -> (r: SimNsName)
        ensures
            r == self.spec_name(),
    {
        self.name
    }

    pub fn period(&self) -> (r: usize)
        ensures
            r == self.spec_period(),
    {
        self.period
    }

    pub fn delay(&self) -> (r: usize)
        ensures
            r == self.spec_delay(),
    {
        self.delay
    }

    pub fn negedge_offset(&self) -> (r: usize)
        ensures
            r == self.spec_negedge_offset(),
    {
        self.negedge_offset
    }
}

/// A time at which the clock wave has a rising edge (whether or not the
/// clock has started): times congruent to the delay modulo the period
pub open spec fn potential_posedge(c: Clock, t: int) -> bool {
    t >= 0 && t % (c.spec_period() as int) == (c.spec_delay() % c.spec_period()) as int
}

/// A time at which the clock wave has a falling edge (whether or not the
/// clock has started): the negedge offset after a rising edge
pub open spec fn potential_negedge(c: Clock, t: int) -> bool {
    &&& c.spec_negedge_offset() > 0
    &&& t >= c.spec_negedge_offset()
    &&& potential_posedge(c, t - c.spec_negedge_offset())
}

/// The clock has a posedge at time `t`: posedges start at `delay` and
/// repeat every `period`
pub open spec fn posedge_at(c: Clock, t: int) -> bool {
    t >= c.spec_delay() && potential_posedge(c, t)
}

/// The clock has a negedge at time `t`: `negedge_offset` after each
/// posedge, if that offset is not 0
pub open spec fn negedge_at(c: Clock, t: int) -> bool {
    t >= c.spec_delay() && potential_negedge(c, t)
}

/// The clock has an edge of either kind at time `t`
pub open spec fn edge_at(c: Clock, t: int) -> bool {
    posedge_at(c, t) || negedge_at(c, t)
}

/// A clock never has a posedge and a negedge at the same time
pub proof fn lemma_edges_disjoint(c: Clock, t: int)
    requires
        c.wf(),
    ensures
        !(potential_posedge(c, t) && potential_negedge(c, t)),
{
    if potential_posedge(c, t) && potential_negedge(c, t) {
        lemma_residues_differ(
            t - c.spec_negedge_offset(),
            t,
            c.spec_period() as int,
        );
    }
}

/// Once started, a clock's edges repeat every period: an edge at `t` is
/// followed by one of the same kind at `t + period`
pub proof fn law_clock_periodic(c: Clock, t: int)
    requires
        c.wf(),
    ensures
        posedge_at(c, t) ==> posedge_at(c, t + c.spec_period()),
        negedge_at(c, t) ==> negedge_at(c, t + c.spec_period()),
{
    let p = c.spec_period() as int;
    lemma_mod_add_multiples_vanish(t, p);
    lemma_mod_add_multiples_vanish(t - c.spec_negedge_offset(), p);
    assert(p + t == t + p);
    assert(p + (t - c.spec_negedge_offset()) == (t + p) - c.spec_negedge_offset());
}

// Positions of clocks
/// The position of one clock within a schedule: the time of its next
/// (possibly not yet enabled) edge, and whether that is a posedge
#[derive(Clone, Copy)]
pub struct ClockPosn {
    next_edge: usize,
    next_is_posedge: bool,
}

/// `pos` tracks clock `c` from time `from`: its next edge is the first
/// edge of the clock wave at or after `from`
pub open spec fn tracks(pos: ClockPosn, c: Clock, from: int) -> bool {
    &&& pos.spec_next_edge() >= from
    &&& if pos.spec_next_is_posedge() {
        potential_posedge(c, pos.spec_next_edge() as int)
    } else {
        potential_negedge(c, pos.spec_next_edge() as int)
    }
    &&& forall|t: int|
        from <= t < pos.spec_next_edge() ==> !#[trigger] potential_posedge(c, t)
            && !potential_negedge(c, t)
}

proof fn lemma_tracks_later(pos: ClockPosn, c: Clock, from: int, later: int)
    requires
        tracks(pos, c, from),
        from <= later <= pos.spec_next_edge(),
    ensures
        tracks(pos, c, later),
{
}

impl ClockPosn {
    pub closed spec fn spec_next_edge(self) -> nat {
        self.next_edge as nat
    }

    pub closed spec fn spec_next_is_posedge(self) -> bool {
        self.next_is_posedge
    }

    /// The position of a clock at the start of time
    pub fn new(clock: &Clock) -> (r: ClockPosn)
        requires
            clock.wf(),
        ensures
            tracks(r, *clock, 0),
            r.spec_next_is_posedge(),
    {
        let next_edge = clock.delay % clock.period;
        proof {
            let p = clock.period as int;
            let d = clock.delay as int;
            lemma_mod_bound(d, p);
            lemma_small_mod(next_edge as nat, p as nat);
            assert forall|t: int| 0 <= t < next_edge implies !#[trigger] potential_posedge(
                *clock,
                t,
            ) && !potential_negedge(*clock, t) by {
                lemma_small_mod(t as nat, p as nat);
                if t >= clock.negedge_offset {
                    lemma_small_mod((t - clock.negedge_offset) as nat, p as nat);
                }
            }
        }
        ClockPosn { next_edge, next_is_posedge: true }
    }

    /// At time `time`, which must not be beyond the next edge of the
    /// clock, report whether the clock has a posedge or a negedge, and
    /// the time of its next edge
    pub fn next_time_and_edges(&mut self, clock: &Clock, time: usize) -> (r: (usize, bool, bool))
        requires
            clock.wf(),
            time <= old(self).spec_next_edge(),
            old(self).spec_next_edge() + clock.spec_period() <= usize::MAX,
        ensures
            r.0 == final(self).spec_next_edge(),
            time < old(self).spec_next_edge() ==> *final(self) == *old(self) && !r.1 && !r.2,
            time == old(self).spec_next_edge() ==> {
                &&& time < final(self).spec_next_edge() <= time + clock.spec_period()
                &&& (tracks(*old(self), *clock, time as int) ==> {
                    &&& tracks(*final(self), *clock, time + 1)
                    &&& r.1 == posedge_at(*clock, time as int)
                    &&& r.2 == negedge_at(*clock, time as int)
                })
            },
    {
        let enable_edge = time >= clock.delay;
        let ghost old_pos = *self;
        let ghost c = *clock;
        let ghost p = clock.period as int;
        let ghost off = clock.negedge_offset as int;
        if time < self.next_edge {
            (self.next_edge, false, false)
        } else if !self.next_is_posedge {
            self.next_edge = self.next_edge + (clock.period - clock.negedge_offset);
            self.next_is_posedge = true;
            proof {
                if tracks(old_pos, c, time as int) {
                    lemma_edges_disjoint(c, time as int);
                    let q = time - off;
                    lemma_mod_add_multiples_vanish(q, p);
                    assert((q + p) % p == q % p);
                    assert forall|u: int| time + 1 <= u < self.next_edge implies !#[trigger] potential_posedge(
                        c,
                        u,
                    ) && !potential_negedge(c, u) by {
                        lemma_residues_differ(q, u, p);
                        if u >= off {
                            lemma_residues_differ(q, u - off, p);
                        }
                    }
                }
            }
            (self.next_edge, false, enable_edge)
        } else if clock.negedge_offset > 0 {
            self.next_edge = self.next_edge + clock.negedge_offset;
            self.next_is_posedge = false;
            proof {
                if tracks(old_pos, c, time as int) {
                    lemma_edges_disjoint(c, time as int);
                    assert forall|u: int| time + 1 <= u < self.next_edge implies !#[trigger] potential_posedge(
                        c,
                        u,
                    ) && !potential_negedge(c, u) by {
                        lemma_residues_differ(time as int, u, p);
                        if u >= off {
                            lemma_residues_differ(u - off, time as int, p);
                        }
                    }
                }
            }
            (self.next_edge, enable_edge, false)
        } else {
            self.next_edge = self.next_edge + clock.period;
            proof {
                if tracks(old_pos, c, time as int) {
                    lemma_mod_add_multiples_vanish(time as int, p);
                    assert forall|u: int| time + 1 <= u < self.next_edge implies !#[trigger] potential_posedge(
                        c,
                        u,
                    ) && !potential_negedge(c, u) by {
                        lemma_residues_differ(time as int, u, p);
                    }
                }
            }
            (self.next_edge, enable_edge, false)
        }
    }
}

// Schedules
/// The running state of a set of clocks: the current time, the time of
/// the next edge, and the position of each clock
pub struct Schedule {
    time: usize,
    next_time: usize,
    clock_pos: Vec<ClockPosn>,
}

/// No clock has an edge at time `t`
pub open spec fn no_edges_at(clocks: Seq<Clock>, t: int) -> bool {
    forall|i: int| 0 <= i < clocks.len() ==> !#[trigger] edge_at(clocks[i], t)
}

impl Schedule {
    pub closed spec fn spec_time(self) -> nat {
        self.time as nat
    }

    pub closed spec fn spec_next_time(self) -> nat {
        self.next_time as nat
    }

    pub closed spec fn spec_positions(self) -> Seq<ClockPosn> {
        self.clock_pos@
    }

    /// The schedule is the running state of `clocks`: every clock is
    /// tracked from the time of the next edge
    pub open spec fn wf(self, clocks: Seq<Clock>) -> bool {
        &&& self.spec_positions().len() == clocks.len()
        &&& self.spec_time() <= self.spec_next_time()
        &&& forall|i: int|
            0 <= i < clocks.len() ==> #[trigger] clocks[i].wf() && tracks(
                self.spec_positions()[i],
                clocks[i],
                self.spec_next_time() as int,
            )
    }

    /// There is room in the range of `usize` to move every clock on by
    /// twice the longest period
    pub open spec fn has_headroom(self, clocks: Seq<Clock>) -> bool {
        forall|i: int, j: int|
            0 <= i < clocks.len() && 0 <= j < clocks.len() ==> {
                &&& #[trigger] self.spec_positions()[i].spec_next_edge() + 2
                    * #[trigger] clocks[j].spec_period() < usize::MAX
                &&& clocks[i].spec_delay() + 2 * clocks[j].spec_period() < usize::MAX
            }
    }

    /// `s1` is `s0` moved on to the next time at which a clock has an
    /// edge: no edge from the time `s0` was to move on from up to that
    /// time, nor after it until the time `s1` will move on from
    pub open spec fn moved_on(s0: Schedule, s1: Schedule, clocks: Seq<Clock>) -> bool {
        &&& s0.spec_next_time() <= s1.spec_time()
        &&& forall|t: int|
            s0.spec_next_time() <= t < s1.spec_time() ==> #[trigger] no_edges_at(clocks, t)
        &&& forall|t: int|
            s1.spec_time() < t < s1.spec_next_time() ==> #[trigger] no_edges_at(clocks, t)
        &&& clocks.len() > 0 ==> !no_edges_at(clocks, s1.spec_time() as int) && s1.spec_time()
            < s1.spec_next_time()
    }

    /// Create a new schedule for the given set of [Clock]s
    pub fn new(clocks: &[Clock]) -> (r: Schedule)
        requires
            forall|i: int| 0 <= i < clocks@.len() ==> #[trigger] clocks@[i].wf(),
        ensures
            r.wf(clocks@),
            r.spec_time() == 0,
            r.spec_next_time() == 0,
    {
        let mut clock_pos: Vec<ClockPosn> = Vec::new();
        let mut i: usize = 0;
        while i < clocks.len()
            invariant
                i <= clocks@.len(),
                clock_pos@.len() == i,
                forall|k: int| 0 <= k < clocks@.len() ==> #[trigger] clocks@[k].wf(),
                forall|k: int| 0 <= k < i ==> tracks(#[trigger] clock_pos@[k], clocks@[k], 0),
            decreases clocks@.len() - i,
        {
            clock_pos.push(ClockPosn::new(&clocks[i]));
            i = i + 1;
        }
        Schedule { time: 0, next_time: 0, clock_pos }
    }

    /// The current time of the schedule
    pub fn time(&self) -> (r: usize)
        ensures
            r == self.spec_time(),
    {
        self.time
    }

    /// Return true if the schedule can move on to its next edges without
    /// running out of the range of `usize`
    pub fn has_room(&self, clocks: &[Clock]) -> (r: bool)
        requires
            self.spec_positions().len() == clocks@.len(),
        ensures
            r == self.has_headroom(clocks@),
    {
        let n = clocks.len();
        let mut max_start: usize = 0;
        let mut max_period: usize = 0;
        let ghost mut ks: int = 0;
        let ghost mut kp: int = 0;
        let mut i: usize = 0;
        while i < n
            invariant
                n == clocks@.len(),
                self.spec_positions().len() == n,
                i <= n,
                forall|k: int|
                    0 <= k < i ==> #[trigger] self.spec_positions()[k].spec_next_edge() <= max_start,
                forall|k: int| 0 <= k < i ==> #[trigger] clocks@[k].spec_delay() <= max_start,
                forall|k: int| 0 <= k < i ==> #[trigger] clocks@[k].spec_period() <= max_period,
                i == 0 ==> max_start == 0 && max_period == 0,
                i > 0 ==> 0 <= ks < i && 0 <= kp < i,
                i > 0 ==> (max_start == self.spec_positions()[ks].spec_next_edge() || max_start
                    == clocks@[ks].spec_delay()),
                i > 0 ==> max_period == clocks@[kp].spec_period(),
            decreases n - i,
        {
            let ne = self.clock_pos[i].next_edge;
            let d = clocks[i].delay;
            let p = clocks[i].period;
            if i == 0 {
                proof {
                    ks = 0;
                    kp = 0;
                }
            }
            if ne > max_start {
                max_start = ne;
                proof {
                    ks = i as int;
                }
            }
            if d > max_start {
                max_start = d;
                proof {
                    ks = i as int;
                }
            }
            if p > max_period {
                max_period = p;
                proof {
                    kp = i as int;
                }
            }
            i = i + 1;
        }
        if n == 0 {
            return true;
        }
        let room = usize::MAX - max_start;
        let ok = max_period < room && room - max_period > max_period;
        proof {
            let pos = self.spec_positions();
            if ok {
                assert forall|i: int, j: int|
                    0 <= i < n && 0 <= j < n implies {
                    &&& #[trigger] pos[i].spec_next_edge() + 2 * #[trigger] clocks@[j].spec_period()
                        < usize::MAX
                    &&& clocks@[i].spec_delay() + 2 * clocks@[j].spec_period() < usize::MAX
                } by {
                    assert(pos[i].spec_next_edge() <= max_start);
                    assert(clocks@[i].spec_delay() <= max_start);
                    assert(clocks@[j].spec_period() <= max_period);
                }
            } else {
                assert(!(pos[ks].spec_next_edge() + 2 * clocks@[kp].spec_period() < usize::MAX
                    && clocks@[ks].spec_delay() + 2 * clocks@[kp].spec_period() < usize::MAX));
            }
        }
        ok
    }

    /// Move time on to the next time at which some clock has an edge,
    /// and return the masks of the clocks with a posedge and with a
    /// negedge at that time (bit `i` for clock `i`)
    ///
    /// Two empty masks are returned only if there are no clocks
    pub fn next_edges(&mut self, clocks: &[Clock]) -> (r: (usize, usize))
        requires
            old(self).wf(clocks@),
            old(self).has_headroom(clocks@),
            clocks@.len() <= usize::BITS,
        ensures
            final(self).wf(clocks@),
            old(self).spec_next_time() <= final(self).spec_time(),
            forall|t: int|
                old(self).spec_next_time() <= t < final(self).spec_time() ==> #[trigger] no_edges_at(
                    clocks@,
                    t,
                ),
            forall|i: usize|
                i < clocks@.len() ==> (mask_bit(r.0, i) == posedge_at(
                    clocks@[i as int],
                    final(self).spec_time() as int,
                ) && mask_bit(r.1, i) == negedge_at(
                    clocks@[i as int],
                    final(self).spec_time() as int,
                )),
            forall|i: usize|
                clocks@.len() <= i < usize::BITS ==> !mask_bit(r.0, i) && !mask_bit(r.1, i),
            clocks@.len() > 0 ==> !no_edges_at(clocks@, final(self).spec_time() as int)
                && final(self).spec_time() < final(self).spec_next_time(),
            clocks@.len() == 0 ==> r.0 == 0 && r.1 == 0 && final(self).spec_time()
                == old(self).spec_next_time(),
            Schedule::moved_on(*old(self), *final(self), clocks@),
    {
        let n = clocks.len();
        let mut negedge_mask: usize = 0;
        let mut posedge_mask: usize = 0;
        let ghost start_time = self.next_time as int;
        let ghost cs = clocks@;
        proof {
            assert forall|k: usize| k < usize::BITS implies !mask_bit(0, k) by {
                lemma_mask_zero(k);
            }
            assert forall|a: int, b: int| 0 <= a < n && 0 <= b < n implies #[trigger] self.clock_pos@[a].next_edge
                + 2 * #[trigger] cs[b].period < usize::MAX && cs[a].delay + 2 * cs[b].period < usize::MAX by {
                assert(self.spec_positions()[a].spec_next_edge() + 2 * cs[b].spec_period() < usize::MAX);
            }
            assert forall|a: int, b: int| 0 <= a < n && 0 <= b < n implies #[trigger] cs[a].delay
                + 2 * #[trigger] cs[b].period < usize::MAX by {
                assert(self.spec_positions()[a].spec_next_edge() + 2 * cs[b].spec_period() < usize::MAX);
            }
        }
        loop
            invariant_except_break
                forall|a: int, b: int|
                    0 <= a < n && 0 <= b < n ==> #[trigger] self.clock_pos@[a].next_edge
                        + #[trigger] cs[b].period < usize::MAX,
                forall|t: int| start_time <= t < self.next_time ==> #[trigger] no_edges_at(cs, t),
                posedge_mask == 0 && negedge_mask == 0,
                forall|k: usize| k < usize::BITS ==> !mask_bit(0, k),
                n == 0 ==> self.next_time == start_time,
            invariant
                cs == clocks@,
                n == cs.len(),
                n <= usize::BITS,
                forall|a: int, b: int|
                    0 <= a < n && 0 <= b < n ==> #[trigger] cs[a].delay + 2 * #[trigger] cs[b].period
                        < usize::MAX,
                self.wf(cs),
                start_time <= self.next_time,
            ensures
                self.wf(cs),
                start_time <= self.time,
                forall|t: int| start_time <= t < self.time ==> #[trigger] no_edges_at(cs, t),
                forall|i: usize|
                    i < n ==> (mask_bit(posedge_mask, i) == posedge_at(cs[i as int], self.time as int)
                        && mask_bit(negedge_mask, i) == negedge_at(cs[i as int], self.time as int)),
                forall|i: usize|
                    n <= i < usize::BITS ==> !mask_bit(posedge_mask, i) && !mask_bit(
                        negedge_mask,
                        i,
                    ),
                n > 0 ==> !no_edges_at(cs, self.time as int) && self.time < self.next_time,
                n == 0 ==> posedge_mask == 0 && negedge_mask == 0 && self.time == start_time,
                forall|u: int| self.time < u < self.next_time ==> #[trigger] no_edges_at(cs, u),
            decreases usize::MAX - self.next_time,
        {
            self.time = self.next_time;
            let t = self.time;
            let mut earliest = usize::MAX;
            let ghost start_pos = self.clock_pos@;
            let ghost mut ke: int = 0;
            let ghost mut kw: int = 0;
            let mut i: usize = 0;
            while i < n
                invariant
                    cs == clocks@,
                    n == cs.len(),
                    n <= usize::BITS,
                    i <= n,
                    self.time == t,
                    self.next_time == t,
                    self.clock_pos@.len() == n,
                    start_pos.len() == n,
                    forall|a: int, b: int|
                        0 <= a < n && 0 <= b < n ==> #[trigger] start_pos[a].next_edge
                            + #[trigger] cs[b].period < usize::MAX,
                    forall|a: int|
                        0 <= a < n ==> #[trigger] cs[a].wf() && tracks(start_pos[a], cs[a], t as int),
                    forall|k: int| i <= k < n ==> #[trigger] self.clock_pos@[k] == start_pos[k],
                    forall|k: int|
                        0 <= k < i ==> tracks(#[trigger] self.clock_pos@[k], cs[k], t + 1),
                    forall|k: int|
                        0 <= k < i ==> earliest <= #[trigger] self.clock_pos@[k].next_edge,
                    i == 0 ==> earliest == usize::MAX,
                    i > 0 ==> 0 <= ke < i && earliest == self.clock_pos@[ke].next_edge,
                    forall|k: int|
                        0 <= k < i ==> if start_pos[k].next_edge == t {
                            #[trigger] self.clock_pos@[k].next_edge <= t + cs[k].period
                        } else {
                            self.clock_pos@[k] == start_pos[k]
                        },
                    forall|k: usize|
                        k < i ==> (mask_bit(posedge_mask, k) == posedge_at(cs[k as int], t as int)
                            && mask_bit(negedge_mask, k) == negedge_at(cs[k as int], t as int)),
                    forall|k: usize|
                        i <= k < usize::BITS ==> !mask_bit(posedge_mask, k) && !mask_bit(
                            negedge_mask,
                            k,
                        ),
                    posedge_mask != 0 || negedge_mask != 0 ==> 0 <= kw < i && edge_at(cs[kw], t as int),
                    forall|k: int|
                        0 <= k < i && #[trigger] edge_at(cs[k], t as int) ==> posedge_mask != 0
                            || negedge_mask != 0,
                decreases n - i,
            {
                let mut pos = self.clock_pos[i];
                proof {
                    assert(cs[i as int].wf() && tracks(start_pos[i as int], cs[i as int], t as int));
                    assert(start_pos[i as int].next_edge + cs[i as int].period < usize::MAX);
                }
                let (time, posedge, negedge) = pos.next_time_and_edges(&clocks[i], t);
                proof {
                    let c = cs[i as int];
                    if start_pos[i as int].next_edge > t {
                        lemma_tracks_later(start_pos[i as int], c, t as int, t + 1);
                        assert(!potential_posedge(c, t as int));
                    }
                }
                self.clock_pos.set(i, pos);
                if time < earliest {
                    earliest = time;
                    proof {
                        ke = i as int;
                    }
                }
                let ghost pm0 = posedge_mask;
                let ghost nm0 = negedge_mask;
                if posedge {
                    posedge_mask = posedge_mask | (1usize << i);
                    proof {
                        kw = i as int;
                        lemma_mask_set(pm0, i, i);
                        lemma_mask_nonzero(posedge_mask, i);
                    }
                }
                if negedge {
                    negedge_mask = negedge_mask | (1usize << i);
                    proof {
                        kw = i as int;
                        lemma_mask_set(nm0, i, i);
                        lemma_mask_nonzero(negedge_mask, i);
                    }
                }
                proof {
                    assert forall|k: usize| k < usize::BITS implies mask_bit(posedge_mask, k) == (
                    (k == i && posedge) || mask_bit(pm0, k)) && mask_bit(negedge_mask, k) == ((k
                        == i && negedge) || mask_bit(nm0, k)) by {
                        if posedge {
                            lemma_mask_set(pm0, i, k);
                        }
                        if negedge {
                            lemma_mask_set(nm0, i, k);
                        }
                    }
                }
                i = i + 1;
            }
            self.next_time = earliest;
            proof {
                if n > 0 {
                    let k = ke;
                    assert(earliest == self.clock_pos@[k].next_edge);
                    assert(start_pos[k].next_edge + cs[k].period < usize::MAX);
                    assert(earliest < usize::MAX);
                    assert(t < earliest);
                }
                assert forall|k: int| 0 <= k < n implies #[trigger] cs[k].wf() && tracks(
                    self.clock_pos@[k],
                    cs[k],
                    earliest as int,
                ) by {
                    if n > 0 {
                        lemma_tracks_later(self.clock_pos@[k], cs[k], t + 1, earliest as int);
                    }
                }
            }
            proof {
                assert forall|u: int| t < u < earliest implies #[trigger] no_edges_at(cs, u) by {
                    assert forall|k: int| 0 <= k < n implies !#[trigger] edge_at(cs[k], u) by {
                        assert(tracks(self.clock_pos@[k], cs[k], t + 1));
                        assert(!potential_posedge(cs[k], u));
                    }
                }
            }
            if earliest == usize::MAX {
                break;
            }
            if negedge_mask != 0 || posedge_mask != 0 {
                break;
            }
            proof {
                assert(no_edges_at(cs, t as int));
                assert forall|u: int| start_time <= u < earliest implies #[trigger] no_edges_at(
                    cs,
                    u,
                ) by {
                    if u > t {
                        assert(no_edges_at(cs, u));
                    }
                }
                assert forall|a: int, b: int|
                    0 <= a < n && 0 <= b < n implies #[trigger] self.clock_pos@[a].next_edge
                    + #[trigger] cs[b].period < usize::MAX by {
                    if start_pos[a].next_edge == t {
                        assert(!edge_at(cs[a], t as int));
                        assert(cs[a].wf());
                        assert(tracks(start_pos[a], cs[a], t as int));
                        assert(t < cs[a].delay);
                        assert(cs[a].delay + 2 * cs[a].period < usize::MAX);
                        assert(cs[a].delay + 2 * cs[b].period < usize::MAX);
                    }
                }
            }
        }
        (posedge_mask, negedge_mask)
    }
}

/// Successive moves of a schedule visit the times at which clocks have
/// edges in increasing order and pass over none: after two moves the
/// second time is later than the first, a clock has an edge at it, and no
/// clock has an edge strictly between the two
pub proof fn law_successive_moves(clocks: Seq<Clock>, s0: Schedule, s1: Schedule, s2: Schedule)
    requires
        clocks.len() > 0,
        Schedule::moved_on(s0, s1, clocks),
        Schedule::moved_on(s1, s2, clocks),
    ensures
        s1.spec_time() < s2.spec_time(),
        !no_edges_at(clocks, s2.spec_time() as int),
        forall|t: int| s1.spec_time() < t < s2.spec_time() ==> #[trigger] no_edges_at(clocks, t),
{
}

} // verus!
