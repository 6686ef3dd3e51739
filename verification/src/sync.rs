//! The decisions of the barrier between the main simulation thread and
//! its worker threads
//!
//! The main thread moves time on to the next clock edges; each worker
//! that is waiting for those edges (as its poll says) is released to
//! run, and the main thread then waits until every released worker is
//! waiting again (or has completed). The state that the threads share
//! is held here as plain state machines; the locks and condition
//! variables that guard them, and the threads, are not part of this
//! library.
use vstd::prelude::*;

use crate::edge_mask::SimEdgeMask;
use crate::u8_ops::{bytes_bit, bytes_with_bit, lemma_bytes_with_bit};

verus! {

/// A set of `8 * NBYTES` bits
#[derive(Clone, Copy)]
pub struct BitSet<const NBYTES: usize> {
    data: [u8; NBYTES],
}

impl<const NBYTES: usize> BitSet<NBYTES> {
    /// The bits, bit `n` in byte `n / 8`
    pub closed spec fn view(&self) -> Seq<bool> {
        Seq::new(8 * NBYTES as nat, |n: int| bytes_bit(self.data@, n))
    }

    /// A set holds `8 * NBYTES` bits
    pub proof fn lemma_view_len(&self)
        ensures
            self@.len() == 8 * NBYTES,
    {
    }

    /// A set with no bit set
    pub fn new() -> (r: Self)
        ensures
            forall|n: int| 0 <= n < 8 * NBYTES ==> !#[trigger] r@[n],
            r@.len() == 8 * NBYTES,
    {
        let r = BitSet { data: [0u8; NBYTES] };
        proof {
            assert forall|n: int| 0 <= n < 8 * NBYTES implies !#[trigger] r@[n] by {
                assert(r.data@[n / 8] == 0);
                let j = (n % 8) as u8;
                assert((0u8 >> j) & 1 == 0) by (bit_vector);
            }
        }
        r
    }

    /// The bytes of the set
    pub fn as_u8s(&self) -> (r: &[u8])
        ensures
            r@.len() == NBYTES,
            forall|n: int| 0 <= n < 8 * NBYTES ==> bytes_bit(r@, n) == #[trigger] self@[n],
    {
        self.data.as_slice()
    }

    /// The bytes of the set, to change in place
    pub fn as_u8s_mut(&mut self) -> (r: &mut [u8])
        ensures
            r@.len() == NBYTES,
            forall|n: int| 0 <= n < 8 * NBYTES ==> bytes_bit(r@, n) == #[trigger] old(self)@[n],
            forall|n: int| 0 <= n < 8 * NBYTES ==> bytes_bit(final(r)@, n) == #[trigger] final(self)@[n],
    {
        &mut self.data
    }

    /// Set bit `n` to `v`
    pub fn set(&mut self, n: usize, v: bool)
        requires
            n < 8 * NBYTES,
        ensures
            final(self)@.len() == 8 * NBYTES,
            final(self)@ == old(self)@.update(n as int, v),
    {
        let nb = n / 8;
        let m: u8 = 1u8 << ((n % 8) as u8);
        let b = self.data[nb];
        let nv: u8 = if v {
            b | m
        } else {
            b & !m
        };
        proof {
            let s = self.data@;
            assert(nv == crate::u8_ops::byte_with_bit(b, (n % 8) as int, v));
            assert(s.update(nb as int, nv) == bytes_with_bit(s, n as int, v));
        }
        self.data[nb] = nv;
        proof {
            assert forall|k: int| 0 <= k < 8 * NBYTES implies #[trigger] self@[k] == old(self)@.update(
                n as int,
                v,
            )[k] by {
                lemma_bytes_with_bit(old(self).data@, n as int, v, k);
            }
            assert(self@ =~= old(self)@.update(n as int, v));
        }
    }

    /// Whether bit `n` is set
    pub fn is_set(&self, n: usize) -> (r: bool)
        requires
            n < 8 * NBYTES,
        ensures
            self@.len() == 8 * NBYTES,
            r == self@[n as int],
    {
        let b = self.data[n / 8];
        let j = (n % 8) as u8;
        let x = (b >> j) & 1;
        assert(x != 0 <==> x == 1) by (bit_vector)
            requires
                x == (b >> j) & 1,
        ;
        x != 0
    }
}

/// What a worker's poll says of a set of clock edges
#[derive(Debug, Clone, Copy, PartialEq, Eq, Structural)]
pub enum SimWaitResult {
    /// The worker is to run
    Ready,
    /// The worker keeps waiting
    Other,
}

/// A poll of a worker: whether it is to run on some clock edges
pub trait SimBlah: Send + 'static {
    /// Whether the worker is to run on `edges`; by default it always is
    fn poll(&mut self, edges: &SimEdgeMask) -> (r: SimWaitResult)
        default_ensures
            r == SimWaitResult::Ready,
    {
        SimWaitResult::Ready
    }
}

impl SimBlah for () {
}

/// What a worker is told when its wait at the barrier ends
#[derive(Debug, Clone, Copy, PartialEq, Eq, Structural)]
pub enum BarrierWaitResult {
    Started,
    /// Run for the current clock edges
    Stuff,
    /// Finish: the simulation is over
    Finish,
}

/// The state of one worker at the barrier
pub struct WorkerBarrierState {
    /// The worker is to finish on return from its next wait
    pub finish: bool,
    /// The worker is to run on return from its next wait
    pub run: bool,
    /// The worker has completed; it is never waited for again
    pub completed: bool,
    /// The worker has been added to the barrier
    pub added: bool,
}

impl WorkerBarrierState {
    /// A worker that is not yet added
    pub fn new() -> (r: WorkerBarrierState)
        ensures
            !r.finish && !r.run && !r.completed && !r.added,
    {
        WorkerBarrierState { finish: false, run: false, completed: false, added: false }
    }

    /// Whether the worker's poll is to be asked about the edges: only for
    /// a worker that was added and has not completed
    pub fn needs_poll(&self) -> (r: bool)
        ensures
            r == (self.added && !self.completed),
    {
        self.added && !self.completed
    }

    /// The outcome of polling the worker, given what its poll said
    /// (`ready`): whether it is ready to run, and whether it is out of
    /// the barrier (completed, or never added)
    pub fn poll_result(&self, ready: bool) -> (r: (bool, bool))
        ensures
            r == if self.completed || !self.added {
                (false, true)
            } else {
                (ready, false)
            },
    {
        if self.completed || !self.added {
            (false, true)
        } else {
            (ready, false)
        }
    }

    /// The worker starts to wait: it is no longer running
    pub fn begin_wait(&mut self)
        ensures
            !final(self).run,
            final(self).finish == old(self).finish,
            final(self).completed == old(self).completed,
            final(self).added == old(self).added,
    {
        self.run = false;
    }

    /// Whether a waiting worker must keep sleeping: it is told neither to
    /// run nor to finish
    pub fn must_sleep(&self) -> (r: bool)
        ensures
            r == (!self.run && !self.finish),
    {
        !self.run && !self.finish
    }

    /// What the worker is told when its wait ends
    pub fn wait_result(&self) -> (r: BarrierWaitResult)
        ensures
            r == if self.finish {
                BarrierWaitResult::Finish
            } else {
                BarrierWaitResult::Stuff
            },
    {
        if self.finish {
            BarrierWaitResult::Finish
        } else {
            BarrierWaitResult::Stuff
        }
    }

    /// The worker completes; returns whether it was running (and so
    /// was being waited for)
    pub fn complete(&mut self) -> (r: bool)
        ensures
            r == old(self).run,
            final(self).completed,
            final(self).run == old(self).run,
            final(self).finish == old(self).finish,
            final(self).added == old(self).added,
    {
        self.completed = true;
        self.run
    }

    /// Release the worker to run
    pub fn set_run(&mut self)
        ensures
            final(self).run,
            final(self).finish == old(self).finish,
            final(self).completed == old(self).completed,
            final(self).added == old(self).added,
    {
        self.run = true;
    }

    /// Tell the worker to finish
    pub fn set_finish(&mut self)
        ensures
            final(self).finish,
            final(self).run == old(self).run,
            final(self).completed == old(self).completed,
            final(self).added == old(self).added,
    {
        self.finish = true;
    }

    /// Add the worker to the barrier, running
    pub fn set_added(&mut self)
        ensures
            final(self).run,
            final(self).added,
            final(self).finish == old(self).finish,
            final(self).completed == old(self).completed,
    {
        self.run = true;
        self.added = true;
    }
}

/// The state of the barrier that the main thread waits on
pub struct TockBarrierState {
    /// The number of workers released to run
    num_running: usize,
    /// The number of released workers that are waiting again
    waiting: usize,
    /// Workers must finish
    finish: bool,
    /// The number of workers added
    added_workers: usize,
    /// The most workers that can be added
    max_workers: usize,
}

impl TockBarrierState {
    pub closed spec fn spec_num_running(&self) -> usize {
        self.num_running
    }

    pub closed spec fn spec_waiting(&self) -> usize {
        self.waiting
    }

    pub closed spec fn spec_finish(&self) -> bool {
        self.finish
    }

    pub closed spec fn spec_added_workers(&self) -> usize {
        self.added_workers
    }

    pub closed spec fn spec_max_workers(&self) -> usize {
        self.max_workers
    }

    /// A barrier for at most `max_workers` workers, none added yet
    pub fn new(max_workers: usize) -> (r: TockBarrierState)
        ensures
            r.spec_num_running() == 0,
            r.spec_waiting() == 0,
            !r.spec_finish(),
            r.spec_added_workers() == 0,
            r.spec_max_workers() == max_workers,
    {
        TockBarrierState { num_running: 0, waiting: 0, finish: false, added_workers: 0, max_workers }
    }

    /// `num_running` workers have been released, and none is waiting yet
    pub fn set_workers_running(&mut self, num_running: usize)
        ensures
            final(self).spec_num_running() == num_running,
            final(self).spec_waiting() == 0,
            final(self).spec_finish() == old(self).spec_finish(),
            final(self).spec_added_workers() == old(self).spec_added_workers(),
            final(self).spec_max_workers() == old(self).spec_max_workers(),
    {
        self.num_running = num_running;
        self.waiting = 0;
    }

    /// Workers are to finish
    pub fn set_finish(&mut self)
        ensures
            final(self).spec_finish(),
            final(self).spec_num_running() == old(self).spec_num_running(),
            final(self).spec_waiting() == old(self).spec_waiting(),
            final(self).spec_added_workers() == old(self).spec_added_workers(),
            final(self).spec_max_workers() == old(self).spec_max_workers(),
    {
        self.finish = true;
    }

    /// Whether workers are to finish
    pub fn finish(&self) -> (r: bool)
        ensures
            r == self.spec_finish(),
    {
        self.finish
    }

    /// The number of workers added
    pub fn added_workers(&self) -> (r: usize)
        ensures
            r == self.spec_added_workers(),
    {
        self.added_workers
    }

    /// The number of workers released to run
    pub fn num_running(&self) -> (r: usize)
        ensures
            r == self.spec_num_running(),
    {
        self.num_running
    }

    /// The number of released workers that are waiting again
    pub fn waiting(&self) -> (r: usize)
        ensures
            r == self.spec_waiting(),
    {
        self.waiting
    }

    /// Whether the main thread must keep waiting: some released worker is
    /// not waiting yet
    pub fn must_wait(&self) -> (r: bool)
        ensures
            r == (self.spec_num_running() > self.spec_waiting()),
    {
        self.num_running > self.waiting
    }

    /// A released worker is waiting again
    pub fn worker_waiting(&mut self)
        requires
            old(self).spec_waiting() < usize::MAX,
        ensures
            final(self).spec_waiting() == old(self).spec_waiting() + 1,
            final(self).spec_num_running() == old(self).spec_num_running(),
            final(self).spec_finish() == old(self).spec_finish(),
            final(self).spec_added_workers() == old(self).spec_added_workers(),
            final(self).spec_max_workers() == old(self).spec_max_workers(),
    {
        self.waiting = self.waiting + 1;
    }

    /// A worker has completed; if it was running, it counts as waiting
    pub fn worker_completed(&mut self, was_running: bool)
        requires
            was_running ==> old(self).spec_waiting() < usize::MAX,
        ensures
            final(self).spec_waiting() == old(self).spec_waiting() + if was_running {
                1int
            } else {
                0int
            },
            final(self).spec_num_running() == old(self).spec_num_running(),
            final(self).spec_finish() == old(self).spec_finish(),
            final(self).spec_added_workers() == old(self).spec_added_workers(),
            final(self).spec_max_workers() == old(self).spec_max_workers(),
    {
        if was_running {
            self.waiting = self.waiting + 1;
        }
    }

    /// Whether another worker can be added
    pub fn can_add_worker(&self) -> (r: bool)
        ensures
            r == (self.spec_added_workers() < self.spec_max_workers()),
    {
        self.added_workers < self.max_workers
    }

    /// Add a worker, which starts running; returns its number
    pub fn add_worker(&mut self) -> (r: usize)
        requires
            old(self).spec_added_workers() < old(self).spec_max_workers(),
            old(self).spec_num_running() < usize::MAX,
        ensures
            r == old(self).spec_added_workers(),
            final(self).spec_added_workers() == old(self).spec_added_workers() + 1,
            final(self).spec_num_running() == old(self).spec_num_running() + 1,
            final(self).spec_waiting() == old(self).spec_waiting(),
            final(self).spec_finish() == old(self).spec_finish(),
            final(self).spec_max_workers() == old(self).spec_max_workers(),
    {
        let n = self.added_workers;
        self.num_running = self.num_running + 1;
        self.added_workers = self.added_workers + 1;
        n
    }
}

/// Whether a worker with poll outcome `p` (ready, out of the barrier) is
/// released
pub open spec fn released(p: (bool, bool), finish: bool) -> bool {
    !p.1 && (finish || p.0)
}

/// The number of workers among `polls` that are released
pub open spec fn num_released(polls: Seq<(bool, bool)>, finish: bool) -> nat
    decreases polls.len(),
{
    if polls.len() == 0 {
        0
    } else {
        num_released(polls.drop_last(), finish) + if released(polls.last(), finish) {
            1nat
        } else {
            0nat
        }
    }
}

proof fn lemma_num_released_bound(polls: Seq<(bool, bool)>, finish: bool)
    ensures
        num_released(polls, finish) <= polls.len(),
    decreases polls.len(),
{
    if polls.len() > 0 {
        lemma_num_released_bound(polls.drop_last(), finish);
    }
}

/// Choose the workers to release, given the outcomes of their polls: a
/// worker that is in the barrier is released if it is ready or the
/// workers are to finish
///
/// Returns the set of released workers and their number
pub fn select_workers<const NBYTES: usize>(polls: &Vec<(bool, bool)>, finish: bool) -> (r: (
    BitSet<NBYTES>,
    usize,
))
    requires
        polls@.len() <= 8 * NBYTES,
    ensures
        r.1 == num_released(polls@, finish),
        forall|i: int| 0 <= i < polls@.len() ==> #[trigger] r.0@[i] == released(polls@[i], finish),
        forall|i: int| polls@.len() <= i < 8 * NBYTES ==> !#[trigger] r.0@[i],
{
    let mut bits = BitSet::<NBYTES>::new();
    let mut running: usize = 0;
    let mut i: usize = 0;
    while i < polls.len()
        invariant
            polls@.len() <= 8 * NBYTES,
            i <= polls@.len(),
            running == num_released(polls@.take(i as int), finish),
            bits@.len() == 8 * NBYTES,
            forall|k: int| 0 <= k < i ==> #[trigger] bits@[k] == released(polls@[k], finish),
            forall|k: int| i <= k < 8 * NBYTES ==> !#[trigger] bits@[k],
        decreases polls@.len() - i,
    {
        let (ready, completed) = polls[i];
        proof {
            assert(polls@.take(i + 1).drop_last() =~= polls@.take(i as int));
            lemma_num_released_bound(polls@.take(i as int), finish);
        }
        if !completed && (finish || ready) {
            bits.set(i, true);
            running = running + 1;
        }
        i = i + 1;
    }
    proof {
        assert(polls@.take(polls@.len() as int) =~= polls@);
    }
    (bits, running)
}

} // verus!
