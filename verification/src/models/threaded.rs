//! The decisions of a model that runs in a thread of its own: the
//! simulation asks it to resume, pause or stop, and the thread carries
//! out each request on the model; the thread, its lock and its timer are
//! not part of this library
use vstd::prelude::*;

verus! {

/// The state of the model's thread
#[derive(Debug, Clone, Copy, PartialEq, Eq, Structural)]
pub enum State {
    Idle,
    Running,
    Paused,
    Stopped,
}

impl State {
    /// Whether the thread has stopped
    pub fn is_stopped(&self) -> (r: bool)
        ensures
            r == (*self == State::Stopped),
    {
        match self {
            State::Stopped => true,
            _ => false,
        }
    }
}

/// The request waiting for the thread, if any
#[derive(Debug, Clone, Copy, PartialEq, Eq, Structural)]
pub enum Action {
    Idle,
    Resume,
    Pause,
    Stop,
}

impl Action {
    /// Whether no request is waiting
    pub fn is_idle(&self) -> (r: bool)
        ensures
            r == (*self == Action::Idle),
    {
        match self {
            Action::Idle => true,
            _ => false,
        }
    }
}

/// A call on the model that the thread makes
#[derive(Debug, Clone, Copy, PartialEq, Eq, Structural)]
pub enum ModelCall {
    Start,
    Pause,
    Resume,
    Stop,
}

/// The state and waiting request that the simulation and the thread
/// share
#[derive(Debug, Clone, Copy, PartialEq, Eq, Structural)]
pub struct ModelControl {
    pub state: State,
    pub action: Action,
}

/// The new state and the calls on the model that carry out `action` in
/// `state`; `None` for a request that the state does not admit
pub open spec fn state_change(state: State, action: Action) -> Option<(State, Seq<ModelCall>)> {
    match (state, action) {
        (State::Running, Action::Pause) => Some((State::Paused, seq![ModelCall::Pause])),
        (State::Running, Action::Stop) => Some(
            (State::Stopped, seq![ModelCall::Pause, ModelCall::Stop]),
        ),
        (State::Paused, Action::Resume) => Some((State::Running, seq![ModelCall::Resume])),
        (State::Paused, Action::Stop) => Some((State::Stopped, seq![ModelCall::Stop])),
        _ => None,
    }
}

/// Whether `state` admits the request `action`
pub fn admits(state: State, action: Action) -> (r: bool)
    ensures
        r == state_change(state, action) is Some,
{
    match (state, action) {
        (State::Running, Action::Pause) => true,
        (State::Running, Action::Stop) => true,
        (State::Paused, Action::Resume) => true,
        (State::Paused, Action::Stop) => true,
        _ => false,
    }
}

/// Carry out a request that the state admits: the new state and the
/// calls to make on the model, in order
pub fn handle_state_change(state: State, action: Action) -> (r: (State, Vec<ModelCall>))
    requires
        state_change(state, action) is Some,
    ensures
        state_change(state, action) == Some((r.0, r.1@)),
{
    let mut calls: Vec<ModelCall> = Vec::new();
    let next = match (state, action) {
        (State::Running, Action::Pause) => {
            calls.push(ModelCall::Pause);
            State::Paused
        },
        (State::Running, Action::Stop) => {
            calls.push(ModelCall::Pause);
            calls.push(ModelCall::Stop);
            State::Stopped
        },
        (State::Paused, Action::Resume) => {
            calls.push(ModelCall::Resume);
            State::Running
        },
        _ => {
            calls.push(ModelCall::Stop);
            State::Stopped
        },
    };
    proof {
        let (s, c) = state_change(state, action)->0;
        assert(calls@ =~= c);
    }
    (next, calls)
}

impl ModelControl {
    /// A model that has not started
    pub fn new() -> (r: Self)
        ensures
            r.state == State::Idle,
            r.action == Action::Idle,
    {
        ModelControl { state: State::Idle, action: Action::Idle }
    }

    /// Start the thread: it is paused with no request waiting; `None` if
    /// it had already started
    pub fn start(&self) -> (r: Option<ModelControl>)
        ensures
            self.state == State::Idle ==> r == Some(
                ModelControl { state: State::Paused, action: Action::Idle },
            ),
            self.state != State::Idle ==> r is None,
    {
        if self.state == State::Idle {
            Some(ModelControl { state: State::Paused, action: Action::Idle })
        } else {
            None
        }
    }

    /// Ask for `action`: a stopped thread ignores it; `None` while an
    /// earlier request is still waiting
    pub fn update_state(&self, action: Action) -> (r: Option<ModelControl>)
        ensures
            self.action != Action::Idle ==> r is None,
            self.action == Action::Idle && self.state == State::Stopped ==> r == Some(*self),
            self.action == Action::Idle && self.state != State::Stopped ==> r == Some(
                ModelControl { state: self.state, action },
            ),
    {
        if !self.action.is_idle() {
            return None;
        }
        if self.state.is_stopped() {
            return Some(*self);
        }
        Some(ModelControl { state: self.state, action })
    }

    /// The thread wakes (or its wait times out): a waiting request, which
    /// the state must admit, is carried out and cleared. The result is
    /// the new control, the calls to make on the model and whether a
    /// request was carried out
    pub fn wait_step(&self, timed_out: bool) -> (r: (ModelControl, Vec<ModelCall>, bool))
        requires
            !timed_out && self.action != Action::Idle ==> state_change(self.state, self.action) is Some,
        ensures
            timed_out || self.action == Action::Idle ==> r.0 == *self && r.1@.len() == 0 && !r.2,
            !timed_out && self.action != Action::Idle ==> r.2 && r.0.action == Action::Idle
                && state_change(self.state, self.action) == Some((r.0.state, r.1@)),
    {
        if timed_out || self.action.is_idle() {
            return (*self, Vec::new(), false);
        }
        let (state, calls) = handle_state_change(self.state, self.action);
        (ModelControl { state, action: Action::Idle }, calls, true)
    }
}

/// The request that a rising clock edge makes of the thread: to resume
/// when `start` is set, else to pause when `stop` is; none in reset
pub fn clock_action(reset_n: bool, start: bool, stop: bool) -> (r: Option<Action>)
    ensures
        r == if !reset_n {
            None
        } else if start {
            Some(Action::Resume)
        } else if stop {
            Some(Action::Pause)
        } else {
            None
        },
{
    if !reset_n {
        None
    } else if start {
        Some(Action::Resume)
    } else if stop {
        Some(Action::Pause)
    } else {
        None
    }
}

/// A stopped thread admits no request: whatever is asked of it, it
/// changes no more
pub proof fn law_stopped_is_final(action: Action)
    ensures
        state_change(State::Stopped, action) is None,
{
}

/// Pausing a running model and then resuming it brings it back to
/// running, the model being paused once and then resumed once; a stop,
/// from running or paused, ends stopped with the model stopped last,
/// and a running model is paused before it is stopped
pub proof fn law_pause_resume_stop(c1: Seq<ModelCall>, c2: Seq<ModelCall>)
    requires
        state_change(State::Running, Action::Pause) == Some((State::Paused, c1)),
        state_change(State::Paused, Action::Resume) matches Some((s2, calls)) && s2 == State::Running
            && calls == c2,
    ensures
        c1 + c2 == seq![ModelCall::Pause, ModelCall::Resume],
        state_change(State::Running, Action::Stop) matches Some((st, calls)) && st == State::Stopped
            && calls.last() == ModelCall::Stop && calls[0] == ModelCall::Pause,
        state_change(State::Paused, Action::Stop) matches Some((st, calls)) && st == State::Stopped
            && calls == seq![ModelCall::Stop],
        state_change(State::Idle, Action::Resume) is None,
        state_change(State::Running, Action::Resume) is None,
        state_change(State::Paused, Action::Pause) is None,
{
    assert(c1 + c2 =~= seq![ModelCall::Pause, ModelCall::Resume]);
}

} // verus!
