//! The consumer's decisions.
//!
//! The caller owns the channel: it waits for the next event, hands what it
//! received to `EventLoop::receive` (`None` once every sender is gone), and
//! performs the step it gets back. Whether the screenshot handler then
//! succeeds is not an input of this machine, so a failed dispatch can never
//! stop the loop.

use crate::event::Event;
use std::path::PathBuf;
use vstd::prelude::*;

verus! {

/// The two states of the loop. The only transition is `Running` to `Stopped`.
#[derive(Clone, Copy, Debug, PartialEq, Eq, Structural)]
pub enum LoopState {
    Running,
    Stopped,
}

/// What the caller is to do after one receive.
#[derive(Debug)]
pub enum Step {
    /// Hand this path to the screenshot handler, then wait for the next event.
    Dispatch(PathBuf),
    /// Leave the loop now, without draining what is still queued.
    Stop,
    /// Nothing: the loop had already stopped.
    Idle,
}

/// One transition: the state and step that follow a receive, where `None`
/// stands for a channel whose senders are all gone.
pub open spec fn step_spec(state: LoopState, received: Option<Event>) -> (LoopState, Step) {
    match state {
        LoopState::Stopped => (LoopState::Stopped, Step::Idle),
        LoopState::Running => match received {
            Some(Event::NewScreenshot(path)) => (LoopState::Running, Step::Dispatch(path)),
            _ => (LoopState::Stopped, Step::Stop),
        },
    }
}

/// The state reached and the paths dispatched, in order, when the loop in
/// `state` receives `inputs` one after the other.
pub open spec fn run(state: LoopState, inputs: Seq<Option<Event>>) -> (LoopState, Seq<PathBuf>)
    decreases inputs.len(),
{
    if inputs.len() == 0 {
        (state, Seq::empty())
    } else {
        let (next, step) = step_spec(state, inputs[0]);
        let (last, rest) = run(next, inputs.drop_first());
        match step {
            Step::Dispatch(path) => (last, seq![path] + rest),
            _ => (last, rest),
        }
    }
}

/// Whether an input ends the loop: an `Exit`, or the channel closing.
pub open spec fn is_terminal(received: Option<Event>) -> bool {
    !(received matches Some(Event::NewScreenshot(_)))
}

/// The paths of the screenshots received before the first terminal input.
pub open spec fn paths_before_stop(inputs: Seq<Option<Event>>) -> Seq<PathBuf>
    decreases inputs.len(),
{
    if inputs.len() == 0 {
        Seq::empty()
    } else {
        match inputs[0] {
            Some(Event::NewScreenshot(path)) => seq![path] + paths_before_stop(inputs.drop_first()),
            _ => Seq::empty(),
        }
    }
}

/// The consumer's state machine.
pub struct EventLoop {
    state: LoopState,
}

impl EventLoop {
    pub closed spec fn state(&self) -> LoopState {
        self.state
    }

    /// A loop that has not stopped yet.
    pub fn new() -> (r: EventLoop)
        ensures
            r.state() == LoopState::Running,
    {
        EventLoop { state: LoopState::Running }
    }

    /// Whether the loop still waits for events.
    pub fn is_running(&self) -> (r: bool)
        ensures
            r == (self.state() == LoopState::Running),
    {
        self.state == LoopState::Running
    }

    /// Takes what one wait on the channel gave and says what to do with it.
    pub fn receive(&mut self, received: Option<Event>) -> (step: Step)
        ensures
            (final(self).state(), step) == step_spec(old(self).state(), received),
    {
        match self.state {
            LoopState::Stopped => Step::Idle,
            LoopState::Running => match received {
                Some(Event::NewScreenshot(path)) => Step::Dispatch(path),
                _ => {
                    self.state = LoopState::Stopped;
                    Step::Stop
                },
            },
        }
    }
}

/// Once stopped, the loop stays stopped and dispatches nothing more, whatever
/// it is handed.
pub proof fn lemma_stopped_is_final(inputs: Seq<Option<Event>>)
    ensures
        run(LoopState::Stopped, inputs) == (LoopState::Stopped, Seq::<PathBuf>::empty()),
    decreases inputs.len(),
{
    if inputs.len() > 0 {
        lemma_stopped_is_final(inputs.drop_first());
    }
}

/// A running loop dispatches, in arrival order, exactly the screenshots that
/// arrive before the first `Exit` or the closing of the channel, and it stops
/// if and only if such a terminal input arrives. No outcome of a handler takes
/// part, so one failed screenshot never keeps a later one from dispatch.
pub proof fn lemma_run_from_running(inputs: Seq<Option<Event>>)
    ensures
        run(LoopState::Running, inputs).1 == paths_before_stop(inputs),
        run(LoopState::Running, inputs).0 == (if exists|i: int| 0 <= i < inputs.len() && is_terminal(inputs[i]) {
            LoopState::Stopped
        } else {
            LoopState::Running
        }),
    decreases inputs.len(),
{
    if inputs.len() > 0 {
        let rest = inputs.drop_first();
        if is_terminal(inputs[0]) {
            lemma_stopped_is_final(rest);
        } else {
            lemma_run_from_running(rest);
            if exists|i: int| 0 <= i < rest.len() && is_terminal(rest[i]) {
                let i = choose|i: int| 0 <= i < rest.len() && is_terminal(rest[i]);
                assert(is_terminal(inputs[i + 1]));
            }
            if exists|i: int| 0 <= i < inputs.len() && is_terminal(inputs[i]) {
                let i = choose|i: int| 0 <= i < inputs.len() && is_terminal(inputs[i]);
                assert(i > 0);
                assert(is_terminal(rest[i - 1]));
            }
        }
    }
}

} // verus!
