//! Class initialization: the state of a class and the decision each thread takes when it
//! first uses the class, so that `<clinit>` runs once however many threads race for it.
//! The caller runs `<clinit>`, waits, and reports back; the decisions are here.

use vstd::prelude::*;

verus! {

/// The initialization state of a class.
#[derive(Debug, Clone, Copy, PartialEq, Eq, Structural)]
pub enum InitState {
    Uninitialized,
    /// The thread with this identifier is running `<clinit>`.
    Initializing(u64),
    Initialized,
    /// `<clinit>` threw: every later use fails.
    Erroneous,
}

/// What a thread does next with the class.
#[derive(Debug, Clone, Copy, PartialEq, Eq, Structural)]
pub enum InitAction {
    /// Run `<clinit>`, then report how it ended.
    RunInitializer,
    /// Wait on the class's condition, then ask again.
    Wait,
    /// Go on: the class is initialized, or this thread is already initializing it.
    Proceed,
    /// Throw `NoClassDefFoundError`: initialization failed earlier.
    Fail,
}

/// An event of a class's initialization.
#[derive(Debug, Clone, Copy, PartialEq, Eq, Structural)]
pub enum InitEvent {
    /// The thread uses the class in a way that requires it initialized.
    Use(u64),
    /// The thread's `<clinit>` returned normally.
    Completed(u64),
    /// The thread's `<clinit>` threw.
    Failed(u64),
}

/// The state after `event` and the action it calls for.
pub open spec fn init_step(state: InitState, event: InitEvent) -> (InitState, Option<InitAction>) {
    match event {
        InitEvent::Use(t) => match state {
            InitState::Uninitialized => (InitState::Initializing(t), Some(InitAction::RunInitializer)),
            InitState::Initializing(owner) => if owner == t {
                (state, Some(InitAction::Proceed))
            } else {
                (state, Some(InitAction::Wait))
            },
            InitState::Initialized => (state, Some(InitAction::Proceed)),
            InitState::Erroneous => (state, Some(InitAction::Fail)),
        },
        InitEvent::Completed(t) => match state {
            InitState::Initializing(owner) => if owner == t {
                (InitState::Initialized, None)
            } else {
                (state, None)
            },
            _ => (state, None),
        },
        InitEvent::Failed(t) => match state {
            InitState::Initializing(owner) => if owner == t {
                (InitState::Erroneous, None)
            } else {
                (state, None)
            },
            _ => (state, None),
        },
    }
}

/// Takes `event`: updates the state and returns the action it calls for.
pub fn on_event(state: &mut InitState, event: InitEvent) -> (r: Option<InitAction>)
    ensures
        (*final(state), r) == init_step(*old(state), event),
{
    match event {
        InitEvent::Use(t) => match *state {
            InitState::Uninitialized => {
                *state = InitState::Initializing(t);
                Some(InitAction::RunInitializer)
            },
            InitState::Initializing(owner) => if owner == t {
                Some(InitAction::Proceed)
            } else {
                Some(InitAction::Wait)
            },
            InitState::Initialized => Some(InitAction::Proceed),
            InitState::Erroneous => Some(InitAction::Fail),
        },
        InitEvent::Completed(t) => {
            if let InitState::Initializing(owner) = *state {
                if owner == t {
                    *state = InitState::Initialized;
                }
            }
            None
        },
        InitEvent::Failed(t) => {
            if let InitState::Initializing(owner) = *state {
                if owner == t {
                    *state = InitState::Erroneous;
                }
            }
            None
        },
    }
}

/// The state after a sequence of events.
pub open spec fn state_after(start: InitState, events: Seq<InitEvent>) -> InitState
    decreases events.len(),
{
    if events.len() == 0 {
        start
    } else {
        init_step(state_after(start, events.drop_last()), events.last()).0
    }
}

/// How many times a sequence of events tells a thread to run `<clinit>`.
pub open spec fn initializer_runs(start: InitState, events: Seq<InitEvent>) -> nat
    decreases events.len(),
{
    if events.len() == 0 {
        0
    } else {
        let before = state_after(start, events.drop_last());
        initializer_runs(start, events.drop_last()) + if init_step(before, events.last()).1 == Some(
            InitAction::RunInitializer,
        ) {
            1nat
        } else {
            0nat
        }
    }
}

/// Exactly once: from an uninitialized class, whatever the threads and however their
/// uses, completions and failures interleave, `<clinit>` is started at most once, and
/// once a use has been made it has been started exactly once.
pub proof fn lemma_initialized_once(events: Seq<InitEvent>)
    ensures
        initializer_runs(InitState::Uninitialized, events) <= 1,
        state_after(InitState::Uninitialized, events) != InitState::Uninitialized
            ==> initializer_runs(InitState::Uninitialized, events) == 1,
        state_after(InitState::Uninitialized, events) == InitState::Uninitialized
            ==> initializer_runs(InitState::Uninitialized, events) == 0,
    decreases events.len(),
{
    if events.len() > 0 {
        lemma_initialized_once(events.drop_last());
    }
}

/// A thread told to proceed finds the class initialized, or is itself running `<clinit>`
/// (a recursive use from the initializer).
pub proof fn lemma_proceed_means_initialized(state: InitState, t: u64)
    requires
        init_step(state, InitEvent::Use(t)).1 == Some(InitAction::Proceed),
    ensures
        state == InitState::Initialized || state == InitState::Initializing(t),
{
}

} // verus!
