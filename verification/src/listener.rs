//! The decisions of the listener.
//!
//! The listener binds an address once and then accepts connections without
//! end. Each accepted connection gets a handler of its own, and the listener
//! goes straight back to accepting. A bind that fails is final, and so is an
//! accept that fails: neither is tried again. How a handler ends never touches
//! the listener.

use vstd::prelude::*;

verus! {

/// Why the listener stopped.
#[derive(Clone, Copy, Debug, PartialEq, Eq, Structural)]
pub enum ListenerError {
    /// The address could not be bound.
    Bind,
    /// Accepting a pending connection failed.
    Accept,
}

/// Where the listener stands.
#[derive(Clone, Copy, Debug, PartialEq, Eq, Structural)]
pub enum ListenerPhase {
    /// The address is being bound.
    Binding,
    /// Bound, taking connections.
    Accepting,
    /// Stopped for good.
    Stopped { error: ListenerError },
}

/// What the caller reports to the listener.
#[derive(Clone, Copy, Debug, PartialEq, Eq, Structural)]
pub enum ListenerEvent {
    /// The address was bound.
    Bound,
    /// The address could not be bound.
    BindFailed,
    /// A connection was accepted.
    Accepted,
    /// Accepting failed.
    AcceptFailed,
    /// A handler ended, cleanly or not.
    HandlerEnded { clean: bool },
}

/// What the caller is to do next.
#[derive(Clone, Copy, Debug, PartialEq, Eq, Structural)]
pub enum ListenerAction {
    /// Wait for the next connection.
    Accept,
    /// Start a handler of its own for the connection just accepted, do not
    /// wait for it, and wait for the next connection.
    SpawnAndAccept,
    /// Give up and return the error.
    Stop { error: ListenerError },
    /// Do nothing.
    Nothing,
}

/// The phase that follows `p` on event `ev`, and what the caller is to do.
pub open spec fn listener_step(p: ListenerPhase, ev: ListenerEvent) -> (
    ListenerPhase,
    ListenerAction,
) {
    match (p, ev) {
        (ListenerPhase::Binding, ListenerEvent::Bound) => (
            ListenerPhase::Accepting,
            ListenerAction::Accept,
        ),
        (ListenerPhase::Binding, ListenerEvent::BindFailed) => (
            ListenerPhase::Stopped { error: ListenerError::Bind },
            ListenerAction::Stop { error: ListenerError::Bind },
        ),
        (ListenerPhase::Accepting, ListenerEvent::Accepted) => (
            ListenerPhase::Accepting,
            ListenerAction::SpawnAndAccept,
        ),
        (ListenerPhase::Accepting, ListenerEvent::AcceptFailed) => (
            ListenerPhase::Stopped { error: ListenerError::Accept },
            ListenerAction::Stop { error: ListenerError::Accept },
        ),
        _ => (p, ListenerAction::Nothing),
    }
}

/// The phase reached from `p` after the events `evs`, in order.
pub open spec fn listener_run(p: ListenerPhase, evs: Seq<ListenerEvent>) -> ListenerPhase
    decreases evs.len(),
{
    if evs.len() == 0 {
        p
    } else {
        listener_step(listener_run(p, evs.drop_last()), evs.last()).0
    }
}

/// How many handlers the caller was told to start while `evs` went by.
pub open spec fn spawned(p: ListenerPhase, evs: Seq<ListenerEvent>) -> nat
    decreases evs.len(),
{
    if evs.len() == 0 {
        0
    } else if listener_step(listener_run(p, evs.drop_last()), evs.last()).1
        == ListenerAction::SpawnAndAccept {
        spawned(p, evs.drop_last()) + 1
    } else {
        spawned(p, evs.drop_last())
    }
}

/// How many connections were accepted among `evs`.
pub open spec fn accepted(evs: Seq<ListenerEvent>) -> nat
    decreases evs.len(),
{
    if evs.len() == 0 {
        0
    } else if evs.last() == ListenerEvent::Accepted {
        accepted(evs.drop_last()) + 1
    } else {
        accepted(evs.drop_last())
    }
}

/// Whether `evs` holds accepted connections and ended handlers only.
pub open spec fn only_traffic(evs: Seq<ListenerEvent>) -> bool {
    forall|i: int|
        0 <= i < evs.len() ==> (#[trigger] evs[i] == ListenerEvent::Accepted
            || evs[i] is HandlerEnded)
}

/// The state of the listener.
pub struct Listener {
    phase: ListenerPhase,
}

impl Listener {
    /// The phase that the listener is in.
    pub closed spec fn spec_phase(&self) -> ListenerPhase {
        self.phase
    }

    /// A listener that has yet to bind its address.
    pub fn new() -> (l: Self)
        ensures
            l.spec_phase() == ListenerPhase::Binding,
    {
        Listener { phase: ListenerPhase::Binding }
    }

    /// The phase that the listener is in.
    #[verifier::when_used_as_spec(spec_phase)]
    pub fn phase(&self) -> (p: ListenerPhase)
        ensures
            p == self.spec_phase(),
    {
        self.phase
    }

    /// Takes note of `ev` and says what to do next, as `listener_step` lays down.
    pub fn on_event(&mut self, ev: ListenerEvent) -> (act: ListenerAction)
        ensures
            (final(self).spec_phase(), act) == listener_step(old(self).spec_phase(), ev),
    {
        let (next, act) = match (self.phase, ev) {
            (ListenerPhase::Binding, ListenerEvent::Bound) => (
                ListenerPhase::Accepting,
                ListenerAction::Accept,
            ),
            (ListenerPhase::Binding, ListenerEvent::BindFailed) => (
                ListenerPhase::Stopped { error: ListenerError::Bind },
                ListenerAction::Stop { error: ListenerError::Bind },
            ),
            (ListenerPhase::Accepting, ListenerEvent::Accepted) => (
                ListenerPhase::Accepting,
                ListenerAction::SpawnAndAccept,
            ),
            (ListenerPhase::Accepting, ListenerEvent::AcceptFailed) => (
                ListenerPhase::Stopped { error: ListenerError::Accept },
                ListenerAction::Stop { error: ListenerError::Accept },
            ),
            (p, _) => (p, ListenerAction::Nothing),
        };
        self.phase = next;
        act
    }

    /// The error that stopped the listener, if it has stopped.
    pub fn error(&self) -> (e: Option<ListenerError>)
        ensures
            e == match self.spec_phase() {
                ListenerPhase::Stopped { error } => Some(error),
                _ => None,
            },
    {
        match self.phase {
            ListenerPhase::Stopped { error } => Some(error),
            _ => None,
        }
    }
}

/// A handler that ends, cleanly or in failure, leaves the listener as it
/// was: one that accepts goes on accepting.
pub proof fn lemma_handler_end_is_contained(p: ListenerPhase, clean: bool)
    ensures
        listener_step(p, ListenerEvent::HandlerEnded { clean }) == (p, ListenerAction::Nothing),
{
}

/// While connections arrive and handlers end, in any order and number, the
/// listener keeps accepting and starts one handler for each connection.
pub proof fn lemma_accepts_all(evs: Seq<ListenerEvent>)
    requires
        only_traffic(evs),
    ensures
        listener_run(ListenerPhase::Accepting, evs) == ListenerPhase::Accepting,
        spawned(ListenerPhase::Accepting, evs) == accepted(evs),
    decreases evs.len(),
{
    if evs.len() > 0 {
        let init = evs.drop_last();
        assert forall|i: int| 0 <= i < init.len() implies (#[trigger] init[i]
            == ListenerEvent::Accepted || init[i] is HandlerEnded) by {
            assert(init[i] == evs[i]);
        }
        lemma_accepts_all(init);
        assert(evs.last() == evs[evs.len() - 1]);
    }
}

/// Once the listener has stopped, no event starts it again.
pub proof fn lemma_stopped_stays(error: ListenerError, ev: ListenerEvent)
    ensures
        listener_step(ListenerPhase::Stopped { error }, ev) == (
            ListenerPhase::Stopped { error },
            ListenerAction::Nothing,
        ),
{
}

} // verus!
