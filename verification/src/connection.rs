//! The decisions of a connection handler.
//!
//! A handler owns one accepted socket. It waits until the socket is readable,
//! tries one read that does not block, and acts on what came back: a peer that
//! closed ends the handler cleanly, data is answered with a fixed reply, a read
//! that would block is tried again, and any other failure ends the handler with
//! an error. The waiting, reading and writing are done by the caller; this
//! module decides what to do next.

use vstd::prelude::*;

verus! {

/// The number of bytes that one read attempt may take.
pub const READ_CAPACITY: usize = 4096;

/// Where a connection stands.
#[derive(Clone, Copy, Debug, PartialEq, Eq, Structural)]
pub enum Phase {
    /// Open, waiting for the socket to report that it is readable.
    AwaitReadable,
    /// Open, a read attempt is under way.
    AwaitRead,
    /// Open, the reply to a read is being written.
    AwaitWrite,
    /// The peer closed in good order.
    Closed,
    /// An I/O failure ended the connection.
    Failed,
}

/// What the caller reports back after doing what it was told.
#[derive(Clone, Copy, Debug, PartialEq, Eq, Structural)]
pub enum Event {
    /// The socket reported that it is readable.
    Readable,
    /// A read attempt returned `n` bytes.
    Read { n: usize },
    /// A read attempt found nothing to read for now.
    WouldBlock,
    /// The reply was written in full.
    Written,
    /// Waiting, reading or writing failed for any other reason.
    IoError,
}

/// What the caller is to do next.
#[derive(Clone, Copy, Debug, PartialEq, Eq, Structural)]
pub enum Action {
    /// Suspend until the socket is readable.
    WaitReadable,
    /// Try one read that does not block, into a fresh buffer of `capacity` bytes.
    TryRead { capacity: usize },
    /// Write the reply and wait until all of it is written.
    WriteAck,
    /// Release the socket; the handler ends without error.
    FinishClean,
    /// Release the socket; the handler ends with the error that was reported.
    FinishFailed,
    /// Do nothing: the event was not awaited, or the connection has ended.
    Nothing,
}

/// Why a handler ended in failure.
#[derive(Clone, Copy, Debug, PartialEq, Eq, Structural)]
pub enum ConnectionError {
    /// An I/O operation on the socket failed, other than by a read that would block.
    Io,
}

/// The reply given to every read that brought data: `+OK` and a line end.
pub open spec fn ack_bytes() -> Seq<u8> {
    seq![0x2bu8, 0x4fu8, 0x4bu8, 0x0du8, 0x0au8]
}

/// Whether a connection in this phase still does I/O.
pub open spec fn is_open(p: Phase) -> bool {
    p == Phase::AwaitReadable || p == Phase::AwaitRead || p == Phase::AwaitWrite
}

/// The phase that follows `p` on event `ev`, and what the caller is to do.
pub open spec fn step(p: Phase, ev: Event) -> (Phase, Action) {
    match (p, ev) {
        (Phase::AwaitReadable, Event::Readable) => (
            Phase::AwaitRead,
            Action::TryRead { capacity: READ_CAPACITY },
        ),
        (Phase::AwaitRead, Event::Read { n }) => if n == 0 {
            (Phase::Closed, Action::FinishClean)
        } else {
            (Phase::AwaitWrite, Action::WriteAck)
        },
        (Phase::AwaitRead, Event::WouldBlock) => (Phase::AwaitReadable, Action::WaitReadable),
        (Phase::AwaitWrite, Event::Written) => (Phase::AwaitReadable, Action::WaitReadable),
        (Phase::AwaitReadable, Event::IoError) => (Phase::Failed, Action::FinishFailed),
        (Phase::AwaitRead, Event::IoError) => (Phase::Failed, Action::FinishFailed),
        (Phase::AwaitWrite, Event::IoError) => (Phase::Failed, Action::FinishFailed),
        _ => (p, Action::Nothing),
    }
}

/// The phase reached from `p` after the events `evs`, in order.
pub open spec fn run(p: Phase, evs: Seq<Event>) -> Phase
    decreases evs.len(),
{
    if evs.len() == 0 {
        p
    } else {
        step(run(p, evs.drop_last()), evs.last()).0
    }
}

/// How many replies the caller was told to write while `evs` went by.
pub open spec fn acks(p: Phase, evs: Seq<Event>) -> nat
    decreases evs.len(),
{
    if evs.len() == 0 {
        0
    } else if step(run(p, evs.drop_last()), evs.last()).1 == Action::WriteAck {
        acks(p, evs.drop_last()) + 1
    } else {
        acks(p, evs.drop_last())
    }
}

/// Whether `ev`, arriving in phase `p`, is a read attempt that brought data.
pub open spec fn is_data_read(p: Phase, ev: Event) -> bool {
    p == Phase::AwaitRead && match ev {
        Event::Read { n } => n > 0,
        _ => false,
    }
}

/// How many read attempts brought data while `evs` went by.
pub open spec fn data_reads(p: Phase, evs: Seq<Event>) -> nat
    decreases evs.len(),
{
    if evs.len() == 0 {
        0
    } else if is_data_read(run(p, evs.drop_last()), evs.last()) {
        data_reads(p, evs.drop_last()) + 1
    } else {
        data_reads(p, evs.drop_last())
    }
}

/// The bytes that the caller writes when told `act`.
pub open spec fn reply(act: Action) -> Seq<u8> {
    if act == Action::WriteAck {
        ack_bytes()
    } else {
        Seq::<u8>::empty()
    }
}

/// All bytes that the caller was told to write while `evs` went by.
pub open spec fn written(p: Phase, evs: Seq<Event>) -> Seq<u8>
    decreases evs.len(),
{
    if evs.len() == 0 {
        Seq::<u8>::empty()
    } else {
        written(p, evs.drop_last()) + reply(step(run(p, evs.drop_last()), evs.last()).1)
    }
}

/// The reply `k` times over.
pub open spec fn replies(k: nat) -> Seq<u8>
    decreases k,
{
    if k == 0 {
        Seq::<u8>::empty()
    } else {
        replies((k - 1) as nat) + ack_bytes()
    }
}

/// `k` rounds of a readiness report followed by a read that would block.
pub open spec fn spurious(k: nat) -> Seq<Event>
    decreases k,
{
    if k == 0 {
        Seq::<Event>::empty()
    } else {
        spurious((k - 1) as nat).push(Event::Readable).push(Event::WouldBlock)
    }
}

/// The phases of several connections after `ev` was handed to the one at `i`.
pub open spec fn deliver(conns: Seq<Phase>, i: int, ev: Event) -> Seq<Phase>
    recommends
        0 <= i < conns.len(),
{
    conns.update(i, step(conns[i], ev).0)
}

/// The phases of several connections after each event of `msgs` was handed,
/// in order, to the connection that it names. An event for a connection
/// that is not there is dropped.
pub open spec fn deliver_all(conns: Seq<Phase>, msgs: Seq<(int, Event)>) -> Seq<Phase>
    decreases msgs.len(),
{
    if msgs.len() == 0 {
        conns
    } else {
        let before = deliver_all(conns, msgs.drop_last());
        let (i, ev) = msgs.last();
        if 0 <= i < before.len() {
            deliver(before, i, ev)
        } else {
            before
        }
    }
}

/// The events among `msgs` that are for connection `j`, in order.
pub open spec fn events_for(msgs: Seq<(int, Event)>, j: int) -> Seq<Event>
    decreases msgs.len(),
{
    if msgs.len() == 0 {
        Seq::<Event>::empty()
    } else if msgs.last().0 == j {
        events_for(msgs.drop_last(), j).push(msgs.last().1)
    } else {
        events_for(msgs.drop_last(), j)
    }
}

/// The state of one connection handler.
pub struct Connection {
    phase: Phase,
}

impl Connection {
    /// The phase that the connection is in.
    pub closed spec fn spec_phase(&self) -> Phase {
        self.phase
    }

    /// A connection as it stands right after it was accepted: open, with
    /// nothing read yet. The caller starts by waiting for readability.
    pub fn new() -> (c: Self)
        ensures
            c.spec_phase() == Phase::AwaitReadable,
    {
        Connection { phase: Phase::AwaitReadable }
    }

    /// The phase that the connection is in.
    #[verifier::when_used_as_spec(spec_phase)]
    pub fn phase(&self) -> (p: Phase)
        ensures
            p == self.spec_phase(),
    {
        self.phase
    }

    /// Whether the handler still runs.
    pub fn is_open(&self) -> (b: bool)
        ensures
            b == is_open(self.spec_phase()),
    {
        match self.phase {
            Phase::AwaitReadable | Phase::AwaitRead | Phase::AwaitWrite => true,
            _ => false,
        }
    }

    /// Takes note of `ev` and says what to do next, as `step` lays down.
    pub fn on_event(&mut self, ev: Event) -> (act: Action)
        ensures
            (final(self).spec_phase(), act) == step(old(self).spec_phase(), ev),
    {
        let (next, act) = match (self.phase, ev) {
            (Phase::AwaitReadable, Event::Readable) => (
                Phase::AwaitRead,
                Action::TryRead { capacity: READ_CAPACITY },
            ),
            (Phase::AwaitRead, Event::Read { n }) => {
                if n == 0 {
                    (Phase::Closed, Action::FinishClean)
                } else {
                    (Phase::AwaitWrite, Action::WriteAck)
                }
            },
            (Phase::AwaitRead, Event::WouldBlock) => (Phase::AwaitReadable, Action::WaitReadable),
            (Phase::AwaitWrite, Event::Written) => (Phase::AwaitReadable, Action::WaitReadable),
            (Phase::AwaitReadable, Event::IoError) => (Phase::Failed, Action::FinishFailed),
            (Phase::AwaitRead, Event::IoError) => (Phase::Failed, Action::FinishFailed),
            (Phase::AwaitWrite, Event::IoError) => (Phase::Failed, Action::FinishFailed),
            (p, _) => (p, Action::Nothing),
        };
        self.phase = next;
        act
    }

    /// What the handler returns: nothing while the connection is open, success
    /// after a clean close, the error after a failure.
    pub fn outcome(&self) -> (r: Option<Result<(), ConnectionError>>)
        ensures
            is_open(self.spec_phase()) <==> r.is_none(),
            self.spec_phase() == Phase::Closed <==> r == Some(Ok::<(), ConnectionError>(())),
            self.spec_phase() == Phase::Failed <==> r == Some(
                Err::<(), ConnectionError>(ConnectionError::Io),
            ),
    {
        match self.phase {
            Phase::Closed => Some(Ok(())),
            Phase::Failed => Some(Err(ConnectionError::Io)),
            _ => None,
        }
    }
}

/// The bytes of the reply, the same for every read that brought data.
pub fn ack_reply() -> (bytes: Vec<u8>)
    ensures
        bytes@ == ack_bytes(),
{
    let mut bytes: Vec<u8> = Vec::new();
    bytes.push(0x2bu8);
    bytes.push(0x4fu8);
    bytes.push(0x4bu8);
    bytes.push(0x0du8);
    bytes.push(0x0au8);
    assert(bytes@ =~= ack_bytes());
    bytes
}

/// Running through `a` and then `b` is running through `a + b`.
pub proof fn lemma_run_concat(p: Phase, a: Seq<Event>, b: Seq<Event>)
    ensures
        run(p, a + b) == run(run(p, a), b),
    decreases b.len(),
{
    if b.len() == 0 {
        assert(a + b =~= a);
    } else {
        assert((a + b).drop_last() =~= a + b.drop_last());
        assert((a + b).last() == b.last());
        lemma_run_concat(p, a, b.drop_last());
    }
}

/// Once a connection has ended, no event changes its phase or asks for I/O.
pub proof fn lemma_ended_stays(p: Phase, ev: Event)
    requires
        !is_open(p),
    ensures
        step(p, ev) == (p, Action::Nothing),
{
}

/// A first read of zero bytes closes the connection cleanly, and so does a
/// read of zero bytes after any number of rounds that would block.
pub proof fn lemma_zero_read_closes(k: nat)
    ensures
        step(Phase::AwaitRead, Event::Read { n: 0 }) == (Phase::Closed, Action::FinishClean),
        run(
            Phase::AwaitReadable,
            spurious(k).push(Event::Readable).push(Event::Read { n: 0 }),
        ) == Phase::Closed,
{
    lemma_would_block_retries(k);
    let s = spurious(k);
    let s1 = s.push(Event::Readable);
    let s2 = s1.push(Event::Read { n: 0 });
    assert(s1.drop_last() =~= s);
    assert(s2.drop_last() =~= s1);
}

/// Readiness reports followed by reads that would block never end a
/// connection: after any number of such rounds, and in the middle of one, it
/// is open, and it waits for readability again after each round.
pub proof fn lemma_would_block_retries(k: nat)
    ensures
        run(Phase::AwaitReadable, spurious(k)) == Phase::AwaitReadable,
        run(Phase::AwaitReadable, spurious(k).push(Event::Readable)) == Phase::AwaitRead,
        forall|j: int|
            0 <= j <= spurious(k).len() ==> is_open(
                #[trigger] run(Phase::AwaitReadable, spurious(k).take(j)),
            ),
    decreases k,
{
    let s = spurious(k);
    if k == 0 {
        assert(s.push(Event::Readable).drop_last() =~= s);
        assert forall|j: int| 0 <= j <= s.len() implies is_open(
            #[trigger] run(Phase::AwaitReadable, s.take(j)),
        ) by {
            assert(s.take(j) =~= s);
        }
    } else {
        let prev = spurious((k - 1) as nat);
        lemma_would_block_retries((k - 1) as nat);
        let mid = prev.push(Event::Readable);
        assert(mid.drop_last() =~= prev);
        assert(s.drop_last() =~= mid);
        assert(s.push(Event::Readable).drop_last() =~= s);
        assert forall|j: int| 0 <= j <= s.len() implies is_open(
            #[trigger] run(Phase::AwaitReadable, s.take(j)),
        ) by {
            if j <= prev.len() {
                assert(s.take(j) =~= prev.take(j));
            } else if j == prev.len() + 1 {
                assert(s.take(j) =~= mid);
            } else {
                assert(s.take(j) =~= s);
            }
        }
    }
}

/// Rounds that would block leave no trace: whatever comes after them is
/// taken as if they had not happened.
pub proof fn lemma_would_block_leaves_no_trace(k: nat, rest: Seq<Event>)
    ensures
        run(Phase::AwaitReadable, spurious(k) + rest) == run(Phase::AwaitReadable, rest),
{
    lemma_would_block_retries(k);
    lemma_run_concat(Phase::AwaitReadable, spurious(k), rest);
}

/// After any number of rounds that would block, data is still answered: the
/// read that brings it asks for the reply, and the connection goes on.
pub proof fn lemma_data_after_would_block(k: nat, n: usize)
    requires
        n > 0,
    ensures
        step(
            run(Phase::AwaitReadable, spurious(k).push(Event::Readable)),
            Event::Read { n },
        ) == (Phase::AwaitWrite, Action::WriteAck),
        step(Phase::AwaitWrite, Event::Written) == (Phase::AwaitReadable, Action::WaitReadable),
{
    lemma_would_block_retries(k);
}

/// The caller is told to write the reply once for each read that brought
/// data, and at no other time; all that is ever written is that reply, as
/// often as data was read.
pub proof fn lemma_one_ack_per_read(p: Phase, evs: Seq<Event>)
    ensures
        acks(p, evs) == data_reads(p, evs),
        written(p, evs) == replies(data_reads(p, evs)),
        forall|q: Phase, ev: Event| #[trigger]
            step(q, ev).1 == Action::WriteAck <==> is_data_read(q, ev),
    decreases evs.len(),
{
    if evs.len() > 0 {
        lemma_one_ack_per_read(p, evs.drop_last());
    }
}

/// However the events for several connections are interleaved, each
/// connection ends where its own events alone would have brought it: what
/// happens to another connection, a failure too, does not touch it.
pub proof fn lemma_connections_run_alone(conns: Seq<Phase>, msgs: Seq<(int, Event)>, j: int)
    requires
        0 <= j < conns.len(),
    ensures
        deliver_all(conns, msgs).len() == conns.len(),
        deliver_all(conns, msgs)[j] == run(conns[j], events_for(msgs, j)),
    decreases msgs.len(),
{
    if msgs.len() > 0 {
        let init = msgs.drop_last();
        lemma_connections_run_alone(conns, init, j);
        if msgs.last().0 == j {
            let mine = events_for(init, j);
            assert(mine.push(msgs.last().1).drop_last() =~= mine);
        }
    }
}

/// An event handed to one connection leaves every other connection as it was,
/// whatever the event is.
pub proof fn lemma_isolation(conns: Seq<Phase>, i: int, j: int, ev: Event)
    requires
        0 <= i < conns.len(),
        0 <= j < conns.len(),
        i != j,
    ensures
        deliver(conns, i, ev).len() == conns.len(),
        deliver(conns, i, ev)[j] == conns[j],
        deliver(conns, i, ev)[i] == step(conns[i], ev).0,
{
}

} // verus!
