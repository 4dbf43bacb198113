//! The server: a listening transport and the remotes it accepted, each a
//! per-connection state machine.
use vstd::prelude::*;
use std::marker::PhantomData;
use crate::message::{InternalMessage, Message, next_message, frame, INTERNAL_TAG, APPLICATION_TAG};
use crate::protocol::{Connection, Host, NetError, Protocol};
use crate::time::Timer;

verus! {

/// The lifecycle of a remote: accepted, then connected, then closing, then
/// closed; never back.
#[derive(Debug, Clone, Copy, PartialEq, Eq, Structural)]
pub enum RemoteState {
    Accepted,
    Connected,
    Closing,
    Closed,
}

/// Whether `close` succeeds from state `s`.
pub open spec fn can_close(s: RemoteState) -> bool {
    s == RemoteState::Accepted || s == RemoteState::Connected
}

/// The state after `close`.
pub open spec fn after_close(s: RemoteState) -> RemoteState {
    if can_close(s) {
        RemoteState::Closing
    } else {
        s
    }
}

/// The state after a read, `ok` when the transport read succeeded.
pub open spec fn after_read(s: RemoteState, ok: bool) -> RemoteState {
    let s1 = if s == RemoteState::Accepted {
        RemoteState::Connected
    } else {
        s
    };
    if ok {
        s1
    } else {
        after_close(s1)
    }
}

/// `after` is a state that a read from `before` can lead to.
pub open spec fn read_outcome(before: RemoteState, after: RemoteState) -> bool {
    after == after_read(before, true) || after == after_read(before, false)
}

/// The state after a write: a closing remote is shut down.
pub open spec fn after_write(s: RemoteState) -> RemoteState {
    if s == RemoteState::Closing {
        RemoteState::Closed
    } else {
        s
    }
}

/// Closing a remote that is accepted or connected succeeds and one write
/// later it is closed; closing one that is closing or closed fails and
/// changes nothing.
pub proof fn lemma_close_then_write(s: RemoteState)
    ensures
        can_close(s) <==> (s == RemoteState::Accepted || s == RemoteState::Connected),
        can_close(s) ==> after_write(after_close(s)) == RemoteState::Closed,
        !can_close(s) ==> after_close(s) == s,
{
}

/// A read of remote `a` giving `b`: it is marked connected if accepted, the
/// transport's bytes are appended to the incoming ones, and a failed read
/// makes it closing; nothing else changes.
pub open spec fn read_step<C: Connection, M: Message>(a: Remote<C, M>, b: Remote<C, M>) -> bool {
    &&& read_outcome(a.state_spec(), b.state_spec())
    &&& b.incoming().len() >= a.incoming().len()
    &&& b.incoming().subrange(0, a.incoming().len() as int) == a.incoming()
    &&& b.outgoing() == a.outgoing()
    &&& b.queue() == a.queue()
    &&& b.timer() == a.timer()
}

/// Some write takes remote `a` to `b` (see `written`).
pub open spec fn written_once<C: Connection, M: Message>(a: Remote<C, M>, b: Remote<C, M>) -> bool {
    exists|out: Seq<InternalMessage>, now: u64, due: bool| #[trigger] written(a, b, out, now, due)
}

/// A write of remote `a` giving `b`: the timer runs one tick on the queued
/// internal messages, sending `out`; their frames are appended to the
/// outgoing bytes, which are then all written (and dropped) or all kept for
/// the next tick; a closing remote is shut down.
pub open spec fn written<C: Connection, M: Message>(
    a: Remote<C, M>,
    b: Remote<C, M>,
    out: Seq<InternalMessage>,
    now: u64,
    due: bool,
) -> bool {
    &&& crate::time::receive_step(a.timer(), b.timer(), a.queue(), out, now, due)
    &&& b.state_spec() == after_write(a.state_spec())
    &&& b.queue() == Seq::<InternalMessage>::empty()
    &&& b.incoming() == a.incoming()
    &&& (b.outgoing() == Seq::<u8>::empty() || b.outgoing() == a.outgoing() + crate::message::internal_frames(out))
}

/// The server side of one accepted connection.
pub struct Remote<C: Connection, M: Message> {
    connection: C,
    incoming: Vec<u8>,
    outgoing: Vec<u8>,
    internal_messages: Vec<InternalMessage>,
    timer: Timer,
    state: RemoteState,
    message: PhantomData<M>,
}

impl<C: Connection, M: Message> Remote<C, M> {
    pub closed spec fn wf(&self) -> bool {
        self.timer.wf()
    }

    pub closed spec fn state_spec(&self) -> RemoteState {
        self.state
    }

    /// Bytes received and not yet scanned.
    pub closed spec fn incoming(&self) -> Seq<u8> {
        self.incoming@
    }

    /// Bytes framed and not yet written.
    pub closed spec fn outgoing(&self) -> Seq<u8> {
        self.outgoing@
    }

    /// Internal messages received and not yet handled by the timer.
    pub closed spec fn queue(&self) -> Seq<InternalMessage> {
        self.internal_messages@
    }

    pub closed spec fn timer(&self) -> Timer {
        self.timer
    }

    /// The transport connection.
    pub closed spec fn connection(&self) -> C {
        self.connection
    }

    /// The lifecycle state.
    pub fn state(&self) -> (r: RemoteState)
        ensures
            r == self.state_spec(),
    {
        self.state
    }

    /// Smoothed round-trip time to the peer in microseconds.
    pub fn rtt(&self) -> (r: i64)
        requires
            self.wf(),
        ensures
            r == crate::average::mean(self.timer().rtt_window()),
            r >= 0,
    {
        self.timer.rtt()
    }

    /// Smoothed clock offset to the peer in microseconds.
    pub fn clock(&self) -> (r: i64)
        requires
            self.wf(),
        ensures
            r == crate::average::mean(self.timer().clock_window()),
    {
        self.timer.clock()
    }

    /// The address of the peer.
    pub fn peer_addr(&self) -> Result<String, NetError> {
        self.connection.peer_addr()
    }

    /// Frames `message` as an application message for the next write; a
    /// message that cannot be encoded is dropped.
    pub fn send(&mut self, message: M)
        ensures
            final(self).state_spec() == old(self).state_spec(),
            final(self).incoming() == old(self).incoming(),
            final(self).queue() == old(self).queue(),
            final(self).timer() == old(self).timer(),
            crate::message::appended::<M>(old(self).outgoing(), final(self).outgoing(), APPLICATION_TAG, message),
    {
        self.send_raw(APPLICATION_TAG, message);
    }

    /// The next application message in the received bytes, if any; internal
    /// messages met on the way are queued for the timer.
    pub fn receive(&mut self) -> (r: Option<M>)
        ensures
            M::specified() ==> ({
                let t = crate::message::scan::<M, InternalMessage>(old(self).incoming(), 0);
                &&& final(self).queue() == old(self).queue() + t.0
                &&& r == t.1
                &&& final(self).incoming() == old(self).incoming().subrange(
                    t.2 as int,
                    old(self).incoming().len() as int,
                )
            }),
            final(self).state_spec() == old(self).state_spec(),
            final(self).outgoing() == old(self).outgoing(),
            final(self).timer() == old(self).timer(),
    {
        next_message(&mut self.incoming, &mut self.internal_messages)
    }

    /// Asks to close: from accepted or connected the remote becomes closing
    /// (the next write shuts it down); otherwise `Err(NotConnected)`.
    pub fn close(&mut self) -> (r: Result<(), NetError>)
        ensures
            final(self).state_spec() == after_close(old(self).state_spec()),
            r is Ok <==> can_close(old(self).state_spec()),
            r is Err ==> r == Err::<(), NetError>(NetError::NotConnected),
            final(self).incoming() == old(self).incoming(),
            final(self).outgoing() == old(self).outgoing(),
            final(self).queue() == old(self).queue(),
            final(self).timer() == old(self).timer(),
    {
        match self.state {
            RemoteState::Accepted | RemoteState::Connected => {
                self.state = RemoteState::Closing;
                Ok(())
            },
            RemoteState::Closing | RemoteState::Closed => Err(NetError::NotConnected),
        }
    }

    /// Marks an accepted remote connected and reads what the transport has;
    /// a failed read asks to close.
    pub(crate) fn read(&mut self)
        ensures
            read_step(*old(self), *final(self)),
    {
        self.try_connect();
        if self.connection.read(&mut self.incoming).is_err() {
            let _ = self.close();
            assert(self.state_spec() == after_read(old(self).state_spec(), false));
        } else {
            assert(self.state_spec() == after_read(old(self).state_spec(), true));
        }
    }

    /// Runs the timer on the queued internal messages and frames what it
    /// sends, writes the outgoing bytes (kept for the next tick if the write
    /// fails), and shuts a closing remote down.
    pub(crate) fn write(&mut self)
        requires
            old(self).wf(),
        ensures
            final(self).wf(),
            written_once(*old(self), *final(self)),
    {
        let mut messages: Vec<InternalMessage> = Vec::new();
        std::mem::swap(&mut messages, &mut self.internal_messages);
        let ghost queue = old(self).internal_messages@;
        let out = self.timer.receive(messages);
        let ghost (now, due) = choose|now: u64, due: bool|
            crate::time::receive_step(old(self).timer, self.timer, queue, out@, now, due);
        let ghost t = self.timer;
        let ghost o = self.outgoing@;
        let mut i: usize = 0;
        while i < out.len()
            invariant
                self.wf(),
                self.timer == t,
                self.state == old(self).state,
                self.incoming@ == old(self).incoming@,
                self.internal_messages@ == Seq::<InternalMessage>::empty(),
                o == old(self).outgoing@,
                i <= out@.len(),
                self.outgoing@ == o + crate::message::internal_frames(out@.subrange(0, i as int)),
            decreases out.len() - i,
        {
            self.send_raw(INTERNAL_TAG, out[i]);
            proof {
                assert(out@.subrange(0, i + 1 as int).drop_last() =~= out@.subrange(0, i as int));
                assert(self.outgoing@ =~= o + crate::message::internal_frames(out@.subrange(0, i + 1 as int)));
            }
            i = i + 1;
        }
        proof {
            assert(out@.subrange(0, out@.len() as int) =~= out@);
        }
        if self.outgoing.len() > 0 {
            if self.connection.write(self.outgoing.as_slice()).is_ok() {
                self.outgoing.clear();
            }
        }
        self.try_close();
        proof {
            assert(written(*old(self), *self, out@, now, due));
        }
    }

    pub(crate) fn from_connection(connection: C, timer: Timer) -> (r: Self)
        requires
            timer.wf(),
        ensures
            r.wf(),
            r.state_spec() == RemoteState::Accepted,
            r.incoming() == Seq::<u8>::empty(),
            r.outgoing() == Seq::<u8>::empty(),
            r.queue() == Seq::<InternalMessage>::empty(),
            r.timer() == timer,
            r.connection() == connection,
    {
        Remote {
            connection,
            incoming: Vec::new(),
            outgoing: Vec::new(),
            internal_messages: Vec::new(),
            timer,
            state: RemoteState::Accepted,
            message: PhantomData,
        }
    }

    fn send_raw<T: Message>(&mut self, prefix: u8, message: T)
        ensures
            final(self).state_spec() == old(self).state_spec(),
            final(self).incoming() == old(self).incoming(),
            final(self).queue() == old(self).queue(),
            final(self).timer() == old(self).timer(),
            crate::message::appended::<T>(old(self).outgoing(), final(self).outgoing(), prefix, message),
    {
        let _ = frame(prefix, &message, &mut self.outgoing);
    }

    pub(crate) fn accepted(&self) -> (r: bool)
        ensures
            r == (self.state_spec() == RemoteState::Accepted),
    {
        self.state == RemoteState::Accepted
    }

    pub(crate) fn connected(&self) -> (r: bool)
        ensures
            r == (self.state_spec() == RemoteState::Connected),
    {
        self.state == RemoteState::Connected
    }

    pub(crate) fn closed(&self) -> (r: bool)
        ensures
            r == (self.state_spec() == RemoteState::Closed),
    {
        self.state == RemoteState::Closed
    }

    fn try_connect(&mut self)
        ensures
            final(self).state_spec() == if old(self).state_spec() == RemoteState::Accepted {
                RemoteState::Connected
            } else {
                old(self).state_spec()
            },
            final(self).incoming() == old(self).incoming(),
            final(self).outgoing() == old(self).outgoing(),
            final(self).queue() == old(self).queue(),
            final(self).timer() == old(self).timer(),
    {
        if self.accepted() {
            self.state = RemoteState::Connected;
        }
    }

    /// Shuts a closing remote's transport down and marks it closed.
    pub(crate) fn try_close(&mut self)
        ensures
            final(self).state_spec() == after_write(old(self).state_spec()),
            final(self).incoming() == old(self).incoming(),
            final(self).outgoing() == old(self).outgoing(),
            final(self).queue() == old(self).queue(),
            final(self).timer() == old(self).timer(),
    {
        if self.state == RemoteState::Closing {
            let _ = self.connection.shutdown();
            self.state = RemoteState::Closed;
        }
    }
}

/// The entries of `w` whose remote is not closed, in order.
pub open spec fn kept<C: Connection, M: Message, D>(w: Seq<(Remote<C, M>, D)>) -> Seq<(Remote<C, M>, D)>
    decreases w.len(),
{
    if w.len() == 0 {
        Seq::empty()
    } else if w.last().0.state_spec() == RemoteState::Closed {
        kept(w.drop_last())
    } else {
        kept(w.drop_last()).push(w.last())
    }
}

/// The entries of `w` whose remote is closed, in order.
pub open spec fn closed_of<C: Connection, M: Message, D>(w: Seq<(Remote<C, M>, D)>) -> Seq<(Remote<C, M>, D)>
    decreases w.len(),
{
    if w.len() == 0 {
        Seq::empty()
    } else if w.last().0.state_spec() == RemoteState::Closed {
        closed_of(w.drop_last()).push(w.last())
    } else {
        closed_of(w.drop_last())
    }
}

/// `w` is `a` with every remote written once and the user data kept.
pub open spec fn all_written<C: Connection, M: Message, D>(
    a: Seq<(Remote<C, M>, D)>,
    w: Seq<(Remote<C, M>, D)>,
) -> bool {
    &&& w.len() == a.len()
    &&& forall|i: int| 0 <= i < a.len() ==> #[trigger] w[i].1 == a[i].1 && written_once(a[i].0, w[i].0)
}

/// `r` lists, in increasing order, exactly the positions of the remotes in
/// state `s`.
pub open spec fn lists_state<C: Connection, M: Message, D>(
    r: Seq<usize>,
    rs: Seq<(Remote<C, M>, D)>,
    s: RemoteState,
) -> bool {
    &&& forall|k: int| 0 <= k < r.len() ==> #[trigger] r[k] < rs.len() && rs[r[k] as int].0.state_spec() == s
    &&& forall|k: int, l: int| 0 <= k < l < r.len() ==> r[k] < r[l]
    &&& forall|i: int| 0 <= i < rs.len() && #[trigger] rs[i].0.state_spec() == s ==> r.contains(i as usize)
}

/// Two listings of the remotes in one state agree: a phase repeated within a
/// tick, which changes nothing, observes the same remotes.
pub proof fn lemma_same_observation<C: Connection, M: Message, D>(
    a: Seq<usize>,
    b: Seq<usize>,
    rs: Seq<(Remote<C, M>, D)>,
    s: RemoteState,
)
    requires
        lists_state(a, rs, s),
        lists_state(b, rs, s),
    ensures
        a == b,
    decreases a.len() + b.len(),
{
    lemma_same_below(a, b, rs, s, rs.len() as int);
}

proof fn lemma_same_below<C: Connection, M: Message, D>(
    a: Seq<usize>,
    b: Seq<usize>,
    rs: Seq<(Remote<C, M>, D)>,
    s: RemoteState,
    bound: int,
)
    requires
        forall|k: int| 0 <= k < a.len() ==> #[trigger] a[k] < bound && rs[a[k] as int].0.state_spec() == s,
        forall|k: int| 0 <= k < b.len() ==> #[trigger] b[k] < bound && rs[b[k] as int].0.state_spec() == s,
        forall|k: int, l: int| 0 <= k < l < a.len() ==> a[k] < a[l],
        forall|k: int, l: int| 0 <= k < l < b.len() ==> b[k] < b[l],
        bound <= rs.len(),
        forall|i: int| 0 <= i < bound && #[trigger] rs[i].0.state_spec() == s ==> a.contains(i as usize),
        forall|i: int| 0 <= i < bound && #[trigger] rs[i].0.state_spec() == s ==> b.contains(i as usize),
    ensures
        a == b,
    decreases a.len() + b.len(),
{
    if a.len() > 0 && b.len() > 0 {
        let x = a.last();
        let y = b.last();
        assert(b.contains(x));
        assert(a.contains(y));
        let i = choose|i: int| 0 <= i < b.len() && b[i] == x;
        let j = choose|j: int| 0 <= j < a.len() && a[j] == y;
        if i < b.len() - 1 {
            assert(b[i] < b[b.len() - 1]);
        }
        if j < a.len() - 1 {
            assert(a[j] < a[a.len() - 1]);
        }
        assert(x == y);
        let a2 = a.drop_last();
        let b2 = b.drop_last();
        assert forall|i: int| 0 <= i < x && #[trigger] rs[i].0.state_spec() == s implies a2.contains(
            i as usize,
        ) by {
            let k = choose|k: int| 0 <= k < a.len() && a[k] == i as usize;
            assert(k != a.len() - 1);
            assert(a2[k] == i as usize);
        }
        assert forall|i: int| 0 <= i < x && #[trigger] rs[i].0.state_spec() == s implies b2.contains(
            i as usize,
        ) by {
            let k = choose|k: int| 0 <= k < b.len() && b[k] == i as usize;
            assert(k != b.len() - 1);
            assert(b2[k] == i as usize);
        }
        assert forall|k: int| 0 <= k < a2.len() implies #[trigger] a2[k] < x by {
            assert(a[k] < a[a.len() - 1]);
        }
        assert forall|k: int| 0 <= k < b2.len() implies #[trigger] b2[k] < x by {
            assert(b[k] < b[b.len() - 1]);
        }
        lemma_same_below(a2, b2, rs, s, x as int);
        assert(a =~= a2.push(x));
        assert(b =~= b2.push(x));
    } else if a.len() > 0 {
        assert(b.contains(a[0]));
    } else if b.len() > 0 {
        assert(a.contains(b[0]));
    }
}

/// A remote just accepted by a server with timer `t`: in the accepted state,
/// with nothing buffered, and a timer at `t`'s tick and rate with empty
/// estimators.
pub open spec fn new_remote<C: Connection, M: Message>(r: Remote<C, M>, t: Timer) -> bool {
    &&& r.state_spec() == RemoteState::Accepted
    &&& r.incoming() == Seq::<u8>::empty()
    &&& r.outgoing() == Seq::<u8>::empty()
    &&& r.queue() == Seq::<InternalMessage>::empty()
    &&& r.timer().tick() == t.tick()
    &&& r.timer().ticks_per_second() == t.ticks_per_second()
    &&& r.timer().rtt_window() == Seq::<i64>::empty()
    &&& r.timer().clock_window() == Seq::<i64>::empty()
}

/// Accepts connections through a transport host and drives the remotes in
/// three phases per tick: accept, read, and write/close.
pub struct Server<P: Protocol, M: Message, D> {
    listener: Option<P::Host>,
    remotes: Vec<(Remote<P::Connection, M>, D)>,
    timer: Timer,
    accepted_done: bool,
    connected_done: bool,
    closed_done: bool,
}

impl<P: Protocol, M: Message, D> Server<P, M, D> {
    pub closed spec fn wf(&self) -> bool {
        &&& self.timer.wf()
        &&& forall|i: int| 0 <= i < self.remotes@.len() ==> (#[trigger] self.remotes@[i]).0.wf()
    }

    pub closed spec fn listening(&self) -> bool {
        self.listener is Some
    }

    /// The active remotes with their user data, in order.
    pub closed spec fn remotes(&self) -> Seq<(Remote<P::Connection, M>, D)> {
        self.remotes@
    }

    pub closed spec fn timer(&self) -> Timer {
        self.timer
    }

    pub closed spec fn accepted_done(&self) -> bool {
        self.accepted_done
    }

    pub closed spec fn connected_done(&self) -> bool {
        self.connected_done
    }

    pub closed spec fn closed_done(&self) -> bool {
        self.closed_done
    }

    pub fn new(ticks_per_second: u8) -> (r: Self)
        requires
            ticks_per_second >= 1,
        ensures
            r.wf(),
            !r.listening(),
            r.remotes().len() == 0,
            r.timer().fresh(ticks_per_second),
            !r.accepted_done() && !r.connected_done() && !r.closed_done(),
    {
        Server {
            listener: None,
            remotes: Vec::new(),
            timer: Timer::new(ticks_per_second),
            accepted_done: false,
            connected_done: false,
            closed_done: false,
        }
    }

    /// The number of active remotes.
    pub fn len(&self) -> (r: usize)
        ensures
            r == self.remotes().len(),
    {
        self.remotes.len()
    }

    /// The active remote at `index`.
    pub fn remote(&self, index: usize) -> (r: &Remote<P::Connection, M>)
        requires
            index < self.remotes().len(),
        ensures
            *r == self.remotes()[index as int].0,
    {
        &self.remotes[index].0
    }

    /// The user data of the active remote at `index`.
    pub fn data(&self, index: usize) -> (r: &D)
        requires
            index < self.remotes().len(),
        ensures
            *r == self.remotes()[index as int].1,
    {
        &self.remotes[index].1
    }

    /// Listens on `addr`; `Err(AlreadyExists)` when already listening. The
    /// pacing timer starts over.
    pub fn bind(&mut self, addr: &str) -> (r: Result<(), NetError>)
        requires
            old(self).wf(),
        ensures
            final(self).wf(),
            old(self).listening() ==> r == Err::<(), NetError>(NetError::AlreadyExists) && *final(self)
                == *old(self),
            !old(self).listening() && r is Ok ==> final(self).listening() && final(self).timer().fresh(
                old(self).timer().ticks_per_second(),
            ),
            r is Err ==> *final(self) == *old(self),
            final(self).remotes() == old(self).remotes(),
    {
        if self.listener.is_none() {
            match P::Host::bind(addr) {
                Ok(listener) => self.bind_host(listener),
                Err(e) => Err(e),
            }
        } else {
            Err(NetError::AlreadyExists)
        }
    }

    /// Listens through an already bound `host`; `Err(AlreadyExists)` when
    /// already listening. The pacing timer starts over.
    pub fn bind_host(&mut self, host: P::Host) -> (r: Result<(), NetError>)
        requires
            old(self).wf(),
        ensures
            final(self).wf(),
            old(self).listening() ==> r == Err::<(), NetError>(NetError::AlreadyExists) && *final(self)
                == *old(self),
            !old(self).listening() ==> r is Ok && final(self).listening() && final(self).timer().fresh(
                old(self).timer().ticks_per_second(),
            ),
            final(self).remotes() == old(self).remotes(),
    {
        if self.listener.is_none() {
            self.listener = Some(host);
            self.timer.reset();
            Ok(())
        } else {
            Err(NetError::AlreadyExists)
        }
    }

    /// Positions of the active remotes in state `state`, in order.
    fn positions(&self, state: RemoteState) -> (r: Vec<usize>)
        ensures
            lists_state(r@, self.remotes(), state),
    {
        let mut r: Vec<usize> = Vec::new();
        let mut i: usize = 0;
        while i < self.remotes.len()
            invariant
                i <= self.remotes@.len(),
                forall|k: int| 0 <= k < r@.len() ==> #[trigger] r@[k] < i && self.remotes@[r@[k] as int].0.state_spec()
                    == state,
                forall|k: int, l: int| 0 <= k < l < r@.len() ==> r@[k] < r@[l],
                forall|j: int| 0 <= j < i && #[trigger] self.remotes@[j].0.state_spec() == state ==> r@.contains(
                    j as usize,
                ),
            decreases self.remotes.len() - i,
        {
            if self.remotes[i].0.state() == state {
                let ghost before = r@;
                r.push(i);
                proof {
                    assert forall|j: int| 0 <= j < i + 1 && #[trigger] self.remotes@[j].0.state_spec() == state
                        implies r@.contains(j as usize) by {
                        if j < i {
                            let k = choose|k: int| 0 <= k < before.len() && before[k] == j as usize;
                            assert(r@[k] == j as usize);
                        } else {
                            assert(r@[r@.len() - 1] == j as usize);
                        }
                    }
                }
            }
            i = i + 1;
        }
        r
    }

    /// Keeps an accepted `connection` as a new accepted remote with user data
    /// `d` and a timer at the server's tick when `answer` is `Some(d)`;
    /// otherwise shuts it down.
    fn take_connection(&mut self, connection: P::Connection, answer: Option<D>)
        requires
            old(self).wf(),
        ensures
            final(self).wf(),
            answer is None ==> final(self).remotes() == old(self).remotes(),
            answer matches Some(d) ==> {
                &&& final(self).remotes().len() == old(self).remotes().len() + 1
                &&& final(self).remotes().drop_last() == old(self).remotes()
                &&& new_remote(final(self).remotes().last().0, old(self).timer())
                &&& final(self).remotes().last().0.connection() == connection
                &&& final(self).remotes().last().1 == d
            },
            final(self).timer() == old(self).timer(),
            final(self).listener == old(self).listener,
            final(self).accepted_done == old(self).accepted_done,
            final(self).connected_done == old(self).connected_done,
            final(self).closed_done == old(self).closed_done,
    {
        match answer {
            Some(d) => {
                let timer = self.timer.clone();
                let remote = Remote::from_connection(connection, timer);
                self.remotes.push((remote, d));
                proof {
                    assert(self.remotes@.drop_last() =~= old(self).remotes@);
                }
            },
            None => {
                let mut connection = connection;
                let _ = connection.shutdown();
            },
        }
    }

    /// The accept phase: takes every pending connection, asks `data` for the
    /// user data of each by its peer address, and keeps it as a new accepted
    /// remote, with a timer at the server's tick, when `data` gives some (a
    /// connection it refuses, or whose address is unknown, is shut down).
    /// Returns the positions of the remotes in the accepted state. Within a
    /// tick only the first call accepts; later ones change nothing.
    pub fn accepted_with<F: FnMut(String) -> Option<D>>(&mut self, data: F) -> (r: Vec<usize>)
        requires
            old(self).wf(),
            forall|f: F, a: String| call_requires(f, (a,)),
        ensures
            final(self).wf(),
            lists_state(r@, final(self).remotes(), RemoteState::Accepted),
            final(self).accepted_done(),
            old(self).accepted_done() ==> *final(self) == *old(self),
            final(self).remotes().len() >= old(self).remotes().len(),
            final(self).remotes().subrange(0, old(self).remotes().len() as int) == old(self).remotes(),
            forall|i: int|
                old(self).remotes().len() <= i < final(self).remotes().len() ==> new_remote(
                    (#[trigger] final(self).remotes()[i]).0,
                    old(self).timer(),
                ),
            !old(self).listening() ==> final(self).remotes() == old(self).remotes(),
            final(self).listening() == old(self).listening(),
            final(self).connected_done() == old(self).connected_done(),
            final(self).closed_done() == old(self).closed_done(),
            final(self).timer() == old(self).timer(),
    {
        let mut data = data;
        if !self.accepted_done {
            self.accepted_done = true;
            let mut listener = self.listener.take();
            if let Some(host) = &mut listener {
                let ghost start = self.remotes@;
                let mut count: usize = 0;
                let mut more = true;
                while more && count < usize::MAX
                    invariant
                        self.timer.wf(),
                        self.timer == old(self).timer,
                        self.accepted_done,
                        self.connected_done == old(self).connected_done,
                        self.closed_done == old(self).closed_done,
                        self.listener is None,
                        start == old(self).remotes@,
                        forall|f: F, a: String| call_requires(f, (a,)),
                        self.remotes@.len() >= start.len(),
                        self.remotes@.subrange(0, start.len() as int) == start,
                        forall|i: int| 0 <= i < self.remotes@.len() ==> (#[trigger] self.remotes@[i]).0.wf(),
                        forall|i: int|
                            start.len() <= i < self.remotes@.len() ==> new_remote(
                                (#[trigger] self.remotes@[i]).0,
                                old(self).timer,
                            ),
                    decreases usize::MAX - count,
                {
                    match host.accept() {
                        Ok(connection) => {
                            let mut connection = connection;
                            match connection.peer_addr() {
                                Ok(addr) => {
                                    let answer = data(addr);
                                    let ghost before = self.remotes@;
                                    self.take_connection(connection, answer);
                                    proof {
                                        if answer is Some {
                                            assert forall|i: int| 0 <= i < before.len() implies self.remotes@[i] == before[i] by {
                                                assert(self.remotes@.drop_last()[i] == self.remotes@[i]);
                                            }
                                            assert(self.remotes@[before.len() as int] == self.remotes@.last());
                                            assert(new_remote(self.remotes@[before.len() as int].0, old(self).timer));
                                            assert forall|i: int| start.len() <= i < self.remotes@.len() implies new_remote(
                                                (#[trigger] self.remotes@[i]).0,
                                                old(self).timer,
                                            ) by {
                                                if i < before.len() {
                                                    assert(self.remotes@[i] == before[i]);
                                                    assert(new_remote(before[i].0, old(self).timer));
                                                }
                                            }
                                        }
                                        assert(self.remotes@.subrange(0, start.len() as int) =~= before.subrange(
                                            0,
                                            start.len() as int,
                                        ));
                                    }
                                },
                                Err(_) => {
                                    self.take_connection(connection, None);
                                },
                            }
                        },
                        Err(_) => {
                            more = false;
                        },
                    }
                    count = count + 1;
                }
            }
            self.listener = listener;
        }
        self.positions(RemoteState::Accepted)
    }

    /// The read phase: when listening, every active remote is marked
    /// connected (if accepted) and reads what its transport has; a failed
    /// read makes it closing. Returns the positions of the remotes in the
    /// connected state. Within a tick only the first call reads; later ones
    /// change nothing.
    pub fn connected(&mut self) -> (r: Vec<usize>)
        requires
            old(self).wf(),
        ensures
            final(self).wf(),
            lists_state(r@, final(self).remotes(), RemoteState::Connected),
            final(self).connected_done(),
            old(self).connected_done() ==> *final(self) == *old(self),
            final(self).remotes().len() == old(self).remotes().len(),
            forall|i: int|
                0 <= i < old(self).remotes().len() ==> (#[trigger] final(self).remotes()[i]).1 == old(
                    self,
                ).remotes()[i].1,
            forall|i: int|
                0 <= i < old(self).remotes().len() && !old(self).connected_done() && old(self).listening()
                    ==> read_step(old(self).remotes()[i].0, (#[trigger] final(self).remotes()[i]).0),
            !old(self).listening() ==> final(self).remotes() == old(self).remotes(),
            final(self).listening() == old(self).listening(),
            final(self).accepted_done() == old(self).accepted_done(),
            final(self).closed_done() == old(self).closed_done(),
            final(self).timer() == old(self).timer(),
    {
        if !self.connected_done {
            self.connected_done = true;
            if self.listener.is_some() {
                let mut all: Vec<(Remote<P::Connection, M>, D)> = Vec::new();
                std::mem::swap(&mut all, &mut self.remotes);
                let ghost start = all@;
                let ghost n = all@.len();
                while all.len() > 0
                    invariant
                        start == old(self).remotes@,
                        n == start.len(),
                        self.remotes@.len() + all@.len() == n,
                        all@ == start.subrange(self.remotes@.len() as int, n as int),
                        forall|i: int| 0 <= i < n ==> (#[trigger] start[i]).0.wf(),
                        forall|i: int| 0 <= i < self.remotes@.len() ==> (#[trigger] self.remotes@[i]).0.wf(),
                        forall|i: int|
                            0 <= i < self.remotes@.len() ==> (#[trigger] self.remotes@[i]).1 == start[i].1,
                        forall|i: int|
                            0 <= i < self.remotes@.len() ==> read_step(start[i].0, (#[trigger] self.remotes@[i]).0),
                        self.timer == old(self).timer,
                        self.listener == old(self).listener,
                        self.connected_done,
                        self.accepted_done == old(self).accepted_done,
                        self.closed_done == old(self).closed_done,
                    decreases all.len(),
                {
                    let ghost k = self.remotes@.len();
                    let mut e = all.remove(0);
                    proof {
                        assert(e == start[k as int]);
                        assert(all@ =~= start.subrange(k + 1 as int, n as int));
                    }
                    e.0.read();
                    self.remotes.push(e);
                }
            }
        }
        self.positions(RemoteState::Connected)
    }

    /// The write phase: every active remote runs its timer and writes (see
    /// `Remote::write`); those that end closed are removed, in order, and
    /// returned with their user data; the others stay, in order. Within a
    /// tick only the first call writes; later ones change nothing and return
    /// nothing.
    pub fn closed(&mut self) -> (r: Vec<(Remote<P::Connection, M>, D)>)
        requires
            old(self).wf(),
        ensures
            final(self).wf(),
            final(self).closed_done(),
            old(self).closed_done() ==> *final(self) == *old(self) && r@.len() == 0,
            !old(self).closed_done() ==> exists|w: Seq<(Remote<P::Connection, M>, D)>|
                {
                    &&& #[trigger] all_written(old(self).remotes(), w)
                    &&& final(self).remotes() == kept(w)
                    &&& r@ == closed_of(w)
                },
            forall|k: int| 0 <= k < r@.len() ==> (#[trigger] r@[k]).0.state_spec() == RemoteState::Closed,
            final(self).listening() == old(self).listening(),
            final(self).accepted_done() == old(self).accepted_done(),
            final(self).connected_done() == old(self).connected_done(),
            final(self).timer() == old(self).timer(),
    {
        let mut closed: Vec<(Remote<P::Connection, M>, D)> = Vec::new();
        if !self.closed_done {
            self.closed_done = true;
            let mut all: Vec<(Remote<P::Connection, M>, D)> = Vec::new();
            std::mem::swap(&mut all, &mut self.remotes);
            let ghost start = all@;
            let ghost n = all@.len();
            let ghost mut w: Seq<(Remote<P::Connection, M>, D)> = Seq::empty();
            let mut k: usize = 0;
            let total = all.len();
            assert(n == total);
            while all.len() > 0
                invariant
                    start == old(self).remotes@,
                    n == start.len(),
                    k + all@.len() == n,
                    n <= usize::MAX,
                    all@ == start.subrange(k as int, n as int),
                    forall|i: int| 0 <= i < n ==> (#[trigger] start[i]).0.wf(),
                    forall|i: int| 0 <= i < self.remotes@.len() ==> (#[trigger] self.remotes@[i]).0.wf(),
                    all_written(start.subrange(0, k as int), w),
                    self.remotes@ == kept(w),
                    closed@ == closed_of(w),
                    forall|j: int| 0 <= j < closed@.len() ==> (#[trigger] closed@[j]).0.state_spec() == RemoteState::Closed,
                    self.timer == old(self).timer,
                    self.listener == old(self).listener,
                    self.closed_done,
                    self.accepted_done == old(self).accepted_done,
                    self.connected_done == old(self).connected_done,
                decreases all.len(),
            {
                let mut e = all.remove(0);
                let ghost before = e;
                proof {
                    assert(e == start[k as int]);
                    assert(all@ =~= start.subrange(k + 1 as int, n as int));
                }
                e.0.write();
                let ghost w2 = w.push(e);
                proof {
                    assert(w2.drop_last() =~= w);
                    let a2 = start.subrange(0, k + 1 as int);
                    let a1 = start.subrange(0, k as int);
                    assert(w.len() == k);
                    assert forall|i: int| 0 <= i < a2.len() implies #[trigger] w2[i].1 == a2[i].1 && written_once(a2[i].0, w2[i].0) by {
                        if i < k {
                            assert(a2[i] == a1[i]);
                            assert(w2[i] == w[i]);
                            assert(w[i].1 == a1[i].1 && written_once(a1[i].0, w[i].0));
                        } else {
                            assert(a2[i] == before);
                            assert(w2[i] == e);
                            assert(written_once(before.0, e.0));
                        }
                    }
                }
                if e.0.closed() {
                    closed.push(e);
                } else {
                    self.remotes.push(e);
                }
                proof {
                    w = w2;
                    assert(all_written(start.subrange(0, k + 1 as int), w));
                }
                k = k + 1;
            }
            proof {
                assert(start.subrange(0, n as int) =~= start);
                assert(all_written(old(self).remotes(), w) && self.remotes@ == kept(w) && closed@ == closed_of(w));
            }
        }
        closed
    }

    /// Ends the tick: the three phases may run again, and the returned number
    /// of nanoseconds is how long the caller must block to keep the tick rate
    /// (see `Timer::pace`).
    pub fn sleep(&mut self) -> (r: u64)
        requires
            old(self).wf(),
        ensures
            final(self).wf(),
            !final(self).accepted_done() && !final(self).connected_done() && !final(self).closed_done(),
            final(self).remotes() == old(self).remotes(),
            final(self).listening() == old(self).listening(),
            exists|now: u64| #[trigger] crate::time::paced(old(self).timer(), final(self).timer(), now, r),
            r <= crate::time::desired_wait(old(self).timer().ticks_per_second()),
    {
        self.accepted_done = false;
        self.connected_done = false;
        self.closed_done = false;
        let r = self.timer.sleep();
        proof {
            let now = choose|now: u64| crate::time::paced(old(self).timer, self.timer, now, r);
            assert(crate::time::paced(old(self).timer(), self.timer(), now, r));
        }
        r
    }

    /// Stops listening: every active remote is asked to close and shut down,
    /// and none stays active. `Err(NotConnected)` when not listening.
    pub fn shutdown(&mut self) -> (r: Result<(), NetError>)
        requires
            old(self).wf(),
        ensures
            final(self).wf(),
            r is Ok <==> old(self).listening(),
            r is Ok ==> !final(self).listening() && final(self).remotes().len() == 0,
            r is Err ==> r == Err::<(), NetError>(NetError::NotConnected) && *final(self) == *old(self),
    {
        match self.listener.take() {
            Some(host) => {
                let _ = host.shutdown();
                while self.remotes.len() > 0
                    invariant
                        self.timer.wf(),
                        self.listener is None,
                        forall|i: int| 0 <= i < self.remotes@.len() ==> (#[trigger] self.remotes@[i]).0.wf(),
                    decreases self.remotes.len(),
                {
                    let mut e = self.remotes.remove(0);
                    let _ = e.0.close();
                    e.0.try_close();
                }
                Ok(())
            },
            None => Err(NetError::NotConnected),
        }
    }

    /// Frames `message` for the remote at `index` (see `Remote::send`).
    pub fn send_to(&mut self, index: usize, message: M)
        requires
            old(self).wf(),
            index < old(self).remotes().len(),
        ensures
            final(self).wf(),
            final(self).remotes() == old(self).remotes().update(index as int, final(self).remotes()[index as int]),
            final(self).remotes()[index as int].1 == old(self).remotes()[index as int].1,
            final(self).remotes()[index as int].0.state_spec() == old(self).remotes()[index as int].0.state_spec(),
            final(self).listening() == old(self).listening(),
    {
        let mut e = self.remotes.remove(index);
        e.0.send(message);
        self.remotes.insert(index, e);
        proof {
            assert(self.remotes@ =~= old(self).remotes@.update(index as int, self.remotes@[index as int]));
        }
    }

    /// The next application message of the remote at `index` (see
    /// `Remote::receive`).
    pub fn receive_from(&mut self, index: usize) -> (r: Option<M>)
        requires
            old(self).wf(),
            index < old(self).remotes().len(),
        ensures
            final(self).wf(),
            M::specified() ==> r == crate::message::scan::<M, InternalMessage>(old(self).remotes()[index as int].0.incoming(), 0).1,
            final(self).remotes() == old(self).remotes().update(index as int, final(self).remotes()[index as int]),
            final(self).remotes()[index as int].1 == old(self).remotes()[index as int].1,
            final(self).remotes()[index as int].0.state_spec() == old(self).remotes()[index as int].0.state_spec(),
            final(self).listening() == old(self).listening(),
    {
        let mut e = self.remotes.remove(index);
        let r = e.0.receive();
        self.remotes.insert(index, e);
        proof {
            assert(self.remotes@ =~= old(self).remotes@.update(index as int, self.remotes@[index as int]));
        }
        r
    }

    /// Asks the remote at `index` to close (see `Remote::close`).
    pub fn close_remote(&mut self, index: usize) -> (r: Result<(), NetError>)
        requires
            old(self).wf(),
            index < old(self).remotes().len(),
        ensures
            final(self).wf(),
            r is Ok <==> can_close(old(self).remotes()[index as int].0.state_spec()),
            final(self).remotes()[index as int].0.state_spec() == after_close(
                old(self).remotes()[index as int].0.state_spec(),
            ),
            final(self).remotes() == old(self).remotes().update(index as int, final(self).remotes()[index as int]),
            final(self).remotes()[index as int].1 == old(self).remotes()[index as int].1,
            final(self).listening() == old(self).listening(),
    {
        let mut e = self.remotes.remove(index);
        let r = e.0.close();
        self.remotes.insert(index, e);
        proof {
            assert(self.remotes@ =~= old(self).remotes@.update(index as int, self.remotes@[index as int]));
        }
        r
    }
}

} // verus!
