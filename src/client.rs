//! The client: one connection to a server, with its own timer.
use vstd::prelude::*;
use std::marker::PhantomData;
use std::time::Duration;
use crate::message::{InternalMessage, Message, next_message, frame, INTERNAL_TAG, APPLICATION_TAG};
use crate::protocol::{Connection, NetError, Protocol};
use crate::time::Timer;

verus! {

/// A single-connection peer of a server.
pub struct Client<P: Protocol, M: Message> {
    connection: Option<P::Connection>,
    incoming: Vec<u8>,
    internal_messages: Vec<InternalMessage>,
    timer: Timer,
    message: PhantomData<M>,
}

impl<P: Protocol, M: Message> Client<P, M> {
    pub closed spec fn wf(&self) -> bool {
        self.timer.wf()
    }

    pub closed spec fn is_connected(&self) -> bool {
        self.connection is Some
    }

    /// Bytes received and not yet scanned.
    pub closed spec fn incoming(&self) -> Seq<u8> {
        self.incoming@
    }

    /// Internal messages received and not yet handled by the timer.
    pub closed spec fn queue(&self) -> Seq<InternalMessage> {
        self.internal_messages@
    }

    pub closed spec fn timer(&self) -> Timer {
        self.timer
    }

    pub fn new(ticks_per_second: u8) -> (r: Self)
        requires
            ticks_per_second >= 1,
        ensures
            r.wf(),
            !r.is_connected(),
            r.incoming() == Seq::<u8>::empty(),
            r.queue() == Seq::<InternalMessage>::empty(),
            r.timer().fresh(ticks_per_second),
    {
        Client {
            connection: None,
            incoming: Vec::new(),
            internal_messages: Vec::new(),
            timer: Timer::new(ticks_per_second),
            message: PhantomData,
        }
    }

    /// Smoothed round-trip time to the server in microseconds.
    pub fn rtt(&self) -> (r: i64)
        requires
            self.wf(),
        ensures
            r == crate::average::mean(self.timer().rtt_window()),
            r >= 0,
    {
        self.timer.rtt()
    }

    /// Smoothed clock offset to the server in microseconds.
    pub fn clock(&self) -> (r: i64)
        requires
            self.wf(),
        ensures
            r == crate::average::mean(self.timer().clock_window()),
    {
        self.timer.clock()
    }

    /// The address of the server; `Err(NotConnected)` without a connection.
    pub fn peer_addr(&self) -> (r: Result<String, NetError>)
        ensures
            !self.is_connected() ==> r == Err::<String, NetError>(NetError::NotConnected),
    {
        match &self.connection {
            Some(connection) => connection.peer_addr(),
            None => Err(NetError::NotConnected),
        }
    }

    /// Connects to `addr`, waiting at most `timeout`; `Err(AlreadyExists)`
    /// when already connected. The timer starts over on success.
    pub fn connect(&mut self, addr: &str, timeout: Duration) -> (r: Result<(), NetError>)
        requires
            old(self).wf(),
        ensures
            final(self).wf(),
            old(self).is_connected() ==> r == Err::<(), NetError>(NetError::AlreadyExists) && *final(self)
                == *old(self),
            !old(self).is_connected() && r is Ok ==> final(self).is_connected() && final(self).timer().fresh(
                old(self).timer().ticks_per_second(),
            ),
            r is Err ==> *final(self) == *old(self),
            final(self).incoming() == old(self).incoming(),
            final(self).queue() == old(self).queue(),
    {
        if self.connection.is_none() {
            match P::Connection::connect(addr, timeout) {
                Ok(connection) => self.connect_with(connection),
                Err(e) => Err(e),
            }
        } else {
            Err(NetError::AlreadyExists)
        }
    }

    /// Uses an already open `connection`; `Err(AlreadyExists)` when already
    /// connected. The timer starts over on success.
    pub fn connect_with(&mut self, connection: P::Connection) -> (r: Result<(), NetError>)
        requires
            old(self).wf(),
        ensures
            final(self).wf(),
            old(self).is_connected() ==> r == Err::<(), NetError>(NetError::AlreadyExists) && *final(self)
                == *old(self),
            !old(self).is_connected() ==> r is Ok && final(self).is_connected() && final(self).timer().fresh(
                old(self).timer().ticks_per_second(),
            ),
            final(self).incoming() == old(self).incoming(),
            final(self).queue() == old(self).queue(),
    {
        if self.connection.is_none() {
            self.connection = Some(connection);
            self.timer.reset();
            Ok(())
        } else {
            Err(NetError::AlreadyExists)
        }
    }

    /// Frames `message` as an application message and writes it at once;
    /// `Err(NotConnected)` without a connection, `Err(InvalidData)` when it
    /// cannot be encoded.
    pub fn send(&mut self, message: M) -> (r: Result<(), NetError>)
        ensures
            !old(self).is_connected() ==> r == Err::<(), NetError>(NetError::NotConnected),
            old(self).is_connected() && M::specified() && message.encoded() is None ==> r == Err::<
                (),
                NetError,
            >(NetError::InvalidData),
            final(self).is_connected() == old(self).is_connected(),
            final(self).incoming() == old(self).incoming(),
            final(self).queue() == old(self).queue(),
            final(self).timer() == old(self).timer(),
    {
        self.send_raw(APPLICATION_TAG, message)
    }

    /// Reads what the connection has, then takes the next application
    /// message out of the received bytes (internal messages met on the way
    /// are queued for the timer). `Err(NotConnected)` without a connection;
    /// a read error is passed on.
    pub fn receive(&mut self) -> (r: Result<Option<M>, NetError>)
        ensures
            !old(self).is_connected() ==> r == Err::<Option<M>, NetError>(NetError::NotConnected)
                && final(self).incoming() == old(self).incoming(),
            r is Err ==> final(self).queue() == old(self).queue(),
            final(self).is_connected() == old(self).is_connected(),
            final(self).timer() == old(self).timer(),
            r is Ok && M::specified() ==> exists|buf: Seq<u8>|
                {
                    let t = #[trigger] crate::message::scan::<M, InternalMessage>(buf, 0);
                    &&& buf.len() >= old(self).incoming().len()
                    &&& buf.subrange(0, old(self).incoming().len() as int) == old(self).incoming()
                    &&& r == Ok::<Option<M>, NetError>(t.1)
                    &&& final(self).queue() == old(self).queue() + t.0
                    &&& final(self).incoming() == buf.subrange(t.2 as int, buf.len() as int)
                },
    {
        match &mut self.connection {
            Some(connection) => {
                match connection.read(&mut self.incoming) {
                    Ok(_) => {},
                    Err(e) => {
                        return Err(e);
                    },
                }
                let ghost buf = self.incoming@;
                let m = next_message(&mut self.incoming, &mut self.internal_messages);
                Ok(m)
            },
            None => Err(NetError::NotConnected),
        }
    }

    /// Ends the tick: runs the timer on the queued internal messages and
    /// writes what it sends, then returns how many nanoseconds the caller
    /// must block to keep the tick rate (see `Timer::pace`).
    pub fn sleep(&mut self) -> (r: u64)
        requires
            old(self).wf(),
        ensures
            final(self).wf(),
            final(self).queue() == Seq::<InternalMessage>::empty(),
            final(self).incoming() == old(self).incoming(),
            final(self).is_connected() == old(self).is_connected(),
            exists|mid: Timer, out: Seq<InternalMessage>, now: u64, due: bool, mono: u64|
                #![trigger crate::time::receive_step(old(self).timer(), mid, old(self).queue(), out, now, due), crate::time::paced(mid, final(self).timer(), mono, r)]
                crate::time::receive_step(old(self).timer(), mid, old(self).queue(), out, now, due)
                    && crate::time::paced(mid, final(self).timer(), mono, r),
            r <= crate::time::desired_wait(old(self).timer().ticks_per_second()),
    {
        let mut messages: Vec<InternalMessage> = Vec::new();
        std::mem::swap(&mut messages, &mut self.internal_messages);
        let out = self.timer.receive(messages);
        let ghost mid = self.timer;
        let ghost (now, due) = choose|now: u64, due: bool|
            crate::time::receive_step(old(self).timer, mid, old(self).internal_messages@, out@, now, due);
        let mut i: usize = 0;
        while i < out.len()
            invariant
                self.timer == mid,
                mid.wf(),
                self.internal_messages@ == Seq::<InternalMessage>::empty(),
                self.incoming@ == old(self).incoming@,
                self.connection is Some == old(self).connection is Some,
            decreases out.len() - i,
        {
            let _ = self.send_raw(INTERNAL_TAG, out[i]);
            i = i + 1;
        }
        let r = self.timer.sleep();
        proof {
            let mono = choose|mono: u64| crate::time::paced(mid, self.timer, mono, r);
            assert(crate::time::receive_step(old(self).timer(), mid, old(self).queue(), out@, now, due));
            assert(crate::time::paced(mid, self.timer(), mono, r));
        }
        r
    }

    /// Shuts the connection down and drops it; `Err(NotConnected)` without
    /// one.
    pub fn disconnect(&mut self) -> (r: Result<(), NetError>)
        ensures
            !final(self).is_connected(),
            !old(self).is_connected() ==> r == Err::<(), NetError>(NetError::NotConnected),
            final(self).incoming() == old(self).incoming(),
            final(self).queue() == old(self).queue(),
            final(self).timer() == old(self).timer(),
    {
        match self.connection.take() {
            Some(connection) => {
                let mut connection = connection;
                connection.shutdown()
            },
            None => Err(NetError::NotConnected),
        }
    }

    fn send_raw<T: Message>(&mut self, prefix: u8, message: T) -> (r: Result<(), NetError>)
        ensures
            !old(self).is_connected() ==> r == Err::<(), NetError>(NetError::NotConnected),
            old(self).is_connected() && T::specified() && message.encoded() is None ==> r == Err::<
                (),
                NetError,
            >(NetError::InvalidData),
            final(self).is_connected() == old(self).is_connected(),
            final(self).incoming() == old(self).incoming(),
            final(self).queue() == old(self).queue(),
            final(self).timer() == old(self).timer(),
    {
        match &mut self.connection {
            Some(connection) => {
                let mut bytes: Vec<u8> = Vec::new();
                if frame(prefix, &message, &mut bytes) {
                    match connection.write(bytes.as_slice()) {
                        Ok(_) => Ok(()),
                        Err(e) => Err(e),
                    }
                } else {
                    Err(NetError::InvalidData)
                }
            },
            None => Err(NetError::NotConnected),
        }
    }
}

} // verus!
