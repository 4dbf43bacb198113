//! The transport contract: a listening host and a connection, implemented by
//! concrete backends such as stream sockets.
use vstd::prelude::*;
use std::time::Duration;

verus! {

/// Why a transport or protocol operation failed.
#[derive(Debug, Clone, Copy, PartialEq, Eq, Structural)]
pub enum NetError {
    /// The operation needs a connection or binding that is absent.
    NotConnected,
    /// A connection or binding is already established.
    AlreadyExists,
    /// The peer closed the connection.
    ConnectionReset,
    /// A payload could not be encoded or decoded.
    InvalidData,
    /// An address could not be resolved.
    AddrNotAvailable,
    /// Nothing is pending on a non-blocking transport.
    WouldBlock,
    /// The operation timed out.
    TimedOut,
    /// The peer refused the connection.
    ConnectionRefused,
    /// Any other transport failure.
    Other,
}

/// What a stream backend's read reports, given the buffer's length before
/// and after reading what is available, and whether the read reached the end
/// of the stream (rather than stopping because nothing more is available
/// now): the number of bytes appended, except that a stream that ended
/// without a byte was closed by the peer.
pub fn stream_read_result(before: usize, after: usize, ended: bool) -> (r: Result<usize, NetError>)
    requires
        before <= after,
    ensures
        ended && before == after ==> r == Err::<usize, NetError>(NetError::ConnectionReset),
        !(ended && before == after) ==> r == Ok::<usize, NetError>((after - before) as usize),
{
    if ended && before == after {
        Err(NetError::ConnectionReset)
    } else {
        Ok(after - before)
    }
}

/// One connection of a transport backend.
pub trait Connection: Sized {
    /// Opens a connection to `addr`, waiting at most `timeout`.
    fn connect(addr: &str, timeout: Duration) -> Result<Self, NetError>;

    /// The address of the peer.
    fn peer_addr(&self) -> Result<String, NetError>;

    /// Appends the bytes currently available to `buffer` and returns how many
    /// were read (0 on a non-blocking backend when none are);
    /// `Err(ConnectionReset)` when the peer has closed the stream.
    fn read(&mut self, buffer: &mut Vec<u8>) -> (r: Result<usize, NetError>)
        ensures
            final(buffer)@.len() >= old(buffer)@.len(),
            final(buffer)@.subrange(0, old(buffer)@.len() as int) == old(buffer)@,
    ;

    /// Writes `bytes` and returns how many were written.
    fn write(&mut self, bytes: &[u8]) -> Result<usize, NetError>;

    /// Closes the connection in both directions.
    fn shutdown(&mut self) -> Result<(), NetError>;
}

/// The listening side of a transport backend.
pub trait Host: Sized {
    type Connection: Connection;

    /// Listens on `addr`.
    fn bind(addr: &str) -> Result<Self, NetError>;

    /// Takes one pending connection without blocking; `Err(WouldBlock)` when
    /// none is pending.
    fn accept(&mut self) -> Result<Self::Connection, NetError>;

    /// Stops listening.
    fn shutdown(self) -> Result<(), NetError>;
}

/// A transport backend: its host and connection types.
pub trait Protocol {
    type Host: Host<Connection = Self::Connection>;

    type Connection: Connection;
}

} // verus!
