//! Tick-synchronised client/server networking: a framed wire protocol that
//! interleaves control and application messages, ping/pong clock
//! synchronisation with moving-average estimators, a per-connection state
//! machine, and fixed-rate tick pacing, over a pluggable transport.

pub mod average;
pub mod client;
pub mod message;
pub mod protocol;
pub mod server;
pub mod time;

pub use crate::average::MovingAverage;
pub use crate::client::Client;
pub use crate::message::{next_message, InternalMessage, Message};
pub use crate::protocol::{Connection, Host, NetError, Protocol};
pub use crate::server::{Remote, RemoteState, Server};
pub use crate::time::{precise_time_ms, Timer};

