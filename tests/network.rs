use std::cell::{Cell, RefCell};
use std::rc::Rc;
use std::time::Duration;

use cobalt_two::protocol::stream_read_result;
use cobalt_two::{Client, Connection, Host, Message, NetError, Protocol, RemoteState, Server};

#[derive(Debug, Clone, PartialEq)]
struct Text(String);

impl Message for Text {
    fn encode(&self) -> Option<Vec<u8>> {
        bincode::serialize(&self.0, bincode::Infinite).ok()
    }

    fn decode(bytes: &[u8]) -> Option<(Self, usize)> {
        let s: String = bincode::deserialize(bytes).ok()?;
        let n = bincode::serialized_size(&s) as usize;
        Some((Text(s), n))
    }
}

#[derive(Debug, Clone, PartialEq)]
struct Unencodable;

impl Message for Unencodable {
    fn encode(&self) -> Option<Vec<u8>> {
        None
    }

    fn decode(_bytes: &[u8]) -> Option<(Self, usize)> {
        None
    }
}

type Pipe = Rc<RefCell<Vec<u8>>>;

struct MemConn {
    inbox: Pipe,
    outbox: Pipe,
    open: Rc<Cell<bool>>,
    peer: String,
}

impl Connection for MemConn {
    fn connect(_addr: &str, _timeout: Duration) -> Result<Self, NetError> {
        Err(NetError::ConnectionRefused)
    }

    fn peer_addr(&self) -> Result<String, NetError> {
        Ok(self.peer.clone())
    }

    fn read(&mut self, buffer: &mut Vec<u8>) -> Result<usize, NetError> {
        let mut inbox = self.inbox.borrow_mut();
        if inbox.is_empty() {
            if self.open.get() {
                Ok(0)
            } else {
                Err(NetError::ConnectionReset)
            }
        } else {
            let n = inbox.len();
            buffer.extend(inbox.drain(..));
            Ok(n)
        }
    }

    fn write(&mut self, bytes: &[u8]) -> Result<usize, NetError> {
        if self.open.get() {
            self.outbox.borrow_mut().extend_from_slice(bytes);
            Ok(bytes.len())
        } else {
            Err(NetError::ConnectionReset)
        }
    }

    fn shutdown(&mut self) -> Result<(), NetError> {
        self.open.set(false);
        Ok(())
    }
}

struct MemHost {
    backlog: Rc<RefCell<Vec<MemConn>>>,
}

impl Host for MemHost {
    type Connection = MemConn;

    fn bind(_addr: &str) -> Result<Self, NetError> {
        Err(NetError::AddrNotAvailable)
    }

    fn accept(&mut self) -> Result<MemConn, NetError> {
        let mut backlog = self.backlog.borrow_mut();
        if backlog.is_empty() {
            Err(NetError::WouldBlock)
        } else {
            Ok(backlog.remove(0))
        }
    }

    fn shutdown(self) -> Result<(), NetError> {
        Ok(())
    }
}

struct Mem;

impl Protocol for Mem {
    type Host = MemHost;
    type Connection = MemConn;
}

fn dial(backlog: &Rc<RefCell<Vec<MemConn>>>, name: &str) -> MemConn {
    let up: Pipe = Rc::new(RefCell::new(Vec::new()));
    let down: Pipe = Rc::new(RefCell::new(Vec::new()));
    let open = Rc::new(Cell::new(true));
    backlog.borrow_mut().push(MemConn {
        inbox: up.clone(),
        outbox: down.clone(),
        open: open.clone(),
        peer: name.to_string(),
    });
    MemConn { inbox: down, outbox: up, open, peer: "server".to_string() }
}

fn setup() -> (Server<Mem, Text, String>, Client<Mem, Text>, Rc<RefCell<Vec<MemConn>>>) {
    let backlog = Rc::new(RefCell::new(Vec::new()));
    let mut server: Server<Mem, Text, String> = Server::new(30);
    server.bind_host(MemHost { backlog: backlog.clone() }).unwrap();
    let mut client: Client<Mem, Text> = Client::new(30);
    client.connect_with(dial(&backlog, "c1")).unwrap();
    (server, client, backlog)
}

#[test]
fn server_receives_the_clients_message_within_one_tick() {
    let (mut server, mut client, _backlog) = setup();
    let accepted = server.accepted_with(|addr| Some(addr));
    assert_eq!(accepted, vec![0]);
    assert_eq!(server.data(0), "c1");
    client.send(Text("X".to_string())).unwrap();
    let connected = server.connected();
    assert_eq!(connected, vec![0]);
    assert_eq!(server.receive_from(0), Some(Text("X".to_string())));
    assert_eq!(server.receive_from(0), None);
    assert!(server.closed().is_empty());
    server.sleep();
}

#[test]
fn client_receives_the_servers_message_after_the_write_phase() {
    let (mut server, mut client, _backlog) = setup();
    server.accepted_with(|addr| Some(addr));
    server.send_to(0, Text("hello".to_string()));
    assert_eq!(client.receive().unwrap(), None);
    server.connected();
    server.closed();
    assert_eq!(client.receive().unwrap(), Some(Text("hello".to_string())));
    assert_eq!(client.receive().unwrap(), None);
}

#[test]
fn round_trip_estimates_stay_small_and_non_negative() {
    let (mut server, mut client, _backlog) = setup();
    server.accepted_with(|addr| Some(addr));
    let start = std::time::Instant::now();
    while start.elapsed() < Duration::from_millis(600) {
        server.accepted_with(|addr| Some(addr));
        for i in server.connected() {
            while server.receive_from(i).is_some() {}
        }
        server.closed();
        server.sleep();
        while client.receive().unwrap().is_some() {}
        client.sleep();
    }
    assert!(client.rtt() >= 0 && client.rtt() < 1_000_000);
    assert!(server.remote(0).rtt() >= 0 && server.remote(0).rtt() < 1_000_000);
}

#[test]
fn repeated_phases_within_a_tick_observe_the_same_remotes() {
    let (mut server, _client, backlog) = setup();
    let calls = Cell::new(0);
    let first = server.accepted_with(|addr| {
        calls.set(calls.get() + 1);
        Some(addr)
    });
    let _late = dial(&backlog, "c2");
    let second = server.accepted_with(|addr| {
        calls.set(calls.get() + 1);
        Some(addr)
    });
    assert_eq!(first, vec![0]);
    assert_eq!(second, first);
    assert_eq!(calls.get(), 1);
    assert_eq!(server.len(), 1);

    let c1 = server.connected();
    let c2 = server.connected();
    assert_eq!(c1, c2);
    assert_eq!(server.remote(0).state(), RemoteState::Connected);

    assert!(server.closed().is_empty());
    assert!(server.closed().is_empty());

    server.sleep();
    assert_eq!(server.accepted_with(|addr| Some(addr)), vec![1]);
    assert_eq!(server.len(), 2);
}

#[test]
fn refused_connections_are_shut_down() {
    let (mut server, mut client, _backlog) = setup();
    assert!(server.accepted_with(|_| None).is_empty());
    assert_eq!(server.len(), 0);
    assert_eq!(client.send(Text("lost".to_string())), Err(NetError::ConnectionReset));
}

#[test]
fn close_is_refused_once_closing_and_closes_after_one_write() {
    let (mut server, _client, _backlog) = setup();
    server.accepted_with(|addr| Some(addr));
    assert_eq!(server.remote(0).state(), RemoteState::Accepted);
    assert_eq!(server.close_remote(0), Ok(()));
    assert_eq!(server.remote(0).state(), RemoteState::Closing);
    assert_eq!(server.close_remote(0), Err(NetError::NotConnected));
    let closed = server.closed();
    assert_eq!(closed.len(), 1);
    assert_eq!(closed[0].0.state(), RemoteState::Closed);
    assert_eq!(closed[0].1, "c1");
    let mut remote = closed.into_iter().next().unwrap().0;
    assert_eq!(remote.close(), Err(NetError::NotConnected));
    assert_eq!(server.len(), 0);
}

#[test]
fn close_from_connected_succeeds() {
    let (mut server, _client, _backlog) = setup();
    server.accepted_with(|addr| Some(addr));
    server.connected();
    assert_eq!(server.remote(0).state(), RemoteState::Connected);
    assert_eq!(server.close_remote(0), Ok(()));
    assert_eq!(server.closed().len(), 1);
}

#[test]
fn client_disconnect_is_seen_once_as_closed() {
    let (mut server, mut client, _backlog) = setup();
    server.accepted_with(|addr| Some(addr));
    server.connected();
    server.closed();
    server.sleep();
    assert_eq!(client.disconnect(), Ok(()));
    server.accepted_with(|addr| Some(addr));
    assert!(server.connected().is_empty());
    assert_eq!(server.remote(0).state(), RemoteState::Closing);
    let closed = server.closed();
    assert_eq!(closed.len(), 1);
    assert_eq!(closed[0].0.state(), RemoteState::Closed);
    assert!(server.closed().is_empty());
    server.sleep();
    server.accepted_with(|addr| Some(addr));
    server.connected();
    assert!(server.closed().is_empty());
    assert_eq!(server.len(), 0);
}

#[test]
fn only_closed_remotes_leave_and_order_is_kept() {
    let (mut server, _client, backlog) = setup();
    let _c2 = dial(&backlog, "c2");
    let _c3 = dial(&backlog, "c3");
    server.accepted_with(|addr| Some(addr));
    assert_eq!(server.len(), 3);
    server.close_remote(0).unwrap();
    let closed = server.closed();
    assert_eq!(closed.len(), 1);
    assert_eq!(closed[0].1, "c1");
    assert_eq!(server.len(), 2);
    assert_eq!(server.data(0), "c2");
    assert_eq!(server.data(1), "c3");
}

#[test]
fn client_errors_without_a_connection() {
    let mut client: Client<Mem, Text> = Client::new(30);
    assert_eq!(client.send(Text("x".to_string())), Err(NetError::NotConnected));
    assert_eq!(client.receive(), Err(NetError::NotConnected));
    assert_eq!(client.peer_addr(), Err(NetError::NotConnected));
    assert_eq!(client.disconnect(), Err(NetError::NotConnected));
    assert_eq!(client.connect("127.0.0.1:1", Duration::from_millis(1)), Err(NetError::ConnectionRefused));
}

#[test]
fn connecting_or_binding_twice_is_refused() {
    let (mut server, mut client, backlog) = setup();
    assert_eq!(client.connect_with(dial(&backlog, "again")), Err(NetError::AlreadyExists));
    assert_eq!(client.connect("x", Duration::from_millis(1)), Err(NetError::AlreadyExists));
    assert_eq!(server.bind_host(MemHost { backlog: backlog.clone() }), Err(NetError::AlreadyExists));
    assert_eq!(server.bind("x"), Err(NetError::AlreadyExists));
    assert_eq!(client.peer_addr(), Ok("server".to_string()));
}

#[test]
fn server_shutdown_closes_everything_and_needs_a_binding() {
    let (mut server, mut client, _backlog) = setup();
    server.accepted_with(|addr| Some(addr));
    assert_eq!(server.remote(0).peer_addr(), Ok("c1".to_string()));
    assert_eq!(server.shutdown(), Ok(()));
    assert_eq!(server.len(), 0);
    assert_eq!(server.shutdown(), Err(NetError::NotConnected));
    assert_eq!(client.receive(), Err(NetError::ConnectionReset));
    let mut fresh: Server<Mem, Text, String> = Server::new(30);
    assert_eq!(fresh.shutdown(), Err(NetError::NotConnected));
    assert_eq!(fresh.bind("x"), Err(NetError::AddrNotAvailable));
}

#[test]
fn unencodable_message_is_invalid_data() {
    let backlog = Rc::new(RefCell::new(Vec::new()));
    let mut client: Client<Mem, Unencodable> = Client::new(30);
    client.connect_with(dial(&backlog, "c1")).unwrap();
    assert_eq!(client.send(Unencodable), Err(NetError::InvalidData));
}

#[test]
fn stream_reads_map_end_of_stream_to_reset() {
    assert_eq!(stream_read_result(5, 5, true), Err(NetError::ConnectionReset));
    assert_eq!(stream_read_result(5, 17, true), Ok(12));
    assert_eq!(stream_read_result(5, 9, false), Ok(4));
    assert_eq!(stream_read_result(5, 5, false), Ok(0));
}
