//! The decisions of a server: its socket path, the ids it gives connections,
//! which siblings it offers connections to, and how its tasks react to events.

use vstd::prelude::*;
use crate::text::string_views;
use crate::discovery::{peer_paths, sibling_socket_paths};
use crate::naming::{socket_path, unix_socket_path};

verus! {

/// How long a shutting-down server waits for its handlers to save their
/// connections before it hands over what it has.
pub const SHUTDOWN_TIMEOUT_SECS: u64 = 30;

/// The pause after each acknowledged hand-over.
pub const HANDOFF_PAUSE_MILLIS: u64 = 200;

/// The pause between two greetings to one client.
pub const HELLO_INTERVAL_SECS: u64 = 1;

/// The backlog of the TCP and Unix listening sockets.
pub const LISTEN_BACKLOG: i32 = 128;

/// A server's identity: its id, the TCP port it was started for, the folder
/// of the socket files, and the path of the Unix socket on which it accepts
/// handed-over connections.
pub struct Server {
    id: u32,
    port: u16,
    unix_socket_folder: String,
    unix_socket_path: String,
}

impl Server {
    /// The server's id.
    pub closed spec fn spec_id(&self) -> u32 {
        self.id
    }

    /// The TCP port the server was started for.
    pub closed spec fn spec_port(&self) -> u16 {
        self.port
    }

    /// The folder in which the server and its siblings keep their sockets.
    pub closed spec fn spec_socket_folder(&self) -> Seq<char> {
        self.unix_socket_folder@
    }

    /// The path of the server's Unix socket.
    pub closed spec fn spec_socket_path(&self) -> Seq<char> {
        self.unix_socket_path@
    }

    /// A server `id` for `port` whose Unix socket is
    /// `<unix_socket_folder>/socket-forward_<port>_<id>.sock`.
    pub fn new(id: u32, port: u16, unix_socket_folder: &str) -> (r: Server)
        ensures
            r.spec_id() == id,
            r.spec_port() == port,
            r.spec_socket_folder() == unix_socket_folder@,
            r.spec_socket_path() == socket_path(unix_socket_folder@, port, id),
    {
        Server {
            id,
            port,
            unix_socket_folder: String::from_str(unix_socket_folder),
            unix_socket_path: unix_socket_path(unix_socket_folder, port, id),
        }
    }

    /// The server's id.
    pub fn id(&self) -> (r: u32)
        ensures
            r == self.spec_id(),
    {
        self.id
    }

    /// The TCP port the server was started for.
    pub fn port(&self) -> (r: u16)
        ensures
            r == self.spec_port(),
    {
        self.port
    }

    /// The folder in which the server and its siblings keep their sockets.
    pub fn unix_socket_folder(&self) -> (r: &String)
        ensures
            r@ == self.spec_socket_folder(),
    {
        &self.unix_socket_folder
    }

    /// The path of the server's Unix socket.
    pub fn unix_socket_path(&self) -> (r: &String)
        ensures
            r@ == self.spec_socket_path(),
    {
        &self.unix_socket_path
    }

    /// The sibling sockets to hand connections to: given the file names found
    /// in the server's socket folder and the port the TCP listener is bound
    /// to, the paths `<folder>/<name>` of the sockets of other servers on that
    /// port, in order.
    pub fn discover_peers(&self, tcp_port: u16, folder_names: &Vec<String>) -> (r: Vec<String>)
        ensures
            string_views(r@) == peer_paths(self.spec_socket_folder(), folder_names@, tcp_port, self.spec_id()),
    {
        sibling_socket_paths(self.unix_socket_folder.as_str(), folder_names, tcp_port, self.id)
    }
}

/// The counter that gives every accepted or received connection its id.
pub struct ConnectionIds {
    next: u64,
}

impl ConnectionIds {
    /// The id the next connection gets.
    pub closed spec fn spec_next(&self) -> u64 {
        self.next
    }

    /// The ids given out so far.
    pub open spec fn issued(&self) -> Set<u64> {
        Set::new(|k: u64| k < self.spec_next())
    }

    /// The ids given out so far, in the order they were given out.
    pub open spec fn given_out(&self) -> Seq<u64> {
        Seq::new(self.spec_next() as nat, |i: int| i as u64)
    }

    /// A counter that starts at 0.
    pub fn new() -> (r: ConnectionIds)
        ensures
            r.spec_next() == 0,
            r.issued() == Set::<u64>::empty(),
            r.given_out() == Seq::<u64>::empty(),
    {
        let r = ConnectionIds { next: 0 };
        assert(r.issued() =~= Set::<u64>::empty());
        r
    }

    /// The id the next connection gets.
    pub fn peek(&self) -> (r: u64)
        ensures
            r == self.spec_next(),
    {
        self.next
    }

    /// Gives out the next id, one that was never given out before.
    pub fn allocate(&mut self) -> (r: u64)
        requires
            old(self).spec_next() < u64::MAX,
        ensures
            r == old(self).spec_next(),
            final(self).spec_next() == old(self).spec_next() + 1,
            !old(self).issued().contains(r),
            final(self).issued() == old(self).issued().insert(r),
            final(self).given_out() == old(self).given_out().push(r),
    {
        let r = self.next;
        self.next = self.next + 1;
        assert(self.issued() =~= old(self).issued().insert(r));
        assert(self.given_out() =~= old(self).given_out().push(r));
        r
    }
}

/// One counter serves every source of connections (accepted from clients and
/// received from siblings alike), so the ids given out are 0, 1, 2, … in the
/// order they were given, no two alike, and the next id is their number.
pub proof fn lemma_connection_ids_count_up(ids: ConnectionIds)
    ensures
        ids.given_out().len() == ids.spec_next(),
        forall|i: int| 0 <= i < ids.given_out().len() ==> ids.given_out()[i] == i,
        ids.given_out().no_duplicates(),
        ids.given_out().to_set() == ids.issued(),
{
    let g = ids.given_out();
    assert forall|x: u64| g.to_set().contains(x) <==> ids.issued().contains(x) by {
        if x < ids.spec_next() {
            assert(g[x as int] == x);
        }
    }
    assert(g.to_set() =~= ids.issued());
}

/// Whether a shutting-down server stops waiting for its handlers: when at
/// least as many connections are saved as handlers were running, or when the
/// wait has lasted longer than the timeout.
pub fn shutdown_wait_over(saved: usize, expected: usize, elapsed_nanos: u128, timeout_nanos: u128) -> (r: bool)
    ensures
        r == (saved >= expected || elapsed_nanos > timeout_nanos),
{
    saved >= expected || elapsed_nanos > timeout_nanos
}

/// What a connection handler learns on each turn of its loop.
#[derive(Debug, PartialEq, Eq)]
pub enum HandlerEvent {
    /// The server is shutting down.
    ShutdownRequested,
    /// The greeting reached the client.
    GreetingSent,
    /// Writing the greeting failed: the client is gone.
    WriteFailed,
}

/// What a connection handler does next.
#[derive(Debug, PartialEq, Eq)]
pub enum HandlerAction {
    /// Save the connection for hand-over and stop.
    SaveConnection,
    /// Wait for the greeting interval, then greet again.
    PauseThenGreet,
    /// Count the handler as finished and stop, dropping the connection.
    Disconnect,
}

/// A handler's reaction to `event`.
pub fn handler_step(event: &HandlerEvent) -> (r: HandlerAction)
    ensures
        *event == HandlerEvent::ShutdownRequested ==> r == HandlerAction::SaveConnection,
        *event == HandlerEvent::GreetingSent ==> r == HandlerAction::PauseThenGreet,
        *event == HandlerEvent::WriteFailed ==> r == HandlerAction::Disconnect,
{
    match event {
        HandlerEvent::ShutdownRequested => HandlerAction::SaveConnection,
        HandlerEvent::GreetingSent => HandlerAction::PauseThenGreet,
        HandlerEvent::WriteFailed => HandlerAction::Disconnect,
    }
}

/// What to do when binding the Unix socket fails.
#[derive(Debug, PartialEq, Eq)]
pub enum BindRecovery {
    /// A stale socket file is in the way: remove it and bind once more.
    RemoveStaleAndRetry,
    /// Give up with the error.
    Fail,
}

/// Binding fails over to one retry only when the address is in use.
pub fn bind_failure_recovery(addr_in_use: bool) -> (r: BindRecovery)
    ensures
        addr_in_use ==> r == BindRecovery::RemoveStaleAndRetry,
        !addr_in_use ==> r == BindRecovery::Fail,
{
    if addr_in_use {
        BindRecovery::RemoveStaleAndRetry
    } else {
        BindRecovery::Fail
    }
}

} // verus!
