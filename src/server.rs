use vstd::prelude::*;
use crate::dispatch::{Command, Delivery, request_post};
use crate::group::without;
use crate::state::{State, disconnect_post};

verus! {

/// The broker: the registry of clients, groups and sessions, and the
/// counter that names new connections.
#[derive(Debug)]
pub struct Server {
    /// Connected clients, groups and sessions.
    pub state: State,
    /// The identifier the next connection receives.
    pub next_conn: usize,
}

impl Server {
    /// The server's invariant: a well-formed registry, and every connected
    /// client named below the counter.
    pub open spec fn wf(&self) -> bool {
        &&& self.state.wf()
        &&& 1 <= self.next_conn
        &&& forall|i: int| 0 <= i < self.state.clients@.len() ==> #[trigger] self.state.clients@[i] < self.next_conn
    }

    /// A server with nobody connected; the first connection is named one.
    pub fn new() -> (r: Server)
        ensures
            r.wf(),
            r.next_conn == 1,
            r.state.clients@.len() == 0,
            r.state.groups@.len() == 0,
    {
        Server { state: State::new(), next_conn: 1 }
    }

    /// Register a new connection under the next identifier and return it.
    /// Identifiers increase and are never reused; none is left once the
    /// counter reaches its largest value.
    pub fn client_connected(&mut self) -> (r: Option<usize>)
        requires
            old(self).wf(),
        ensures
            final(self).wf(),
            final(self).state.groups@ == old(self).state.groups@,
            old(self).next_conn == usize::MAX ==> r is None && final(self).state.clients@ == old(self).state.clients@,
            old(self).next_conn < usize::MAX ==> r == Some(old(self).next_conn)
                && final(self).next_conn == old(self).next_conn + 1
                && !old(self).state.clients@.contains(old(self).next_conn)
                && final(self).state.clients@ == old(self).state.clients@.push(old(self).next_conn),
    {
        if self.next_conn == usize::MAX {
            return None;
        }
        let conn = self.next_conn;
        proof {
            assert(!self.state.clients@.contains(conn)) by {
                if self.state.clients@.contains(conn) {
                    let k = choose|k: int| 0 <= k < self.state.clients@.len() && self.state.clients@[k] == conn;
                    assert(self.state.clients@[k] < conn);
                }
            }
        }
        self.state.connect(conn);
        self.next_conn = conn + 1;
        proof {
            assert forall|i: int| 0 <= i < self.state.clients@.len() implies #[trigger] self.state.clients@[i] < self.next_conn by {
                if i < old(self).state.clients@.len() {
                    assert(old(self).state.clients@[i] < conn);
                }
            }
        }
        Some(conn)
    }

    /// Forget a connection that ended; see [`State::disconnect`].
    pub fn client_disconnected(&mut self, conn: usize)
        requires
            old(self).wf(),
        ensures
            final(self).wf(),
            final(self).next_conn == old(self).next_conn,
            final(self).state.clients@ == without(old(self).state.clients@, conn),
            disconnect_post(old(self).state, final(self).state, conn),
    {
        self.state.disconnect(conn);
        proof {
            let a = old(self).state.clients@;
            let b = self.state.clients@;
            assert forall|i: int| 0 <= i < b.len() implies #[trigger] b[i] < self.next_conn by {
                if a.contains(conn) {
                    let x = a.index_of(conn);
                    let k0 = if i < x { i } else { i + 1 };
                    assert(b[i] == a[k0]);
                } else {
                    assert(b[i] == a[i]);
                }
            }
        }
    }

    /// Process one request from connection `conn`; see [`State::request`].
    pub fn rpc_request(&mut self, conn: usize, command: Command) -> (r: Vec<Delivery>)
        requires
            old(self).wf(),
        ensures
            final(self).wf(),
            final(self).next_conn == old(self).next_conn,
            r@.len() >= 1,
            r@[0] matches Delivery::Reply { conn: c, .. } && c == conn,
            forall|i: int| 1 <= i < r@.len() ==> #[trigger] r@[i] is Notify,
            request_post(old(self).state, final(self).state, conn, command, r@),
    {
        let r = self.state.request(conn, command);
        proof {
            assert forall|i: int| 0 <= i < self.state.clients@.len() implies #[trigger] self.state.clients@[i] < self.next_conn by {
                assert(old(self).state.clients@[i] < old(self).next_conn);
            }
        }
        r
    }
}

} // verus!
