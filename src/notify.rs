use vstd::prelude::*;
use crate::params::{Parameters, SessionKind};

verus! {

/// What the broker tells a client about a group.
#[derive(Debug, Clone)]
pub struct GroupInfo {
    /// The group's identifier.
    pub uuid: u128,
    /// The group's parameters.
    pub params: Parameters,
    /// The group's label.
    pub label: String,
}

/// What the broker tells a client about a session.
#[derive(Debug, Clone, Copy, PartialEq, Eq)]
pub struct SessionInfo {
    /// The session's identifier.
    pub uuid: u128,
    /// The session's kind.
    pub kind: SessionKind,
}

/// A protocol message between parties of a session.
#[derive(Debug, Clone)]
pub struct PeerMessage {
    /// The session the message belongs to.
    pub session_id: u128,
    /// The sending party's number.
    pub sender: u16,
    /// The receiving party's number; none for a broadcast.
    pub receiver: Option<u16>,
    /// The protocol payload, passed on untouched.
    pub body: String,
}

/// A message the broker pushes to clients without a request of theirs.
#[derive(Debug, Clone)]
pub enum Event {
    /// The group has all its members.
    GroupReady(GroupInfo),
    /// A session was created in the group.
    SessionCreated(SessionInfo),
    /// Every party number of the session is taken.
    SessionReady(u128),
    /// A protocol message from a peer.
    SessionMessage(PeerMessage),
    /// Every party has marked the session finished.
    SessionClosed(u128),
}

impl Event {
    /// A copy of the event.
    pub fn duplicate(&self) -> (r: Event)
        ensures
            r == *self,
    {
        match self {
            Event::GroupReady(info) => Event::GroupReady(
                GroupInfo { uuid: info.uuid, params: info.params, label: info.label.clone() },
            ),
            Event::SessionCreated(info) => Event::SessionCreated(*info),
            Event::SessionReady(id) => Event::SessionReady(*id),
            Event::SessionMessage(m) => Event::SessionMessage(
                PeerMessage { session_id: m.session_id, sender: m.sender, receiver: m.receiver, body: m.body.clone() },
            ),
            Event::SessionClosed(id) => Event::SessionClosed(*id),
        }
    }
}

/// Which clients hear of a change, decided by a handler and carried out
/// after the reply to the requesting client.
#[derive(Debug)]
pub enum Notification {
    /// Send nothing.
    Noop,
    /// Send `response` to the group's members but those in `filter`.
    Group {
        /// The group identifier.
        group_id: u128,
        /// Ignore these clients.
        filter: Option<Vec<usize>>,
        /// Message to send to the clients.
        response: Event,
    },
    /// Send `response` to the session's signed-up parties but those in `filter`.
    Session {
        /// The group identifier.
        group_id: u128,
        /// The session identifier.
        session_id: u128,
        /// Ignore these clients.
        filter: Option<Vec<usize>>,
        /// Message to send to the clients.
        response: Event,
    },
    /// Send each message to exactly the named client.
    Relay {
        /// Client connection identifiers paired with their messages.
        messages: Vec<(usize, Event)>,
    },
}

impl Default for Notification {
    fn default() -> (r: Self)
        ensures
            r is Noop,
    {
        Notification::Noop
    }
}

/// The clients of `clients` that are not in `filter`, in their order.
pub open spec fn unfiltered(clients: Seq<usize>, filter: Seq<usize>) -> Seq<usize>
    decreases clients.len(),
{
    if clients.len() == 0 {
        clients
    } else {
        let rest = unfiltered(clients.drop_last(), filter);
        if filter.contains(clients.last()) {
            rest
        } else {
            rest.push(clients.last())
        }
    }
}

/// Whether `filter` holds `c`.
fn in_filter(filter: &Vec<usize>, c: usize) -> (r: bool)
    ensures
        r == filter@.contains(c),
{
    let mut i: usize = 0;
    while i < filter.len()
        invariant
            0 <= i <= filter@.len(),
            forall|k: int| 0 <= k < i ==> filter@[k] != c,
        decreases filter@.len() - i,
    {
        if filter[i] == c {
            return true;
        }
        i = i + 1;
    }
    false
}

/// Remove the clients in `filter` from `clients`.
pub fn filter_clients(clients: Vec<usize>, filter: Option<Vec<usize>>) -> (r: Vec<usize>)
    ensures
        filter is None ==> r@ == clients@,
        filter matches Some(f) ==> r@ == unfiltered(clients@, f@),
{
    match filter {
        None => clients,
        Some(f) => {
            let mut r: Vec<usize> = Vec::new();
            let mut i: usize = 0;
            while i < clients.len()
                invariant
                    0 <= i <= clients@.len(),
                    r@ == unfiltered(clients@.subrange(0, i as int), f@),
                decreases clients@.len() - i,
            {
                let c = clients[i];
                proof {
                    let next = clients@.subrange(0, i as int + 1);
                    assert(next.drop_last() =~= clients@.subrange(0, i as int));
                    assert(next.last() == c);
                }
                if !in_filter(&f, c) {
                    r.push(c);
                }
                i = i + 1;
            }
            proof {
                assert(clients@.subrange(0, clients@.len() as int) =~= clients@);
            }
            r
        },
    }
}

} // verus!
