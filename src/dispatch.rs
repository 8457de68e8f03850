use vstd::prelude::*;
use crate::error::ServerError;
use crate::group::Group;
use crate::notify::{Event, Notification, filter_clients, unfiltered};
use crate::params::{Parameters, SessionKind};
use crate::session::connections;
use crate::state::{
    Reply, State, create_post, describes, finish_post, has_group, join_post, load_post, message_post,
    session_create_post, signup_post,
};

verus! {

/// A decoded request from a client.
#[derive(Debug, Clone)]
pub enum Command {
    /// Create a group.
    GroupCreate { params: Parameters, label: String },
    /// Join a group.
    GroupJoin { group_id: u128 },
    /// List the groups.
    GroupList,
    /// Create a session in a group.
    SessionCreate { group_id: u128, kind: SessionKind },
    /// Sign up to a session under the next party number.
    SessionSignup { group_id: u128, session_id: u128 },
    /// Sign up to a session under an explicit party number.
    SessionLoad { group_id: u128, session_id: u128, party_number: u16 },
    /// Pass a protocol message on.
    SessionMessage { group_id: u128, session_id: u128, sender: u16, receiver: Option<u16>, body: String },
    /// Mark a session finished.
    SessionFinish { group_id: u128, session_id: u128, party_number: u16 },
    /// Close the caller's connection.
    Close,
}

/// One frame to write to one client.
#[derive(Debug)]
pub enum Delivery {
    /// The reply to a client's own request.
    Reply { conn: usize, result: Result<Reply, ServerError> },
    /// A notification.
    Notify { conn: usize, event: Event },
}

impl Delivery {
    /// The client the frame goes to.
    pub open spec fn target(self) -> usize {
        match self {
            Delivery::Reply { conn, .. } => conn,
            Delivery::Notify { conn, .. } => conn,
        }
    }
}

/// The members of group `gid`, or none if there is no such group.
pub open spec fn members_of(g: Seq<Group>, gid: u128) -> Seq<usize> {
    if has_group(g, gid) {
        g[choose|i: int| 0 <= i < g.len() && #[trigger] g[i].uuid == gid].clients@
    } else {
        Seq::empty()
    }
}

/// The clients of `s` that are connected, in order.
pub open spec fn connected_only(s: Seq<usize>, clients: Seq<usize>) -> Seq<usize>
    decreases s.len(),
{
    if s.len() == 0 {
        s
    } else {
        let rest = connected_only(s.drop_last(), clients);
        if clients.contains(s.last()) {
            rest.push(s.last())
        } else {
            rest
        }
    }
}

/// Each target paired with the same event.
pub open spec fn paired(targets: Seq<usize>, event: Event) -> Seq<(usize, Event)> {
    targets.map_values(|c: usize| (c, event))
}

/// The notifications for the pairs whose client is connected, in order.
pub open spec fn connected_pairs(pairs: Seq<(usize, Event)>, clients: Seq<usize>) -> Seq<Delivery>
    decreases pairs.len(),
{
    if pairs.len() == 0 {
        Seq::empty()
    } else {
        let rest = connected_pairs(pairs.drop_last(), clients);
        if clients.contains(pairs.last().0) {
            rest.push(Delivery::Notify { conn: pairs.last().0, event: pairs.last().1 })
        } else {
            rest
        }
    }
}

/// Every frame built from pairs is a notification.
pub proof fn lemma_connected_pairs_notify(pairs: Seq<(usize, Event)>, clients: Seq<usize>)
    ensures
        forall|i: int| 0 <= i < connected_pairs(pairs, clients).len() ==> #[trigger] connected_pairs(pairs, clients)[i] is Notify,
    decreases pairs.len(),
{
    if pairs.len() > 0 {
        lemma_connected_pairs_notify(pairs.drop_last(), clients);
    }
}

/// What command `command` from client `conn` answers and how the registry
/// changes from `s0` to `s1`: that of the handler the command names.
pub open spec fn command_post(s0: State, s1: State, conn: usize, command: Command, r: (Result<Reply, ServerError>, Notification)) -> bool {
    match command {
        Command::GroupCreate { params, label } => create_post(s0, s1, conn, params, label, r),
        Command::GroupJoin { group_id } => join_post(s0, s1, conn, group_id, r),
        Command::GroupList => {
            &&& s1 == s0
            &&& r.1 is Noop
            &&& r.0 matches Ok(Reply::Groups(v))
            &&& v@.len() == s0.groups@.len()
            &&& forall|i: int| 0 <= i < v@.len() ==> describes(#[trigger] v@[i], s0.groups@[i])
        },
        Command::SessionCreate { group_id, kind } => session_create_post(s0, s1, conn, group_id, kind, r),
        Command::SessionSignup { group_id, session_id } => signup_post(s0, s1, conn, group_id, session_id, r),
        Command::SessionLoad { group_id, session_id, party_number } => load_post(
            s0,
            s1,
            conn,
            group_id,
            session_id,
            party_number,
            r,
        ),
        Command::SessionMessage { group_id, session_id, sender, receiver, body } => s1 == s0 && message_post(
            s0,
            conn,
            group_id,
            session_id,
            sender,
            receiver,
            body,
            r,
        ),
        Command::SessionFinish { group_id, session_id, party_number } => finish_post(
            s0,
            s1,
            group_id,
            session_id,
            party_number,
            r,
        ),
        Command::Close => s1 == s0 && r.0 == Ok::<Reply, ServerError>(Reply::Close) && r.1 is Noop,
    }
}

/// Whether `r` is what request `command` from `conn` sends when the
/// registry goes from `s0` to `s1`: the handler's reply to the caller,
/// then its plan's notifications to the connected targets.
pub open spec fn request_post(s0: State, s1: State, conn: usize, command: Command, r: Seq<Delivery>) -> bool {
    exists|result: Result<Reply, ServerError>, plan: Notification|
        #[trigger] command_post(s0, s1, conn, command, (result, plan))
        && r.len() >= 1
        && r[0] == (Delivery::Reply { conn, result })
        && r.drop_first() == connected_pairs(s1.plan_pairs(plan), s1.clients@)
}

impl State {
    /// Carry out a command from client `conn`: the reply for the caller and
    /// the notification to send after it.
    pub fn handle(&mut self, conn: usize, command: Command) -> (r: (Result<Reply, ServerError>, Notification))
        requires
            old(self).wf(),
        ensures
            final(self).wf(),
            final(self).clients@ == old(self).clients@,
            command_post(*old(self), *final(self), conn, command, r),
    {
        match command {
            Command::GroupCreate { params, label } => self.group_create(conn, params, label),
            Command::GroupJoin { group_id } => self.group_join(conn, group_id),
            Command::GroupList => (Ok(Reply::Groups(self.group_list())), Notification::Noop),
            Command::SessionCreate { group_id, kind } => self.session_create(conn, group_id, kind),
            Command::SessionSignup { group_id, session_id } => self.session_signup(conn, group_id, session_id),
            Command::SessionLoad { group_id, session_id, party_number } => self.session_load(
                conn,
                group_id,
                session_id,
                party_number,
            ),
            Command::SessionMessage { group_id, session_id, sender, receiver, body } => self.session_message(
                conn,
                group_id,
                session_id,
                sender,
                receiver,
                body,
            ),
            Command::SessionFinish { group_id, session_id, party_number } => self.session_finish(
                group_id,
                session_id,
                party_number,
            ),
            Command::Close => (Ok(Reply::Close), Notification::Noop),
        }
    }

    /// The members of group `group_id`, or none if there is no such group.
    pub fn group_members(&self, group_id: u128) -> (r: Vec<usize>)
        requires
            self.wf(),
        ensures
            r@ == members_of(self.groups@, group_id),
    {
        match self.find_group(group_id) {
            Some(i) => {
                proof {
                    let j = choose|j: int| 0 <= j < self.groups@.len() && #[trigger] self.groups@[j].uuid == group_id;
                    if j < i {
                        assert(self.groups@[j].uuid != self.groups@[i as int].uuid);
                    } else if j > i {
                        assert(self.groups@[i as int].uuid != self.groups@[j].uuid);
                    }
                }
                copy_ids(&self.groups[i].clients)
            },
            None => Vec::new(),
        }
    }

    /// The connections signed up to session `session_id` of group
    /// `group_id`, in signup order; none if there is no such session.
    pub fn session_connections(&self, group_id: u128, session_id: u128) -> (r: Vec<usize>)
        requires
            self.wf(),
        ensures
            r@ == match self.find_session_spec(group_id, session_id) {
                Some((gi, si)) => connections(self.groups@[gi].sessions@[si].party_signups@),
                None => Seq::empty(),
            },
    {
        match self.find_session(group_id, session_id) {
            Ok((gi, si)) => {
                proof {
                    self.lemma_find_session_spec(group_id, session_id, gi as int, si as int);
                }
                let signups = &self.groups[gi].sessions[si].party_signups;
                let mut r: Vec<usize> = Vec::new();
                let mut i: usize = 0;
                while i < signups.len()
                    invariant
                        0 <= i <= signups@.len(),
                        r@ == connections(signups@.subrange(0, i as int)),
                    decreases signups@.len() - i,
                {
                    r.push(signups[i].1);
                    i = i + 1;
                    proof {
                        assert(connections(signups@.subrange(0, i as int)) =~= connections(signups@.subrange(0, i - 1 as int)).push(signups@[i - 1 as int].1));
                    }
                }
                proof {
                    assert(signups@.subrange(0, signups@.len() as int) =~= signups@);
                }
                r
            },
            Err(_) => {
                proof {
                    self.lemma_find_session_spec_none(group_id, session_id);
                }
                Vec::new()
            },
        }
    }

    /// The clients a notification goes to, before those not connected are
    /// left out.
    pub open spec fn plan_targets(&self, plan: Notification) -> Seq<usize> {
        match plan {
            Notification::Noop => Seq::empty(),
            Notification::Group { group_id, filter, .. } => match filter {
                None => members_of(self.groups@, group_id),
                Some(f) => unfiltered(members_of(self.groups@, group_id), f@),
            },
            Notification::Session { group_id, session_id, filter, .. } => {
                let all = match self.find_session_spec(group_id, session_id) {
                    Some((gi, si)) => connections(self.groups@[gi].sessions@[si].party_signups@),
                    None => Seq::empty(),
                };
                match filter {
                    None => all,
                    Some(f) => unfiltered(all, f@),
                }
            },
            Notification::Relay { messages } => messages@.map_values(|m: (usize, Event)| m.0),
        }
    }

    /// Each target of a notification paired with the event it receives.
    pub open spec fn plan_pairs(&self, plan: Notification) -> Seq<(usize, Event)> {
        match plan {
            Notification::Noop => Seq::empty(),
            Notification::Group { response, .. } => paired(self.plan_targets(plan), response),
            Notification::Session { response, .. } => paired(self.plan_targets(plan), response),
            Notification::Relay { messages } => messages@,
        }
    }

    /// Resolve a notification to the frames it sends: the plan's event to
    /// each of its targets that is connected, in order.
    pub fn notify(&self, plan: Notification) -> (r: Vec<Delivery>)
        requires
            self.wf(),
        ensures
            r@ == connected_pairs(self.plan_pairs(plan), self.clients@),
    {
        match plan {
            Notification::Noop => Vec::new(),
            Notification::Group { group_id, filter, response } => {
                let targets = filter_clients(self.group_members(group_id), filter);
                self.fan_out(targets, &response)
            },
            Notification::Session { group_id, session_id, filter, response } => {
                let targets = filter_clients(self.session_connections(group_id, session_id), filter);
                self.fan_out(targets, &response)
            },
            Notification::Relay { messages } => {
                let mut r: Vec<Delivery> = Vec::new();
                let mut rest = messages;
                let ghost all = rest@;
                let mut i: usize = 0;
                let total: usize = rest.len();
                while rest.len() > 0
                    invariant
                        i + rest@.len() == all.len(),
                        all.len() == total,
                        rest@ == all.subrange(i as int, all.len() as int),
                        r@ == connected_pairs(all.subrange(0, i as int), self.clients@),
                    decreases rest@.len(),
                {
                    let (c, event) = rest.remove(0);
                    proof {
                        assert(all[i as int] == (c, event));
                        assert(rest@ =~= all.subrange(i as int + 1, all.len() as int));
                        let next = all.subrange(0, i as int + 1);
                        assert(next.drop_last() =~= all.subrange(0, i as int));
                        assert(next.last() == (c, event));
                    }
                    if self.is_connected(c) {
                        r.push(Delivery::Notify { conn: c, event });
                    }
                    i = i + 1;
                }
                proof {
                    assert(all.subrange(0, all.len() as int) =~= all);
                }
                r
            },
        }
    }

    /// The frames that answer client `conn`: the reply first, then the
    /// plan's event to each of its connected targets, in order.
    pub fn deliver(&self, conn: usize, result: Result<Reply, ServerError>, plan: Notification) -> (r: Vec<Delivery>)
        requires
            self.wf(),
        ensures
            r@.len() >= 1,
            r@[0] == (Delivery::Reply { conn, result }),
            r@.drop_first() == connected_pairs(self.plan_pairs(plan), self.clients@),
            forall|i: int| 1 <= i < r@.len() ==> #[trigger] r@[i] is Notify,
    {
        let mut r: Vec<Delivery> = Vec::new();
        r.push(Delivery::Reply { conn, result });
        let ghost first = r@[0];
        let mut rest = self.notify(plan);
        let ghost all = rest@;
        let mut i: usize = 0;
        let total: usize = rest.len();
        while rest.len() > 0
            invariant
                i + rest@.len() == all.len(),
                all.len() == total,
                rest@ == all.subrange(i as int, all.len() as int),
                r@.len() == 1 + i,
                r@[0] == first,
                r@.drop_first() == all.subrange(0, i as int),
            decreases rest@.len(),
        {
            let d = rest.remove(0);
            proof {
                assert(all[i as int] == d);
                assert(rest@ =~= all.subrange(i as int + 1, all.len() as int));
            }
            r.push(d);
            i = i + 1;
            proof {
                assert(r@.drop_first() =~= all.subrange(0, i as int));
            }
        }
        proof {
            assert(r@.drop_first() =~= all);
            lemma_connected_pairs_notify(self.plan_pairs(plan), self.clients@);
            assert forall|k: int| 1 <= k < r@.len() implies #[trigger] r@[k] is Notify by {
                assert(r@[k] == r@.drop_first()[k - 1]);
            }
        }
        r
    }

    /// Process one request from client `conn`: the reply to the caller comes
    /// first, then the notifications the request produced.
    pub fn request(&mut self, conn: usize, command: Command) -> (r: Vec<Delivery>)
        requires
            old(self).wf(),
        ensures
            final(self).wf(),
            final(self).clients@ == old(self).clients@,
            r@.len() >= 1,
            r@[0] matches Delivery::Reply { conn: c, .. } && c == conn,
            forall|i: int| 1 <= i < r@.len() ==> #[trigger] r@[i] is Notify,
            request_post(*old(self), *final(self), conn, command, r@),
    {
        let ghost cmd = command;
        let out = self.handle(conn, command);
        let ghost outcome = out;
        let (result, plan) = out;
        let r = self.deliver(conn, result, plan);
        proof {
            assert(command_post(*old(self), *self, conn, cmd, (outcome.0, outcome.1)));
        }
        r
    }

    /// Each of `targets` that is connected, with a copy of `event`.
    fn fan_out(&self, targets: Vec<usize>, event: &Event) -> (r: Vec<Delivery>)
        ensures
            r@ == connected_pairs(paired(targets@, *event), self.clients@),
    {
        let mut r: Vec<Delivery> = Vec::new();
        let mut i: usize = 0;
        while i < targets.len()
            invariant
                0 <= i <= targets@.len(),
                r@ == connected_pairs(paired(targets@.subrange(0, i as int), *event), self.clients@),
            decreases targets@.len() - i,
        {
            let c = targets[i];
            proof {
                let next = paired(targets@.subrange(0, i as int + 1), *event);
                assert(next.drop_last() =~= paired(targets@.subrange(0, i as int), *event));
                assert(next.last() == (c, *event));
            }
            if self.is_connected(c) {
                r.push(Delivery::Notify { conn: c, event: event.duplicate() });
            }
            i = i + 1;
        }
        proof {
            assert(targets@.subrange(0, targets@.len() as int) =~= targets@);
        }
        r
    }
}

/// A copy of a list of connection identifiers.
fn copy_ids(v: &Vec<usize>) -> (r: Vec<usize>)
    ensures
        r@ == v@,
{
    let mut r: Vec<usize> = Vec::new();
    let mut i: usize = 0;
    while i < v.len()
        invariant
            0 <= i <= v@.len(),
            r@ == v@.subrange(0, i as int),
        decreases v@.len() - i,
    {
        r.push(v[i]);
        i = i + 1;
        proof {
            assert(r@ =~= v@.subrange(0, i as int));
        }
    }
    proof {
        assert(r@ =~= v@);
    }
    r
}

} // verus!
