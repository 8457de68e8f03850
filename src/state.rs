use vstd::prelude::*;
use crate::error::ServerError;
use crate::group::{Group, remove_id, without};
use crate::notify::{Event, GroupInfo, Notification, PeerMessage, SessionInfo};
use crate::params::{Parameters, SessionKind};
use crate::session::{Session, binds, is_signed_up, next_party_number};

verus! {

/// The reply the broker gives to the client that sent a command.
#[derive(Debug, Clone)]
pub enum Reply {
    /// A group's metadata.
    Group(GroupInfo),
    /// Metadata of every group.
    Groups(Vec<GroupInfo>),
    /// A session's metadata.
    Session(SessionInfo),
    /// The party number bound to the caller.
    PartyNumber(u16),
    /// The command was carried out.
    Ack,
    /// The caller asked for its connection to be closed.
    Close,
}

/// Whether the groups hold pairwise distinct identifiers.
pub open spec fn group_ids_distinct(g: Seq<Group>) -> bool {
    forall|i: int, j: int| 0 <= i < j < g.len() ==> #[trigger] g[i].uuid != #[trigger] g[j].uuid
}

/// Whether some group has the identifier `gid`.
pub open spec fn has_group(g: Seq<Group>, gid: u128) -> bool {
    exists|i: int| 0 <= i < g.len() && #[trigger] g[i].uuid == gid
}

/// Whether group `gi` of `g` is the one named `gid` and holds session `si`
/// named `sid`.
pub open spec fn locates(g: Seq<Group>, gid: u128, sid: u128, gi: int, si: int) -> bool {
    &&& 0 <= gi < g.len()
    &&& g[gi].uuid == gid
    &&& 0 <= si < g[gi].sessions@.len()
    &&& g[gi].sessions@[si].uuid == sid
}

/// Whether group `gid` exists and holds session `sid`.
pub open spec fn has_session(g: Seq<Group>, gid: u128, sid: u128) -> bool {
    exists|gi: int, si: int| #[trigger] locates(g, gid, sid, gi, si)
}

/// The error for a group and session that are not both there.
pub open spec fn lookup_error(g: Seq<Group>, gid: u128, sid: u128) -> ServerError {
    if !has_group(g, gid) {
        ServerError::GroupNotFound(gid)
    } else {
        ServerError::SessionNotFound(sid)
    }
}

/// Whether `new` differs from `old` at most in session `si` of group `gi`.
pub open spec fn only_session_changed(old: Seq<Group>, new: Seq<Group>, gi: int, si: int) -> bool {
    &&& new.len() == old.len()
    &&& forall|j: int| 0 <= j < old.len() && j != gi ==> new[j] == old[j]
    &&& new[gi].uuid == old[gi].uuid
    &&& new[gi].params == old[gi].params
    &&& new[gi].label@ == old[gi].label@
    &&& new[gi].clients@ == old[gi].clients@
    &&& new[gi].sessions@.len() == old[gi].sessions@.len()
    &&& forall|k: int| 0 <= k < old[gi].sessions@.len() && k != si ==> new[gi].sessions@[k] == old[gi].sessions@[k]
    &&& new[gi].sessions@[si].uuid == old[gi].sessions@[si].uuid
    &&& new[gi].sessions@[si].kind == old[gi].sessions@[si].kind
}

/// The answer to an automatic signup to session `s` (named `sid`) of a
/// group with `parties` parties: the next party number, unless the session
/// is full or that number is out of range or taken.
pub open spec fn signup_result(s: Session, parties: u16, sid: u128) -> Result<u16, ServerError> {
    let n = next_party_number(s.party_signups@);
    if s.party_signups@.len() >= parties {
        Err(ServerError::SessionFull(sid))
    } else if n > parties {
        Err(ServerError::PartyNumberOutOfRange)
    } else if is_signed_up(s.party_signups@, n as u16) {
        Err(ServerError::PartyNumberAlreadyExists(sid))
    } else {
        Ok(n as u16)
    }
}

/// The answer to loading `party_number` into session `s` (named `sid`) of
/// a group with `parties` parties.
pub open spec fn load_result(s: Session, parties: u16, sid: u128, party_number: u16) -> Result<u16, ServerError> {
    if party_number == 0 {
        Err(ServerError::ZeroPartyNumber)
    } else if party_number > parties {
        Err(ServerError::PartyNumberOutOfRange)
    } else if is_signed_up(s.party_signups@, party_number) {
        Err(ServerError::PartyNumberAlreadyExists(sid))
    } else {
        Ok(party_number)
    }
}

/// Whether `n` broadcasts `response` to every party of session `sid` of
/// group `gid`.
pub open spec fn is_session_broadcast(n: Notification, gid: u128, sid: u128, response: Event) -> bool {
    n == (Notification::Session { group_id: gid, session_id: sid, filter: None, response })
}

/// Whether `new` differs from `old` at most in the members of group `gi`.
pub open spec fn only_members_changed(old: Seq<Group>, new: Seq<Group>, gi: int) -> bool {
    &&& new.len() == old.len()
    &&& forall|j: int| 0 <= j < old.len() && j != gi ==> new[j] == old[j]
    &&& new[gi].uuid == old[gi].uuid
    &&& new[gi].params == old[gi].params
    &&& new[gi].label@ == old[gi].label@
    &&& new[gi].sessions@ == old[gi].sessions@
}

/// Whether `info` describes group `g`.
pub open spec fn describes(info: GroupInfo, g: Group) -> bool {
    info.uuid == g.uuid && info.params == g.params && info.label@ == g.label@
}

/// Whether `n` tells every member of group `g` that it is ready.
pub open spec fn is_ready_broadcast(n: Notification, g: Group) -> bool {
    match n {
        Notification::Group { group_id, filter: None, response: Event::GroupReady(info) } => group_id == g.uuid
            && describes(info, g),
        _ => false,
    }
}

/// Changing the members of one group, keeping it well-formed, keeps the
/// registry well-formed.
proof fn lemma_members_change_keeps_wf(s0: State, s1: State, gi: int)
    requires
        s0.wf(),
        0 <= gi < s0.groups@.len(),
        s1.clients@ == s0.clients@,
        only_members_changed(s0.groups@, s1.groups@, gi),
        s1.groups@[gi].wf(),
    ensures
        s1.wf(),
{
    assert forall|i: int, j: int| 0 <= i < j < s1.groups@.len() implies #[trigger] s1.groups@[i].uuid != #[trigger] s1.groups@[j].uuid by {
        assert(s0.groups@[i].uuid != s0.groups@[j].uuid);
    }
    assert forall|i: int| 0 <= i < s1.groups@.len() implies (#[trigger] s1.groups@[i]).wf() by {
        if i != gi {
            assert(s0.groups@[i].wf());
        }
    }
}

/// Whether `new` is group `old` with `conn` taken out of its members and
/// all else, its sessions' signups included, as it was.
pub open spec fn kept_as(old: Group, new: Group, conn: usize) -> bool {
    &&& new.uuid == old.uuid
    &&& new.params == old.params
    &&& new.label@ == old.label@
    &&& new.clients@ == without(old.clients@, conn)
    &&& new.sessions@ == old.sessions@
}

/// Whether `g` is one of the first `upto` groups of `all` with `conn`
/// taken out of its members.
pub open spec fn origin_in(all: Seq<Group>, upto: int, g: Group, conn: usize) -> bool {
    exists|k: int| 0 <= k < upto && #[trigger] kept_as(all[k], g, conn)
}

/// Group and session identifiers locate at most one session.
pub(crate) proof fn lemma_locates_unique(st: State, gid: u128, sid: u128, a: int, b: int, c: int, d: int)
    requires
        st.wf(),
        locates(st.groups@, gid, sid, a, b),
        locates(st.groups@, gid, sid, c, d),
    ensures
        a == c && b == d,
{
    if a < c {
        assert(st.groups@[a].uuid != st.groups@[c].uuid);
    } else if c < a {
        assert(st.groups@[c].uuid != st.groups@[a].uuid);
    }
    let g = st.groups@[a];
    assert(g.wf());
    if b < d {
        assert(g.sessions@[b].uuid != g.sessions@[d].uuid);
    } else if d < b {
        assert(g.sessions@[d].uuid != g.sessions@[b].uuid);
    }
}

/// Binding a fresh in-range number to a well-formed session keeps it well-formed.
proof fn lemma_bind_keeps_wf(s0: Session, s1: Session, parties: u16, n: u16, conn: usize)
    requires
        s0.wf(parties),
        s1.party_signups@ == s0.party_signups@.push((n, conn)),
        s1.finished@ == s0.finished@,
        1 <= n <= parties,
        !is_signed_up(s0.party_signups@, n),
    ensures
        s1.wf(parties),
{
    let a = s0.party_signups@;
    let b = s1.party_signups@;
    assert forall|i: int, j: int| 0 <= i < j < b.len() implies #[trigger] b[i].0 != #[trigger] b[j].0 by {
        if j == a.len() {
            assert(b[i] == a[i]);
        } else {
            assert(b[i] == a[i] && b[j] == a[j]);
        }
    }
    assert forall|i: int| 0 <= i < b.len() implies 1 <= #[trigger] b[i].0 <= parties by {
        if i < a.len() {
            assert(b[i] == a[i]);
        }
    }
    assert forall|k: int| 0 <= k < s1.finished@.len() implies is_signed_up(b, #[trigger] s1.finished@[k]) by {
        let i = choose|i: int| 0 <= i < a.len() && #[trigger] a[i].0 == s0.finished@[k];
        assert(b[i] == a[i]);
    }
}

/// Changing one session of one group, keeping its identifier and leaving it
/// well-formed, keeps the registry well-formed.
proof fn lemma_session_change_keeps_wf(s0: State, s1: State, gi: int, si: int)
    requires
        s0.wf(),
        0 <= gi < s0.groups@.len(),
        0 <= si < s0.groups@[gi].sessions@.len(),
        s1.clients@ == s0.clients@,
        only_session_changed(s0.groups@, s1.groups@, gi, si),
        s1.groups@[gi].sessions@[si].wf(s0.groups@[gi].params.parties),
    ensures
        s1.wf(),
{
    let g0 = s0.groups@[gi];
    let g1 = s1.groups@[gi];
    assert forall|i: int, j: int| 0 <= i < j < s1.groups@.len() implies #[trigger] s1.groups@[i].uuid != #[trigger] s1.groups@[j].uuid by {
        assert(s0.groups@[i].uuid != s0.groups@[j].uuid);
    }
    assert forall|i: int, j: int| 0 <= i < j < g1.sessions@.len() implies #[trigger] g1.sessions@[i].uuid != #[trigger] g1.sessions@[j].uuid by {
        assert(g0.sessions@[i].uuid != g0.sessions@[j].uuid);
    }
    assert forall|k: int| 0 <= k < g1.sessions@.len() implies (#[trigger] g1.sessions@[k]).wf(g1.params.parties) by {
        assert(g0.wf());
        if k != si {
            assert(g0.sessions@[k].wf(g0.params.parties));
        }
    }
    assert(g1.wf());
    assert forall|i: int| 0 <= i < s1.groups@.len() implies (#[trigger] s1.groups@[i]).wf() by {
        if i != gi {
            assert(s0.groups@[i].wf());
        }
    }
}

/// What passing a protocol message on answers, in registry `s0`.
pub open spec fn message_post(s0: State, conn: usize, group_id: u128, session_id: u128, sender: u16, receiver: Option<u16>, body: String, r: (Result<Reply, ServerError>, Notification)) -> bool {
    &&& !has_session(s0.groups@, group_id, session_id) ==> r.0 == Err::<Reply, ServerError>(
        lookup_error(s0.groups@, group_id, session_id),
    ) && r.1 is Noop
    &&& forall|gi: int, si: int| #[trigger] locates(s0.groups@, group_id, session_id, gi, si) ==> {
        let s = s0.groups@[gi].sessions@[si].party_signups@;
        match receiver {
            None => r.0 == Ok::<Reply, ServerError>(Reply::Ack) && (r.1 matches Notification::Session {
                group_id: g,
                session_id: sid,
                filter: Some(f),
                response: Event::SessionMessage(m),
            } && g == group_id && sid == session_id && f@ == seq![conn] && m.session_id == session_id
                && m.sender == sender && m.receiver is None && m.body@ == body@),
            Some(n) => if is_signed_up(s, n) {
                r.0 == Ok::<Reply, ServerError>(Reply::Ack) && (r.1 matches Notification::Relay { messages }
                    && messages@.len() == 1 && binds(s, n, messages@[0].0)
                    && (messages@[0].1 matches Event::SessionMessage(m) && m.session_id == session_id
                        && m.sender == sender && m.receiver == Some(n) && m.body@ == body@))
            } else {
                r.0 == Err::<Reply, ServerError>(ServerError::PartyNotSignedUp(n)) && r.1 is Noop
            },
        }
    }
}

/// How the registry changes from `s0` to `s1` when `conn` disconnects.
pub open spec fn disconnect_post(s0: State, s1: State, conn: usize) -> bool {
    &&& s1.wf()
    &&& s1.clients@ == without(s0.clients@, conn)
    &&& forall|j: int| 0 <= j < s1.groups@.len() ==> !(#[trigger] s1.groups@[j]).clients@.contains(conn)
    &&& forall|i: int| 0 <= i < s0.groups@.len() && without(s0.groups@[i].clients@, conn).len() > 0
        ==> exists|j: int| 0 <= j < s1.groups@.len() && #[trigger] kept_as(s0.groups@[i], s1.groups@[j], conn)
    &&& forall|j: int| 0 <= j < s1.groups@.len()
        ==> #[trigger] origin_in(s0.groups@, s0.groups@.len() as int, s1.groups@[j], conn)
}

/// What creating a group answers and how the registry changes from `s0` to `s1`.
pub open spec fn create_post(s0: State, s1: State, conn: usize, params: Parameters, label: String, r: (Result<Reply, ServerError>, Notification)) -> bool {
    &&& s1.wf()
    &&& s1.clients@ == s0.clients@
    &&& r.1 is Noop
    &&& params.parties == 0 ==> r.0 == Err::<Reply, ServerError>(ServerError::NoParties)
        && s1.groups@ == s0.groups@
    &&& params.parties > 0 ==> r.0 is Ok
    &&& r.0 matches Ok(reply) ==> reply matches Reply::Group(info) && info.params == params && info.label@ == label@
        && exists|i: int| 0 <= i < s1.groups@.len() && {
            let g = #[trigger] s1.groups@[i];
            &&& describes(info, g)
            &&& g.clients@ == seq![conn]
            &&& g.sessions@.len() == 0
        }
    &&& r.0 is Ok ==> forall|i: int| 0 <= i < s0.groups@.len()
        ==> #[trigger] has_group(s1.groups@, s0.groups@[i].uuid)
}

/// What joining a group answers and how the registry changes from `s0` to `s1`.
pub open spec fn join_post(s0: State, s1: State, conn: usize, group_id: u128, r: (Result<Reply, ServerError>, Notification)) -> bool {
    &&& s1.wf()
    &&& s1.clients@ == s0.clients@
    &&& !has_group(s0.groups@, group_id) ==> r.0 == Err::<Reply, ServerError>(ServerError::GroupNotFound(group_id))
        && s1.groups@ == s0.groups@ && r.1 is Noop
    &&& forall|gi: int| 0 <= gi < s0.groups@.len() && #[trigger] s0.groups@[gi].uuid == group_id ==> {
        let g = s0.groups@[gi];
        if g.clients@.len() >= g.params.parties {
            &&& r.0 == Err::<Reply, ServerError>(ServerError::GroupFull(group_id))
            &&& s1.groups@ == s0.groups@
            &&& r.1 is Noop
        } else {
            &&& only_members_changed(s0.groups@, s1.groups@, gi)
            &&& s1.groups@[gi].clients@ == if g.clients@.contains(conn) {
                g.clients@
            } else {
                g.clients@.push(conn)
            }
            &&& (r.0 matches Ok(Reply::Group(info)) && describes(info, g))
            &&& if !g.clients@.contains(conn) && g.clients@.len() + 1 == g.params.parties {
                is_ready_broadcast(r.1, g)
            } else {
                r.1 is Noop
            }
        }
    }
}

/// What creating a session answers and how the registry changes from `s0` to `s1`.
pub open spec fn session_create_post(s0: State, s1: State, conn: usize, group_id: u128, kind: SessionKind, r: (Result<Reply, ServerError>, Notification)) -> bool {
    &&& s1.wf()
    &&& s1.clients@ == s0.clients@
    &&& !has_group(s0.groups@, group_id) ==> r.0 == Err::<Reply, ServerError>(ServerError::GroupNotFound(group_id))
        && s1.groups@ == s0.groups@ && r.1 is Noop
    &&& has_group(s0.groups@, group_id) ==> r.0 is Ok
    &&& r.0 matches Ok(reply) ==> reply matches Reply::Session(info) && info.kind == kind
        && (r.1 matches Notification::Group { group_id: g, filter: Some(f), response: Event::SessionCreated(i2) }
            && g == group_id && f@ == seq![conn] && i2 == info)
        && exists|gi: int, si: int| #[trigger] locates(s1.groups@, group_id, info.uuid, gi, si)
            && s1.groups@[gi].sessions@[si].kind == kind
            && s1.groups@[gi].sessions@[si].party_signups@.len() == 0
            && s1.groups@[gi].sessions@[si].finished@.len() == 0
}

/// What loading a party number answers and how the registry changes from `s0` to `s1`.
pub open spec fn load_post(s0: State, s1: State, conn: usize, group_id: u128, session_id: u128, party_number: u16, r: (Result<Reply, ServerError>, Notification)) -> bool {
    &&& s1.wf()
    &&& s1.clients@ == s0.clients@
    &&& !has_session(s0.groups@, group_id, session_id) ==> r.0 == Err::<Reply, ServerError>(
        lookup_error(s0.groups@, group_id, session_id),
    ) && s1.groups@ == s0.groups@ && r.1 is Noop
    &&& forall|gi: int, si: int| #[trigger] locates(s0.groups@, group_id, session_id, gi, si) ==> {
        let s = s0.groups@[gi].sessions@[si];
        let parties = s0.groups@[gi].params.parties;
        match load_result(s, parties, session_id, party_number) {
            Ok(n) => {
                &&& r.0 == Ok::<Reply, ServerError>(Reply::PartyNumber(n))
                &&& only_session_changed(s0.groups@, s1.groups@, gi, si)
                &&& s1.groups@[gi].sessions@[si].party_signups@ == s.party_signups@.push((n, conn))
                &&& s1.groups@[gi].sessions@[si].finished@ == s.finished@
                &&& if s.party_signups@.len() + 1 == parties {
                    is_session_broadcast(r.1, group_id, session_id, Event::SessionReady(session_id))
                } else {
                    r.1 is Noop
                }
            },
            Err(e) => r.0 == Err::<Reply, ServerError>(e) && s1.groups@ == s0.groups@ && r.1 is Noop,
        }
    }
}

/// What finishing a session answers and how the registry changes from `s0` to `s1`.
pub open spec fn finish_post(s0: State, s1: State, group_id: u128, session_id: u128, party_number: u16, r: (Result<Reply, ServerError>, Notification)) -> bool {
    &&& s1.wf()
    &&& s1.clients@ == s0.clients@
    &&& !has_session(s0.groups@, group_id, session_id) ==> r.0 == Err::<Reply, ServerError>(
        lookup_error(s0.groups@, group_id, session_id),
    ) && s1.groups@ == s0.groups@ && r.1 is Noop
    &&& forall|gi: int, si: int| #[trigger] locates(s0.groups@, group_id, session_id, gi, si) ==> {
        let s = s0.groups@[gi].sessions@[si];
        let parties = s0.groups@[gi].params.parties;
        if !is_signed_up(s.party_signups@, party_number) {
            &&& r.0 == Err::<Reply, ServerError>(ServerError::PartyNotSignedUp(party_number))
            &&& s1.groups@ == s0.groups@
            &&& r.1 is Noop
        } else if s.finished@.contains(party_number) {
            &&& r.0 == Ok::<Reply, ServerError>(Reply::Ack)
            &&& s1.groups@ == s0.groups@
            &&& r.1 is Noop
        } else {
            &&& r.0 == Ok::<Reply, ServerError>(Reply::Ack)
            &&& only_session_changed(s0.groups@, s1.groups@, gi, si)
            &&& s1.groups@[gi].sessions@[si].party_signups@ == s.party_signups@
            &&& s1.groups@[gi].sessions@[si].finished@ == s.finished@.push(party_number)
            &&& if s.finished@.len() + 1 == parties {
                is_session_broadcast(r.1, group_id, session_id, Event::SessionClosed(session_id))
            } else {
                r.1 is Noop
            }
        }
    }
}

/// What an automatic signup answers and how the registry changes from `s0` to `s1`.
pub open spec fn signup_post(s0: State, s1: State, conn: usize, group_id: u128, session_id: u128, r: (Result<Reply, ServerError>, Notification)) -> bool {
    &&& s1.wf()
    &&& s1.clients@ == s0.clients@
    &&& !has_session(s0.groups@, group_id, session_id) ==> r.0 == Err::<Reply, ServerError>(
        lookup_error(s0.groups@, group_id, session_id),
    ) && s1.groups@ == s0.groups@ && r.1 is Noop
    &&& forall|gi: int, si: int| #[trigger] locates(s0.groups@, group_id, session_id, gi, si) ==> {
        let s = s0.groups@[gi].sessions@[si];
        let parties = s0.groups@[gi].params.parties;
        match signup_result(s, parties, session_id) {
            Ok(n) => {
                &&& r.0 == Ok::<Reply, ServerError>(Reply::PartyNumber(n))
                &&& only_session_changed(s0.groups@, s1.groups@, gi, si)
                &&& s1.groups@[gi].sessions@[si].party_signups@ == s.party_signups@.push((n, conn))
                &&& s1.groups@[gi].sessions@[si].finished@ == s.finished@
                &&& if s.party_signups@.len() + 1 == parties {
                    is_session_broadcast(r.1, group_id, session_id, Event::SessionReady(session_id))
                } else {
                    r.1 is Noop
                }
            },
            Err(e) => r.0 == Err::<Reply, ServerError>(e) && s1.groups@ == s0.groups@ && r.1 is Noop,
        }
    }
}

/// Connected clients and groups managed by the broker.
#[derive(Debug)]
pub struct State {
    /// Connected client identifiers.
    pub clients: Vec<usize>,
    /// Groups, each identifier once.
    pub groups: Vec<Group>,
}

impl State {
    /// The registry's invariant: each client once, each group identifier
    /// once, every group well-formed.
    pub open spec fn wf(&self) -> bool {
        &&& self.clients@.no_duplicates()
        &&& group_ids_distinct(self.groups@)
        &&& forall|i: int| 0 <= i < self.groups@.len() ==> (#[trigger] self.groups@[i]).wf()
    }

    /// An empty registry.
    pub fn new() -> (r: State)
        ensures
            r.wf(),
            r.clients@.len() == 0,
            r.groups@.len() == 0,
    {
        State { clients: Vec::new(), groups: Vec::new() }
    }

    /// The positions of group `group_id` and of its session `session_id`,
    /// if both are there.
    pub open spec fn find_session_spec(&self, group_id: u128, session_id: u128) -> Option<(int, int)> {
        if has_session(self.groups@, group_id, session_id) {
            Some(choose|gi: int, si: int| locates(self.groups@, group_id, session_id, gi, si))
        } else {
            None
        }
    }

    /// The positions that locate a session are the ones the lookup names.
    pub proof fn lemma_find_session_spec(&self, group_id: u128, session_id: u128, gi: int, si: int)
        requires
            self.wf(),
            locates(self.groups@, group_id, session_id, gi, si),
        ensures
            self.find_session_spec(group_id, session_id) == Some((gi, si)),
    {
        assert(has_session(self.groups@, group_id, session_id));
        let (a, b) = choose|a: int, b: int| locates(self.groups@, group_id, session_id, a, b);
        lemma_locates_unique(*self, group_id, session_id, a, b, gi, si);
    }

    /// A session that is not there has no positions.
    pub proof fn lemma_find_session_spec_none(&self, group_id: u128, session_id: u128)
        requires
            !has_session(self.groups@, group_id, session_id),
        ensures
            self.find_session_spec(group_id, session_id) is None,
    {
    }

    /// The position of group `group_id`, if there is one.
    pub fn find_group(&self, group_id: u128) -> (r: Option<usize>)
        ensures
            r matches Some(i) ==> i < self.groups@.len() && self.groups@[i as int].uuid == group_id,
            r is None <==> !has_group(self.groups@, group_id),
    {
        let mut i: usize = 0;
        while i < self.groups.len()
            invariant
                0 <= i <= self.groups@.len(),
                forall|k: int| 0 <= k < i ==> self.groups@[k].uuid != group_id,
            decreases self.groups@.len() - i,
        {
            if self.groups[i].uuid == group_id {
                return Some(i);
            }
            i = i + 1;
        }
        None
    }

    /// The positions of group `group_id` and of its session `session_id`.
    pub fn find_session(&self, group_id: u128, session_id: u128) -> (r: Result<(usize, usize), ServerError>)
        requires
            group_ids_distinct(self.groups@),
        ensures
            r matches Ok((gi, si)) ==> locates(self.groups@, group_id, session_id, gi as int, si as int),
            r is Err <==> !has_session(self.groups@, group_id, session_id),
            r matches Err(e) ==> e == lookup_error(self.groups@, group_id, session_id),
    {
        match self.find_group(group_id) {
            None => Err(ServerError::GroupNotFound(group_id)),
            Some(gi) => {
                match self.groups[gi].find_session(session_id) {
                    Some(si) => {
                        proof {
                            assert(locates(self.groups@, group_id, session_id, gi as int, si as int));
                        }
                        Ok((gi, si))
                    },
                    None => {
                        proof {
                            assert(has_group(self.groups@, group_id));
                            assert forall|a: int, b: int| !#[trigger] locates(self.groups@, group_id, session_id, a, b) by {
                                if locates(self.groups@, group_id, session_id, a, b) {
                                    if a < gi as int {
                                        assert(self.groups@[a].uuid != self.groups@[gi as int].uuid);
                                    } else if a > gi as int {
                                        assert(self.groups@[gi as int].uuid != self.groups@[a].uuid);
                                    }
                                    assert(self.groups@[gi as int].sessions@[b].uuid != session_id);
                                }
                            }
                        }
                        Err(ServerError::SessionNotFound(session_id))
                    },
                }
            },
        }
    }

    /// Register a newly connected client.
    pub fn connect(&mut self, conn: usize)
        requires
            old(self).wf(),
        ensures
            final(self).wf(),
            final(self).groups@ == old(self).groups@,
            final(self).clients@ == if old(self).clients@.contains(conn) {
                old(self).clients@
            } else {
                old(self).clients@.push(conn)
            },
    {
        if self.is_connected(conn) {
            return;
        }
        self.clients.push(conn);
        proof {
            assert forall|a: int, b: int| 0 <= a < b < self.clients@.len() implies self.clients@[a] != self.clients@[b] by {
                if b < old(self).clients@.len() {
                    assert(old(self).clients@[a] != old(self).clients@[b]);
                }
            }
        }
    }

    /// Whether `conn` is connected.
    pub fn is_connected(&self, conn: usize) -> (r: bool)
        ensures
            r == self.clients@.contains(conn),
    {
        let mut i: usize = 0;
        while i < self.clients.len()
            invariant
                0 <= i <= self.clients@.len(),
                forall|k: int| 0 <= k < i ==> self.clients@[k] != conn,
            decreases self.clients@.len() - i,
        {
            if self.clients[i] == conn {
                return true;
            }
            i = i + 1;
        }
        false
    }

    /// Pass a protocol message on: to the party bound to `receiver`, or,
    /// with no receiver, to every party of the session but the caller.
    pub fn session_message(&self, conn: usize, group_id: u128, session_id: u128, sender: u16, receiver: Option<u16>, body: String) -> (r: (Result<Reply, ServerError>, Notification))
        requires
            self.wf(),
        ensures
            message_post(*self, conn, group_id, session_id, sender, receiver, body, r),
    {
        let (gi, si) = match self.find_session(group_id, session_id) {
            Ok(p) => p,
            Err(e) => {
                return (Err(e), Notification::Noop);
            },
        };
        proof {
            assert forall|a: int, b: int| #[trigger] locates(self.groups@, group_id, session_id, a, b)
                implies a == gi && b == si by {
                lemma_locates_unique(*self, group_id, session_id, a, b, gi as int, si as int);
            }
        }
        let message = PeerMessage { session_id, sender, receiver, body };
        match receiver {
            None => {
                let mut filter: Vec<usize> = Vec::new();
                filter.push(conn);
                (Ok(Reply::Ack), Notification::Session {
                    group_id,
                    session_id,
                    filter: Some(filter),
                    response: Event::SessionMessage(message),
                })
            },
            Some(n) => {
                match self.groups[gi].sessions[si].party_connection(n) {
                    Some(target) => {
                        let mut messages: Vec<(usize, Event)> = Vec::new();
                        messages.push((target, Event::SessionMessage(message)));
                        (Ok(Reply::Ack), Notification::Relay { messages })
                    },
                    None => (Err(ServerError::PartyNotSignedUp(n)), Notification::Noop),
                }
            },
        }
    }

    /// Forget a client whose connection ended: take it out of the registry
    /// and out of every group, and drop the groups left without members
    /// together with their sessions. Session signups are left as they are.
    pub fn disconnect(&mut self, conn: usize)
        requires
            old(self).wf(),
        ensures
            disconnect_post(*old(self), *final(self), conn),
    {
        remove_id(&mut self.clients, conn);
        let mut rest: Vec<Group> = Vec::new();
        std::mem::swap(&mut self.groups, &mut rest);
        let ghost all = rest@;
        let ghost n = all.len();
        let mut i: usize = 0;
        let total: usize = rest.len();
        assert(n == total);
        while rest.len() > 0
            invariant
                all == old(self).groups@,
                n == all.len(),
                n <= usize::MAX,
                i + rest@.len() == n,
                rest@ == all.subrange(i as int, n as int),
                self.clients@ == without(old(self).clients@, conn),
                self.clients@.no_duplicates(),
                group_ids_distinct(all),
                forall|k: int| 0 <= k < n ==> (#[trigger] all[k]).wf(),
                group_ids_distinct(self.groups@),
                forall|j: int| 0 <= j < self.groups@.len() ==> (#[trigger] self.groups@[j]).wf(),
                forall|j: int| 0 <= j < self.groups@.len() ==> !(#[trigger] self.groups@[j]).clients@.contains(conn),
                forall|k: int| 0 <= k < i && without(all[k].clients@, conn).len() > 0
                    ==> exists|j: int| 0 <= j < self.groups@.len() && #[trigger] kept_as(all[k], self.groups@[j], conn),
                forall|j: int| 0 <= j < self.groups@.len() ==> #[trigger] origin_in(all, i as int, self.groups@[j], conn),
            decreases rest@.len(),
        {
            let mut g = rest.remove(0);
            proof {
                assert(g == all[i as int]);
                assert(rest@ =~= all.subrange(i as int + 1, n as int));
                assert(g.wf());
            }
            g.leave(conn);
            proof {
                assert(!g.clients@.contains(conn)) by {
                    if all[i as int].clients@.contains(conn) {
                        let x = all[i as int].clients@.index_of(conn);
                        let r = all[i as int].clients@.remove(x);
                        assert forall|k: int| 0 <= k < r.len() implies r[k] != conn by {
                            let k0 = if k < x { k } else { k + 1 };
                            assert(r[k] == all[i as int].clients@[k0]);
                            assert(all[i as int].clients@[k0] != all[i as int].clients@[x]);
                        }
                    }
                }
            }
            if g.clients.len() > 0 {
                let ghost before = self.groups@;
                self.groups.push(g);
                proof {
                    assert(kept_as(all[i as int], self.groups@[before.len() as int], conn));
                    assert forall|a: int, b: int| 0 <= a < b < self.groups@.len() implies #[trigger] self.groups@[a].uuid != #[trigger] self.groups@[b].uuid by {
                        if b < before.len() {
                            assert(before[a].uuid != before[b].uuid);
                        } else {
                            assert(origin_in(all, i as int, before[a], conn));
                            let k = choose|k: int| 0 <= k < i && #[trigger] kept_as(all[k], before[a], conn);
                            assert(all[k].uuid != all[i as int].uuid);
                        }
                    }
                    assert forall|k: int| 0 <= k < i + 1 && without(all[k].clients@, conn).len() > 0
                        implies exists|j: int| 0 <= j < self.groups@.len() && #[trigger] kept_as(all[k], self.groups@[j], conn) by {
                        if k < i {
                            let j = choose|j: int| 0 <= j < before.len() && #[trigger] kept_as(all[k], before[j], conn);
                            assert(self.groups@[j] == before[j]);
                        } else {
                            assert(kept_as(all[k], self.groups@[before.len() as int], conn));
                        }
                    }
                    assert forall|j: int| 0 <= j < self.groups@.len()
                        implies #[trigger] origin_in(all, i as int + 1, self.groups@[j], conn) by {
                        if j < before.len() {
                            assert(origin_in(all, i as int, before[j], conn));
                            let k = choose|k: int| 0 <= k < i && #[trigger] kept_as(all[k], before[j], conn);
                            assert(kept_as(all[k], self.groups@[j], conn));
                        } else {
                            assert(kept_as(all[i as int], self.groups@[j], conn));
                        }
                    }
                }
            } else {
                proof {
                    assert forall|k: int| 0 <= k < i + 1 && without(all[k].clients@, conn).len() > 0
                        implies exists|j: int| 0 <= j < self.groups@.len() && #[trigger] kept_as(all[k], self.groups@[j], conn) by {
                        if k < i {
                        }
                    }
                    assert forall|j: int| 0 <= j < self.groups@.len()
                        implies #[trigger] origin_in(all, i as int + 1, self.groups@[j], conn) by {
                        assert(origin_in(all, i as int, self.groups@[j], conn));
                        let k = choose|k: int| 0 <= k < i && #[trigger] kept_as(all[k], self.groups@[j], conn);
                        assert(kept_as(all[k], self.groups@[j], conn));
                    }
                }
            }
            i = i + 1;
        }
    }

    /// Create a group with the caller as its first member.
    ///
    /// A group needs at least one party. Should the fresh identifier
    /// already name a group, the new group takes its place.
    pub fn group_create(&mut self, conn: usize, params: Parameters, label: String) -> (r: (Result<Reply, ServerError>, Notification))
        requires
            old(self).wf(),
        ensures
            create_post(*old(self), *final(self), conn, params, label, r),
    {
        if params.parties == 0 {
            return (Err(ServerError::NoParties), Notification::Noop);
        }
        let g = Group::new(conn, params, label);
        let info = g.info();
        match self.find_group(g.uuid) {
            Some(i) => {
                self.groups.set(i, g);
                proof {
                    assert forall|a: int, b: int| 0 <= a < b < self.groups@.len() implies #[trigger] self.groups@[a].uuid != #[trigger] self.groups@[b].uuid by {
                        assert(old(self).groups@[a].uuid != old(self).groups@[b].uuid);
                    }
                    assert forall|k: int| 0 <= k < self.groups@.len() implies (#[trigger] self.groups@[k]).wf() by {
                        if k != i {
                            assert(old(self).groups@[k].wf());
                        }
                    }
                    assert forall|k: int| 0 <= k < old(self).groups@.len()
                        implies #[trigger] has_group(self.groups@, old(self).groups@[k].uuid) by {
                        if k != i {
                            assert(self.groups@[k].uuid == old(self).groups@[k].uuid);
                        } else {
                            assert(self.groups@[k].uuid == old(self).groups@[k].uuid);
                        }
                    }
                    assert(describes(info, self.groups@[i as int]));
                }
            },
            None => {
                self.groups.push(g);
                proof {
                    let n = old(self).groups@.len() as int;
                    assert forall|a: int, b: int| 0 <= a < b < self.groups@.len() implies #[trigger] self.groups@[a].uuid != #[trigger] self.groups@[b].uuid by {
                        if b < n {
                            assert(old(self).groups@[a].uuid != old(self).groups@[b].uuid);
                        } else {
                            assert(self.groups@[a] == old(self).groups@[a]);
                        }
                    }
                    assert forall|k: int| 0 <= k < self.groups@.len() implies (#[trigger] self.groups@[k]).wf() by {
                        if k < n {
                            assert(old(self).groups@[k].wf());
                        }
                    }
                    assert forall|k: int| 0 <= k < old(self).groups@.len()
                        implies #[trigger] has_group(self.groups@, old(self).groups@[k].uuid) by {
                        assert(self.groups@[k].uuid == old(self).groups@[k].uuid);
                    }
                    assert(describes(info, self.groups@[n]));
                }
            },
        }
        (Ok(Reply::Group(info)), Notification::Noop)
    }

    /// Add the caller to a group's members.
    ///
    /// The join that fills the group tells every member that the group is
    /// ready; a join to a full group fails and tells no one.
    pub fn group_join(&mut self, conn: usize, group_id: u128) -> (r: (Result<Reply, ServerError>, Notification))
        requires
            old(self).wf(),
        ensures
            join_post(*old(self), *final(self), conn, group_id, r),
    {
        let gi = match self.find_group(group_id) {
            Some(i) => i,
            None => {
                return (Err(ServerError::GroupNotFound(group_id)), Notification::Noop);
            },
        };
        proof {
            assert forall|a: int| 0 <= a < old(self).groups@.len() && #[trigger] old(self).groups@[a].uuid == group_id
                implies a == gi by {
                if a < gi {
                    assert(old(self).groups@[a].uuid != old(self).groups@[gi as int].uuid);
                } else if a > gi {
                    assert(old(self).groups@[gi as int].uuid != old(self).groups@[a].uuid);
                }
            }
            assert(old(self).groups@[gi as int].wf());
        }
        if self.groups[gi].clients.len() >= self.groups[gi].params.parties as usize {
            return (Err(ServerError::GroupFull(group_id)), Notification::Noop);
        }
        let res = self.groups[gi].join(conn);
        proof {
            lemma_members_change_keeps_wf(*old(self), *self, gi as int);
        }
        let info = self.groups[gi].info();
        match res {
            Ok(true) => {
                let note = self.groups[gi].info();
                (Ok(Reply::Group(info)), Notification::Group {
                    group_id,
                    filter: None,
                    response: Event::GroupReady(note),
                })
            },
            _ => (Ok(Reply::Group(info)), Notification::Noop),
        }
    }

    /// The metadata of every group, in registry order.
    pub fn group_list(&self) -> (r: Vec<GroupInfo>)
        ensures
            r@.len() == self.groups@.len(),
            forall|i: int| 0 <= i < r@.len() ==> describes(#[trigger] r@[i], self.groups@[i]),
    {
        let mut r: Vec<GroupInfo> = Vec::new();
        let mut i: usize = 0;
        while i < self.groups.len()
            invariant
                0 <= i <= self.groups@.len(),
                r@.len() == i,
                forall|k: int| 0 <= k < i ==> describes(#[trigger] r@[k], self.groups@[k]),
            decreases self.groups@.len() - i,
        {
            r.push(self.groups[i].info());
            i = i + 1;
        }
        r
    }

    /// Create a session in a group and announce it to the other members.
    ///
    /// Should the fresh identifier already name a session of the group,
    /// the new session takes its place.
    pub fn session_create(&mut self, conn: usize, group_id: u128, kind: SessionKind) -> (r: (Result<Reply, ServerError>, Notification))
        requires
            old(self).wf(),
        ensures
            session_create_post(*old(self), *final(self), conn, group_id, kind, r),
    {
        let gi = match self.find_group(group_id) {
            Some(i) => i,
            None => {
                return (Err(ServerError::GroupNotFound(group_id)), Notification::Noop);
            },
        };
        let session = Session::new(kind);
        let info = SessionInfo { uuid: session.uuid, kind };
        proof {
            assert(old(self).groups@[gi as int].wf());
        }
        let si = match self.groups[gi].find_session(session.uuid) {
            Some(si) => {
                self.groups[gi].sessions.set(si, session);
                si
            },
            None => {
                self.groups[gi].sessions.push(session);
                self.groups[gi].sessions.len() - 1
            },
        };
        proof {
            let g0 = old(self).groups@[gi as int];
            let g1 = self.groups@[gi as int];
            assert forall|a: int, b: int| 0 <= a < b < g1.sessions@.len() implies #[trigger] g1.sessions@[a].uuid != #[trigger] g1.sessions@[b].uuid by {
                if a != si && b != si {
                    assert(g0.sessions@[a].uuid != g0.sessions@[b].uuid);
                }
            }
            assert forall|k: int| 0 <= k < g1.sessions@.len() implies (#[trigger] g1.sessions@[k]).wf(g1.params.parties) by {
                if k != si {
                    assert(g0.sessions@[k].wf(g0.params.parties));
                }
            }
            assert(g1.wf());
            assert forall|a: int, b: int| 0 <= a < b < self.groups@.len() implies #[trigger] self.groups@[a].uuid != #[trigger] self.groups@[b].uuid by {
                assert(old(self).groups@[a].uuid != old(self).groups@[b].uuid);
            }
            assert forall|k: int| 0 <= k < self.groups@.len() implies (#[trigger] self.groups@[k]).wf() by {
                if k != gi {
                    assert(old(self).groups@[k].wf());
                }
            }
            assert(locates(self.groups@, group_id, info.uuid, gi as int, si as int));
        }
        let mut filter: Vec<usize> = Vec::new();
        filter.push(conn);
        (Ok(Reply::Session(info)), Notification::Group {
            group_id,
            filter: Some(filter),
            response: Event::SessionCreated(info),
        })
    }

    /// Bind the caller to an explicit party number in a session, as a party
    /// does when it resumes with a persisted key share.
    ///
    /// Once every party number is taken, the session's parties are told
    /// that it is ready.
    pub fn session_load(&mut self, conn: usize, group_id: u128, session_id: u128, party_number: u16) -> (r: (Result<Reply, ServerError>, Notification))
        requires
            old(self).wf(),
        ensures
            load_post(*old(self), *final(self), conn, group_id, session_id, party_number, r),
    {
        let (gi, si) = match self.find_session(group_id, session_id) {
            Ok(p) => p,
            Err(e) => {
                return (Err(e), Notification::Noop);
            },
        };
        proof {
            assert forall|a: int, b: int| #[trigger] locates(old(self).groups@, group_id, session_id, a, b)
                implies a == gi && b == si by {
                lemma_locates_unique(*old(self), group_id, session_id, a, b, gi as int, si as int);
            }
            assert(old(self).groups@[gi as int].wf());
        }
        let params = self.groups[gi].params;
        let len = self.groups[gi].sessions[si].party_signups.len();
        if party_number == 0 {
            return (Err(ServerError::ZeroPartyNumber), Notification::Noop);
        }
        if party_number > params.parties {
            return (Err(ServerError::PartyNumberOutOfRange), Notification::Noop);
        }
        if self.groups[gi].sessions[si].has_party(party_number) {
            return (Err(ServerError::PartyNumberAlreadyExists(session_id)), Notification::Noop);
        }
        match self.groups[gi].sessions[si].load(&params, conn, party_number) {
            Err(e) => (Err(e), Notification::Noop),
            Ok(()) => {
                proof {
                    lemma_bind_keeps_wf(
                        old(self).groups@[gi as int].sessions@[si as int],
                        self.groups@[gi as int].sessions@[si as int],
                        params.parties,
                        party_number,
                        conn,
                    );
                    lemma_session_change_keeps_wf(*old(self), *self, gi as int, si as int);
                }
                if params.parties > 0 && len == params.parties as usize - 1 {
                    (Ok(Reply::PartyNumber(party_number)), Notification::Session {
                        group_id,
                        session_id,
                        filter: None,
                        response: Event::SessionReady(session_id),
                    })
                } else {
                    (Ok(Reply::PartyNumber(party_number)), Notification::Noop)
                }
            },
        }
    }

    /// Mark a session finished by `party_number`.
    ///
    /// The call that brings the finished parties up to the group's number
    /// of parties tells the session's parties that it is closed; a repeated
    /// call by a party already finished records nothing and tells no one.
    pub fn session_finish(&mut self, group_id: u128, session_id: u128, party_number: u16) -> (r: (Result<Reply, ServerError>, Notification))
        requires
            old(self).wf(),
        ensures
            finish_post(*old(self), *final(self), group_id, session_id, party_number, r),
    {
        let (gi, si) = match self.find_session(group_id, session_id) {
            Ok(p) => p,
            Err(e) => {
                return (Err(e), Notification::Noop);
            },
        };
        proof {
            assert forall|a: int, b: int| #[trigger] locates(old(self).groups@, group_id, session_id, a, b)
                implies a == gi && b == si by {
                lemma_locates_unique(*old(self), group_id, session_id, a, b, gi as int, si as int);
            }
            assert(old(self).groups@[gi as int].wf());
        }
        if !self.groups[gi].sessions[si].has_party(party_number) {
            return (Err(ServerError::PartyNotSignedUp(party_number)), Notification::Noop);
        }
        if self.groups[gi].sessions[si].is_finished_by(party_number) {
            return (Ok(Reply::Ack), Notification::Noop);
        }
        let parties = self.groups[gi].params.parties;
        let count = self.groups[gi].sessions[si].finished.len();
        let _ = self.groups[gi].sessions[si].finish(party_number);
        proof {
            let s0 = old(self).groups@[gi as int].sessions@[si as int];
            let s1 = self.groups@[gi as int].sessions@[si as int];
            assert(s0.wf(parties));
            assert(s1.wf(parties)) by {
                assert forall|a: int, b: int| 0 <= a < b < s1.finished@.len() implies s1.finished@[a] != s1.finished@[b] by {
                    if b == s0.finished@.len() {
                        assert(s0.finished@[a] == s1.finished@[a]);
                    } else {
                        assert(s0.finished@[a] == s1.finished@[a] && s0.finished@[b] == s1.finished@[b]);
                    }
                }
                assert forall|k: int| 0 <= k < s1.finished@.len() implies is_signed_up(s1.party_signups@, #[trigger] s1.finished@[k]) by {
                    if k < s0.finished@.len() {
                        assert(s0.finished@[k] == s1.finished@[k]);
                    }
                }
            }
            lemma_session_change_keeps_wf(*old(self), *self, gi as int, si as int);
        }
        if parties > 0 && count == parties as usize - 1 {
            (Ok(Reply::Ack), Notification::Session {
                group_id,
                session_id,
                filter: None,
                response: Event::SessionClosed(session_id),
            })
        } else {
            (Ok(Reply::Ack), Notification::Noop)
        }
    }

    /// Sign the caller up to a session under the next party number.
    ///
    /// Once every party number is taken, the session's parties are told
    /// that it is ready.
    pub fn session_signup(&mut self, conn: usize, group_id: u128, session_id: u128) -> (r: (Result<Reply, ServerError>, Notification))
        requires
            old(self).wf(),
        ensures
            signup_post(*old(self), *final(self), conn, group_id, session_id, r),
    {
        let (gi, si) = match self.find_session(group_id, session_id) {
            Ok(p) => p,
            Err(e) => {
                return (Err(e), Notification::Noop);
            },
        };
        proof {
            assert forall|a: int, b: int| #[trigger] locates(old(self).groups@, group_id, session_id, a, b)
                implies a == gi && b == si by {
                lemma_locates_unique(*old(self), group_id, session_id, a, b, gi as int, si as int);
            }
        }
        let parties = self.groups[gi].params.parties;
        let len = self.groups[gi].sessions[si].party_signups.len();
        if len >= parties as usize {
            return (Err(ServerError::SessionFull(session_id)), Notification::Noop);
        }
        let next: u32 = if len == 0 {
            1
        } else {
            self.groups[gi].sessions[si].party_signups[len - 1].0 as u32 + 1
        };
        if next > parties as u32 {
            return (Err(ServerError::PartyNumberOutOfRange), Notification::Noop);
        }
        if self.groups[gi].sessions[si].has_party(next as u16) {
            return (Err(ServerError::PartyNumberAlreadyExists(session_id)), Notification::Noop);
        }
        let n = self.groups[gi].sessions[si].signup(conn);
        proof {
            assert(old(self).groups@[gi as int].wf());
            lemma_bind_keeps_wf(
                old(self).groups@[gi as int].sessions@[si as int],
                self.groups@[gi as int].sessions@[si as int],
                parties,
                n,
                conn,
            );
            lemma_session_change_keeps_wf(*old(self), *self, gi as int, si as int);
        }
        if len + 1 == parties as usize {
            (Ok(Reply::PartyNumber(n)), Notification::Session {
                group_id,
                session_id,
                filter: None,
                response: Event::SessionReady(session_id),
            })
        } else {
            (Ok(Reply::PartyNumber(n)), Notification::Noop)
        }
    }
}

} // verus!
