use vstd::prelude::*;
use crate::error::ServerError;
use crate::ids::new_uuid;
use crate::params::Parameters;
use crate::notify::GroupInfo;
use crate::session::Session;

verus! {

/// Group is a collection of connected clients that share parameters and
/// run sessions together.
#[derive(Debug)]
pub struct Group {
    /// Unique identifier for the group.
    pub uuid: u128,
    /// Parameters for key generation.
    pub params: Parameters,
    /// Human-readable label for the group.
    pub label: String,
    /// Member connection identifiers; the creator comes first.
    pub clients: Vec<usize>,
    /// Sessions belonging to this group.
    pub sessions: Vec<Session>,
}

/// Whether the sessions hold pairwise distinct identifiers.
pub open spec fn session_ids_distinct(s: Seq<Session>) -> bool {
    forall|i: int, j: int| 0 <= i < j < s.len() ==> #[trigger] s[i].uuid != #[trigger] s[j].uuid
}

impl Group {
    /// The group's invariant: between one member and `parties` members,
    /// none twice, and well-formed sessions with distinct identifiers.
    pub open spec fn wf(&self) -> bool {
        &&& 1 <= self.clients@.len() <= self.params.parties
        &&& self.clients@.no_duplicates()
        &&& session_ids_distinct(self.sessions@)
        &&& forall|i: int| 0 <= i < self.sessions@.len() ==> (#[trigger] self.sessions@[i]).wf(self.params.parties)
    }

    /// Create a new group.
    ///
    /// The connection identifier `conn` becomes the first member.
    pub fn new(conn: usize, params: Parameters, label: String) -> (r: Group)
        ensures
            r.params == params,
            r.label@ == label@,
            r.clients@ == seq![conn],
            r.sessions@.len() == 0,
            params.parties >= 1 ==> r.wf(),
    {
        let mut clients: Vec<usize> = Vec::new();
        clients.push(conn);
        let r = Group { uuid: new_uuid(), params, label, clients, sessions: Vec::new() };
        proof {
            assert(r.clients@ =~= seq![conn]);
        }
        r
    }

    /// Whether `conn` is a member of the group.
    pub fn has_member(&self, conn: usize) -> (r: bool)
        ensures
            r == self.clients@.contains(conn),
    {
        let mut i: usize = 0;
        while i < self.clients.len()
            invariant
                0 <= i <= self.clients@.len(),
                forall|k: int| 0 <= k < i ==> self.clients@[k] != conn,
            decreases self.clients@.len() - i,
        {
            if self.clients[i] == conn {
                return true;
            }
            i = i + 1;
        }
        false
    }

    /// Add `conn` to the members.
    ///
    /// Fails when the group is already full. A member joining again changes
    /// nothing. Returns whether this call filled the group.
    pub fn join(&mut self, conn: usize) -> (r: Result<bool, ServerError>)
        requires
            old(self).wf(),
        ensures
            final(self).wf(),
            final(self).uuid == old(self).uuid,
            final(self).params == old(self).params,
            final(self).label@ == old(self).label@,
            final(self).sessions@ == old(self).sessions@,
            old(self).clients@.len() >= old(self).params.parties
                ==> r == Err::<bool, ServerError>(ServerError::GroupFull(old(self).uuid))
                    && final(self).clients@ == old(self).clients@,
            old(self).clients@.len() < old(self).params.parties && old(self).clients@.contains(conn)
                ==> r == Ok::<bool, ServerError>(false) && final(self).clients@ == old(self).clients@,
            old(self).clients@.len() < old(self).params.parties && !old(self).clients@.contains(conn)
                ==> final(self).clients@ == old(self).clients@.push(conn)
                    && r == Ok::<bool, ServerError>(final(self).clients@.len() == old(self).params.parties),
    {
        if self.clients.len() >= self.params.parties as usize {
            return Err(ServerError::GroupFull(self.uuid));
        }
        if self.has_member(conn) {
            return Ok(false);
        }
        self.clients.push(conn);
        proof {
            assert(self.clients@.no_duplicates()) by {
                assert forall|i: int, j: int| 0 <= i < j < self.clients@.len()
                    implies self.clients@[i] != self.clients@[j] by {
                    if j == self.clients@.len() - 1 {
                        assert(old(self).clients@[i] == self.clients@[i]);
                    } else {
                        assert(old(self).clients@[i] == self.clients@[i]);
                        assert(old(self).clients@[j] == self.clients@[j]);
                    }
                }
            }
        }
        Ok(self.clients.len() == self.params.parties as usize)
    }

    /// The position of the session `session_id` in the group, if any.
    pub fn find_session(&self, session_id: u128) -> (r: Option<usize>)
        ensures
            r matches Some(i) ==> i < self.sessions@.len() && self.sessions@[i as int].uuid == session_id,
            r is None ==> forall|i: int| 0 <= i < self.sessions@.len() ==> self.sessions@[i].uuid != session_id,
    {
        let mut i: usize = 0;
        while i < self.sessions.len()
            invariant
                0 <= i <= self.sessions@.len(),
                forall|k: int| 0 <= k < i ==> self.sessions@[k].uuid != session_id,
            decreases self.sessions@.len() - i,
        {
            if self.sessions[i].uuid == session_id {
                return Some(i);
            }
            i = i + 1;
        }
        None
    }

    /// Remove `conn` from the members, if it is one.
    pub fn leave(&mut self, conn: usize)
        requires
            old(self).clients@.no_duplicates(),
        ensures
            final(self).clients@.no_duplicates(),
            final(self).clients@ == without(old(self).clients@, conn),
            final(self).clients@.len() <= old(self).clients@.len(),
            final(self).uuid == old(self).uuid,
            final(self).params == old(self).params,
            final(self).label@ == old(self).label@,
            final(self).sessions@ == old(self).sessions@,
    {
        remove_id(&mut self.clients, conn);
    }

    /// The group's metadata.
    pub fn info(&self) -> (r: GroupInfo)
        ensures
            r.uuid == self.uuid,
            r.params == self.params,
            r.label@ == self.label@,
    {
        GroupInfo { uuid: self.uuid, params: self.params, label: self.label.clone() }
    }
}

/// Take the one occurrence of `x` out of `v`, if there is one.
pub fn remove_id(v: &mut Vec<usize>, x: usize)
    requires
        old(v)@.no_duplicates(),
    ensures
        final(v)@.no_duplicates(),
        final(v)@ == without(old(v)@, x),
        final(v)@.len() <= old(v)@.len(),
        !final(v)@.contains(x),
{
    let mut i: usize = 0;
    while i < v.len()
        invariant
            0 <= i <= v@.len(),
            v@ == old(v)@,
            old(v)@.no_duplicates(),
            forall|k: int| 0 <= k < i ==> v@[k] != x,
        decreases v@.len() - i,
    {
        if v[i] == x {
            v.remove(i);
            proof {
                lemma_remove_unique(old(v)@, i as int, x);
                let r = old(v)@.remove(i as int);
                assert forall|k: int| 0 <= k < r.len() implies r[k] != x by {
                    let k0 = if k < i { k } else { k + 1 };
                    assert(r[k] == old(v)@[k0]);
                    assert(old(v)@[k0] != old(v)@[i as int]);
                }
            }
            return;
        }
        i = i + 1;
    }
    proof {
        assert(!old(v)@.contains(x));
    }
}

/// The sequence with the one occurrence of `x` taken out, if there is one.
pub open spec fn without(s: Seq<usize>, x: usize) -> Seq<usize> {
    if s.contains(x) {
        s.remove(s.index_of(x))
    } else {
        s
    }
}

/// Removing position `i` of a sequence without duplicates, where `x`
/// stands, takes out the one occurrence of `x` and keeps the rest distinct.
proof fn lemma_remove_unique(s: Seq<usize>, i: int, x: usize)
    requires
        0 <= i < s.len(),
        s[i] == x,
        s.no_duplicates(),
    ensures
        without(s, x) == s.remove(i),
        s.remove(i).no_duplicates(),
{
    assert(s.contains(x));
    let j = s.index_of(x);
    assert(s[j] == x);
    assert(j == i);
    let r = s.remove(i);
    assert forall|a: int, b: int| 0 <= a < b < r.len() implies r[a] != r[b] by {
        let a0 = if a < i { a } else { a + 1 };
        let b0 = if b < i { b } else { b + 1 };
        assert(r[a] == s[a0]);
        assert(r[b] == s[b0]);
    }
}

} // verus!
