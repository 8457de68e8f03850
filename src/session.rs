use vstd::prelude::*;
use crate::error::ServerError;
use crate::ids::new_uuid;
use crate::params::{Parameters, SessionKind};

verus! {

/// The party numbers of a signup list, in signup order.
pub open spec fn numbers(s: Seq<(u16, usize)>) -> Seq<u16> {
    s.map_values(|p: (u16, usize)| p.0)
}

/// The connection identifiers of a signup list, in signup order.
pub open spec fn connections(s: Seq<(u16, usize)>) -> Seq<usize> {
    s.map_values(|p: (u16, usize)| p.1)
}

/// Whether `n` is bound in the signup list.
pub open spec fn is_signed_up(s: Seq<(u16, usize)>, n: u16) -> bool {
    exists|i: int| 0 <= i < s.len() && #[trigger] s[i].0 == n
}

/// Whether party number `n` is bound to connection `c` in the signup list.
pub open spec fn binds(s: Seq<(u16, usize)>, n: u16, c: usize) -> bool {
    exists|i: int| 0 <= i < s.len() && #[trigger] s[i] == (n, c)
}

/// The number that the next automatic signup receives: one more than the
/// last number signed up, or one for an empty list.
pub open spec fn next_party_number(s: Seq<(u16, usize)>) -> int {
    if s.len() == 0 {
        1
    } else {
        s.last().0 + 1
    }
}

/// Every party number lies in `1..=parties`.
pub open spec fn numbers_in_range(s: Seq<(u16, usize)>, parties: u16) -> bool {
    forall|i: int| 0 <= i < s.len() ==> 1 <= #[trigger] s[i].0 <= parties
}

/// No party number occurs twice.
pub open spec fn numbers_distinct(s: Seq<(u16, usize)>) -> bool {
    forall|i: int, j: int| 0 <= i < j < s.len() ==> #[trigger] s[i].0 != #[trigger] s[j].0
}

/// The party numbers increase strictly in signup order.
pub open spec fn numbers_increasing(s: Seq<(u16, usize)>) -> bool {
    forall|i: int, j: int| 0 <= i < j < s.len() ==> #[trigger] s[i].0 < #[trigger] s[j].0
}

/// Session used for key generation or signing communication.
#[derive(Debug, Clone)]
pub struct Session {
    /// Unique identifier for the session.
    pub uuid: u128,
    /// Kind of the session.
    pub kind: SessionKind,
    /// Party numbers paired with the connection that holds each, in signup order.
    pub party_signups: Vec<(u16, usize)>,
    /// Party numbers of those that have marked the session as finished,
    /// each once.
    pub finished: Vec<u16>,
}

impl Default for Session {
    /// A key generation session with a fresh identifier and nobody signed up.
    fn default() -> (r: Self)
        ensures
            r.kind == SessionKind::Keygen,
            r.party_signups@.len() == 0,
            r.finished@.len() == 0,
    {
        Session::new(SessionKind::Keygen)
    }
}

impl Session {
    /// The finished set as a set of party numbers.
    pub open spec fn finished_set(&self) -> Set<u16> {
        self.finished@.to_set()
    }

    /// The session's invariant within a group of `parties` parties: numbers
    /// in range and distinct, and only signed-up parties finished, each once.
    pub open spec fn wf(&self, parties: u16) -> bool {
        &&& numbers_in_range(self.party_signups@, parties)
        &&& numbers_distinct(self.party_signups@)
        &&& self.finished@.no_duplicates()
        &&& forall|k: int| 0 <= k < self.finished@.len()
            ==> is_signed_up(self.party_signups@, #[trigger] self.finished@[k])
    }

    /// A new session of the given kind, with a fresh identifier and nobody
    /// signed up.
    pub fn new(kind: SessionKind) -> (r: Session)
        ensures
            r.kind == kind,
            r.party_signups@.len() == 0,
            r.finished@.len() == 0,
            forall|p: u16| r.wf(p),
    {
        Session { uuid: new_uuid(), kind, party_signups: Vec::new(), finished: Vec::new() }
    }

    /// Signup to a session.
    ///
    /// Binds `conn` to the next party number, one more than the last one
    /// signed up (or one), and returns that number. That number must still
    /// be free: a load may have taken it already.
    pub fn signup(&mut self, conn: usize) -> (r: u16)
        requires
            next_party_number(old(self).party_signups@) <= u16::MAX,
            !is_signed_up(old(self).party_signups@, next_party_number(old(self).party_signups@) as u16),
        ensures
            r == next_party_number(old(self).party_signups@),
            final(self).party_signups@ == old(self).party_signups@.push((r, conn)),
            final(self).uuid == old(self).uuid,
            final(self).kind == old(self).kind,
            final(self).finished@ == old(self).finished@,
    {
        let len = self.party_signups.len();
        let num: u16 = if len == 0 {
            1
        } else {
            let (last, _) = self.party_signups[len - 1];
            last + 1
        };
        self.party_signups.push((num, conn));
        num
    }

    /// Whether `party_number` is bound within this session.
    pub fn has_party(&self, party_number: u16) -> (r: bool)
        ensures
            r == is_signed_up(self.party_signups@, party_number),
    {
        let mut i: usize = 0;
        while i < self.party_signups.len()
            invariant
                0 <= i <= self.party_signups@.len(),
                forall|k: int| 0 <= k < i ==> self.party_signups@[k].0 != party_number,
            decreases self.party_signups@.len() - i,
        {
            if self.party_signups[i].0 == party_number {
                return true;
            }
            i = i + 1;
        }
        false
    }

    /// The connection bound to `party_number`, if any.
    pub fn party_connection(&self, party_number: u16) -> (r: Option<usize>)
        ensures
            r matches Some(c) ==> binds(self.party_signups@, party_number, c),
            r is None <==> !is_signed_up(self.party_signups@, party_number),
    {
        let mut i: usize = 0;
        while i < self.party_signups.len()
            invariant
                0 <= i <= self.party_signups@.len(),
                forall|k: int| 0 <= k < i ==> self.party_signups@[k].0 != party_number,
            decreases self.party_signups@.len() - i,
        {
            let (num, c) = self.party_signups[i];
            if num == party_number {
                proof {
                    assert(self.party_signups@[i as int] == (party_number, c));
                }
                return Some(c);
            }
            i = i + 1;
        }
        None
    }

    /// Load an existing party number into this session, as a party does
    /// when it resumes with a persisted key share.
    pub fn load(&mut self, parameters: &Parameters, conn: usize, party_number: u16) -> (r: Result<(), ServerError>)
        ensures
            party_number == 0 ==> r == Err::<(), ServerError>(ServerError::ZeroPartyNumber),
            party_number != 0 && party_number > parameters.parties
                ==> r == Err::<(), ServerError>(ServerError::PartyNumberOutOfRange),
            party_number != 0 && party_number <= parameters.parties
                && is_signed_up(old(self).party_signups@, party_number)
                ==> r == Err::<(), ServerError>(ServerError::PartyNumberAlreadyExists(old(self).uuid)),
            r is Ok <==> (1 <= party_number <= parameters.parties
                && !is_signed_up(old(self).party_signups@, party_number)),
            r is Ok ==> final(self).party_signups@ == old(self).party_signups@.push((party_number, conn)),
            r is Err ==> *final(self) == *old(self),
            final(self).uuid == old(self).uuid,
            final(self).kind == old(self).kind,
            final(self).finished@ == old(self).finished@,
    {
        if party_number == 0 {
            return Err(ServerError::ZeroPartyNumber);
        }
        if party_number > parameters.parties {
            return Err(ServerError::PartyNumberOutOfRange);
        }
        if self.has_party(party_number) {
            return Err(ServerError::PartyNumberAlreadyExists(self.uuid));
        }
        self.party_signups.push((party_number, conn));
        Ok(())
    }

    /// Whether `party_number` has marked this session finished.
    pub fn is_finished_by(&self, party_number: u16) -> (r: bool)
        ensures
            r == self.finished@.contains(party_number),
    {
        let mut i: usize = 0;
        while i < self.finished.len()
            invariant
                0 <= i <= self.finished@.len(),
                forall|k: int| 0 <= k < i ==> self.finished@[k] != party_number,
            decreases self.finished@.len() - i,
        {
            if self.finished[i] == party_number {
                return true;
            }
            i = i + 1;
        }
        false
    }

    /// Mark the session finished by `party_number`.
    ///
    /// Returns whether the party was newly recorded; a repeated call by the
    /// same party records nothing.
    pub fn finish(&mut self, party_number: u16) -> (r: bool)
        ensures
            r == !old(self).finished@.contains(party_number),
            r ==> final(self).finished@ == old(self).finished@.push(party_number),
            !r ==> final(self).finished@ == old(self).finished@,
            final(self).finished_set() == old(self).finished_set().insert(party_number),
            final(self).party_signups@ == old(self).party_signups@,
            final(self).uuid == old(self).uuid,
            final(self).kind == old(self).kind,
    {
        if self.is_finished_by(party_number) {
            proof {
                assert(old(self).finished@.to_set().insert(party_number) =~= old(self).finished@.to_set());
            }
            false
        } else {
            self.finished.push(party_number);
            proof {
                assert(self.finished@.to_set() =~= old(self).finished@.to_set().insert(party_number)) by {
                    assert forall|x: u16| self.finished@.contains(x)
                        <==> old(self).finished@.contains(x) || x == party_number by {
                        if self.finished@.contains(x) {
                            let k = choose|k: int| 0 <= k < self.finished@.len() && self.finished@[k] == x;
                            if k < old(self).finished@.len() {
                                assert(old(self).finished@[k] == x);
                            }
                        }
                        if old(self).finished@.contains(x) {
                            let k = choose|k: int| 0 <= k < old(self).finished@.len() && old(self).finished@[k] == x;
                            assert(self.finished@[k] == x);
                        }
                        if x == party_number {
                            assert(self.finished@[self.finished@.len() - 1] == x);
                        }
                    }
                }
            }
            true
        }
    }

    /// The number of parties that have marked the session finished.
    pub fn finished_count(&self) -> (r: usize)
        ensures
            r == self.finished@.len(),
    {
        self.finished.len()
    }

    /// The signed-up parties as `(party number, connection)` pairs, in
    /// signup order.
    pub fn parties(&self) -> (r: Vec<(u16, usize)>)
        ensures
            r@ == self.party_signups@,
    {
        let mut r: Vec<(u16, usize)> = Vec::new();
        let mut i: usize = 0;
        while i < self.party_signups.len()
            invariant
                0 <= i <= self.party_signups@.len(),
                r@ == self.party_signups@.subrange(0, i as int),
            decreases self.party_signups@.len() - i,
        {
            r.push(self.party_signups[i]);
            i = i + 1;
            proof {
                assert(r@ =~= self.party_signups@.subrange(0, i as int));
            }
        }
        proof {
            assert(r@ =~= self.party_signups@);
        }
        r
    }
}

} // verus!
