use vstd::prelude::*;

verus! {

/// Errors reported by the broker.
#[derive(Debug, Clone, PartialEq, Eq)]
pub enum ServerError {
    /// A path that must name a directory does not.
    NotDirectory(String),
    /// A group was asked for with no parties.
    NoParties,
    /// A party number of zero was given.
    ZeroPartyNumber,
    /// A party number is larger than the group's number of parties.
    PartyNumberOutOfRange,
    /// The party number is already bound within the session.
    PartyNumberAlreadyExists(u128),
    /// No group has this identifier.
    GroupNotFound(u128),
    /// The group has no session with this identifier.
    SessionNotFound(u128),
    /// The group already holds as many members as it has parties.
    GroupFull(u128),
    /// Every party number of the session is already taken.
    SessionFull(u128),
    /// No party with this number has signed up to the session.
    PartyNotSignedUp(u16),
}

impl ServerError {
    /// A human-readable description of the error.
    pub fn message(&self) -> (r: String) {
        match self {
            ServerError::NotDirectory(p) => {
                let mut s = p.clone();
                s.append(" is not a directory");
                s
            },
            ServerError::NoParties => "a group needs at least one party".to_string(),
            ServerError::ZeroPartyNumber => "party number may not be zero".to_string(),
            ServerError::PartyNumberOutOfRange => "party number is out of range".to_string(),
            ServerError::PartyNumberAlreadyExists(_) => "party number already exists for session".to_string(),
            ServerError::GroupNotFound(_) => "group does not exist".to_string(),
            ServerError::SessionNotFound(_) => "session does not exist".to_string(),
            ServerError::GroupFull(_) => "group is full".to_string(),
            ServerError::SessionFull(_) => "session is full".to_string(),
            ServerError::PartyNotSignedUp(_) => "party has not signed up to the session".to_string(),
        }
    }
}

} // verus!
