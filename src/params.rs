use vstd::prelude::*;

verus! {

/// Parameters used during key generation and signing.
#[derive(Debug, Clone, Copy, PartialEq, Eq)]
pub struct Parameters {
    /// Number of parties `n`.
    pub parties: u16,
    /// Threshold for signing `t`: `t + 1` parties are needed to sign.
    pub threshold: u16,
}

impl Default for Parameters {
    fn default() -> (r: Self)
        ensures
            r.parties == 3,
            r.threshold == 1,
    {
        Parameters { parties: 3, threshold: 1 }
    }
}

/// The kind of protocol a session runs.
#[derive(Debug, Clone, Copy, PartialEq, Eq)]
pub enum SessionKind {
    /// Key generation session.
    Keygen,
    /// Signing session.
    Sign,
}

impl Default for SessionKind {
    fn default() -> (r: Self)
        ensures
            r == SessionKind::Keygen,
    {
        SessionKind::Keygen
    }
}

} // verus!
