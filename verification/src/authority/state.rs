use vstd::prelude::*;

verus! {

/// Local authority state for a simulation entity.
#[derive(Debug, Clone, Copy, PartialEq, Eq, Structural)]
pub enum AuthorityState {
    Owned,
    PendingHandoff,
    Ghosted,
}

impl Default for AuthorityState {
    /// A freshly spawned entity is owned by the local shard.
    fn default() -> (s: AuthorityState)
        ensures
            s == AuthorityState::Owned,
    {
        AuthorityState::Owned
    }
}

impl AuthorityState {
    /// True when the entity can still be simulated locally.
    pub fn allows_local_simulation(self) -> (b: bool)
        ensures
            b <==> (self == AuthorityState::Owned || self == AuthorityState::PendingHandoff),
    {
        match self {
            AuthorityState::Owned => true,
            AuthorityState::PendingHandoff => true,
            AuthorityState::Ghosted => false,
        }
    }

    /// True when the entity appears in client snapshots (ghosts are hidden).
    pub fn is_snapshot_visible(self) -> (b: bool)
        ensures
            b <==> self != AuthorityState::Ghosted,
    {
        match self {
            AuthorityState::Ghosted => false,
            _ => true,
        }
    }

    /// True when the entity is a ghost replica.
    pub fn is_ghost(self) -> (b: bool)
        ensures
            b <==> self == AuthorityState::Ghosted,
    {
        match self {
            AuthorityState::Ghosted => true,
            _ => false,
        }
    }
}

} // verus!
