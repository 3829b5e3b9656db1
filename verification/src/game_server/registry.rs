//! The players a game server knows of: those it simulates and the ghosts
//! it mirrors from neighbouring shards.

use std::collections::HashMap;
use vstd::prelude::*;

verus! {

broadcast use vstd::std_specs::hash::group_hash_axioms;

/// What the server knows of a player: whether it only mirrors it.
#[derive(Debug, Clone, Copy, PartialEq, Eq, Structural)]
pub struct ClientInfo {
    pub is_ghost: bool,
}

/// The players of a game server, by connection id.
pub struct PlayerRegistry {
    pub registry: HashMap<u128, ClientInfo>,
}

impl View for PlayerRegistry {
    type V = Map<u128, ClientInfo>;

    open spec fn view(&self) -> Map<u128, ClientInfo> {
        self.registry@
    }
}

impl PlayerRegistry {
    /// An empty registry.
    pub fn new() -> (r: PlayerRegistry)
        ensures
            r@ == Map::<u128, ClientInfo>::empty(),
    {
        PlayerRegistry { registry: HashMap::new() }
    }

    /// The number of known players, ghosts included.
    pub fn len(&self) -> (n: usize)
        ensures
            n == self@.len(),
    {
        self.registry.len()
    }

    /// What the registry holds for a player.
    pub fn get(&self, id: u128) -> (r: Option<ClientInfo>)
        ensures
            r == (if self@.contains_key(id) { Some(self@[id]) } else { None }),
    {
        match self.registry.get(&id) {
            Some(info) => Some(*info),
            None => None,
        }
    }

    /// Whether the registry knows a player.
    pub fn contains(&self, id: u128) -> (b: bool)
        ensures
            b == self@.contains_key(id),
    {
        self.registry.get(&id).is_some()
    }

    /// Records a player, replacing what was known of it.
    pub fn insert(&mut self, id: u128, info: ClientInfo)
        ensures
            final(self)@ == old(self)@.insert(id, info),
    {
        self.registry.insert(id, info);
    }

    /// Forgets a player.
    pub fn remove(&mut self, id: u128)
        ensures
            final(self)@ == old(self)@.remove(id),
    {
        self.registry.remove(&id);
    }

    /// Marks a known player as a ghost or as simulated here; an unknown
    /// player stays unknown.
    pub fn set_ghost(&mut self, id: u128, is_ghost: bool)
        ensures
            final(self)@ == (if old(self)@.contains_key(id) {
                old(self)@.insert(id, ClientInfo { is_ghost })
            } else {
                old(self)@
            }),
    {
        if self.contains(id) {
            self.registry.insert(id, ClientInfo { is_ghost });
        }
    }
}

} // verus!
