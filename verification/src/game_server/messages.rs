//! Messages a game server exchanges with a joining client.

use vstd::prelude::*;

verus! {

/// A message between a client and a game server.
pub enum GameMessage {
    Join { username: String },
    Welcome { player_id: u128 },
}

} // verus!
