//! The client's session with the broker: the screens it moves between,
//! what it announces once connected, and what it makes of broadcasts.

use crate::ability::attribute::AttributeType;
use vstd::prelude::*;

verus! {

/// The client's screens.
#[derive(Debug, Clone, Copy, PartialEq, Eq, Structural)]
pub enum GameState {
    Login,
    Connecting,
    InGame,
}

/// What happens to the connection while the client connects.
#[derive(Debug, Clone, Copy, PartialEq, Eq, Structural)]
pub enum ConnectEvent {
    /// The QUIC handshake completed.
    Connected,
    /// A stream opened; `reliable` for the control stream.
    StreamCreated { reliable: bool },
    Disconnected,
    Error,
    /// The network backend stopped.
    BackendStopped,
    /// No connection came before the deadline.
    TimedOut,
}

/// The broker topics the client subscribes to.
#[derive(Debug, Clone, Copy, PartialEq, Eq, Structural)]
pub enum ClientTopic {
    EntityPositionUpdate(u128),
    QuadtreeBoundariesUpdate,
    AuthorityDebugPacket(u128),
    PathResponse(u128),
    EntityKilled(u128),
    AttributeUpdated(u128),
}

/// What the client sends the broker once its control stream is open.
#[derive(Debug, Clone, Copy, PartialEq, Eq, Structural)]
pub enum ClientRequest {
    /// Announce itself as a game client.
    Connect { client_id: u128 },
    /// Register its user name with the name service.
    RegisterUsername { player_id: u128 },
    Subscribe { client_id: u128, topic: ClientTopic },
    /// Ask to start at its spawn position.
    PublishStartingPosition { connection_id: u128 },
}

/// A broadcast the client received, decoded; `None` or `false` where its
/// payload did not decode.
pub enum ClientBroadcast {
    EntityPositionUpdate { entity_id: u128, decoded: bool },
    QuadtreeBoundariesUpdate { decoded: bool },
    AuthorityDebugPacket { decoded: bool },
    Disconnect { entity_id: u128 },
    EntityKilled { entity_id: u128 },
    AttributeUpdated { entity_id: u128, update: Option<(AttributeType, i32)> },
    PathResponse { decoded: bool },
    CastAbility { caster_id: u128, decoded: bool },
    DbNameResponse { player_id: u128, username: Option<String> },
    Other,
}

/// What a broadcast tells the rest of the client.
pub enum ClientNotice {
    PositionUpdate { connection_id: u128 },
    QuadtreeUpdate,
    AuthorityDebug,
    Disconnect { entity_id: u128 },
    LocalPlayerKilled,
    AttributeUpdated { entity_id: u128, attribute: AttributeType, new_value: i32 },
    PathResponse,
    AbilityCast { caster_id: u128 },
    NameResponse { player_id: u128, username: String },
}

/// The requests a client sends once its control stream is open, in order:
/// it announces itself, registers its user name, subscribes to its own
/// position updates, asks to start, then subscribes to the quadtree layout
/// and to its debug packets, paths, death and attribute changes.
pub open spec fn registration(player_id: u128) -> Seq<ClientRequest> {
    seq![
        ClientRequest::Connect { client_id: player_id },
        ClientRequest::RegisterUsername { player_id },
        ClientRequest::Subscribe { client_id: player_id, topic: ClientTopic::EntityPositionUpdate(player_id) },
        ClientRequest::PublishStartingPosition { connection_id: player_id },
        ClientRequest::Subscribe { client_id: player_id, topic: ClientTopic::QuadtreeBoundariesUpdate },
        ClientRequest::Subscribe { client_id: player_id, topic: ClientTopic::AuthorityDebugPacket(player_id) },
        ClientRequest::Subscribe { client_id: player_id, topic: ClientTopic::PathResponse(player_id) },
        ClientRequest::Subscribe { client_id: player_id, topic: ClientTopic::EntityKilled(player_id) },
        ClientRequest::Subscribe { client_id: player_id, topic: ClientTopic::AttributeUpdated(player_id) },
    ]
}

/// The requests a client sends once its control stream is open.
pub fn registration_requests(player_id: u128) -> (r: Vec<ClientRequest>)
    ensures
        r@ == registration(player_id),
{
    let mut r: Vec<ClientRequest> = Vec::new();
    r.push(ClientRequest::Connect { client_id: player_id });
    r.push(ClientRequest::RegisterUsername { player_id });
    r.push(ClientRequest::Subscribe { client_id: player_id, topic: ClientTopic::EntityPositionUpdate(player_id) });
    r.push(ClientRequest::PublishStartingPosition { connection_id: player_id });
    r.push(ClientRequest::Subscribe { client_id: player_id, topic: ClientTopic::QuadtreeBoundariesUpdate });
    r.push(ClientRequest::Subscribe { client_id: player_id, topic: ClientTopic::AuthorityDebugPacket(player_id) });
    r.push(ClientRequest::Subscribe { client_id: player_id, topic: ClientTopic::PathResponse(player_id) });
    r.push(ClientRequest::Subscribe { client_id: player_id, topic: ClientTopic::EntityKilled(player_id) });
    r.push(ClientRequest::Subscribe { client_id: player_id, topic: ClientTopic::AttributeUpdated(player_id) });
    proof {
        assert(r@ =~= registration(player_id));
    }
    r
}

/// The screen the client moves to on a connection event while connecting:
/// the game once the control stream is open, back to the login screen
/// when the connection fails, stays otherwise.
pub fn connecting_transition(event: ConnectEvent) -> (s: GameState)
    ensures
        s == match event {
            ConnectEvent::StreamCreated { reliable } => if reliable {
                GameState::InGame
            } else {
                GameState::Connecting
            },
            ConnectEvent::Connected => GameState::Connecting,
            _ => GameState::Login,
        },
{
    match event {
        ConnectEvent::Connected => GameState::Connecting,
        ConnectEvent::StreamCreated { reliable } => if reliable {
            GameState::InGame
        } else {
            GameState::Connecting
        },
        ConnectEvent::Disconnected => GameState::Login,
        ConnectEvent::Error => GameState::Login,
        ConnectEvent::BackendStopped => GameState::Login,
        ConnectEvent::TimedOut => GameState::Login,
    }
}

/// What a broadcast tells the client `self_id`: each decoded broadcast is
/// passed on; an entity's death matters only when it is the client's own.
pub fn route_broadcast(self_id: u128, b: ClientBroadcast) -> (n: Option<ClientNotice>)
    ensures
        match b {
            ClientBroadcast::EntityPositionUpdate { entity_id, decoded } => if decoded {
                n matches Some(ClientNotice::PositionUpdate { connection_id }) && connection_id == entity_id
            } else {
                n is None
            },
            ClientBroadcast::QuadtreeBoundariesUpdate { decoded } => if decoded {
                n matches Some(ClientNotice::QuadtreeUpdate)
            } else {
                n is None
            },
            ClientBroadcast::AuthorityDebugPacket { decoded } => if decoded {
                n matches Some(ClientNotice::AuthorityDebug)
            } else {
                n is None
            },
            ClientBroadcast::Disconnect { entity_id } => n matches Some(ClientNotice::Disconnect { entity_id: e }) && e
                == entity_id,
            ClientBroadcast::EntityKilled { entity_id } => if entity_id == self_id {
                n matches Some(ClientNotice::LocalPlayerKilled)
            } else {
                n is None
            },
            ClientBroadcast::AttributeUpdated { entity_id, update } => match update {
                Some((attr, v)) => n matches Some(
                    ClientNotice::AttributeUpdated { entity_id: e, attribute, new_value },
                ) && e == entity_id && attribute == attr && new_value == v,
                None => n is None,
            },
            ClientBroadcast::PathResponse { decoded } => if decoded {
                n matches Some(ClientNotice::PathResponse)
            } else {
                n is None
            },
            ClientBroadcast::CastAbility { caster_id, decoded } => if decoded {
                n matches Some(ClientNotice::AbilityCast { caster_id: c }) && c == caster_id
            } else {
                n is None
            },
            ClientBroadcast::DbNameResponse { player_id, username } => match username {
                Some(u) => n matches Some(ClientNotice::NameResponse { player_id: p, username: un })
                    && p == player_id && un@ == u@,
                None => n is None,
            },
            ClientBroadcast::Other => n is None,
        },
{
    match b {
        ClientBroadcast::EntityPositionUpdate { entity_id, decoded } => if decoded {
            Some(ClientNotice::PositionUpdate { connection_id: entity_id })
        } else {
            None
        },
        ClientBroadcast::QuadtreeBoundariesUpdate { decoded } => if decoded {
            Some(ClientNotice::QuadtreeUpdate)
        } else {
            None
        },
        ClientBroadcast::AuthorityDebugPacket { decoded } => if decoded {
            Some(ClientNotice::AuthorityDebug)
        } else {
            None
        },
        ClientBroadcast::Disconnect { entity_id } => Some(ClientNotice::Disconnect { entity_id }),
        ClientBroadcast::EntityKilled { entity_id } => if entity_id == self_id {
            Some(ClientNotice::LocalPlayerKilled)
        } else {
            None
        },
        ClientBroadcast::AttributeUpdated { entity_id, update } => match update {
            Some((attribute, new_value)) => Some(
                ClientNotice::AttributeUpdated { entity_id, attribute, new_value },
            ),
            None => None,
        },
        ClientBroadcast::PathResponse { decoded } => if decoded {
            Some(ClientNotice::PathResponse)
        } else {
            None
        },
        ClientBroadcast::CastAbility { caster_id, decoded } => if decoded {
            Some(ClientNotice::AbilityCast { caster_id })
        } else {
            None
        },
        ClientBroadcast::DbNameResponse { player_id, username } => match username {
            Some(username) => Some(ClientNotice::NameResponse { player_id, username }),
            None => None,
        },
        ClientBroadcast::Other => None,
    }
}

} // verus!
