//! How a game server reacts to what the broker broadcasts: which players it
//! registers, which commands it hands the simulation, and which topics it
//! subscribes to.

use crate::game_server::registry::{ClientInfo, PlayerRegistry};
use crate::geometry::Vec2;
use crate::ids::{be_value, uuid_from_slice};
use vstd::prelude::*;

verus! {

/// The broker topics a game server speaks of.
#[derive(Debug, Clone, Copy, PartialEq, Eq, Structural)]
pub enum Topic {
    PlayerStartingPositionInShard(u128),
    EntityPositionUpdate(u128),
    Input(u128),
    Disconnect(u128),
    ClaimOwnership(u128),
    ReleaseOwnership(u128),
    AuthorityDebugPacket(u128),
    ShardCreated,
}

/// A command from the network layer to the simulation.
#[derive(Debug, Clone, Copy, PartialEq, Eq, Structural)]
pub enum SimCommand {
    Joined { connection_id: u128, position: Vec2 },
    Left { connection_id: u128 },
    Input { connection_id: u128, direction: Vec2 },
    GhostJoined { connection_id: u128, position: Vec2 },
    GhostPositionUpdate { connection_id: u128, position: Vec2 },
    GhostIsNowLocal { connection_id: u128 },
    LocalIsNowGhost { connection_id: u128 },
}

/// A subscription change the server asks of the broker, as the client
/// `client_id`.
#[derive(Debug, Clone, Copy, PartialEq, Eq, Structural)]
pub enum BrokerRequest {
    Subscribe { client_id: u128, topic: Topic },
    Unsubscribe { client_id: u128, topic: Topic },
}

/// A broker broadcast, with its payload decoded where the topic has one
/// (`None` where it did not decode).
pub enum ShardEvent {
    /// A player starts in this shard.
    PlayerStartingPosition { client_id: u128, position: Option<Vec2> },
    /// An entity moved; `within_reach` says whether the position lies
    /// within the shard's boundary widened by twice its margin.
    EntityPositionUpdate { entity_id: u128, position: Option<Vec2>, within_reach: bool },
    /// A player's movement input.
    Input { client_id: u128, direction: Option<Vec2> },
    /// A player left the game.
    Disconnect { client_id: u128 },
    /// This shard now owns the player whose id the payload holds.
    ClaimOwnership { shard_id: u128, payload: Vec<u8> },
    /// This shard no longer owns the player whose id the payload holds.
    ReleaseOwnership { shard_id: u128, payload: Vec<u8> },
    /// Any other topic.
    Ignored,
}

/// What the server does about one broadcast.
pub struct ShardReaction {
    pub commands: Vec<SimCommand>,
    pub requests: Vec<BrokerRequest>,
}

/// The registry, simulation commands and broker requests one broadcast
/// leads to, from the registry before it. `broker_link` is the server's own
/// broker connection id when the broadcast came in over the broker and its
/// control stream is open.
pub open spec fn reaction(
    m: Map<u128, ClientInfo>,
    e: ShardEvent,
    broker_link: Option<u128>,
) -> (Map<u128, ClientInfo>, Seq<SimCommand>, Seq<BrokerRequest>) {
    let nothing = (m, Seq::<SimCommand>::empty(), Seq::<BrokerRequest>::empty());
    match e {
        ShardEvent::PlayerStartingPosition { client_id, position } => match position {
            Some(p) => if m.contains_key(client_id) {
                nothing
            } else {
                (
                    m.insert(client_id, ClientInfo { is_ghost: false }),
                    seq![SimCommand::Joined { connection_id: client_id, position: p }],
                    match broker_link {
                        Some(c) => seq![
                            BrokerRequest::Subscribe { client_id: c, topic: Topic::Input(client_id) },
                            BrokerRequest::Unsubscribe {
                                client_id: c,
                                topic: Topic::PlayerStartingPositionInShard(client_id),
                            },
                        ],
                        None => Seq::empty(),
                    },
                )
            },
            None => nothing,
        },
        ShardEvent::EntityPositionUpdate { entity_id, position, within_reach } => match position {
            Some(p) => if !m.contains_key(entity_id) {
                (
                    m.insert(entity_id, ClientInfo { is_ghost: true }),
                    seq![SimCommand::GhostJoined { connection_id: entity_id, position: p }],
                    Seq::empty(),
                )
            } else if !m[entity_id].is_ghost {
                nothing
            } else if within_reach {
                (m, seq![SimCommand::GhostPositionUpdate { connection_id: entity_id, position: p }], Seq::empty())
            } else {
                (m, seq![SimCommand::Left { connection_id: entity_id }], Seq::empty())
            },
            None => nothing,
        },
        ShardEvent::Input { client_id, direction } => match direction {
            Some(d) => if m.contains_key(client_id) {
                (m, seq![SimCommand::Input { connection_id: client_id, direction: d }], Seq::empty())
            } else {
                nothing
            },
            None => nothing,
        },
        ShardEvent::Disconnect { client_id } => (
            m.remove(client_id),
            seq![SimCommand::Left { connection_id: client_id }],
            Seq::empty(),
        ),
        ShardEvent::ClaimOwnership { payload, .. } => if payload@.len() == 16 {
            let id = be_value(payload@) as u128;
            (
                ghost_flag_set(m, id, false),
                seq![SimCommand::GhostIsNowLocal { connection_id: id }],
                Seq::empty(),
            )
        } else {
            nothing
        },
        ShardEvent::ReleaseOwnership { payload, .. } => if payload@.len() == 16 {
            let id = be_value(payload@) as u128;
            (
                ghost_flag_set(m, id, true),
                seq![SimCommand::LocalIsNowGhost { connection_id: id }],
                Seq::empty(),
            )
        } else {
            nothing
        },
        ShardEvent::Ignored => nothing,
    }
}

/// The registry with a known player's ghost flag set; an unknown player
/// stays unknown.
pub open spec fn ghost_flag_set(m: Map<u128, ClientInfo>, id: u128, is_ghost: bool) -> Map<u128, ClientInfo> {
    if m.contains_key(id) {
        m.insert(id, ClientInfo { is_ghost })
    } else {
        m
    }
}

fn no_requests() -> (r: Vec<BrokerRequest>)
    ensures
        r@ == Seq::<BrokerRequest>::empty(),
{
    Vec::new()
}

fn single(c: SimCommand) -> (r: Vec<SimCommand>)
    ensures
        r@ == seq![c],
{
    let mut r = Vec::new();
    r.push(c);
    proof {
        assert(r@ =~= seq![c]);
    }
    r
}

fn nothing() -> (r: ShardReaction)
    ensures
        r.commands@ == Seq::<SimCommand>::empty(),
        r.requests@ == Seq::<BrokerRequest>::empty(),
{
    ShardReaction { commands: Vec::new(), requests: Vec::new() }
}

/// Reacts to a broker broadcast: registers new players and ghosts, hands
/// the simulation what it must do, and, for a player starting here, asks
/// the broker for its inputs instead of its starting position.
pub fn handle_broker_message(
    registry: &mut PlayerRegistry,
    event: ShardEvent,
    broker_link: Option<u128>,
) -> (r: ShardReaction)
    ensures
        (final(registry)@, r.commands@, r.requests@) == reaction(old(registry)@, event, broker_link),
{
    let ghost e = event;
    match event {
        ShardEvent::PlayerStartingPosition { client_id, position } => match position {
            Some(p) => {
                if registry.contains(client_id) {
                    return nothing();
                }
                registry.insert(client_id, ClientInfo { is_ghost: false });
                let commands = single(SimCommand::Joined { connection_id: client_id, position: p });
                let mut requests: Vec<BrokerRequest> = Vec::new();
                match broker_link {
                    Some(c) => {
                        requests.push(BrokerRequest::Subscribe { client_id: c, topic: Topic::Input(client_id) });
                        requests.push(
                            BrokerRequest::Unsubscribe {
                                client_id: c,
                                topic: Topic::PlayerStartingPositionInShard(client_id),
                            },
                        );
                        proof {
                            assert(requests@ =~= reaction(old(registry)@, e, broker_link).2);
                        }
                    },
                    None => {},
                }
                ShardReaction { commands, requests }
            },
            None => nothing(),
        },
        ShardEvent::EntityPositionUpdate { entity_id, position, within_reach } => match position {
            Some(p) => match registry.get(entity_id) {
                None => {
                    registry.insert(entity_id, ClientInfo { is_ghost: true });
                    ShardReaction {
                        commands: single(SimCommand::GhostJoined { connection_id: entity_id, position: p }),
                        requests: no_requests(),
                    }
                },
                Some(info) => {
                    if !info.is_ghost {
                        nothing()
                    } else if within_reach {
                        ShardReaction {
                            commands: single(
                                SimCommand::GhostPositionUpdate { connection_id: entity_id, position: p },
                            ),
                            requests: no_requests(),
                        }
                    } else {
                        ShardReaction {
                            commands: single(SimCommand::Left { connection_id: entity_id }),
                            requests: no_requests(),
                        }
                    }
                },
            },
            None => nothing(),
        },
        ShardEvent::Input { client_id, direction } => match direction {
            Some(d) => {
                if registry.contains(client_id) {
                    ShardReaction {
                        commands: single(SimCommand::Input { connection_id: client_id, direction: d }),
                        requests: no_requests(),
                    }
                } else {
                    nothing()
                }
            },
            None => nothing(),
        },
        ShardEvent::Disconnect { client_id } => {
            ShardReaction { commands: handle_client_disconnect(registry, client_id), requests: no_requests() }
        },
        ShardEvent::ClaimOwnership { payload, .. } => match uuid_from_slice(payload.as_slice()) {
            Some(id) => {
                registry.set_ghost(id, false);
                ShardReaction {
                    commands: single(SimCommand::GhostIsNowLocal { connection_id: id }),
                    requests: no_requests(),
                }
            },
            None => nothing(),
        },
        ShardEvent::ReleaseOwnership { payload, .. } => match uuid_from_slice(payload.as_slice()) {
            Some(id) => {
                registry.set_ghost(id, true);
                ShardReaction {
                    commands: single(SimCommand::LocalIsNowGhost { connection_id: id }),
                    requests: no_requests(),
                }
            },
            None => nothing(),
        },
        ShardEvent::Ignored => nothing(),
    }
}

/// A player's connection closed: the server forgets it and the simulation
/// removes it.
pub fn handle_client_disconnect(registry: &mut PlayerRegistry, connection_id: u128) -> (c: Vec<
    SimCommand,
>)
    ensures
        final(registry)@ == old(registry)@.remove(connection_id),
        c@ == seq![SimCommand::Left { connection_id }],
{
    registry.remove(connection_id);
    single(SimCommand::Left { connection_id })
}

/// The topics a server subscribes to once its broker control stream is
/// open: the ownership claims and releases addressed to it.
pub fn ownership_subscriptions(connection_id: u128) -> (r: Vec<BrokerRequest>)
    ensures
        r@ == seq![
            BrokerRequest::Subscribe { client_id: connection_id, topic: Topic::ClaimOwnership(connection_id) },
            BrokerRequest::Subscribe { client_id: connection_id, topic: Topic::ReleaseOwnership(connection_id) },
        ],
{
    let mut r = Vec::new();
    r.push(BrokerRequest::Subscribe { client_id: connection_id, topic: Topic::ClaimOwnership(connection_id) });
    r.push(BrokerRequest::Subscribe { client_id: connection_id, topic: Topic::ReleaseOwnership(connection_id) });
    proof {
        assert(r@ =~= seq![
            BrokerRequest::Subscribe { client_id: connection_id, topic: Topic::ClaimOwnership(connection_id) },
            BrokerRequest::Subscribe { client_id: connection_id, topic: Topic::ReleaseOwnership(connection_id) },
        ]);
    }
    r
}

/// What a game server publishes through the broker about its own players
/// and itself.
#[derive(Debug, Clone, Copy, PartialEq, Eq, Structural)]
pub enum ShardPublication {
    /// Announce itself to the broker as a game server.
    Connect { client_id: u128 },
    /// Announce the shard it runs, under its broker connection id.
    ShardCreated { shard_connection_id: u128 },
    /// A simulated player's position.
    EntityPositionUpdate { connection_id: u128, position: Vec2 },
    /// Which server published a player's position.
    AuthorityDebugPacket { connection_id: u128, sender_id: u128 },
}

/// The announcement a server makes once its broker control stream is open:
/// it connects as a game server, then publishes the shard it runs.
pub fn shard_announcement(broker_link: Option<u128>) -> (r: Vec<ShardPublication>)
    ensures
        r@ == match broker_link {
            Some(c) => seq![
                ShardPublication::Connect { client_id: c },
                ShardPublication::ShardCreated { shard_connection_id: c },
            ],
            None => Seq::<ShardPublication>::empty(),
        },
{
    let mut r: Vec<ShardPublication> = Vec::new();
    match broker_link {
        Some(c) => {
            r.push(ShardPublication::Connect { client_id: c });
            r.push(ShardPublication::ShardCreated { shard_connection_id: c });
            proof {
                assert(r@ =~= seq![
                    ShardPublication::Connect { client_id: c },
                    ShardPublication::ShardCreated { shard_connection_id: c },
                ]);
            }
        },
        None => {},
    }
    r
}

/// The publications for the players a server simulates, in order: for each
/// entity that is no ghost, its position, then which server published it.
/// Nothing is published without an open broker link.
pub open spec fn position_publications(
    broker_link: Option<u128>,
    entities: Seq<(u128, Vec2, bool)>,
) -> Seq<ShardPublication>
    decreases entities.len(),
{
    if entities.len() == 0 || broker_link is None {
        Seq::empty()
    } else {
        let rest = position_publications(broker_link, entities.drop_last());
        let (id, pos, is_ghost) = entities.last();
        if is_ghost {
            rest
        } else {
            rest + seq![
                ShardPublication::EntityPositionUpdate { connection_id: id, position: pos },
                ShardPublication::AuthorityDebugPacket { connection_id: id, sender_id: broker_link->0 },
            ]
        }
    }
}

/// Publishes the positions of the players the server simulates;
/// `entities` lists each player with its position and whether it is a
/// ghost.
pub fn publish_entity_positions(broker_link: Option<u128>, entities: &Vec<(u128, Vec2, bool)>) -> (r:
    Vec<ShardPublication>)
    ensures
        r@ == position_publications(broker_link, entities@),
{
    let mut r: Vec<ShardPublication> = Vec::new();
    let link = match broker_link {
        Some(c) => c,
        None => {
            proof {
                assert(position_publications(broker_link, entities@) =~= Seq::<ShardPublication>::empty());
            }
            return r;
        },
    };
    let mut i: usize = 0;
    while i < entities.len()
        invariant
            broker_link == Some(link),
            i <= entities@.len(),
            r@ == position_publications(broker_link, entities@.take(i as int)),
        decreases entities@.len() - i,
    {
        proof {
            assert(entities@.take(i + 1).drop_last() =~= entities@.take(i as int));
        }
        let (id, pos, is_ghost) = entities[i];
        if !is_ghost {
            let ghost before = r@;
            r.push(ShardPublication::EntityPositionUpdate { connection_id: id, position: pos });
            r.push(ShardPublication::AuthorityDebugPacket { connection_id: id, sender_id: link });
            proof {
                assert(r@ =~= before + seq![
                    ShardPublication::EntityPositionUpdate { connection_id: id, position: pos },
                    ShardPublication::AuthorityDebugPacket { connection_id: id, sender_id: link },
                ]);
            }
        }
        i = i + 1;
    }
    proof {
        assert(entities@.take(entities@.len() as int) =~= entities@);
    }
    r
}

/// A player announced twice is registered once: once its starting position
/// has been handled, the same announcement changes nothing and asks for
/// nothing.
pub proof fn law_starting_position_registers_once(
    m: Map<u128, ClientInfo>,
    client_id: u128,
    position: Vec2,
    broker_link: Option<u128>,
)
    ensures
        ({
            let e = ShardEvent::PlayerStartingPosition { client_id, position: Some(position) };
            let m1 = reaction(m, e, broker_link).0;
            reaction(m1, e, broker_link) == (m1, Seq::<SimCommand>::empty(), Seq::<BrokerRequest>::empty())
        }),
{
}

/// Ownership claims and releases only flip the ghost flag of a known
/// player: a claim makes it simulated here, a release makes it a ghost,
/// and an unknown player stays unknown.
pub proof fn law_ownership_flips_ghost_flag(m: Map<u128, ClientInfo>, id: u128)
    ensures
        ghost_flag_set(m, id, false).dom() == m.dom(),
        ghost_flag_set(m, id, true).dom() == m.dom(),
        m.contains_key(id) ==> ghost_flag_set(m, id, false)[id].is_ghost == false,
        m.contains_key(id) ==> ghost_flag_set(m, id, true)[id].is_ghost == true,
        ghost_flag_set(ghost_flag_set(m, id, true), id, false) == ghost_flag_set(m, id, false),
{
    assert(ghost_flag_set(m, id, false).dom() =~= m.dom());
    assert(ghost_flag_set(m, id, true).dom() =~= m.dom());
    assert(ghost_flag_set(ghost_flag_set(m, id, true), id, false) =~= ghost_flag_set(m, id, false));
}

} // verus!
