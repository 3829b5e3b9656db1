//! What an AI character learns from the broker, and when a new character
//! is spawned.

use crate::ability::ability::AbilityType;
use crate::ai::components::{AiIntent, Point};
use crate::geometry::Vec2;
use vstd::prelude::*;

verus! {

/// The entities an AI character perceives, each once, with their last
/// known position.
pub struct Perception {
    pub nearby: Vec<(u128, Point)>,
}

/// The path an AI character follows, next waypoint first.
pub struct AiPath {
    pub waypoints: Vec<Point>,
}

/// Where an AI character is.
#[derive(Debug, Clone, Copy, PartialEq, Eq, Structural)]
pub struct AiPosition {
    pub x: u32,
    pub y: u32,
}

/// A broadcast an AI character received, decoded.
pub enum AiInbound {
    /// An entity's new position. `near_path_head` says whether the position
    /// is within reach of the first waypoint of the character's path.
    PositionUpdate { sender: u128, position: Point, near_path_head: bool },
    /// A path computed for the character `id`.
    PathResponse { id: u128, path: Vec<Point> },
    /// A broadcast the character ignores.
    Other,
}

/// The perception after a sighting: the position of a known entity is
/// replaced, an unknown one is added at the end.
pub open spec fn upserted(nearby: Seq<(u128, Point)>, id: u128, pos: Point) -> Seq<(u128, Point)> {
    if exists|i: int| 0 <= i < nearby.len() && nearby[i].0 == id {
        let i = choose|i: int| 0 <= i < nearby.len() && nearby[i].0 == id;
        nearby.update(i, (id, pos))
    } else {
        nearby.push((id, pos))
    }
}

/// Each entity is perceived once.
pub open spec fn perception_wf(nearby: Seq<(u128, Point)>) -> bool {
    forall|i: int, j: int|
        0 <= i < nearby.len() && 0 <= j < nearby.len() && nearby[i].0 == nearby[j].0 ==> i == j
}

/// The position of an entity's entry.
fn find_nearby(nearby: &Vec<(u128, Point)>, id: u128) -> (r: Option<usize>)
    ensures
        r matches Some(i) ==> i < nearby@.len() && nearby@[i as int].0 == id,
        r is None ==> forall|j: int| 0 <= j < nearby@.len() ==> nearby@[j].0 != id,
{
    let mut i: usize = 0;
    while i < nearby.len()
        invariant
            i <= nearby@.len(),
            forall|j: int| 0 <= j < i ==> nearby@[j].0 != id,
        decreases nearby@.len() - i,
    {
        if nearby[i].0 == id {
            return Some(i);
        }
        i = i + 1;
    }
    None
}

/// Records where a nearby entity was seen.
pub fn upsert_nearby(perception: &mut Perception, id: u128, pos: Point)
    requires
        perception_wf(old(perception).nearby@),
    ensures
        perception_wf(final(perception).nearby@),
        final(perception).nearby@ == upserted(old(perception).nearby@, id, pos),
{
    let ghost before = perception.nearby@;
    match find_nearby(&perception.nearby, id) {
        Some(i) => {
            perception.nearby.set(i, (id, pos));
            proof {
                let k = choose|i: int| 0 <= i < before.len() && before[i].0 == id;
                assert(k == i as int);
            }
        },
        None => {
            perception.nearby.push((id, pos));
        },
    }
}

/// What a broadcast does to an AI character `ai_id`: its own position
/// update moves it and drops the first waypoint of its path once reached;
/// another entity's is recorded in its perception; a path computed for it
/// replaces its path.
pub fn apply_inbound(
    ai_id: u128,
    message: AiInbound,
    position: &mut AiPosition,
    perception: &mut Perception,
    path: &mut AiPath,
)
    requires
        perception_wf(old(perception).nearby@),
    ensures
        perception_wf(final(perception).nearby@),
        match message {
            AiInbound::PositionUpdate { sender, position: p, near_path_head } => if sender == ai_id {
                &&& *final(position) == (AiPosition { x: p.x, y: p.y })
                &&& final(perception).nearby@ == old(perception).nearby@
                &&& final(path).waypoints@ == if near_path_head && old(path).waypoints@.len() > 0 {
                    old(path).waypoints@.subrange(1, old(path).waypoints@.len() as int)
                } else {
                    old(path).waypoints@
                }
            } else {
                &&& *final(position) == *old(position)
                &&& final(perception).nearby@ == upserted(old(perception).nearby@, sender, p)
                &&& final(path).waypoints@ == old(path).waypoints@
            },
            AiInbound::PathResponse { id, path: new_path } => {
                &&& *final(position) == *old(position)
                &&& final(perception).nearby@ == old(perception).nearby@
                &&& final(path).waypoints@ == if id == ai_id {
                    new_path@
                } else {
                    old(path).waypoints@
                }
            },
            AiInbound::Other => {
                &&& *final(position) == *old(position)
                &&& final(perception).nearby@ == old(perception).nearby@
                &&& final(path).waypoints@ == old(path).waypoints@
            },
        },
{
    match message {
        AiInbound::PositionUpdate { sender, position: p, near_path_head } => {
            if sender == ai_id {
                *position = AiPosition { x: p.x, y: p.y };
                if near_path_head && path.waypoints.len() > 0 {
                    path.waypoints.remove(0);
                }
            } else {
                upsert_nearby(perception, sender, p);
            }
        },
        AiInbound::PathResponse { id, path: new_path } => {
            if id == ai_id {
                path.waypoints = new_path;
            }
        },
        AiInbound::Other => {},
    }
}

/// What an AI character, or the AI service's quadtree listener, sends the
/// broker as it connects.
#[derive(Debug, Clone, Copy, PartialEq, Eq, Structural)]
pub enum AiRequest {
    /// Announce itself as the AI service.
    Connect { client_id: u128 },
    SubscribeEntityPositionUpdate { client_id: u128 },
    SubscribeAuthorityDebugPacket { client_id: u128 },
    SubscribeQuadtreeBoundariesUpdate { client_id: u128 },
    /// Ask to start at a position.
    PublishStartingPosition { connection_id: u128, position: Point },
}

/// The requests an AI character sends once connected: it announces itself,
/// subscribes to its position updates and debug packets, then asks to
/// start at its spawn position.
pub fn ai_registration(id: u128, starting_position: Point) -> (r: Vec<AiRequest>)
    ensures
        r@ == seq![
            AiRequest::Connect { client_id: id },
            AiRequest::SubscribeEntityPositionUpdate { client_id: id },
            AiRequest::SubscribeAuthorityDebugPacket { client_id: id },
            AiRequest::PublishStartingPosition { connection_id: id, position: starting_position },
        ],
{
    let mut r: Vec<AiRequest> = Vec::new();
    r.push(AiRequest::Connect { client_id: id });
    r.push(AiRequest::SubscribeEntityPositionUpdate { client_id: id });
    r.push(AiRequest::SubscribeAuthorityDebugPacket { client_id: id });
    r.push(AiRequest::PublishStartingPosition { connection_id: id, position: starting_position });
    proof {
        assert(r@ =~= seq![
            AiRequest::Connect { client_id: id },
            AiRequest::SubscribeEntityPositionUpdate { client_id: id },
            AiRequest::SubscribeAuthorityDebugPacket { client_id: id },
            AiRequest::PublishStartingPosition { connection_id: id, position: starting_position },
        ]);
    }
    r
}

/// The requests the quadtree listener sends once connected: it announces
/// itself and subscribes to the shard layout.
pub fn master_registration(id: u128) -> (r: Vec<AiRequest>)
    ensures
        r@ == seq![
            AiRequest::Connect { client_id: id },
            AiRequest::SubscribeQuadtreeBoundariesUpdate { client_id: id },
        ],
{
    let mut r: Vec<AiRequest> = Vec::new();
    r.push(AiRequest::Connect { client_id: id });
    r.push(AiRequest::SubscribeQuadtreeBoundariesUpdate { client_id: id });
    proof {
        assert(r@ =~= seq![
            AiRequest::Connect { client_id: id },
            AiRequest::SubscribeQuadtreeBoundariesUpdate { client_id: id },
        ]);
    }
    r
}

/// What an AI character publishes to act on its intent.
#[derive(Debug, Clone, Copy, PartialEq, Eq, Structural)]
pub enum AiPublication {
    /// Ask the path service for a path from `start` to `end`.
    PathRequest { entity_id: u128, start: Point, end: Point },
    /// Move from `from` toward `toward` (the unit direction between them is
    /// what goes out).
    Input { entity_id: u128, from: Point, toward: Point },
    /// Cast an ability, in a direction when it has one.
    CastAbility { entity_id: u128, ability: AbilityType, direction: Option<Point> },
}

/// Acts on an AI character's intent: a move asks for a path to the target
/// and steers toward the first waypoint of the current path (the target
/// itself when the path is empty); a cast is published as asked. The
/// intent is then spent.
pub fn flush_intent(intent: &mut AiIntent, ai_id: u128, position: AiPosition, path: &AiPath) -> (r: Vec<
    AiPublication,
>)
    ensures
        *final(intent) == AiIntent::Idle,
        r@ == match *old(intent) {
            AiIntent::MoveTo(target) => {
                let here = Vec2 { x: position.x, y: position.y };
                seq![
                    AiPublication::PathRequest { entity_id: ai_id, start: here, end: target },
                    AiPublication::Input {
                        entity_id: ai_id,
                        from: here,
                        toward: if path.waypoints@.len() > 0 {
                            path.waypoints@[0]
                        } else {
                            target
                        },
                    },
                ]
            },
            AiIntent::CastAbility(ability, direction) => seq![
                AiPublication::CastAbility { entity_id: ai_id, ability, direction },
            ],
            AiIntent::Idle => Seq::<AiPublication>::empty(),
        },
{
    let mut r: Vec<AiPublication> = Vec::new();
    match *intent {
        AiIntent::MoveTo(target) => {
            let here = Vec2 { x: position.x, y: position.y };
            let toward = if path.waypoints.len() > 0 {
                path.waypoints[0]
            } else {
                target
            };
            r.push(AiPublication::PathRequest { entity_id: ai_id, start: here, end: target });
            r.push(AiPublication::Input { entity_id: ai_id, from: here, toward });
            proof {
                assert(r@ =~= seq![
                    AiPublication::PathRequest { entity_id: ai_id, start: here, end: target },
                    AiPublication::Input { entity_id: ai_id, from: here, toward },
                ]);
            }
        },
        AiIntent::CastAbility(ability, direction) => {
            r.push(AiPublication::CastAbility { entity_id: ai_id, ability, direction });
            proof {
                assert(r@ =~= seq![AiPublication::CastAbility { entity_id: ai_id, ability, direction }]);
            }
        },
        AiIntent::Idle => {},
    }
    *intent = AiIntent::Idle;
    r
}

/// Whether a spawn tick spawns a character: the cadence timer fired, fewer
/// characters than the limit are alive, and the quadtree has shards.
pub fn should_spawn(timer_finished: bool, current_ai: usize, max_ai: usize, shard_count: usize) -> (b:
    bool)
    ensures
        b == (timer_finished && current_ai < max_ai && shard_count > 0),
{
    timer_finished && current_ai < max_ai && shard_count > 0
}

} // verus!
