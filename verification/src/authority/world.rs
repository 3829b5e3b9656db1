use crate::authority::messages::{AuthorityEnvelope, HandoffRequest};
use crate::authority::state::AuthorityState;
use crate::geometry::{Vec2, Vec3};
use crate::ids::nil_uuid;
use crate::text::{decimal, u64_to_string};
use vstd::string::StringExecFns;
use vstd::prelude::*;

verus! {

/// Identifies a player entity in the simulation.
#[derive(Debug, Clone, PartialEq, Eq)]
pub struct Player {
    pub entity_id: u32,
    pub display_name: String,
}

/// Read-only replica metadata for a remote entity.
#[derive(Debug, Clone, Copy, PartialEq, Eq, Structural)]
pub struct GhostReplica {
    pub source_shard_id: u32,
    pub source_entity_id: u32,
    pub source_entity_uuid: u128,
}

/// Pending handoff data for a local entity.
#[derive(Debug, Clone, Copy, PartialEq)]
pub struct HandoffRequestState {
    pub target_shard_uuid: u128,
    pub request: HandoffRequest,
    pub requested_tick: u32,
    pub dispatched: bool,
    pub accepted: bool,
}

/// The components of one simulation entity that the authority subsystem
/// reads and writes; a component the entity lacks is `None`.
#[derive(Debug, Clone, PartialEq)]
pub struct AuthorityEntity {
    /// The entity's handle in the simulation world.
    pub entity: u64,
    pub player: Option<Player>,
    pub transform: Option<Vec3>,
    pub state: Option<AuthorityState>,
    pub replica: Option<GhostReplica>,
    pub request: Option<HandoffRequestState>,
    pub velocity: Option<Vec2>,
}

/// The entities of the local shard, in iteration order, and the handle the
/// next spawned entity receives.
#[derive(Debug, Clone, PartialEq)]
pub struct AuthorityWorld {
    pub entities: Vec<AuthorityEntity>,
    pub next_entity: u64,
}

/// The abstract value of a player component.
pub struct PlayerView {
    pub entity_id: u32,
    pub display_name: Seq<char>,
}

impl View for Player {
    type V = PlayerView;

    open spec fn view(&self) -> PlayerView {
        PlayerView { entity_id: self.entity_id, display_name: self.display_name@ }
    }
}

/// The abstract value of an entity: its components, the display name as a
/// character sequence.
pub struct EntityView {
    pub entity: u64,
    pub player: Option<PlayerView>,
    pub transform: Option<Vec3>,
    pub state: Option<AuthorityState>,
    pub replica: Option<GhostReplica>,
    pub request: Option<HandoffRequestState>,
    pub velocity: Option<Vec2>,
}

impl View for AuthorityEntity {
    type V = EntityView;

    open spec fn view(&self) -> EntityView {
        EntityView {
            entity: self.entity,
            player: match self.player {
                Some(p) => Some(p@),
                None => None,
            },
            transform: self.transform,
            state: self.state,
            replica: self.replica,
            request: self.request,
            velocity: self.velocity,
        }
    }
}

/// The abstract values of a sequence of entities.
pub open spec fn entities_view(s: Seq<AuthorityEntity>) -> Seq<EntityView> {
    s.map_values(|e: AuthorityEntity| e@)
}

/// `entity` with the given authority state and a pending request.
pub open spec fn with_pending_request(
    e: AuthorityEntity,
    target_shard_uuid: u128,
    request: HandoffRequest,
    tick: u32,
) -> AuthorityEntity {
    AuthorityEntity {
        state: Some(AuthorityState::PendingHandoff),
        request: Some(
            HandoffRequestState {
                target_shard_uuid,
                request,
                requested_tick: tick,
                dispatched: false,
                accepted: false,
            },
        ),
        ..e
    }
}

/// `entity` owned again: no pending request and no replica metadata.
pub open spec fn restored(e: AuthorityEntity) -> AuthorityEntity {
    AuthorityEntity { state: Some(AuthorityState::Owned), request: None, replica: None, ..e }
}

/// The display name of a ghost spawned for a remote entity: `ghost:<id>`.
pub open spec fn ghost_display_name(entity_id: u32) -> Seq<char> {
    seq!['g', 'h', 'o', 's', 't', ':'] + decimal(entity_id as nat)
}

/// Builds a handoff request payload.
pub fn build_handoff_request(entity_id: u32, pos: Vec2, vel: Vec2, state: [u8; 64]) -> (r:
    HandoffRequest)
    ensures
        r == (HandoffRequest { entity_id, pos, vel, state }),
{
    HandoffRequest { entity_id, pos, vel, state }
}

/// Marks an entity as pending handoff toward the target shard, remembering
/// the request to send and the tick it was decided on.
pub fn begin_handoff(
    entity: &mut AuthorityEntity,
    target_shard_uuid: u128,
    request: HandoffRequest,
    tick: u32,
)
    ensures
        *final(entity) == with_pending_request(*old(entity), target_shard_uuid, request, tick),
{
    entity.state = Some(AuthorityState::PendingHandoff);
    entity.request = Some(
        HandoffRequestState {
            target_shard_uuid,
            request,
            requested_tick: tick,
            dispatched: false,
            accepted: false,
        },
    );
}

/// Records that the target shard accepted the handoff; authority moves only
/// once the completion arrives.
pub fn accept_handoff(request_state: &mut HandoffRequestState)
    ensures
        *final(request_state) == (HandoffRequestState { accepted: true, ..*old(request_state) }),
{
    request_state.accepted = true;
}

/// Restores local authority after a handoff success.
pub fn finalize_handoff(entity: &mut AuthorityEntity)
    ensures
        *final(entity) == restored(*old(entity)),
{
    entity.state = Some(AuthorityState::Owned);
    entity.request = None;
    entity.replica = None;
}

/// Restores local authority after a handoff rejection.
pub fn reject_handoff(entity: &mut AuthorityEntity)
    ensures
        *final(entity) == restored(*old(entity)),
{
    entity.state = Some(AuthorityState::Owned);
    entity.request = None;
    entity.replica = None;
}

/// Wraps the current entity state into an outbound handoff request, with
/// an all-zero state payload.
pub fn encode_request(player: &Player, transform: &Vec3, velocity: Vec2) -> (m: AuthorityEnvelope)
    ensures
        m is HandoffRequest,
        m->HandoffRequest_0.entity_id == player.entity_id,
        m->HandoffRequest_0.pos == (Vec2 { x: transform.x, y: transform.y }),
        m->HandoffRequest_0.vel == velocity,
        m->HandoffRequest_0.state@ == Seq::new(64, |i: int| 0u8),
{
    let request = HandoffRequest {
        entity_id: player.entity_id,
        pos: transform.truncate(),
        vel: velocity,
        state: [0u8; 64],
    };
    proof {
        assert(request.state@ =~= Seq::new(64, |i: int| 0u8));
    }
    AuthorityEnvelope::HandoffRequest(request)
}

/// Applies a ghost position update: the position moves, the depth stays.
pub fn apply_ghost_update(transform: &mut Vec3, position: Vec2)
    ensures
        *final(transform) == (Vec3 { x: position.x, y: position.y, z: old(transform).z }),
{
    *transform = Vec3::extend(position, transform.z);
}


/// The ghost entity spawned under `handle` for a remote entity: a player
/// named `ghost:<id>`, in the ghost state, recording its source shard, at
/// the position with depth zero.
pub open spec fn spawned_ghost(handle: u64, entity_id: u32, source_shard_id: u32, position: Vec2) -> EntityView {
    EntityView {
        entity: handle,
        player: Some(PlayerView { entity_id, display_name: ghost_display_name(entity_id) }),
        transform: Some(Vec3 { x: position.x, y: position.y, z: 0 }),
        state: Some(AuthorityState::Ghosted),
        replica: Some(
            GhostReplica { source_shard_id, source_entity_id: entity_id, source_entity_uuid: 0 },
        ),
        request: None,
        velocity: None,
    }
}

/// Builds the read-only ghost entity for a remote entity.
pub fn new_ghost_entity(handle: u64, entity_id: u32, source_shard_id: u32, position: Vec2) -> (e:
    AuthorityEntity)
    ensures
        e@ == spawned_ghost(handle, entity_id, source_shard_id, position),
{
    let mut name = String::from_str("ghost:");
    let digits = u64_to_string(entity_id as u64);
    name.append(digits.as_str());
    proof {
        reveal_strlit("ghost:");
        assert(name@ =~= ghost_display_name(entity_id));
    }
    AuthorityEntity {
        entity: handle,
        player: Some(Player { entity_id, display_name: name }),
        transform: Some(Vec3::extend(position, 0)),
        state: Some(AuthorityState::Ghosted),
        replica: Some(
            GhostReplica { source_shard_id, source_entity_id: entity_id, source_entity_uuid: nil_uuid() },
        ),
        request: None,
        velocity: None,
    }
}

impl AuthorityWorld {
    /// Spawns a read-only ghost entity at the end of the world and returns
    /// its handle.
    pub fn spawn_ghost_entity(&mut self, entity_id: u32, source_shard_id: u32, position: Vec2) -> (h:
        u64)
        requires
            old(self).next_entity < u64::MAX,
        ensures
            h == old(self).next_entity,
            final(self).next_entity == old(self).next_entity + 1,
            final(self).entities@.len() == old(self).entities@.len() + 1,
            final(self).entities@.drop_last() == old(self).entities@,
            final(self).entities@.last()@ == spawned_ghost(h, entity_id, source_shard_id, position),
    {
        let h = self.next_entity;
        let e = new_ghost_entity(h, entity_id, source_shard_id, position);
        self.entities.push(e);
        self.next_entity = h + 1;
        proof {
            assert(self.entities@.drop_last() =~= old(self).entities@);
        }
        h
    }
}

} // verus!
