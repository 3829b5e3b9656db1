use std::collections::VecDeque;

use mmo_backend::authority::messages::{
    read_fixed_64, read_u32, AuthorityCodecError, AuthorityEnvelope, GhostUpdate, HandoffAccept,
    HandoffComplete, HandoffReject, HandoffRequest,
};
use mmo_backend::authority::state::AuthorityState;
use mmo_backend::authority::systems::{
    apply_ghost_updates, apply_handoff_requests, complete_handoffs, route_inbound_messages,
    AuthorityBus,
};
use mmo_backend::authority::world::{
    apply_ghost_update, begin_handoff, finalize_handoff, new_ghost_entity, reject_handoff,
    AuthorityEntity, AuthorityWorld, GhostReplica, Player,
};
use mmo_backend::geometry::{Vec2, Vec3};

fn v2(x: f32, y: f32) -> Vec2 {
    Vec2::new(x.to_bits(), y.to_bits())
}

fn sample_state() -> [u8; 64] {
    let mut state = [0u8; 64];
    for (index, byte) in state.iter_mut().enumerate() {
        *byte = index as u8;
    }
    state
}

fn sample_request(entity_id: u32) -> HandoffRequest {
    HandoffRequest {
        entity_id,
        pos: v2(10.0, 20.0),
        vel: v2(30.0, 40.0),
        state: [entity_id as u8; 64],
    }
}

fn routing_request(entity_id: u32) -> HandoffRequest {
    HandoffRequest {
        entity_id,
        pos: v2(1.0, 2.0),
        vel: v2(3.0, 4.0),
        state: [entity_id as u8; 64],
    }
}

fn owned_player(handle: u64, entity_id: u32) -> AuthorityEntity {
    AuthorityEntity {
        entity: handle,
        player: Some(Player { entity_id, display_name: "test-player".to_string() }),
        transform: Some(Vec3 { x: 0, y: 0, z: 0 }),
        state: Some(AuthorityState::Owned),
        replica: None,
        request: None,
        velocity: None,
    }
}

/// A world holding one player pending a handoff toward another shard.
fn pending_world() -> AuthorityWorld {
    let mut entity = owned_player(0, 100);
    begin_handoff(&mut entity, uuid::Uuid::new_v4().as_u128(), sample_request(100), 12);
    AuthorityWorld { entities: vec![entity], next_entity: 1 }
}

#[test]
fn default_state_is_owned() {
    assert_eq!(AuthorityState::default(), AuthorityState::Owned);
}

#[test]
fn owned_and_pending_allow_local_simulation() {
    assert!(AuthorityState::Owned.allows_local_simulation());
    assert!(AuthorityState::PendingHandoff.allows_local_simulation());
}

#[test]
fn ghost_disables_local_simulation_and_snapshots() {
    assert!(!AuthorityState::Ghosted.allows_local_simulation());
    assert!(!AuthorityState::Ghosted.is_snapshot_visible());
    assert!(AuthorityState::Ghosted.is_ghost());
}

#[test]
fn handoff_request_roundtrips() {
    let envelope = AuthorityEnvelope::HandoffRequest(HandoffRequest {
        entity_id: 7,
        pos: v2(1.5, -2.5),
        vel: v2(3.25, 4.75),
        state: sample_state(),
    });

    let encoded = envelope.encode();
    assert_eq!(encoded.len(), 1 + 4 + 8 + 8 + 64);

    let decoded = AuthorityEnvelope::decode(&encoded).expect("request should decode");
    assert_eq!(decoded, envelope);
}

#[test]
fn authority_messages_roundtrip() {
    let messages = [
        AuthorityEnvelope::HandoffAccept(HandoffAccept { entity_id: 11 }),
        AuthorityEnvelope::HandoffReject(HandoffReject { entity_id: 12 }),
        AuthorityEnvelope::GhostUpdate(GhostUpdate { entity_id: 13, pos: v2(-10.0, 20.0) }),
        AuthorityEnvelope::HandoffComplete(HandoffComplete { entity_id: 14 }),
    ];

    for envelope in messages {
        let encoded = envelope.encode();
        let decoded = AuthorityEnvelope::decode(&encoded).expect("message should decode");
        assert_eq!(decoded, envelope);
    }
}

#[test]
fn decode_rejects_invalid_tag() {
    let decoded = AuthorityEnvelope::decode(&[0x99]);
    assert!(decoded.is_err());
}

#[test]
fn authority_bus_routes_messages_into_queues() {
    let mut bus = AuthorityBus::default();
    bus.inbound = VecDeque::from([
        AuthorityEnvelope::HandoffRequest(routing_request(1)),
        AuthorityEnvelope::HandoffAccept(HandoffAccept { entity_id: 2 }),
        AuthorityEnvelope::HandoffReject(HandoffReject { entity_id: 3 }),
        AuthorityEnvelope::GhostUpdate(GhostUpdate { entity_id: 4, pos: v2(5.0, 6.0) }),
        AuthorityEnvelope::HandoffComplete(HandoffComplete { entity_id: 5 }),
    ]);

    route_inbound_messages(&mut bus);

    assert!(bus.inbound.is_empty());
    assert_eq!(bus.pending_requests.len(), 1);
    assert_eq!(bus.pending_accepts.len(), 1);
    assert_eq!(bus.pending_rejects.len(), 1);
    assert_eq!(bus.pending_ghost_updates.len(), 1);
    assert_eq!(bus.pending_completes.len(), 1);

    assert_eq!(bus.pending_requests.front().map(|message| message.entity_id), Some(1));
    assert_eq!(bus.pending_accepts.front().map(|message| message.entity_id), Some(2));
    assert_eq!(bus.pending_rejects.front().map(|message| message.entity_id), Some(3));
    assert_eq!(bus.pending_ghost_updates.front().map(|message| message.entity_id), Some(4));
    assert_eq!(bus.pending_completes.front().map(|message| message.entity_id), Some(5));
}

#[test]
fn authority_state_transitions_cycle() {
    let mut world = pending_world();
    assert_eq!(world.entities[0].state, Some(AuthorityState::PendingHandoff));

    world.entities[0].state = Some(AuthorityState::Ghosted);
    world.entities[0].replica = Some(GhostReplica {
        source_shard_id: 9,
        source_entity_id: 100,
        source_entity_uuid: uuid::Uuid::new_v4().as_u128(),
    });
    assert_eq!(world.entities[0].state, Some(AuthorityState::Ghosted));
    assert!(world.entities[0].replica.is_some());

    finalize_handoff(&mut world.entities[0]);
    assert_eq!(world.entities[0].state, Some(AuthorityState::Owned));
    assert!(world.entities[0].replica.is_none());
    assert!(world.entities[0].request.is_none());
}

#[test]
fn ghost_replication_update_correctness() {
    let mut world = AuthorityWorld { entities: Vec::new(), next_entity: 0 };
    let handle = world.spawn_ghost_entity(100, 13, v2(1.0, 2.0));
    let entity = world.entities.iter_mut().find(|e| e.entity == handle).unwrap();
    assert_eq!(entity.state, Some(AuthorityState::Ghosted));

    let transform = entity.transform.as_mut().expect("ghost should have a transform");
    apply_ghost_update(transform, v2(9.0, 10.0));

    let t = entity.transform.unwrap();
    assert_eq!(Vec2::new(t.x, t.y), v2(9.0, 10.0));
}

#[test]
fn handoff_accept_waits_for_completion() {
    let mut world = pending_world();
    let mut bus = AuthorityBus::default();

    bus.inbound.push_back(AuthorityEnvelope::HandoffAccept(HandoffAccept { entity_id: 100 }));
    route_inbound_messages(&mut bus);
    complete_handoffs(&mut bus, &mut world);

    assert_eq!(world.entities[0].state, Some(AuthorityState::PendingHandoff));
    assert!(world.entities[0].request.is_some_and(|state| state.accepted));

    bus.inbound.push_back(AuthorityEnvelope::HandoffComplete(HandoffComplete { entity_id: 100 }));
    route_inbound_messages(&mut bus);
    complete_handoffs(&mut bus, &mut world);

    assert_eq!(world.entities[0].state, Some(AuthorityState::Owned));
    assert!(world.entities[0].request.is_none());
}

#[test]
fn handoff_reject_restores_owned() {
    let mut world = pending_world();
    let mut bus = AuthorityBus::default();

    bus.inbound.push_back(AuthorityEnvelope::HandoffReject(HandoffReject { entity_id: 100 }));
    route_inbound_messages(&mut bus);
    complete_handoffs(&mut bus, &mut world);

    assert_eq!(world.entities[0].state, Some(AuthorityState::Owned));
    assert!(world.entities[0].request.is_none());
}

#[test]
fn handoff_request_is_sent_once() {
    let mut world = pending_world();
    world.entities[0].transform = Some(Vec3 { x: 7.0f32.to_bits(), y: 8.0f32.to_bits(), z: 0 });
    world.entities[0].velocity = Some(v2(1.0, 0.0));
    let mut bus = AuthorityBus::default();

    apply_handoff_requests(&mut bus, &mut world, 30);
    assert_eq!(bus.outbound.len(), 1);
    match bus.outbound[0] {
        AuthorityEnvelope::HandoffRequest(r) => {
            assert_eq!(r.entity_id, 100);
            assert_eq!(r.pos, v2(7.0, 8.0));
            assert_eq!(r.vel, v2(1.0, 0.0));
            assert_eq!(r.state, [100u8; 64]);
        }
        _ => panic!("expected a handoff request"),
    }
    let rs = world.entities[0].request.unwrap();
    assert!(rs.dispatched);
    assert_eq!(rs.requested_tick, 30);

    apply_handoff_requests(&mut bus, &mut world, 31);
    assert_eq!(bus.outbound.len(), 1);
}

#[test]
fn reject_handoff_clears_request_and_replica() {
    let mut world = pending_world();
    world.entities[0].replica = Some(GhostReplica {
        source_shard_id: 1,
        source_entity_id: 100,
        source_entity_uuid: 0,
    });
    reject_handoff(&mut world.entities[0]);
    assert_eq!(world.entities[0].state, Some(AuthorityState::Owned));
    assert!(world.entities[0].request.is_none());
    assert!(world.entities[0].replica.is_none());
}

#[test]
fn ghost_batch_keeps_latest_position_and_one_ghost() {
    let mut world = AuthorityWorld { entities: Vec::new(), next_entity: 0 };
    world.spawn_ghost_entity(5, 2, v2(0.0, 0.0));
    world.spawn_ghost_entity(5, 3, v2(1.0, 1.0));
    let mut bus = AuthorityBus::default();
    bus.pending_ghost_updates.push_back(GhostUpdate { entity_id: 5, pos: v2(3.0, 4.0) });
    bus.pending_ghost_updates.push_back(GhostUpdate { entity_id: 6, pos: v2(8.0, 9.0) });
    bus.pending_ghost_updates.push_back(GhostUpdate { entity_id: 5, pos: v2(5.0, 6.0) });

    apply_ghost_updates(&mut bus, &mut world);

    assert!(bus.pending_ghost_updates.is_empty());
    let ghosts_of_5: Vec<&AuthorityEntity> = world
        .entities
        .iter()
        .filter(|e| e.replica.map(|r| r.source_entity_id) == Some(5))
        .collect();
    assert_eq!(ghosts_of_5.len(), 1);
    let t = ghosts_of_5[0].transform.unwrap();
    assert_eq!(Vec2::new(t.x, t.y), v2(5.0, 6.0));

    let ghosts_of_6: Vec<&AuthorityEntity> = world
        .entities
        .iter()
        .filter(|e| e.replica.map(|r| r.source_entity_id) == Some(6))
        .collect();
    assert_eq!(ghosts_of_6.len(), 1);
    let t = ghosts_of_6[0].transform.unwrap();
    assert_eq!(Vec2::new(t.x, t.y), v2(8.0, 9.0));
    assert_eq!(
        ghosts_of_6[0].player.as_ref().map(|p| p.display_name.clone()),
        Some("ghost:6".to_string())
    );
}

#[test]
fn new_ghost_entity_is_named_after_its_entity() {
    let e = new_ghost_entity(42, 1234, 7, v2(1.0, 2.0));
    assert_eq!(e.entity, 42);
    assert_eq!(e.player.as_ref().unwrap().display_name, "ghost:1234");
    assert_eq!(e.state, Some(AuthorityState::Ghosted));
    assert_eq!(e.replica.unwrap().source_shard_id, 7);
    assert_eq!(e.replica.unwrap().source_entity_uuid, 0);
}

#[test]
fn decode_reports_truncated_payloads() {
    let mut encoded = AuthorityEnvelope::HandoffAccept(HandoffAccept { entity_id: 1 }).encode().to_vec();
    encoded.pop();
    assert_eq!(AuthorityEnvelope::decode(&encoded), Err(AuthorityCodecError::Truncated));
    assert_eq!(AuthorityEnvelope::decode(&[]), Err(AuthorityCodecError::EmptyPacket));
    assert_eq!(AuthorityEnvelope::decode(&[0x99]), Err(AuthorityCodecError::InvalidTag(0x99)));
}

#[test]
fn readers_consume_their_fields() {
    let bytes = [1u8, 0, 0, 0, 9];
    let mut cursor: &[u8] = &bytes;
    assert_eq!(read_u32(&mut cursor), Ok(1));
    assert_eq!(cursor, &[9u8][..]);
    assert_eq!(read_u32(&mut cursor), Err(AuthorityCodecError::Truncated));

    let block = [7u8; 70];
    let mut cursor: &[u8] = &block;
    assert_eq!(read_fixed_64(&mut cursor), Ok([7u8; 64]));
    assert_eq!(cursor.len(), 6);
    assert_eq!(read_fixed_64(&mut cursor), Err(AuthorityCodecError::Truncated));
    assert_eq!(cursor, &[7u8; 6][..]);
}
