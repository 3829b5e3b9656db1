use mmo_backend::game_server::events::{shard_announcement, ShardPublication};
use mmo_backend::game_server::events::publish_entity_positions;
use mmo_backend::game_server::config::{ServerConfig, ServerConfigError, ServerSettings};
use mmo_backend::game_server::events::{
    handle_broker_message, handle_client_disconnect, ownership_subscriptions, BrokerRequest,
    ShardEvent, SimCommand, Topic,
};
use mmo_backend::game_server::registry::{ClientInfo, PlayerRegistry};
use mmo_backend::game_server::simulation::{
    fireball_hit, process_net_commands, AbilityHitEntity, FireballInfo, SimEffect,
};
use mmo_backend::ability::ability::AbilityType;
use mmo_backend::geometry::Vec2;

fn v2(x: f32, y: f32) -> Vec2 {
    Vec2::new(x.to_bits(), y.to_bits())
}

fn settings() -> ServerSettings {
    ServerSettings {
        ds_id: None,
        fresh_id: "fresh".to_string(),
        ds_public_ip: None,
        ds_port: None,
        broker_host: None,
        broker_port: None,
        ds_zone: None,
        max_players: None,
    }
}

#[test]
fn server_config_defaults() {
    let c = ServerConfig::from_settings(settings()).unwrap();
    assert_eq!(c.id, "fresh");
    assert_eq!(c.ip, "0.0.0.0");
    assert_eq!(c.public_ip, "localhost");
    assert_eq!(c.port, 7777);
    assert_eq!(c.broker_host, "localhost");
    assert_eq!(c.broker_port, 7776);
    assert_eq!(c.zone, "zone_A");
    assert_eq!(c.max_players, 2);
}

#[test]
fn server_config_errors() {
    let mut s = settings();
    s.ds_port = Some("port".to_string());
    assert_eq!(ServerConfig::from_settings(s).err(), Some(ServerConfigError::InvalidDsPort));
    let mut s = settings();
    s.broker_port = Some("".to_string());
    assert_eq!(ServerConfig::from_settings(s).err(), Some(ServerConfigError::InvalidBrokerPort));
    let mut s = settings();
    s.max_players = Some("-1".to_string());
    assert_eq!(ServerConfig::from_settings(s).err(), Some(ServerConfigError::InvalidMaxPlayers));
    let mut s = settings();
    s.ds_id = Some("given".to_string());
    s.max_players = Some("8".to_string());
    let c = ServerConfig::from_settings(s).unwrap();
    assert_eq!(c.id, "given");
    assert_eq!(c.max_players, 8);
}

#[test]
fn heartbeat_counts_known_players() {
    let c = ServerConfig::from_settings(settings()).unwrap();
    let mut reg = PlayerRegistry::new();
    reg.insert(1, ClientInfo { is_ghost: false });
    reg.insert(2, ClientInfo { is_ghost: true });
    let hb = c.heartbeat(&reg);
    assert_eq!(hb.player_count, 2);
    assert_eq!(hb.max_players, 2);
    assert_eq!(hb.ip, "localhost");
    assert_eq!(hb.id, "fresh");
}

#[test]
fn starting_player_is_registered_once_and_subscribed() {
    let mut reg = PlayerRegistry::new();
    let e = || ShardEvent::PlayerStartingPosition { client_id: 5, position: Some(v2(1.0, 2.0)) };
    let r = handle_broker_message(&mut reg, e(), Some(99));
    assert_eq!(r.commands, vec![SimCommand::Joined { connection_id: 5, position: v2(1.0, 2.0) }]);
    assert_eq!(
        r.requests,
        vec![
            BrokerRequest::Subscribe { client_id: 99, topic: Topic::Input(5) },
            BrokerRequest::Unsubscribe { client_id: 99, topic: Topic::PlayerStartingPositionInShard(5) },
        ]
    );
    assert_eq!(reg.get(5), Some(ClientInfo { is_ghost: false }));
    let again = handle_broker_message(&mut reg, e(), Some(99));
    assert!(again.commands.is_empty());
    assert!(again.requests.is_empty());
    let other = handle_broker_message(
        &mut reg,
        ShardEvent::PlayerStartingPosition { client_id: 6, position: Some(v2(0.0, 0.0)) },
        None,
    );
    assert_eq!(other.commands.len(), 1);
    assert!(other.requests.is_empty());
}

#[test]
fn position_updates_make_and_move_ghosts() {
    let mut reg = PlayerRegistry::new();
    let r = handle_broker_message(
        &mut reg,
        ShardEvent::EntityPositionUpdate { entity_id: 8, position: Some(v2(3.0, 4.0)), within_reach: true },
        None,
    );
    assert_eq!(r.commands, vec![SimCommand::GhostJoined { connection_id: 8, position: v2(3.0, 4.0) }]);
    assert_eq!(reg.get(8), Some(ClientInfo { is_ghost: true }));
    let r = handle_broker_message(
        &mut reg,
        ShardEvent::EntityPositionUpdate { entity_id: 8, position: Some(v2(5.0, 4.0)), within_reach: true },
        None,
    );
    assert_eq!(r.commands, vec![SimCommand::GhostPositionUpdate { connection_id: 8, position: v2(5.0, 4.0) }]);
    let r = handle_broker_message(
        &mut reg,
        ShardEvent::EntityPositionUpdate { entity_id: 8, position: Some(v2(900.0, 4.0)), within_reach: false },
        None,
    );
    assert_eq!(r.commands, vec![SimCommand::Left { connection_id: 8 }]);
    reg.insert(9, ClientInfo { is_ghost: false });
    let r = handle_broker_message(
        &mut reg,
        ShardEvent::EntityPositionUpdate { entity_id: 9, position: Some(v2(1.0, 1.0)), within_reach: true },
        None,
    );
    assert!(r.commands.is_empty());
}

#[test]
fn inputs_only_for_known_players() {
    let mut reg = PlayerRegistry::new();
    let r = handle_broker_message(&mut reg, ShardEvent::Input { client_id: 1, direction: Some(v2(1.0, 0.0)) }, None);
    assert!(r.commands.is_empty());
    reg.insert(1, ClientInfo { is_ghost: false });
    let r = handle_broker_message(&mut reg, ShardEvent::Input { client_id: 1, direction: Some(v2(1.0, 0.0)) }, None);
    assert_eq!(r.commands, vec![SimCommand::Input { connection_id: 1, direction: v2(1.0, 0.0) }]);
    let r = handle_broker_message(&mut reg, ShardEvent::Input { client_id: 1, direction: None }, None);
    assert!(r.commands.is_empty());
}

#[test]
fn ownership_messages_flip_the_ghost_flag() {
    let mut reg = PlayerRegistry::new();
    let id: u128 = 0x0102030405060708090a0b0c0d0e0f10;
    reg.insert(id, ClientInfo { is_ghost: true });
    let payload = id.to_be_bytes().to_vec();
    let r = handle_broker_message(&mut reg, ShardEvent::ClaimOwnership { shard_id: 1, payload: payload.clone() }, None);
    assert_eq!(r.commands, vec![SimCommand::GhostIsNowLocal { connection_id: id }]);
    assert_eq!(reg.get(id), Some(ClientInfo { is_ghost: false }));
    let r = handle_broker_message(&mut reg, ShardEvent::ReleaseOwnership { shard_id: 1, payload }, None);
    assert_eq!(r.commands, vec![SimCommand::LocalIsNowGhost { connection_id: id }]);
    assert_eq!(reg.get(id), Some(ClientInfo { is_ghost: true }));
    let r = handle_broker_message(&mut reg, ShardEvent::ClaimOwnership { shard_id: 1, payload: vec![1, 2, 3] }, None);
    assert!(r.commands.is_empty());
}

#[test]
fn disconnects_forget_the_player() {
    let mut reg = PlayerRegistry::new();
    reg.insert(4, ClientInfo { is_ghost: false });
    let r = handle_broker_message(&mut reg, ShardEvent::Disconnect { client_id: 4 }, None);
    assert_eq!(r.commands, vec![SimCommand::Left { connection_id: 4 }]);
    assert!(!reg.contains(4));
    reg.insert(7, ClientInfo { is_ghost: false });
    assert_eq!(handle_client_disconnect(&mut reg, 7), vec![SimCommand::Left { connection_id: 7 }]);
    assert_eq!(reg.len(), 0);
}

#[test]
fn ownership_topics() {
    assert_eq!(
        ownership_subscriptions(3),
        vec![
            BrokerRequest::Subscribe { client_id: 3, topic: Topic::ClaimOwnership(3) },
            BrokerRequest::Subscribe { client_id: 3, topic: Topic::ReleaseOwnership(3) },
        ]
    );
}

#[test]
fn tick_commands_become_effects_and_inputs() {
    let cmds = vec![
        SimCommand::Joined { connection_id: 1, position: v2(0.0, 0.0) },
        SimCommand::Input { connection_id: 1, direction: v2(1.0, 0.0) },
        SimCommand::Input { connection_id: 1, direction: v2(0.0, 1.0) },
        SimCommand::Input { connection_id: 2, direction: v2(1.0, 1.0) },
        SimCommand::Left { connection_id: 2 },
        SimCommand::GhostIsNowLocal { connection_id: 3 },
        SimCommand::GhostIsNowLocal { connection_id: 4 },
    ];
    let t = process_net_commands(&cmds, &vec![3]);
    assert_eq!(
        t.effects,
        vec![
            SimEffect::Spawn { connection_id: 1, position: v2(0.0, 0.0), is_ghost: false },
            SimEffect::Despawn { connection_id: 2 },
            SimEffect::ClaimAsLocal { connection_id: 3 },
        ]
    );
    assert_eq!(t.inputs.len(), 1);
    assert_eq!(t.inputs.get(&1), Some(&v2(0.0, 1.0)));
}

#[test]
fn fireball_collisions() {
    let f = FireballInfo { caster: 1, in_safe_zone: false };
    assert_eq!(
        fireball_hit(10, 2, Some(f), None, true, true),
        Some(AbilityHitEntity { caster: 1, hit_entity: 2, ability_type: AbilityType::Fireball })
    );
    assert_eq!(
        fireball_hit(2, 10, None, Some(f), true, true),
        Some(AbilityHitEntity { caster: 1, hit_entity: 2, ability_type: AbilityType::Fireball })
    );
    assert_eq!(fireball_hit(10, 1, Some(f), None, true, true), None);
    assert_eq!(fireball_hit(10, 2, Some(FireballInfo { caster: 1, in_safe_zone: true }), None, true, true), None);
    assert_eq!(fireball_hit(10, 2, Some(f), None, true, false), None);
    assert_eq!(fireball_hit(10, 2, None, None, true, true), None);
}

#[test]
fn shard_announcement_needs_a_link() {
    assert_eq!(
        shard_announcement(Some(4)),
        vec![ShardPublication::Connect { client_id: 4 }, ShardPublication::ShardCreated { shard_connection_id: 4 }]
    );
    assert!(shard_announcement(None).is_empty());
}

#[test]
fn only_simulated_players_positions_are_published() {
    let entities = vec![(1u128, v2(1.0, 1.0), false), (2u128, v2(2.0, 2.0), true), (3u128, v2(3.0, 3.0), false)];
    assert_eq!(
        publish_entity_positions(Some(50), &entities),
        vec![
            ShardPublication::EntityPositionUpdate { connection_id: 1, position: v2(1.0, 1.0) },
            ShardPublication::AuthorityDebugPacket { connection_id: 1, sender_id: 50 },
            ShardPublication::EntityPositionUpdate { connection_id: 3, position: v2(3.0, 3.0) },
            ShardPublication::AuthorityDebugPacket { connection_id: 3, sender_id: 50 },
        ]
    );
    assert!(publish_entity_positions(None, &entities).is_empty());
}
