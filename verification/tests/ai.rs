use mmo_backend::ai::bridge::{ai_registration, master_registration, AiRequest};
use mmo_backend::ability::ability::AbilityType;
use mmo_backend::ai::bridge::{flush_intent, AiPublication};
use mmo_backend::ai::bridge::{apply_inbound, should_spawn, upsert_nearby, AiInbound, AiPath, AiPosition, Perception};
use mmo_backend::ai::components::{patrol_step, AiIntent, AiStats, PatrolRoute};
use mmo_backend::geometry::Vec2;

fn v2(x: f32, y: f32) -> Vec2 {
    Vec2::new(x.to_bits(), y.to_bits())
}

#[test]
fn patrol_route_cycles_through_its_waypoints() {
    let mut route = PatrolRoute { waypoints: vec![v2(0.0, 0.0), v2(1.0, 0.0), v2(2.0, 0.0)], current: 0 };
    assert_eq!(route.target(), v2(0.0, 0.0));
    route.advance();
    route.advance();
    assert_eq!(route.target(), v2(2.0, 0.0));
    route.advance();
    assert_eq!(route.current, 0);
}

#[test]
fn patrol_step_moves_on_when_reached() {
    let mut route = PatrolRoute { waypoints: vec![v2(0.0, 0.0), v2(5.0, 5.0)], current: 0 };
    assert_eq!(patrol_step(&mut route, false), AiIntent::MoveTo(v2(0.0, 0.0)));
    assert_eq!(patrol_step(&mut route, true), AiIntent::MoveTo(v2(5.0, 5.0)));
    assert_eq!(patrol_step(&mut route, true), AiIntent::MoveTo(v2(0.0, 0.0)));
}

#[test]
fn low_health_is_below_half() {
    assert!(!AiStats::spawned().is_low_health());
    assert!(AiStats { health: 49, max_health: 100, mana: 0 }.is_low_health());
    assert!(!AiStats { health: 50, max_health: 100, mana: 0 }.is_low_health());
    assert!(AiStats { health: 49, max_health: 101, mana: 0 }.is_low_health());
    assert!(!AiStats { health: 50, max_health: 101, mana: 0 }.is_low_health());
    assert!(AiStats { health: -3, max_health: -5, mana: 0 }.is_low_health());
    assert!(!AiStats { health: -2, max_health: -5, mana: 0 }.is_low_health());
    assert_eq!(AiStats::spawned(), AiStats { health: 100, max_health: 100, mana: 50 });
}

#[test]
fn perception_keeps_one_entry_per_entity() {
    let mut p = Perception { nearby: Vec::new() };
    upsert_nearby(&mut p, 1, v2(1.0, 1.0));
    upsert_nearby(&mut p, 2, v2(2.0, 2.0));
    upsert_nearby(&mut p, 1, v2(3.0, 3.0));
    assert_eq!(p.nearby, vec![(1, v2(3.0, 3.0)), (2, v2(2.0, 2.0))]);
}

#[test]
fn inbound_updates_position_perception_and_path() {
    let me = 7u128;
    let mut pos = AiPosition { x: 0, y: 0 };
    let mut p = Perception { nearby: Vec::new() };
    let mut path = AiPath { waypoints: vec![v2(1.0, 1.0), v2(2.0, 2.0)] };

    apply_inbound(me, AiInbound::PositionUpdate { sender: me, position: v2(1.0, 1.0), near_path_head: true }, &mut pos, &mut p, &mut path);
    assert_eq!(pos, AiPosition { x: 1.0f32.to_bits(), y: 1.0f32.to_bits() });
    assert_eq!(path.waypoints, vec![v2(2.0, 2.0)]);

    apply_inbound(me, AiInbound::PositionUpdate { sender: 8, position: v2(4.0, 4.0), near_path_head: true }, &mut pos, &mut p, &mut path);
    assert_eq!(p.nearby, vec![(8, v2(4.0, 4.0))]);
    assert_eq!(path.waypoints, vec![v2(2.0, 2.0)]);

    apply_inbound(me, AiInbound::PathResponse { id: 9, path: vec![] }, &mut pos, &mut p, &mut path);
    assert_eq!(path.waypoints.len(), 1);
    apply_inbound(me, AiInbound::PathResponse { id: me, path: vec![v2(6.0, 6.0)] }, &mut pos, &mut p, &mut path);
    assert_eq!(path.waypoints, vec![v2(6.0, 6.0)]);
}

#[test]
fn spawning_needs_room_and_shards() {
    assert!(should_spawn(true, 3, 100, 4));
    assert!(!should_spawn(false, 3, 100, 4));
    assert!(!should_spawn(true, 100, 100, 4));
    assert!(!should_spawn(true, 3, 100, 0));
}

#[test]
fn registrations() {
    let r = ai_registration(3, v2(1.0, 2.0));
    assert_eq!(r[0], AiRequest::Connect { client_id: 3 });
    assert_eq!(r[3], AiRequest::PublishStartingPosition { connection_id: 3, position: v2(1.0, 2.0) });
    assert_eq!(
        master_registration(8),
        vec![AiRequest::Connect { client_id: 8 }, AiRequest::SubscribeQuadtreeBoundariesUpdate { client_id: 8 }]
    );
}

#[test]
fn intents_are_published_then_spent() {
    let pos = AiPosition { x: 0, y: 0 };
    let here = Vec2::new(0, 0);
    let mut intent = AiIntent::MoveTo(v2(9.0, 9.0));
    let path = AiPath { waypoints: vec![v2(1.0, 1.0)] };
    let r = flush_intent(&mut intent, 5, pos, &path);
    assert_eq!(
        r,
        vec![
            AiPublication::PathRequest { entity_id: 5, start: here, end: v2(9.0, 9.0) },
            AiPublication::Input { entity_id: 5, from: here, toward: v2(1.0, 1.0) },
        ]
    );
    assert_eq!(intent, AiIntent::Idle);
    let mut intent = AiIntent::CastAbility(AbilityType::Heal, None);
    let r = flush_intent(&mut intent, 5, pos, &AiPath { waypoints: vec![] });
    assert_eq!(r, vec![AiPublication::CastAbility { entity_id: 5, ability: AbilityType::Heal, direction: None }]);
    assert!(flush_intent(&mut intent, 5, pos, &path).is_empty());
}
