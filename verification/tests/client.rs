use mmo_backend::ability::attribute::AttributeType;
use mmo_backend::client::input::{movement_direction, HeldKeys};
use mmo_backend::client::login::{validate_login, FocusedField, FormState, LoginError, LoginKey};
use mmo_backend::client::names::{plan_spawns, DiscoveredEntities, NameRequest};
use mmo_backend::client::session::{
    connecting_transition, registration_requests, route_broadcast, ClientBroadcast, ClientNotice,
    ClientRequest, ClientTopic, ConnectEvent, GameState,
};
use mmo_backend::client::stats::{format_player_label, PlayerStats};
use mmo_backend::geometry::Vec2;

#[test]
fn player_labels() {
    assert_eq!(format_player_label("bob", 0), "[Lvl 0] bob");
    assert_eq!(format_player_label("al", -3), "[Lvl -3] al");
    let s = PlayerStats::spawned();
    assert_eq!(s, PlayerStats { hp: 100, mp: 100, level: 0, xp: 0 });
    assert_eq!(s.stats_label(), "HP: 100/100 | MP: 100/100");
}

#[test]
fn attribute_updates_set_health_or_mana() {
    let mut s = PlayerStats::spawned();
    s.apply_attribute_update(AttributeType::HealthPoints, 40);
    s.apply_attribute_update(AttributeType::ManaPoints, 75);
    assert_eq!(s, PlayerStats { hp: 40, mp: 75, level: 0, xp: 0 });
    assert_eq!(s.stats_label(), "HP: 40/100 | MP: 75/100");
}

#[test]
fn typing_into_the_login_form() {
    let mut form = FormState::new();
    let keys = vec![
        LoginKey::Character("al".to_string()),
        LoginKey::Character("\u{7}".to_string()),
        LoginKey::Character("i".to_string()),
        LoginKey::Backspace,
        LoginKey::Tab,
        LoginKey::Character("pw".to_string()),
        LoginKey::Other,
    ];
    let o = form.handle_keys(&keys);
    assert!(o.dirty);
    assert!(!o.submit);
    assert_eq!(form.username, "al");
    assert_eq!(form.password, "pw");
    assert_eq!(form.focused, FocusedField::Password);
    assert_eq!(form.username_display(), "al|");
    assert_eq!(form.password_display(), "**|");

    let o = form.handle_keys(&vec![LoginKey::Tab, LoginKey::Enter]);
    assert!(!o.dirty);
    assert!(o.submit);
    assert_eq!(form.focused, FocusedField::Username);

    let mut empty = FormState::new();
    empty.handle_keys(&vec![LoginKey::Backspace]);
    assert_eq!(empty.username_display(), "|");
    assert_eq!(empty.password_display(), "|");
}

#[test]
fn login_validation() {
    assert_eq!(validate_login(&"  ".to_string(), &"x".to_string()), Err(LoginError::EmptyUsername));
    assert_eq!(validate_login(&" bob ".to_string(), &"".to_string()), Err(LoginError::EmptyPassword));
    assert_eq!(validate_login(&" bob ".to_string(), &"pw".to_string()), Ok("bob".to_string()));
    assert_eq!(LoginError::EmptyUsername.message(), "Username cannot be empty.");
    assert_eq!(LoginError::EmptyPassword.message(), "Password cannot be empty.");
}

#[test]
fn registration_order() {
    let r = registration_requests(5);
    assert_eq!(r.len(), 9);
    assert_eq!(r[0], ClientRequest::Connect { client_id: 5 });
    assert_eq!(r[1], ClientRequest::RegisterUsername { player_id: 5 });
    assert_eq!(r[3], ClientRequest::PublishStartingPosition { connection_id: 5 });
    assert_eq!(r[8], ClientRequest::Subscribe { client_id: 5, topic: ClientTopic::AttributeUpdated(5) });
}

#[test]
fn connecting_screens() {
    assert_eq!(connecting_transition(ConnectEvent::Connected), GameState::Connecting);
    assert_eq!(connecting_transition(ConnectEvent::StreamCreated { reliable: false }), GameState::Connecting);
    assert_eq!(connecting_transition(ConnectEvent::StreamCreated { reliable: true }), GameState::InGame);
    assert_eq!(connecting_transition(ConnectEvent::TimedOut), GameState::Login);
    assert_eq!(connecting_transition(ConnectEvent::Disconnected), GameState::Login);
}

#[test]
fn only_our_own_death_matters() {
    assert!(matches!(route_broadcast(1, ClientBroadcast::EntityKilled { entity_id: 1 }), Some(ClientNotice::LocalPlayerKilled)));
    assert!(route_broadcast(1, ClientBroadcast::EntityKilled { entity_id: 2 }).is_none());
    assert!(route_broadcast(1, ClientBroadcast::EntityPositionUpdate { entity_id: 2, decoded: false }).is_none());
    match route_broadcast(1, ClientBroadcast::DbNameResponse { player_id: 4, username: Some("zed".to_string()) }) {
        Some(ClientNotice::NameResponse { player_id, username }) => {
            assert_eq!(player_id, 4);
            assert_eq!(username, "zed");
        }
        _ => panic!("expected a name"),
    }
}

#[test]
fn spawning_remote_players_and_asking_their_names() {
    let mut discovered = DiscoveredEntities::new();
    discovered.record(30, "carol".to_string());
    let p = Vec2::new(1, 2);
    let updates = vec![(10, p), (20, p), (20, p), (30, p), (40, p)];
    let f = plan_spawns(&updates, &vec![40], Some(10), true, &"me".to_string(), &mut discovered);
    let ids: Vec<u128> = f.spawns.iter().map(|s| s.connection_id).collect();
    assert_eq!(ids, vec![10, 20, 30]);
    assert!(f.spawns[0].is_me);
    assert_eq!(f.spawns[0].name, "me");
    assert_eq!(f.spawns[1].name, "Loading...");
    assert_eq!(f.spawns[2].name, "carol");
    assert_eq!(
        f.requests,
        vec![
            NameRequest::SubscribeNameResponse { requestor_id: 10, player_id: 20 },
            NameRequest::PublishNameRequest { requestor_id: 10, player_id: 20 },
        ]
    );
    assert_eq!(discovered.names.get(&20).map(|s| s.as_str()), Some("Loading..."));
    assert_eq!(discovered.resolved_name(20, &"x".to_string()), "Loading...");
    assert_eq!(discovered.resolved_name(99, &"x".to_string()), "x");
}

#[test]
fn keyboard_directions() {
    let none = HeldKeys { left: false, right: false, up: false, down: false };
    assert_eq!(movement_direction(none), None);
    assert_eq!(movement_direction(HeldKeys { left: true, right: true, ..none }), None);
    assert_eq!(movement_direction(HeldKeys { left: true, up: true, ..none }), Some((-1, 1)));
    assert_eq!(movement_direction(HeldKeys { down: true, ..none }), Some((0, -1)));
}
