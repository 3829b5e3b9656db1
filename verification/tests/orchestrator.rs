use mmo_backend::orchestrator::config::{Config, ConfigSettings};
use mmo_backend::orchestrator::containers::{preregistration_fields, ContainerSettings};
use mmo_backend::orchestrator::heartbeat::{json_start, Heartbeat, ServerStatus};
use mmo_backend::orchestrator::scaler::{
    first_removal_step, next_free_port, occupied_ports, removal_step_after_stop, scale_action,
    select_empty_servers, servers_to_remove, RecordedServer, RemovalStep, ScaleAction, ServerRecord,
};
use mmo_backend::orchestrator::shards::{free_port_in_window, ShardRegistry};

fn heartbeat(players: usize, max: usize) -> Heartbeat {
    Heartbeat {
        id: "abc".to_string(),
        ip: "10.0.0.1".to_string(),
        port: 7777,
        zone: "zone_A".to_string(),
        player_count: players,
        max_players: max,
    }
}

fn no_settings() -> ConfigSettings {
    ConfigSettings {
        port: None,
        orch_port: None,
        quic_port: None,
        redis_url: None,
        environment: None,
        ds_base_port: None,
        heartbeat_ttl_seconds: None,
    }
}

#[test]
fn config_defaults() {
    let c = Config::from_settings(no_settings());
    assert_eq!(c.port, 8081);
    assert_eq!(c.orch_port, 7000);
    assert_eq!(c.quic_port, 5000);
    assert_eq!(c.redis_url, "redis://127.0.0.1:6379");
    assert_eq!(c.environment, "development");
    assert_eq!(c.ds_base_port, 7777);
    assert_eq!(c.heartbeat_ttl_seconds, 30);
}

#[test]
fn config_takes_valid_settings_and_ignores_invalid_ones() {
    let mut s = no_settings();
    s.port = Some("9090".to_string());
    s.orch_port = Some("not-a-port".to_string());
    s.heartbeat_ttl_seconds = Some("+45".to_string());
    s.environment = Some("production".to_string());
    let c = Config::from_settings(s);
    assert_eq!(c.port, 9090);
    assert_eq!(c.orch_port, 7000);
    assert_eq!(c.heartbeat_ttl_seconds, 45);
    assert_eq!(c.environment, "production");
}

#[test]
fn server_status_from_player_counts() {
    assert_eq!(heartbeat(0, 2).status(), ServerStatus::Empty);
    assert_eq!(heartbeat(1, 2).status(), ServerStatus::Available);
    assert_eq!(heartbeat(2, 2).status(), ServerStatus::Full);
    assert_eq!(heartbeat(3, 2).status(), ServerStatus::Full);
    assert_eq!(heartbeat(0, 0).status(), ServerStatus::Empty);
}

#[test]
fn status_labels_read_back() {
    for s in [ServerStatus::Empty, ServerStatus::Full, ServerStatus::Available] {
        assert_eq!(ServerStatus::from_label(&s.label()), Some(s));
    }
    assert_eq!(ServerStatus::Available.label(), "available");
    assert_eq!(ServerStatus::from_label(&"starting".to_string()), None);
}

#[test]
fn heartbeat_record() {
    let hb = heartbeat(1, 4);
    assert_eq!(hb.server_key(), "server:abc");
    let fields = hb.server_fields();
    let expected: Vec<(String, String)> = vec![
        ("ip".to_string(), "10.0.0.1".to_string()),
        ("port".to_string(), "7777".to_string()),
        ("zone".to_string(), "zone_A".to_string()),
        ("player_count".to_string(), "1".to_string()),
        ("max_players".to_string(), "4".to_string()),
        ("status".to_string(), "available".to_string()),
    ];
    assert_eq!(fields, expected);
}

#[test]
fn json_starts_at_the_first_brace() {
    assert_eq!(json_start(b"xx{\"a\":{}}"), 2);
    assert_eq!(json_start(b"{}"), 0);
    assert_eq!(json_start(b"no json"), 0);
    assert_eq!(json_start(b""), 0);
}

#[test]
fn scaler_keeps_the_pool_at_its_size() {
    assert_eq!(scale_action(1, 3), ScaleAction::Spawn { count: 2 });
    assert_eq!(scale_action(5, 3), ScaleAction::Remove { count: 2 });
    assert_eq!(scale_action(3, 3), ScaleAction::Hold);
}

#[test]
fn occupied_ports_skip_unparsable_entries() {
    let texts = vec!["7777".to_string(), "x".to_string(), "7779".to_string(), "99999".to_string()];
    assert_eq!(occupied_ports(&texts), vec![7777, 7779]);
}

#[test]
fn next_free_port_finds_the_lowest_gap() {
    assert_eq!(next_free_port(&vec![7777, 7778, 7780], 7777), Some(7779));
    assert_eq!(next_free_port(&vec![], 7777), Some(7777));
    assert_eq!(next_free_port(&vec![65533, 65534], 65533), Some(65535));
    assert_eq!(next_free_port(&vec![65534], 65534), Some(65535));
    assert_eq!(next_free_port(&vec![65535], 65535), None);
    assert_eq!(next_free_port(&vec![65534, 65535], 65534), None);
}

#[test]
fn shard_port_window() {
    assert_eq!(free_port_in_window(&vec![7000, 7001], 7000), Some(7002));
    let all: Vec<u16> = (7000..8000).collect();
    assert_eq!(free_port_in_window(&all, 7000), None);
}

#[test]
fn shard_plan_follows_the_layout() {
    let mut reg = ShardRegistry::new();
    reg.record((1, 1), "server:a".to_string());
    reg.record((2, 2), "server:b".to_string());
    let incoming = vec![(2, 2), (3, 3)];
    let plan = reg.plan_update(&incoming);
    assert_eq!(plan.to_remove, vec![(1, 1)]);
    assert_eq!(plan.to_add, vec![1]);

    assert_eq!(reg.remove((1, 1)), Some("server:a".to_string()));
    reg.record((3, 3), "server:c".to_string());
    let again = reg.plan_update(&incoming);
    assert!(again.to_remove.is_empty());
    assert!(again.to_add.is_empty());
    assert_eq!(reg.len(), 2);
    assert_eq!(reg.remove((9, 9)), None);
}

#[test]
fn container_settings() {
    let s = ContainerSettings {
        server_id: "id1".to_string(),
        port: 7801,
        zone: "zone_A".to_string(),
        max_players: "2".to_string(),
        orch_host: "orchestrator:7000".to_string(),
        rust_log: "info".to_string(),
    };
    assert_eq!(
        s.env(),
        vec![
            "DS_ID=id1".to_string(),
            "DS_PORT=7801".to_string(),
            "DS_ZONE=zone_A".to_string(),
            "MAX_PLAYERS=2".to_string(),
            "ORCH_HOST=orchestrator:7000".to_string(),
            "RUST_LOG=info".to_string(),
        ]
    );
    assert_eq!(s.container_name(), "game-id1");
    assert_eq!(s.port_key(), "7801/udp");
    assert_eq!(s.registry_key(), "server:id1");
    let f = preregistration_fields("c1", "localhost", 7801, "zone_A");
    assert_eq!(f[0], ("container_id".to_string(), "c1".to_string()));
    assert_eq!(f[4], ("status".to_string(), "starting".to_string()));
    assert_eq!(f[5], ("players".to_string(), "0".to_string()));
}

fn record(key: &str, status: Option<&str>, cid: Option<&str>) -> ServerRecord {
    ServerRecord {
        redis_key: key.to_string(),
        status: status.map(|s| s.to_string()),
        container_id: cid.map(|s| s.to_string()),
    }
}

#[test]
fn empty_servers_are_selected_in_order() {
    let records = vec![
        record("server:a", Some("empty"), Some("c1")),
        record("server:b", Some("full"), Some("c2")),
        record("server:c", None, None),
        record("server:d", Some("empty"), None),
        record("server:e", Some("starting"), None),
    ];
    let empty = select_empty_servers(&records);
    let keys: Vec<String> = empty.iter().map(|s| s.redis_key.clone()).collect();
    assert_eq!(keys, vec!["server:a".to_string(), "server:d".to_string()]);
    assert_eq!(empty[0].container_id, Some("c1".to_string()));
    assert_eq!(empty[1].container_id, None);
}

#[test]
fn scale_down_takes_the_first_excess_servers() {
    let servers = || {
        vec![
            RecordedServer { redis_key: "server:a".to_string(), container_id: None },
            RecordedServer { redis_key: "server:b".to_string(), container_id: None },
            RecordedServer { redis_key: "server:c".to_string(), container_id: None },
        ]
    };
    let r = servers_to_remove(servers(), 1);
    let keys: Vec<String> = r.iter().map(|s| s.redis_key.clone()).collect();
    assert_eq!(keys, vec!["server:a".to_string(), "server:b".to_string()]);
    assert!(servers_to_remove(servers(), 3).is_empty());
    assert!(servers_to_remove(servers(), 5).is_empty());
}

#[test]
fn registry_entry_goes_only_after_its_container_stopped() {
    let with = RecordedServer { redis_key: "server:a".to_string(), container_id: Some("c1".to_string()) };
    let without = RecordedServer { redis_key: "server:b".to_string(), container_id: None };
    assert!(matches!(first_removal_step(&with), RemovalStep::StopContainer { container_id } if container_id == "c1"));
    assert!(matches!(first_removal_step(&without), RemovalStep::DeleteKey { redis_key } if redis_key == "server:b"));
    assert!(matches!(removal_step_after_stop(&with, true), RemovalStep::DeleteKey { redis_key } if redis_key == "server:a"));
    assert!(matches!(removal_step_after_stop(&with, false), RemovalStep::KeepKey));
}

#[test]
fn shard_update_follows_spawn_outcomes() {
    let mut reg = ShardRegistry::new();
    reg.record((1, 1), "server:a".to_string());
    reg.record((2, 2), "server:b".to_string());
    let incoming = vec![(2, 2), (3, 3), (4, 4)];
    let plan = reg.plan_update(&incoming);
    assert_eq!(plan.to_add, vec![1, 2]);
    reg.apply_update(&incoming, &vec![Some("server:c".to_string()), None]);
    assert_eq!(reg.len(), 2);
    assert_eq!(reg.remove((1, 1)), None);
    assert_eq!(reg.remove((4, 4)), None);
    assert_eq!(reg.remove((3, 3)), Some("server:c".to_string()));
    assert_eq!(reg.remove((2, 2)), Some("server:b".to_string()));
}

#[test]
fn unchanged_layout_changes_nothing() {
    let mut reg = ShardRegistry::new();
    reg.record((1, 1), "server:a".to_string());
    let incoming = vec![(1, 1)];
    let plan = reg.plan_update(&incoming);
    assert!(plan.to_add.is_empty() && plan.to_remove.is_empty());
    reg.apply_update(&incoming, &vec![]);
    assert_eq!(reg.len(), 1);
}
