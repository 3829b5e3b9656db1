use std::collections::HashMap;

use mmo_backend::broker::config::BrokerConfig;
use mmo_backend::broker::messages::BrokerMessage;
use mmo_backend::broker::router::{BrokerState, RoutedMessage};

fn topic(b: u8) -> [u8; 32] {
    [b; 32]
}

#[test]
fn subscribe_frame_decodes() {
    let mut data = vec![0x01u8];
    data.extend_from_slice(&7u32.to_le_bytes());
    data.extend_from_slice(&topic(3));
    match BrokerMessage::deserialize(&data) {
        Some(BrokerMessage::Subscribe { client_id, topic: t }) => {
            assert_eq!(client_id, 7);
            assert_eq!(t, topic(3));
        }
        other => panic!("unexpected {:?}", other),
    }
}

#[test]
fn publish_frame_decodes_its_payload() {
    let mut data = vec![0x03u8];
    data.extend_from_slice(&topic(1));
    data.extend_from_slice(&3u16.to_le_bytes());
    data.extend_from_slice(&[9, 8, 7, 6]);
    match BrokerMessage::deserialize(&data) {
        Some(BrokerMessage::Publish { topic: t, payload }) => {
            assert_eq!(t, topic(1));
            assert_eq!(payload, vec![9, 8, 7]);
        }
        other => panic!("unexpected {:?}", other),
    }
    data.truncate(1 + 32 + 2 + 2);
    assert!(BrokerMessage::deserialize(&data).is_none());
}

#[test]
fn broadcast_and_unknown_frames_are_refused() {
    assert!(BrokerMessage::deserialize(&[]).is_none());
    assert!(BrokerMessage::deserialize(&[0x04, 0, 0]).is_none());
    assert!(BrokerMessage::deserialize(&[0x77]).is_none());
    assert!(BrokerMessage::deserialize(&[0x01, 1, 2]).is_none());
}

#[test]
fn client_input_frame_decodes() {
    let mut data = vec![0x05u8];
    data.extend_from_slice(&2u32.to_le_bytes());
    data.extend_from_slice(&[5u8; 16]);
    match BrokerMessage::deserialize(&data) {
        Some(BrokerMessage::ClientInput { client_id, input }) => {
            assert_eq!(client_id, 2);
            assert_eq!(input, [5u8; 16]);
        }
        other => panic!("unexpected {:?}", other),
    }
}

#[test]
fn bytes_after_a_frame_are_ignored() {
    let mut data = vec![0x01u8];
    data.extend_from_slice(&7u32.to_le_bytes());
    data.extend_from_slice(&topic(3));
    data.extend_from_slice(&[0xAA, 0xBB, 0xCC]);
    match BrokerMessage::deserialize(&data) {
        Some(BrokerMessage::Subscribe { client_id, topic: t }) => {
            assert_eq!(client_id, 7);
            assert_eq!(t, topic(3));
        }
        other => panic!("unexpected {:?}", other),
    }
    let mut publish = vec![0x03u8];
    publish.extend_from_slice(&topic(1));
    publish.extend_from_slice(&2u16.to_le_bytes());
    publish.extend_from_slice(&[4, 5, 6, 7]);
    match BrokerMessage::deserialize(&publish) {
        Some(BrokerMessage::Publish { payload, .. }) => assert_eq!(payload, vec![4, 5]),
        other => panic!("unexpected {:?}", other),
    }
}

#[test]
fn broadcast_frame_layout() {
    assert_eq!(BrokerMessage::serialize_broadcast(&[1, 2, 3]), vec![0x04, 3, 0, 1, 2, 3]);
    assert_eq!(BrokerMessage::serialize_broadcast(&[]), vec![0x04, 0, 0]);
}

#[test]
fn broker_config_defaults_and_rejects_bad_ports() {
    let c = BrokerConfig::from_settings(None).unwrap();
    assert_eq!(c.ip, "0.0.0.0");
    assert_eq!(c.port, 7776);
    assert_eq!(BrokerConfig::from_settings(Some("9000")).map(|c| c.port), Some(9000));
    assert!(BrokerConfig::from_settings(Some("70000")).is_none());
    assert!(BrokerConfig::from_settings(Some("abc")).is_none());
}

#[test]
fn publications_reach_exactly_the_subscribers() {
    let mut state = BrokerState::new();
    let mut map: HashMap<u128, u128> = HashMap::new();
    state.on_connected(&mut map, 10);
    state.on_connected(&mut map, 20);
    state.on_message(&mut map, 10, RoutedMessage::Subscribe { client_id: 10, topic: topic(1) });
    state.on_message(&mut map, 20, RoutedMessage::Subscribe { client_id: 20, topic: topic(1) });
    state.on_message(&mut map, 20, RoutedMessage::Subscribe { client_id: 20, topic: topic(1) });
    state.on_message(&mut map, 20, RoutedMessage::Subscribe { client_id: 99, topic: topic(2) });

    let d = state
        .on_message(&mut map, 10, RoutedMessage::Publish { topic: topic(1), payload: vec![4] })
        .unwrap();
    let mut r = d.recipients.clone();
    r.sort();
    assert_eq!(r, vec![10, 20]);
    assert_eq!(d.payload, vec![4]);
    assert!(state.publish(topic(2), vec![]).recipients.is_empty());

    state.on_message(&mut map, 20, RoutedMessage::Unsubscribe { client_id: 20, topic: topic(1) });
    assert_eq!(state.publish(topic(1), vec![]).recipients, vec![10]);
}

#[test]
fn connect_binds_a_client_id_to_its_connection() {
    let mut state = BrokerState::new();
    let mut map: HashMap<u128, u128> = HashMap::new();
    state.on_connected(&mut map, 10);
    state.on_message(&mut map, 10, RoutedMessage::Connect { client_id: 555 });
    assert_eq!(map.get(&555), Some(&10));
    state.on_message(&mut map, 10, RoutedMessage::Subscribe { client_id: 555, topic: topic(4) });
    assert_eq!(state.publish(topic(4), vec![]).recipients, vec![10]);
}

#[test]
fn disconnect_is_announced_and_forgotten() {
    let mut state = BrokerState::new();
    let mut map: HashMap<u128, u128> = HashMap::new();
    state.on_connected(&mut map, 10);
    state.on_connected(&mut map, 20);
    state.on_message(&mut map, 10, RoutedMessage::Subscribe { client_id: 10, topic: topic(9) });
    state.on_message(&mut map, 20, RoutedMessage::Subscribe { client_id: 20, topic: topic(1) });

    let d = state.on_disconnected(&mut map, 20, topic(9)).unwrap();
    assert_eq!(d.topic, topic(9));
    assert!(d.payload.is_empty());
    assert_eq!(d.recipients, vec![10]);
    assert!(state.publish(topic(1), vec![]).recipients.is_empty());
    assert!(map.get(&20).is_none());
    assert!(state.on_disconnected(&mut map, 20, topic(9)).is_none());
}
