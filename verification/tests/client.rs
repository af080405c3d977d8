use fps_core::client::{ClientState, ConnectError, ConnectStep, TransportEvent};
use fps_core::codec::{encode_handshake, encode_player_state, PlayerState};

fn state(id: u32, skin: &str) -> PlayerState {
    PlayerState {
        id,
        position_x_bits: 1.0f32.to_bits(),
        position_y_bits: 2.0f32.to_bits(),
        position_z_bits: 3.0f32.to_bits(),
        yaw_bits: 0.5f32.to_bits(),
        pitch_bits: 0.1f32.to_bits(),
        skin: String::from(skin),
    }
}

#[test]
fn handshake_stores_assigned_id() {
    let mut client = ClientState::new();
    assert!(client.my_id.is_none());
    // Quiet polls and peer events keep the wait loop going.
    assert_eq!(client.connect_step(None), ConnectStep::Waiting);
    assert_eq!(client.connect_step(Some(TransportEvent::PeerConnected)), ConnectStep::Waiting);
    let step = client.connect_step(Some(TransportEvent::Receive(encode_handshake(42))));
    assert_eq!(step, ConnectStep::Connected(42));
    assert_eq!(client.my_id, Some(42));
}

#[test]
fn malformed_handshake_fails_connection() {
    let mut client = ClientState::new();
    let step = client.connect_step(Some(TransportEvent::Receive(vec![1, 2, 3])));
    assert_eq!(step, ConnectStep::Failed(ConnectError::MalformedHandshake));
    assert!(client.my_id.is_none());
}

#[test]
fn state_packet_updates_registry() {
    let mut client = ClientState::new();
    let bytes = encode_player_state(&state(3, "abc"));
    assert!(client.handle_event(Some(TransportEvent::Receive(bytes))).is_ok());
    assert_eq!(client.registry.len(), 1);
    let seen = client.registry.get(3).expect("id 3 was received");
    assert_eq!(seen.skin, "abc");
    // A later packet for the same id overwrites in place.
    let bytes = encode_player_state(&state(3, "xyz"));
    assert!(client.handle_event(Some(TransportEvent::Receive(bytes))).is_ok());
    assert_eq!(client.registry.len(), 1);
    assert_eq!(client.registry.get(3).unwrap().skin, "xyz");
}

#[test]
fn malformed_packet_is_dropped_quietly() {
    let mut client = ClientState::new();
    let good = encode_player_state(&state(1, "abc"));
    client.handle_event(Some(TransportEvent::Receive(good))).unwrap();
    let result = client.handle_event(Some(TransportEvent::Receive(vec![0, 1, 2])));
    assert!(result.is_err());
    // The offending packet is skipped; everything else stays as it was.
    assert_eq!(client.registry.len(), 1);
    assert!(client.registry.get(1).is_some());
}

#[test]
fn peer_events_are_ignored() {
    let mut client = ClientState::new();
    let bytes = encode_player_state(&state(1, "abc"));
    client.handle_event(Some(TransportEvent::Receive(bytes))).unwrap();
    client.handle_event(Some(TransportEvent::PeerConnected)).unwrap();
    client.handle_event(Some(TransportEvent::PeerDisconnected)).unwrap();
    client.handle_event(None).unwrap();
    assert_eq!(client.registry.len(), 1);
}
