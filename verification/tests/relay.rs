use fps_core::codec::{encode_player_state, PlayerState};
use fps_core::relay::RelayServer;

#[test]
fn ids_are_assigned_in_increasing_order() {
    let mut server = RelayServer::new(8);
    let mut assigned: Vec<u32> = Vec::new();
    for handle in [100u64, 200, 300, 400, 500] {
        let (id, payload) = server.on_connect(handle).expect("server has room");
        assert_eq!(payload, id.to_le_bytes().to_vec());
        assigned.push(id);
    }
    assert_eq!(assigned, vec![0, 1, 2, 3, 4]);
    // Pairwise distinct and monotonically increasing in connection order.
    for i in 0..assigned.len() {
        for j in i + 1..assigned.len() {
            assert!(assigned[i] < assigned[j]);
        }
    }
}

#[test]
fn ids_are_not_reused_after_disconnect() {
    let mut server = RelayServer::new(4);
    let (a, _) = server.on_connect(10).unwrap();
    let (b, _) = server.on_connect(20).unwrap();
    assert_eq!((a, b), (0, 1));
    server.on_disconnect(10);
    server.on_disconnect(20);
    assert_eq!(server.peer_count(), 0);
    let (c, _) = server.on_connect(30).unwrap();
    assert_eq!(c, 2);
}

#[test]
fn full_server_refuses_connection() {
    let mut server = RelayServer::new(2);
    assert!(server.on_connect(1).is_some());
    assert!(server.on_connect(2).is_some());
    assert!(server.on_connect(3).is_none());
    assert_eq!(server.peer_count(), 2);
    // A slot freed by a disconnect can be taken again.
    server.on_disconnect(1);
    assert!(server.on_connect(4).is_some());
}

#[test]
fn relay_forwards_to_all_other_peers_unmodified() {
    // Clients A, B, C; A sends a state update.
    let mut server = RelayServer::new(5);
    let (handle_a, handle_b, handle_c) = (10u64, 20u64, 30u64);
    server.on_connect(handle_a).unwrap();
    server.on_connect(handle_b).unwrap();
    server.on_connect(handle_c).unwrap();

    let state = PlayerState {
        id: 1,
        position_x_bits: 1.0f32.to_bits(),
        position_y_bits: 2.0f32.to_bits(),
        position_z_bits: 3.0f32.to_bits(),
        yaw_bits: 0.5f32.to_bits(),
        pitch_bits: 0.1f32.to_bits(),
        skin: String::from("abc"),
    };
    let bytes = encode_player_state(&state);

    let out = server.on_receive(handle_a, &bytes);
    // Forwarded to B and C only, byte for byte.
    assert_eq!(out.len(), 2);
    assert_eq!(out[0].to, handle_b);
    assert_eq!(out[1].to, handle_c);
    assert_eq!(out[0].data, bytes);
    assert_eq!(out[1].data, bytes);
}

#[test]
fn relay_never_echoes_to_sender() {
    let mut server = RelayServer::new(5);
    for handle in [1u64, 2, 3, 4] {
        server.on_connect(handle).unwrap();
    }
    let payload: Vec<u8> = vec![9, 9, 9];
    for sender in [1u64, 2, 3, 4] {
        let out = server.on_receive(sender, &payload);
        assert_eq!(out.len(), 3);
        assert!(out.iter().all(|o| o.to != sender));
    }
}

#[test]
fn disconnect_removes_only_matching_peer() {
    let mut server = RelayServer::new(5);
    server.on_connect(10).unwrap();
    server.on_connect(20).unwrap();
    server.on_connect(30).unwrap();
    server.on_disconnect(20);
    assert_eq!(server.peer_count(), 2);
    let out = server.on_receive(10, &vec![1]);
    assert_eq!(out.len(), 1);
    assert_eq!(out[0].to, 30);
}

#[test]
fn receive_with_single_peer_forwards_nothing() {
    let mut server = RelayServer::new(5);
    server.on_connect(10).unwrap();
    let out = server.on_receive(10, &vec![1, 2, 3]);
    assert!(out.is_empty());
}
