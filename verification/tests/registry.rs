use fps_core::codec::PlayerState;
use fps_core::registry::RemotePlayerRegistry;

fn state(id: u32, x: f32, skin: &str) -> PlayerState {
    PlayerState {
        id,
        position_x_bits: x.to_bits(),
        position_y_bits: 0.0f32.to_bits(),
        position_z_bits: 0.0f32.to_bits(),
        yaw_bits: 0.0f32.to_bits(),
        pitch_bits: 0.0f32.to_bits(),
        skin: String::from(skin),
    }
}

#[test]
fn first_sighting_appends() {
    let mut reg = RemotePlayerRegistry::new();
    assert_eq!(reg.len(), 0);
    reg.upsert(state(1, 1.0, "a"));
    reg.upsert(state(2, 2.0, "b"));
    assert_eq!(reg.len(), 2);
    assert_eq!(reg.players()[0].id, 1);
    assert_eq!(reg.players()[1].id, 2);
}

#[test]
fn later_sighting_replaces_in_place() {
    let mut reg = RemotePlayerRegistry::new();
    reg.upsert(state(1, 1.0, "a"));
    reg.upsert(state(2, 2.0, "b"));
    reg.upsert(state(1, 9.0, "z"));
    assert_eq!(reg.len(), 2);
    // Entry order is kept; the payload is overwritten, not merged.
    assert_eq!(reg.players()[0].id, 1);
    assert_eq!(reg.players()[0].position_x_bits, 9.0f32.to_bits());
    assert_eq!(reg.players()[0].skin, "z");
    assert_eq!(reg.players()[1].position_x_bits, 2.0f32.to_bits());
}

#[test]
fn get_finds_by_id() {
    let mut reg = RemotePlayerRegistry::new();
    reg.upsert(state(5, 1.5, "s"));
    let found = reg.get(5).expect("id 5 was sighted");
    assert_eq!(found.position_x_bits, 1.5f32.to_bits());
    assert!(reg.get(6).is_none());
}

#[test]
fn entries_are_never_removed() {
    let mut reg = RemotePlayerRegistry::new();
    for id in 0..10u32 {
        reg.upsert(state(id, id as f32, "s"));
    }
    for id in 0..10u32 {
        reg.upsert(state(id, 0.0, "s"));
    }
    assert_eq!(reg.len(), 10);
}
