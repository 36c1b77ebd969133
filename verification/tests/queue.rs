use lockstep_multiplayer_experimenting::client_functionality::SerializableTransform;
use lockstep_multiplayer_experimenting::commands::{CommandQueue, PlayerCommand};
use lockstep_multiplayer_experimenting::{CameraMovement, QuatBits, Vec3Bits};

fn v3(x: f32, y: f32, z: f32) -> Vec3Bits {
    Vec3Bits { x: x.to_bits(), y: y.to_bits(), z: z.to_bits() }
}

#[test]
fn enqueue_then_drain_keeps_insertion_order() {
    let mut q = CommandQueue::new();
    q.add_command(PlayerCommand::Test(String::from("hello")));
    q.add_command(PlayerCommand::SpawnUnit(v3(1.0, 0.0, 1.0)));
    q.add_command(PlayerCommand::SpawnUnit(v3(2.0, 0.0, 2.0)));
    let drained = q.drain();
    assert_eq!(
        drained,
        vec![
            PlayerCommand::Test(String::from("hello")),
            PlayerCommand::SpawnUnit(v3(1.0, 0.0, 1.0)),
            PlayerCommand::SpawnUnit(v3(2.0, 0.0, 2.0)),
        ]
    );
    assert!(q.drain().is_empty());
}

#[test]
fn duplicate_enqueue_is_a_silent_no_op() {
    let mut q = CommandQueue::new();
    q.add_command(PlayerCommand::Test(String::from("again")));
    q.add_command(PlayerCommand::Test(String::from("again")));
    q.add_command(PlayerCommand::SpawnUnit(v3(1.0, 2.0, 3.0)));
    q.add_command(PlayerCommand::SpawnUnit(v3(1.0, 2.0, 3.0)));
    assert_eq!(q.drain().len(), 2);
}

#[test]
fn set_target_position_collapses_to_most_recent() {
    let mut q = CommandQueue::new();
    q.add_command(PlayerCommand::SetTargetPosition(v3(1.0, 0.0, 1.0)));
    q.add_command(PlayerCommand::SpawnUnit(v3(5.0, 0.0, 5.0)));
    q.add_command(PlayerCommand::SetTargetPosition(v3(2.0, 0.0, 2.0)));
    q.add_command(PlayerCommand::SetTargetPosition(v3(3.0, 0.0, 3.0)));
    let drained = q.drain();
    assert_eq!(
        drained,
        vec![
            PlayerCommand::SpawnUnit(v3(5.0, 0.0, 5.0)),
            PlayerCommand::SetTargetPosition(v3(3.0, 0.0, 3.0)),
        ]
    );
}

#[test]
fn position_updates_always_accumulate() {
    let m = CameraMovement::default();
    let t = SerializableTransform {
        translation: v3(0.0, 0.0, 0.0),
        rotation: QuatBits { x: 0, y: 0, z: 0, w: 1.0f32.to_bits() },
        scale: v3(1.0, 1.0, 1.0),
    };
    let mut q = CommandQueue::new();
    q.add_command(PlayerCommand::UpdatePlayerPosition(m, t));
    q.add_command(PlayerCommand::UpdatePlayerPosition(m, t));
    assert_eq!(q.drain().len(), 2);
}

#[test]
fn contains_uses_the_deduplication_equality() {
    let mut q = CommandQueue::new();
    q.add_command(PlayerCommand::Test(String::from("x")));
    assert!(q.contains(&PlayerCommand::Test(String::from("x"))));
    assert!(!q.contains(&PlayerCommand::Test(String::from("y"))));
    assert!(!q.contains(&PlayerCommand::SpawnUnit(v3(0.0, 0.0, 0.0))));
}

#[test]
fn reset_discards_everything() {
    let mut q = CommandQueue::default();
    q.add_command(PlayerCommand::Test(String::from("gone")));
    q.reset();
    assert!(q.drain().is_empty());
}
