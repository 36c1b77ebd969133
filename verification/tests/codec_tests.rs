use lockstep_multiplayer_experimenting::client_functionality::SerializableTransform;
use lockstep_multiplayer_experimenting::codec::{
    decode_client_message, decode_server_message, encode_client_message, encode_server_message,
};
use lockstep_multiplayer_experimenting::commands::{
    MyDateTime, PlayerCommand, PlayerCommandsList, SyncedPlayerCommand,
};
use lockstep_multiplayer_experimenting::{
    CameraMovement, ClientMessages, Player, PlayerId, QuatBits, ServerMessages, Tick, Username,
    Vec3Bits,
};

fn v3(x: f32, y: f32, z: f32) -> Vec3Bits {
    Vec3Bits { x: x.to_bits(), y: y.to_bits(), z: z.to_bits() }
}

fn sample_transform() -> SerializableTransform {
    SerializableTransform {
        translation: v3(1.5, 2.5, -3.0),
        rotation: QuatBits {
            x: 0.0f32.to_bits(),
            y: 0.7f32.to_bits(),
            z: 0.0f32.to_bits(),
            w: 0.7f32.to_bits(),
        },
        scale: v3(1.0, 1.0, 1.0),
    }
}

fn sample_movement() -> CameraMovement {
    CameraMovement {
        velocity: v3(0.5, 0.0, -0.5),
        target_camera_height: 2.0f32.to_bits(),
        last_mouse_position_x: 120.0f32.to_bits(),
        last_mouse_position_y: 80.0f32.to_bits(),
        mouse_yaw: 45.0f32.to_bits(),
        mouse_pitch: (-10.0f32).to_bits(),
    }
}

#[test]
fn update_tick_round_trips() {
    let entry = SyncedPlayerCommand(
        PlayerCommandsList(vec![
            (
                PlayerId(1),
                vec![
                    PlayerCommand::Test(String::from("hello there")),
                    PlayerCommand::SetTargetPosition(v3(3.0, 0.0, 3.0)),
                ],
            ),
            (PlayerId(2), vec![PlayerCommand::SpawnUnit(v3(-1.0, 0.0, 9.5))]),
        ]),
        MyDateTime(1_700_000_000_123),
    );
    let msg = ServerMessages::UpdateTick { target_tick: Tick(42), commands: entry };
    let bytes = encode_server_message(&msg);
    assert_eq!(decode_server_message(&bytes), Some(msg));
}

#[test]
fn player_create_round_trips() {
    let msg = ServerMessages::PlayerCreate {
        entity: 77,
        player: Player {
            id: PlayerId(9),
            username: Username(String::from("zoé")),
            entity: Some(77),
            movement: Some(sample_movement()),
        },
    };
    let bytes = encode_server_message(&msg);
    assert_eq!(decode_server_message(&bytes), Some(msg));
}

#[test]
fn player_remove_round_trips() {
    let msg = ServerMessages::PlayerRemove { id: PlayerId(123456789) };
    let bytes = encode_server_message(&msg);
    assert_eq!(decode_server_message(&bytes), Some(msg));
}

#[test]
fn client_update_tick_round_trips() {
    let msg = ClientMessages::ClientUpdateTick {
        current_tick: Tick(-3),
        commands: vec![
            PlayerCommand::UpdatePlayerPosition(sample_movement(), sample_transform()),
            PlayerCommand::Test(String::new()),
        ],
    };
    let bytes = encode_client_message(&msg);
    assert_eq!(decode_client_message(&bytes), Some(msg));
}

#[test]
fn unknown_message_tag_is_a_decode_error() {
    let bytes = vec![9u8, 0, 0, 0, 0, 0, 0, 0, 0];
    assert_eq!(decode_server_message(&bytes), None);
    assert_eq!(decode_client_message(&bytes), None);
}

#[test]
fn unknown_command_tag_is_a_decode_error() {
    let msg = ClientMessages::ClientUpdateTick {
        current_tick: Tick(1),
        commands: vec![PlayerCommand::SpawnUnit(v3(0.0, 0.0, 0.0))],
    };
    let mut bytes = encode_client_message(&msg);
    // The command tag sits after the message tag (1), the tick (8) and the
    // batch count (8).
    bytes[17] = 250;
    assert_eq!(decode_client_message(&bytes), None);
}

#[test]
fn truncated_message_is_a_decode_error() {
    let msg = ServerMessages::PlayerRemove { id: PlayerId(5) };
    let mut bytes = encode_server_message(&msg);
    bytes.pop();
    assert_eq!(decode_server_message(&bytes), None);
    assert_eq!(decode_server_message(&Vec::new()), None);
}

#[test]
fn trailing_bytes_are_a_decode_error() {
    let msg = ServerMessages::PlayerRemove { id: PlayerId(5) };
    let mut bytes = encode_server_message(&msg);
    bytes.push(0);
    assert_eq!(decode_server_message(&bytes), None);
}

#[test]
fn invalid_message_text_is_a_decode_error() {
    let msg = ClientMessages::ClientUpdateTick {
        current_tick: Tick(0),
        commands: vec![PlayerCommand::Test(String::from("ab"))],
    };
    let mut bytes = encode_client_message(&msg);
    // Corrupt the first text byte (after message tag, tick, batch count,
    // command tag and string length) into an invalid UTF-8 lead byte.
    bytes[26] = 0xFF;
    assert_eq!(decode_client_message(&bytes), None);
}
