use lockstep_multiplayer_experimenting::commands::{
    MyDateTime, PlayerCommand, ServerSyncedPlayerCommandsList, SyncedPlayerCommand,
    SyncedPlayerCommandsList,
};
use lockstep_multiplayer_experimenting::replay::{
    decode_replay_log, encode_replay_log, save_replays,
};
use lockstep_multiplayer_experimenting::{PlayerId, Tick, Username, Vec3Bits};

fn v3(x: f32, y: f32, z: f32) -> Vec3Bits {
    Vec3Bits { x: x.to_bits(), y: y.to_bits(), z: z.to_bits() }
}

fn ledger_with_gaps() -> SyncedPlayerCommandsList {
    let mut server = ServerSyncedPlayerCommandsList::default();
    server.add_command(
        Tick(0),
        PlayerId(1),
        vec![PlayerCommand::SpawnUnit(v3(1.0, 0.0, 1.0))],
        MyDateTime(100),
    );
    server.0.insert(Tick(1), SyncedPlayerCommand::empty(MyDateTime(200)));
    server.add_command(
        Tick(2),
        PlayerId(2),
        vec![PlayerCommand::Test(String::from("gg"))],
        MyDateTime(300),
    );
    server.0.insert(Tick(3), SyncedPlayerCommand::empty(MyDateTime(400)));
    server.0
}

/// Scenario: a session ends with a ledger holding empty and non-empty
/// ticks. The written log carries only the non-empty ticks, and the
/// in-memory ledger reflects the pruning afterwards.
#[test]
fn session_end_writes_only_nonempty_ticks_and_prunes() {
    let mut history = ledger_with_gaps();
    assert_eq!(history.len(), 4);
    let name = Username(String::from("recorder"));
    let bytes = save_replays(&mut history, &name, MyDateTime(999))
        .expect("a non-empty ledger is recorded");

    // The in-memory ledger now holds exactly the non-empty ticks.
    assert_eq!(history.len(), 2);
    assert!(history.lookup_entry(Tick(0)).is_some());
    assert!(history.lookup_entry(Tick(1)).is_none());
    assert!(history.lookup_entry(Tick(2)).is_some());
    assert!(history.lookup_entry(Tick(3)).is_none());

    // The file decodes to the same pruned ledger, name and timestamp.
    let log = decode_replay_log(&bytes).expect("the log decodes");
    assert_eq!(log.username, name);
    assert_eq!(log.created, MyDateTime(999));
    assert_eq!(log.ledger, history);
}

/// Round trip: serializing a Command Ledger to the replay format and
/// deserializing it reproduces an equal ledger.
#[test]
fn replay_log_round_trips() {
    let mut history = ledger_with_gaps();
    history.remove_empty();
    let name = Username(String::from("áéí"));
    let bytes = encode_replay_log(&name, MyDateTime(-5), &history);
    let log = decode_replay_log(&bytes).expect("the log decodes");
    assert_eq!(log.username, name);
    assert_eq!(log.created, MyDateTime(-5));
    assert_eq!(log.ledger, history);
}

/// A session whose ledger holds only empty entries records nothing.
#[test]
fn empty_session_records_nothing() {
    let mut history = SyncedPlayerCommandsList::new();
    history.insert(Tick(0), SyncedPlayerCommand::empty(MyDateTime(1)));
    history.insert(Tick(1), SyncedPlayerCommand::empty(MyDateTime(2)));
    let name = Username(String::from("recorder"));
    assert_eq!(save_replays(&mut history, &name, MyDateTime(3)), None);
    assert!(history.is_empty());
}

/// A corrupted replay file fails to decode.
#[test]
fn corrupted_replay_is_a_decode_error() {
    let mut history = ledger_with_gaps();
    history.remove_empty();
    let name = Username(String::from("recorder"));
    let mut bytes = encode_replay_log(&name, MyDateTime(0), &history);
    bytes.truncate(bytes.len() - 3);
    assert!(decode_replay_log(&bytes).is_none());
    bytes.clear();
    assert!(decode_replay_log(&bytes).is_none());
}
