use lockstep_multiplayer_experimenting::client_functionality::{
    apply_update_tick, fixed_time_step_client,
};
use lockstep_multiplayer_experimenting::commands::{
    CommandQueue, MyDateTime, PlayerCommand, ServerSyncedPlayerCommandsList, SyncedPlayerCommand,
    SyncedPlayerCommandsList,
};
use lockstep_multiplayer_experimenting::codec::{
    decode_client_message, decode_server_message, encode_client_message, encode_server_message,
};
use lockstep_multiplayer_experimenting::server_functionality::{
    fixed_time_step_server, handle_client_connected, handle_client_disconnected,
    run_server_time_step_if_in_sync, server_cycle, AdvanceGate, process_client_message,
};
use lockstep_multiplayer_experimenting::{
    ClientMessages, ClientTicks, CurrentServerTick, LocalServerTick, PlayerId, ServerLobby,
    ServerMessages, SyncError, Tick, Username, Vec3Bits,
};

fn v3(x: f32, y: f32, z: f32) -> Vec3Bits {
    Vec3Bits { x: x.to_bits(), y: y.to_bits(), z: z.to_bits() }
}

fn connect(lobby: &mut ServerLobby, ticks: &mut ClientTicks, id: u64, name: &str) {
    let (_, _) = handle_client_connected(lobby, ticks, id, Username(String::from(name)), id * 10);
}

/// Scenario: two participants, no commands, the coordinator advances
/// through tick 5 with five consecutive empty broadcasts.
#[test]
fn two_idle_participants_advance_through_tick_five() {
    let mut lobby = ServerLobby::new();
    let mut ticks = ClientTicks::new();
    let mut server_tick = CurrentServerTick::new();
    let mut ledger = ServerSyncedPlayerCommandsList::default();
    connect(&mut lobby, &mut ticks, 1, "alpha");
    connect(&mut lobby, &mut ticks, 2, "beta");

    for round in 0..5i64 {
        let msg = server_cycle(&mut server_tick, &ticks, &lobby, 2, &mut ledger)
            .expect("every participant has caught up");
        match msg {
            ServerMessages::UpdateTick { target_tick, commands } => {
                assert_eq!(target_tick, Tick(round + 1));
                assert!(commands.is_empty());
            },
            other => panic!("unexpected broadcast: {:?}", other),
        }
        // Both participants catch up and declare the new tick with no commands.
        for id in [1u64, 2u64] {
            let report = ClientMessages::ClientUpdateTick {
                current_tick: Tick(round + 1),
                commands: Vec::new(),
            };
            process_client_message(&mut ticks, &mut ledger, id, report, MyDateTime(0))
                .expect("a declared next tick is accepted");
        }
    }
    assert_eq!(server_tick.get(), 5);
}

/// Scenario: one participant submits a target position for tick 1 while
/// the other lags; no tick-2 broadcast may happen until the laggard's
/// report arrives.
#[test]
fn gate_blocks_until_the_laggard_catches_up() {
    let mut lobby = ServerLobby::new();
    let mut ticks = ClientTicks::new();
    let mut server_tick = CurrentServerTick::new();
    let mut ledger = ServerSyncedPlayerCommandsList::default();
    connect(&mut lobby, &mut ticks, 1, "p1");
    connect(&mut lobby, &mut ticks, 2, "p2");

    // Tick 0 closes; the coordinator announces tick 1.
    let first = server_cycle(&mut server_tick, &ticks, &lobby, 2, &mut ledger);
    assert!(first.is_some());
    assert_eq!(server_tick.get(), 1);

    // P1 reports for tick 1 with a target position; P2 stays silent.
    let report = ClientMessages::ClientUpdateTick {
        current_tick: Tick(1),
        commands: vec![PlayerCommand::SetTargetPosition(v3(3.0, 0.0, 3.0))],
    };
    process_client_message(&mut ticks, &mut ledger, 1, report, MyDateTime(7)).unwrap();

    // No broadcast and no tick movement while a participant lags.
    for _ in 0..3 {
        assert_eq!(
            run_server_time_step_if_in_sync(&server_tick, &ticks, &lobby, 2),
            AdvanceGate::Blocked
        );
        assert!(server_cycle(&mut server_tick, &ticks, &lobby, 2, &mut ledger).is_none());
        assert_eq!(server_tick.get(), 1);
    }

    // P2's report for tick 1 arrives; the next cycle broadcasts tick 2
    // carrying P1's command.
    let report = ClientMessages::ClientUpdateTick { current_tick: Tick(1), commands: Vec::new() };
    process_client_message(&mut ticks, &mut ledger, 2, report, MyDateTime(8)).unwrap();
    let msg = server_cycle(&mut server_tick, &mut ticks, &lobby, 2, &mut ledger).unwrap();
    match msg {
        ServerMessages::UpdateTick { target_tick, commands } => {
            assert_eq!(target_tick, Tick(2));
            assert!(!commands.is_empty());
            let batches = &commands.0;
            assert_eq!(batches.0.len(), 2);
            assert_eq!(batches.0[0].0, PlayerId(1));
            assert_eq!(
                batches.0[0].1,
                vec![PlayerCommand::SetTargetPosition(v3(3.0, 0.0, 3.0))]
            );
            assert_eq!(batches.0[1].0, PlayerId(2));
            assert!(batches.0[1].1.is_empty());
        },
        other => panic!("unexpected broadcast: {:?}", other),
    }
}

/// Scenario: the minimum participant count is 4; with only 2 connected
/// the Advance Gate answers `Blocked` whatever the tick equality says.
#[test]
fn gate_stays_blocked_below_minimum_participants() {
    let mut lobby = ServerLobby::new();
    let mut ticks = ClientTicks::new();
    let mut server_tick = CurrentServerTick::new();
    let mut ledger = ServerSyncedPlayerCommandsList::default();
    connect(&mut lobby, &mut ticks, 1, "p1");
    connect(&mut lobby, &mut ticks, 2, "p2");

    // Everyone is perfectly caught up (all at tick 0), yet 2 < 4.
    for _ in 0..10 {
        assert_eq!(
            run_server_time_step_if_in_sync(&server_tick, &ticks, &lobby, 4),
            AdvanceGate::Blocked
        );
        assert!(server_cycle(&mut server_tick, &ticks, &lobby, 4, &mut ledger).is_none());
    }
    assert_eq!(server_tick.get(), 0);
}

/// A duplicate `UpdateTick` delivery is rejected as a protocol violation
/// and is not applied twice.
#[test]
fn duplicate_broadcast_is_rejected_not_reapplied() {
    let mut local = LocalServerTick::new();
    let mut ledger = SyncedPlayerCommandsList::new();
    let entry = SyncedPlayerCommand::empty(MyDateTime(11));
    assert!(apply_update_tick(&mut local, &mut ledger, Tick(1), entry).is_ok());
    assert_eq!(local.get(), 1);
    assert_eq!(ledger.len(), 1);

    let again = SyncedPlayerCommand::empty(MyDateTime(12));
    let err = apply_update_tick(&mut local, &mut ledger, Tick(1), again);
    assert_eq!(
        err,
        Err(SyncError::OutOfOrderTick { expected: Tick(2), declared: Tick(1) })
    );
    assert_eq!(local.get(), 1);
    assert_eq!(ledger.len(), 1);
    assert_eq!(ledger.lookup_entry(Tick(1)).unwrap().1, MyDateTime(11));
}

/// An out-of-order broadcast (skipping ahead) is also fatal.
#[test]
fn skipped_broadcast_is_rejected() {
    let mut local = LocalServerTick::new();
    let mut ledger = SyncedPlayerCommandsList::new();
    let entry = SyncedPlayerCommand::empty(MyDateTime(0));
    let err = apply_update_tick(&mut local, &mut ledger, Tick(2), entry);
    assert_eq!(
        err,
        Err(SyncError::OutOfOrderTick { expected: Tick(1), declared: Tick(2) })
    );
    assert_eq!(local.get(), 0);
    assert!(ledger.is_empty());
}

/// A participant report whose declared tick is neither the next tick nor
/// a retransmit is a protocol violation that changes nothing.
#[test]
fn out_of_order_report_is_rejected() {
    let mut ticks = ClientTicks::new();
    let mut ledger = ServerSyncedPlayerCommandsList::default();
    ticks.set(PlayerId(1), Tick(0));
    let report = ClientMessages::ClientUpdateTick { current_tick: Tick(3), commands: Vec::new() };
    let err = process_client_message(&mut ticks, &mut ledger, 1, report, MyDateTime(0));
    assert_eq!(
        err,
        Err(SyncError::OutOfOrderTick { expected: Tick(1), declared: Tick(3) })
    );
    assert_eq!(ticks.get(PlayerId(1)), Some(Tick(0)));
    assert!(ledger.0.is_empty());
}

/// A retransmitted report (same declared tick) is tolerated but not
/// merged twice: the ledger entry stays as the first delivery left it.
#[test]
fn retransmitted_report_is_accepted_but_not_remerged() {
    let mut ticks = ClientTicks::new();
    let mut ledger = ServerSyncedPlayerCommandsList::default();
    ticks.set(PlayerId(1), Tick(1));
    let report = ClientMessages::ClientUpdateTick {
        current_tick: Tick(2),
        commands: vec![PlayerCommand::SpawnUnit(v3(1.0, 0.0, 1.0))],
    };
    assert!(process_client_message(&mut ticks, &mut ledger, 1, report, MyDateTime(0)).is_ok());
    assert_eq!(ticks.get(PlayerId(1)), Some(Tick(2)));
    assert_eq!(ledger.0.lookup_entry(Tick(2)).unwrap().0.0.len(), 1);

    let retransmit = ClientMessages::ClientUpdateTick {
        current_tick: Tick(2),
        commands: vec![PlayerCommand::SpawnUnit(v3(1.0, 0.0, 1.0))],
    };
    assert!(process_client_message(&mut ticks, &mut ledger, 1, retransmit, MyDateTime(1)).is_ok());
    assert_eq!(ticks.get(PlayerId(1)), Some(Tick(2)));
    assert_eq!(ledger.0.lookup_entry(Tick(2)).unwrap().0.0.len(), 1);
}

/// The participant step catches the local clock up, drains the queue
/// atomically, and tags the report with the caught-up tick.
#[test]
fn participant_step_drains_and_reports() {
    let mut local_tick = Tick::new();
    let mut server_tick = LocalServerTick::new();
    server_tick.set(1);
    let mut queue = CommandQueue::new();
    queue.add_command(PlayerCommand::SpawnUnit(v3(1.0, 0.0, 1.0)));
    let msg = fixed_time_step_client(&mut local_tick, &server_tick, &mut queue);
    assert_eq!(local_tick.get(), 1);
    assert!(queue.drain().is_empty());
    match msg {
        ClientMessages::ClientUpdateTick { current_tick, commands } => {
            assert_eq!(current_tick, Tick(1));
            assert_eq!(commands, vec![PlayerCommand::SpawnUnit(v3(1.0, 0.0, 1.0))]);
        },
    }
}

/// A mid-gate disconnect frees the participant's bookkeeping and forces
/// the clean re-sync point: every clock returns to 0.
#[test]
fn disconnect_resets_the_session_clocks() {
    let mut lobby = ServerLobby::new();
    let mut ticks = ClientTicks::new();
    let mut server_tick = CurrentServerTick::new();
    let mut ledger = ServerSyncedPlayerCommandsList::default();
    connect(&mut lobby, &mut ticks, 1, "p1");
    connect(&mut lobby, &mut ticks, 2, "p2");
    server_cycle(&mut server_tick, &ticks, &lobby, 2, &mut ledger).unwrap();
    for id in [1u64, 2u64] {
        let report =
            ClientMessages::ClientUpdateTick { current_tick: Tick(1), commands: Vec::new() };
        process_client_message(&mut ticks, &mut ledger, id, report, MyDateTime(0)).unwrap();
    }
    assert_eq!(server_tick.get(), 1);

    let (removed, msg) = handle_client_disconnected(&mut lobby, &mut ticks, &mut server_tick, 2);
    let removed = removed.expect("the participant was connected");
    assert_eq!(removed.id, PlayerId(2));
    assert_eq!(msg, ServerMessages::PlayerRemove { id: PlayerId(2) });
    assert_eq!(server_tick.get(), 0);
    assert!(ticks.all_at(0));
    assert_eq!(ticks.get(PlayerId(2)), None);
    assert_eq!(lobby.len(), 1);
    assert_eq!(lobby.get_username(PlayerId(1)), Some(String::from("p1")));
    assert_eq!(lobby.get_username(PlayerId(2)), None);
}

/// The connect handler reports every already-connected participant to the
/// newcomer and announces the newcomer to everyone.
#[test]
fn connect_handler_reports_existing_players() {
    let mut lobby = ServerLobby::new();
    let mut ticks = ClientTicks::new();
    let (existing, _) =
        handle_client_connected(&mut lobby, &mut ticks, 1, Username(String::from("p1")), 10);
    assert!(existing.is_empty());
    let (existing, broadcast) =
        handle_client_connected(&mut lobby, &mut ticks, 2, Username(String::from("p2")), 20);
    assert_eq!(existing.len(), 1);
    match &existing[0] {
        ServerMessages::PlayerCreate { entity, player } => {
            assert_eq!(*entity, 10);
            assert_eq!(player.id, PlayerId(1));
            assert_eq!(player.username, Username(String::from("p1")));
        },
        other => panic!("unexpected message: {:?}", other),
    }
    match broadcast {
        ServerMessages::PlayerCreate { entity, player } => {
            assert_eq!(entity, 20);
            assert_eq!(player.id, PlayerId(2));
        },
        other => panic!("unexpected message: {:?}", other),
    }
    assert_eq!(ticks.get(PlayerId(2)), Some(Tick(0)));
}

/// The coordinator step reads the closing tick's entry, opens a fresh one
/// for the new tick, and broadcasts the closing entry.
#[test]
fn coordinator_step_reuses_the_merged_entry() {
    let mut server_tick = CurrentServerTick::new();
    let mut ledger = ServerSyncedPlayerCommandsList::default();
    ledger.add_command(
        Tick(0),
        PlayerId(1),
        vec![PlayerCommand::Test(String::from("hi"))],
        MyDateTime(5),
    );
    let msg = fixed_time_step_server(&mut server_tick, &mut ledger, MyDateTime(6));
    match msg {
        ServerMessages::UpdateTick { target_tick, commands } => {
            assert_eq!(target_tick, Tick(1));
            assert_eq!(commands.1, MyDateTime(5));
            assert_eq!(commands.0.0.len(), 1);
            assert_eq!(commands.0.0[0].0, PlayerId(1));
            assert_eq!(commands.0.0[0].1, vec![PlayerCommand::Test(String::from("hi"))]);
        },
        other => panic!("unexpected broadcast: {:?}", other),
    }
    assert_eq!(server_tick.get(), 1);
    // The fresh entry for tick 1 is empty and stamped with the step time.
    let fresh = ledger.0.lookup_entry(Tick(1)).unwrap();
    assert!(fresh.is_empty());
    assert_eq!(fresh.1, MyDateTime(6));
}

/// End to end over the wire format: the coordinator's broadcast is
/// encoded, decoded by the participant, applied, answered, and the
/// participant's report is decoded and merged by the coordinator.
#[test]
fn wire_round_trip_drives_one_full_tick() {
    // Coordinator side.
    let mut lobby = ServerLobby::new();
    let mut ticks = ClientTicks::new();
    let mut server_tick = CurrentServerTick::new();
    let mut ledger = ServerSyncedPlayerCommandsList::default();
    connect(&mut lobby, &mut ticks, 1, "solo");

    let broadcast = server_cycle(&mut server_tick, &ticks, &lobby, 1, &mut ledger).unwrap();
    let wire = encode_server_message(&broadcast);

    // Participant side.
    let mut local_server_tick = LocalServerTick::new();
    let mut local_ledger = SyncedPlayerCommandsList::new();
    let mut local_tick = Tick::new();
    let mut queue = CommandQueue::new();
    queue.add_command(PlayerCommand::Test(String::from("over the wire")));

    match decode_server_message(&wire).expect("the broadcast decodes") {
        ServerMessages::UpdateTick { target_tick, commands } => {
            assert_eq!(target_tick, Tick(1));
            apply_update_tick(&mut local_server_tick, &mut local_ledger, target_tick, commands)
                .unwrap();
        },
        other => panic!("unexpected broadcast: {:?}", other),
    }
    let report = fixed_time_step_client(&mut local_tick, &local_server_tick, &mut queue);
    let wire_back = encode_client_message(&report);

    // Back on the coordinator.
    let decoded = decode_client_message(&wire_back).expect("the report decodes");
    process_client_message(&mut ticks, &mut ledger, 1, decoded, MyDateTime(0)).unwrap();
    assert_eq!(ticks.get(PlayerId(1)), Some(Tick(1)));

    // The next cycle broadcasts tick 2 carrying the participant's command.
    let broadcast = server_cycle(&mut server_tick, &ticks, &lobby, 1, &mut ledger).unwrap();
    match broadcast {
        ServerMessages::UpdateTick { target_tick, commands } => {
            assert_eq!(target_tick, Tick(2));
            assert_eq!(commands.0.0.len(), 1);
            assert_eq!(
                commands.0.0[0].1,
                vec![PlayerCommand::Test(String::from("over the wire"))]
            );
        },
        other => panic!("unexpected broadcast: {:?}", other),
    }
}

/// Committing a second entry for the same tick replaces the first: the
/// ledger holds one entry per tick.
#[test]
fn insert_replaces_the_entry_for_an_equal_tick() {
    let mut ledger = SyncedPlayerCommandsList::new();
    ledger.insert(Tick(3), SyncedPlayerCommand::empty(MyDateTime(1)));
    ledger.insert(Tick(1), SyncedPlayerCommand::empty(MyDateTime(2)));
    ledger.insert(Tick(3), SyncedPlayerCommand::empty(MyDateTime(9)));
    assert_eq!(ledger.len(), 2);
    assert_eq!(ledger.lookup_entry(Tick(3)).unwrap().1, MyDateTime(9));
    assert_eq!(ledger.lookup_entry(Tick(1)).unwrap().1, MyDateTime(2));
}

/// A bookkeeping miss is recovered locally: asking for an absent tick's
/// commands yields an empty list, never a failure.
#[test]
fn missing_tick_yields_an_empty_commands_list() {
    let ledger = SyncedPlayerCommandsList::new();
    let commands = ledger.get_commands_for_tick(Tick(7));
    assert!(commands.0.is_empty());
    assert!(ledger.lookup_entry(Tick(7)).is_none());
}
