use vstd::prelude::*;

use crate::{
    spec_all_ticks_at, spec_assoc_lookup, ClientMessages, ClientTicks, CurrentServerTick, Player,
    PlayerId, PlayerView, ServerLobby, ServerMessages, ServerMessagesView, SyncError, Tick,
    Username,
};
use crate::codec::bytes_to_string;
use crate::commands::{
    MyDateTime, ServerSyncedPlayerCommandsList, SyncedPlayerCommand, SyncedPlayerCommandView,
};

verus! {

/// The number of bytes of handshake user data a connection carries.
pub const USER_DATA_BYTES: usize = 256;

/// How a display name is read from connection user data: the first eight
/// bytes hold the name's byte length, the name's UTF-8 bytes follow.
pub open spec fn spec_user_data_name_bytes(data: Seq<u8>) -> Seq<u8> {
    let len = vstd::bytes::spec_u64_from_le_bytes(data.subrange(0, 8)) as int;
    let clamped = if len > 248 {
        248
    } else {
        len
    };
    data.subrange(8, 8 + clamped)
}

/// Extracts a participant's display name from connection user data, or
/// nothing when the embedded bytes are not valid UTF-8.
pub fn name_from_user_data(user_data: &[u8]) -> (r: Option<String>)
    requires
        user_data@.len() == USER_DATA_BYTES,
    ensures
        match r {
            Some(name) => vstd::utf8::valid_utf8(spec_user_data_name_bytes(user_data@))
                && name@ == vstd::utf8::decode_utf8(spec_user_data_name_bytes(user_data@)),
            None => !vstd::utf8::valid_utf8(spec_user_data_name_bytes(user_data@)),
        },
{
    let len_bytes = &user_data[0..8];
    let len64 = vstd::bytes::u64_from_le_bytes(len_bytes);
    let len: usize = if len64 > 248 {
        248
    } else {
        len64 as usize
    };
    let mut name_bytes: Vec<u8> = Vec::new();
    let mut i: usize = 0;
    while i < len
        invariant
            i <= len,
            len <= 248,
            user_data@.len() == 256,
            name_bytes@ =~= user_data@.subrange(8, 8 + i as int),
        decreases len - i,
    {
        name_bytes.push(user_data[8 + i]);
        i = i + 1;
        proof {
            assert(name_bytes@ =~= user_data@.subrange(8, 8 + i as int));
        }
    }
    proof {
        assert(name_bytes@ =~= spec_user_data_name_bytes(user_data@));
    }
    bytes_to_string(name_bytes)
}

/// The two states of the Advance Gate. A cycle starts from `Blocked` and
/// judges the condition anew each time; `Ready` is never sticky.
#[derive(Debug, Clone, Copy, PartialEq, Eq, Structural)]
pub enum AdvanceGate {
    Blocked,
    Ready,
}

/// The opening condition: enough participants are connected, and every
/// tracked participant has acknowledged the coordinator's current tick.
pub open spec fn spec_gate_ready(
    lobby_len: int,
    amount_players: int,
    clients: Seq<(PlayerId, Tick)>,
    server_tick: i64,
) -> bool {
    lobby_len >= amount_players && spec_all_ticks_at(clients, server_tick)
}

/// Evaluates the Advance Gate for one cycle.
pub fn run_server_time_step_if_in_sync(
    server_tick: &CurrentServerTick,
    client_ticks: &ClientTicks,
    lobby: &ServerLobby,
    amount_players: usize,
) -> (r: AdvanceGate)
    ensures
        (r is Ready) == spec_gate_ready(
            lobby@.len() as int,
            amount_players as int,
            client_ticks@,
            server_tick.0.0,
        ),
{
    if lobby.len() < amount_players {
        return AdvanceGate::Blocked;
    }
    if client_ticks.all_at(server_tick.get()) {
        AdvanceGate::Ready
    } else {
        AdvanceGate::Blocked
    }
}

/// The broadcast the coordinator owes after a gate pass from `tick0` with
/// ledger `ledger0`, committed at `now`: the new target tick, and the
/// entry already merged for the closing tick (or an empty entry).
pub open spec fn spec_update_tick_broadcast(
    ledger0: Seq<(Tick, SyncedPlayerCommandView)>,
    tick0: i64,
    now: MyDateTime,
) -> ServerMessagesView {
    ServerMessagesView::UpdateTick {
        target_tick: Tick((tick0 + 1) as i64),
        commands: match spec_assoc_lookup(ledger0, Tick(tick0)) {
            Some(e) => e,
            None => SyncedPlayerCommandView {
                commands: Seq::<(PlayerId, Seq<crate::commands::PlayerCommandView>)>::empty(),
                time: now,
            },
        },
    }
}

/// One coordinator synchronizer step, taken only on a `Ready` gate: reads
/// the entry for the closing tick, advances the Tick Clock by exactly one,
/// opens a fresh empty entry for the new tick, and returns the broadcast.
pub fn fixed_time_step_server(
    server_tick: &mut CurrentServerTick,
    synced_commands: &mut ServerSyncedPlayerCommandsList,
    now: MyDateTime,
) -> (msg: ServerMessages)
    requires
        old(server_tick).0.0 < i64::MAX,
        old(synced_commands).0.wf(),
    ensures
        final(server_tick).0.0 == old(server_tick).0.0 + 1,
        final(synced_commands).0.wf(),
        msg@ == spec_update_tick_broadcast(old(synced_commands).0@, old(server_tick).0.0, now),
        spec_assoc_lookup(final(synced_commands).0@, Tick((old(server_tick).0.0 + 1) as i64)) == Some(
            SyncedPlayerCommandView {
                commands: Seq::<(PlayerId, Seq<crate::commands::PlayerCommandView>)>::empty(),
                time: now,
            },
        ),
        forall|t: Tick|
            t != Tick((old(server_tick).0.0 + 1) as i64) ==> #[trigger] spec_assoc_lookup(
                final(synced_commands).0@,
                t,
            ) == spec_assoc_lookup(old(synced_commands).0@, t),
{
    let current = Tick(server_tick.get());
    let commands = match synced_commands.0.lookup_entry(current) {
        Some(e) => e.duplicate(),
        None => SyncedPlayerCommand::empty(now),
    };
    server_tick.increment();
    let target = Tick(server_tick.get());
    synced_commands.0.insert(target, SyncedPlayerCommand::empty(now));
    ServerMessages::UpdateTick { target_tick: target, commands }
}

/// One full coordinator cycle: evaluates the Advance Gate and, only when
/// it is `Ready`, performs exactly one synchronizer step. The Tick Clock
/// never advances by more than one per cycle, and never advances while
/// any tracked participant's last-acknowledged tick is behind.
pub fn server_cycle(
    server_tick: &mut CurrentServerTick,
    client_ticks: &ClientTicks,
    lobby: &ServerLobby,
    amount_players: usize,
    synced_commands: &mut ServerSyncedPlayerCommandsList,
) -> (r: Option<ServerMessages>)
    requires
        old(server_tick).0.0 < i64::MAX,
        old(synced_commands).0.wf(),
    ensures
        final(synced_commands).0.wf(),
        final(server_tick).0.0 == old(server_tick).0.0 || final(server_tick).0.0 == old(
            server_tick,
        ).0.0 + 1,
        (final(server_tick).0.0 == old(server_tick).0.0 + 1) == spec_gate_ready(
            lobby@.len() as int,
            amount_players as int,
            client_ticks@,
            old(server_tick).0.0,
        ),
        !spec_gate_ready(
            lobby@.len() as int,
            amount_players as int,
            client_ticks@,
            old(server_tick).0.0,
        ) ==> r is None && *final(server_tick) == *old(server_tick) && final(synced_commands).0@
            == old(synced_commands).0@,
        spec_gate_ready(
            lobby@.len() as int,
            amount_players as int,
            client_ticks@,
            old(server_tick).0.0,
        ) ==> (r matches Some(msg) && exists|now: MyDateTime|
            {
                &&& msg@ == #[trigger] spec_update_tick_broadcast(
                    old(synced_commands).0@,
                    old(server_tick).0.0,
                    now,
                )
                &&& spec_assoc_lookup(final(synced_commands).0@, Tick((old(server_tick).0.0 + 1) as i64))
                    == Some(
                    SyncedPlayerCommandView {
                        commands: Seq::<
                            (PlayerId, Seq<crate::commands::PlayerCommandView>),
                        >::empty(),
                        time: now,
                    },
                )
            }),
        forall|t: Tick|
            t != Tick((old(server_tick).0.0 + 1) as i64) ==> #[trigger] spec_assoc_lookup(
                final(synced_commands).0@,
                t,
            ) == spec_assoc_lookup(old(synced_commands).0@, t),
{
    let gate = run_server_time_step_if_in_sync(server_tick, client_ticks, lobby, amount_players);
    match gate {
        AdvanceGate::Blocked => None,
        AdvanceGate::Ready => {
            let now = MyDateTime::now();
            let msg = fixed_time_step_server(server_tick, synced_commands, now);
            Some(msg)
        },
    }
}

/// Coordinator bookkeeping for a new connection: files the participant
/// and starts tracking its acknowledged tick at 0. Returns one
/// `PlayerCreate` per already-connected participant (to bring the
/// newcomer up to date, in lobby order) and the broadcast announcing the
/// newcomer to everyone.
pub fn handle_client_connected(
    lobby: &mut ServerLobby,
    client_ticks: &mut ClientTicks,
    id: u64,
    username: Username,
    entity: u64,
) -> (r: (Vec<ServerMessages>, ServerMessages))
    requires
        old(lobby).wf(),
        old(client_ticks).wf(),
        forall|i: int|
            0 <= i < old(lobby)@.len() ==> (#[trigger] old(lobby)@[i]).1.entity is Some,
    ensures
        final(lobby).wf(),
        final(client_ticks).wf(),
        r.0@.len() == old(lobby)@.len(),
        forall|i: int|
            0 <= i < old(lobby)@.len() ==> (#[trigger] r.0@[i])@
                == (ServerMessagesView::PlayerCreate {
                entity: old(lobby)@[i].1.entity.unwrap(),
                player: old(lobby)@[i].1,
            }),
        spec_assoc_lookup(final(lobby)@, PlayerId(id)) == Some(
            PlayerView {
                id: PlayerId(id),
                username: username@,
                entity: Some(entity),
                movement: None,
            },
        ),
        forall|t: PlayerId|
            t != PlayerId(id) ==> #[trigger] spec_assoc_lookup(final(lobby)@, t)
                == spec_assoc_lookup(old(lobby)@, t),
        spec_assoc_lookup(final(client_ticks)@, PlayerId(id)) == Some(Tick(0)),
        forall|t: PlayerId|
            t != PlayerId(id) ==> #[trigger] spec_assoc_lookup(final(client_ticks)@, t)
                == spec_assoc_lookup(old(client_ticks)@, t),
        r.1@ == (ServerMessagesView::PlayerCreate {
            entity,
            player: PlayerView {
                id: PlayerId(id),
                username: username@,
                entity: Some(entity),
                movement: None,
            },
        }),
{
    let mut existing: Vec<ServerMessages> = Vec::new();
    let mut i: usize = 0;
    proof {
        assert(lobby@.len() == lobby.0@.len());
    }
    while i < lobby.0.len()
        invariant
            i <= lobby.0@.len(),
            lobby@.len() == lobby.0@.len(),
            lobby@ == old(lobby)@,
            lobby.0@ == old(lobby).0@,
            forall|j: int|
                0 <= j < lobby@.len() ==> (#[trigger] lobby@[j]).1.entity is Some,
            existing@.len() == i,
            forall|j: int|
                0 <= j < i ==> (#[trigger] existing@[j])@ == (ServerMessagesView::PlayerCreate {
                    entity: lobby@[j].1.entity.unwrap(),
                    player: lobby@[j].1,
                }),
        decreases lobby.0.len() - i,
    {
        proof {
            assert(lobby@[i as int] == (lobby.0@[i as int].0, lobby.0@[i as int].1@));
        }
        let player = lobby.0[i].1.duplicate();
        let player_entity = match player.entity {
            Some(e) => e,
            None => 0,
        };
        existing.push(ServerMessages::PlayerCreate { entity: player_entity, player });
        i = i + 1;
    }
    let new_player = Player {
        id: PlayerId(id),
        username: Username(username.0.clone()),
        entity: Some(entity),
        movement: None,
    };
    let broadcast = ServerMessages::PlayerCreate { entity, player: new_player.duplicate() };
    lobby.insert(PlayerId(id), new_player);
    client_ticks.set(PlayerId(id), Tick(0));
    (existing, broadcast)
}

/// Coordinator bookkeeping for a disconnect: frees the participant's
/// records, returns the Tick Clock to 0 and every remaining participant's
/// tracked tick to 0 (the clean re-sync point), and returns the removed
/// record (whose entity the rendering layer despawns) together with the
/// `PlayerRemove` broadcast.
pub fn handle_client_disconnected(
    lobby: &mut ServerLobby,
    client_ticks: &mut ClientTicks,
    server_tick: &mut CurrentServerTick,
    id: u64,
) -> (r: (Option<Player>, ServerMessages))
    requires
        old(lobby).wf(),
        old(client_ticks).wf(),
    ensures
        final(lobby).wf(),
        final(client_ticks).wf(),
        spec_assoc_lookup(final(lobby)@, PlayerId(id)) is None,
        forall|t: PlayerId|
            t != PlayerId(id) ==> #[trigger] spec_assoc_lookup(final(lobby)@, t)
                == spec_assoc_lookup(old(lobby)@, t),
        final(server_tick).0.0 == 0,
        spec_all_ticks_at(final(client_ticks)@, 0),
        spec_assoc_lookup(final(client_ticks)@, PlayerId(id)) is None,
        match r.0 {
            Some(p) => spec_assoc_lookup(old(lobby)@, PlayerId(id)) == Some(p@),
            None => spec_assoc_lookup(old(lobby)@, PlayerId(id)) is None,
        },
        r.1@ == (ServerMessagesView::PlayerRemove { id: PlayerId(id) }),
{
    client_ticks.remove(PlayerId(id));
    let removed = lobby.remove(PlayerId(id));
    server_tick.reset();
    let ghost mid = client_ticks@;
    client_ticks.reset_all();
    proof {
        assert(spec_all_ticks_at(client_ticks@, 0));
        crate::lemma_assoc_lookup_finds(mid, PlayerId(id));
        assert forall|j: int| 0 <= j < client_ticks@.len() implies (#[trigger] client_ticks@[j]).0
            != PlayerId(id) by {
            assert(client_ticks@[j] == (mid[j].0, Tick(0)));
            assert(mid[j].0 != PlayerId(id));
        }
        crate::lemma_assoc_lookup_none(client_ticks@, PlayerId(id));
    }
    (removed, ServerMessages::PlayerRemove { id: PlayerId(id) })
}

/// Merges one participant report into the coordinator's state. A report
/// declaring the next tick the participant is catching up to moves its
/// acknowledged tick there and files the batch under that tick's ledger
/// entry. A retransmit of the last report is tolerated but its batch is
/// dropped: the first delivery already merged it, and an entry is never
/// touched twice for the same report. Any other declared tick is a
/// protocol violation that leaves the state unchanged.
pub fn process_client_message(
    client_ticks: &mut ClientTicks,
    synced_commands: &mut ServerSyncedPlayerCommandsList,
    client_id: u64,
    message: ClientMessages,
    now: MyDateTime,
) -> (r: Result<(), SyncError>)
    requires
        old(client_ticks).wf(),
        old(synced_commands).0.wf(),
        spec_assoc_lookup(old(client_ticks)@, PlayerId(client_id)) is Some,
    ensures
        final(client_ticks).wf(),
        final(synced_commands).0.wf(),
        ({
            let known = spec_assoc_lookup(old(client_ticks)@, PlayerId(client_id)).unwrap();
            let declared = message@->ClientUpdateTick_current_tick;
            let batch = message@->ClientUpdateTick_commands;
            if declared.0 == known.0 {
                &&& r is Ok
                &&& final(client_ticks)@ == old(client_ticks)@
                &&& final(synced_commands).0@ == old(synced_commands).0@
            } else if declared.0 == known.0 + 1 {
                &&& r is Ok
                &&& spec_assoc_lookup(final(client_ticks)@, PlayerId(client_id)) == Some(declared)
                &&& (forall|t: PlayerId|
                    t != PlayerId(client_id) ==> #[trigger] spec_assoc_lookup(
                        final(client_ticks)@,
                        t,
                    ) == spec_assoc_lookup(old(client_ticks)@, t))
                &&& spec_assoc_lookup(final(synced_commands).0@, declared) == Some(
                    match spec_assoc_lookup(old(synced_commands).0@, declared) {
                        Some(e) => SyncedPlayerCommandView {
                            commands: e.commands.push((PlayerId(client_id), batch)),
                            time: e.time,
                        },
                        None => SyncedPlayerCommandView {
                            commands: seq![(PlayerId(client_id), batch)],
                            time: now,
                        },
                    },
                )
                &&& (forall|t: Tick|
                    t != declared ==> #[trigger] spec_assoc_lookup(final(synced_commands).0@, t)
                        == spec_assoc_lookup(old(synced_commands).0@, t))
            } else {
                &&& r == Err::<(), SyncError>(
                    SyncError::OutOfOrderTick {
                        expected: Tick(
                            if known.0 == i64::MAX {
                                i64::MAX
                            } else {
                                (known.0 + 1) as i64
                            },
                        ),
                        declared,
                    },
                )
                &&& final(client_ticks)@ == old(client_ticks)@
                &&& final(synced_commands).0@ == old(synced_commands).0@
            }
        }),
{
    match message {
        ClientMessages::ClientUpdateTick { current_tick, commands } => {
            let known = match client_ticks.get(PlayerId(client_id)) {
                Some(t) => t,
                None => Tick(0),
            };
            let declared = current_tick;
            if declared.get() == known.get() {
                // A retransmit: already merged on its first delivery.
                return Ok(());
            }
            let is_next = (declared.get() as i128) == (known.get() as i128) + 1;
            if !is_next {
                let expected = if known.get() == i64::MAX {
                    i64::MAX
                } else {
                    known.get() + 1
                };
                return Err(SyncError::OutOfOrderTick { expected: Tick(expected), declared });
            }
            client_ticks.set(PlayerId(client_id), declared);
            synced_commands.add_command(declared, PlayerId(client_id), commands, now);
            Ok(())
        },
    }
}

} // verus!
