use vstd::prelude::*;

use crate::{
    spec_assoc_lookup, ClientLobby, ClientMessages, ClientMessagesView, LocalServerTick,
    NetworkMapping, Player, PlayerId, PlayerInfo, PlayerInfoView, QuatBits, SyncError, Tick,
    Username, Vec3Bits,
};
use crate::commands::{
    spec_batch_view, CommandQueue, MyDateTime, PlayerCommandView, SyncedPlayerCommand,
    SyncedPlayerCommandsList,
};

verus! {

/// A rendering-layer transform as reported inside position-update commands:
/// translation, rotation and scale, all as IEEE-754 bit patterns that this
/// core stores, compares and transports without interpreting.
#[derive(Debug, Clone, Copy, PartialEq, Eq, Structural)]
pub struct SerializableTransform {
    pub translation: Vec3Bits,
    pub rotation: QuatBits,
    pub scale: Vec3Bits,
}

/// When a broadcast for `target` may be applied at local tick `local`:
/// exactly when it announces the next tick.
pub open spec fn spec_update_tick_accepted(local: i64, target: Tick) -> bool {
    target.0 == local + 1
}

/// The idempotence law of broadcast application: a broadcast accepted at
/// some local tick moves the clock to the broadcast's target, and the
/// same broadcast delivered again at the new clock is rejected as a
/// protocol violation — it is never applied twice.
pub proof fn lemma_duplicate_update_tick_rejected(local: i64, target: Tick)
    requires
        spec_update_tick_accepted(local, target),
    ensures
        !spec_update_tick_accepted(target.0, target),
{
}

/// Applies one `UpdateTick` broadcast: the target tick must be exactly one
/// past the participant's copy of the coordinator's tick. A duplicate
/// delivery or an out-of-order broadcast is a protocol violation that
/// leaves the participant's state untouched; it is never applied twice.
/// On success the local copy moves to the target tick and the broadcast
/// entry is filed in the participant's ledger.
pub fn apply_update_tick(
    most_recent_server_tick: &mut LocalServerTick,
    synced_commands: &mut SyncedPlayerCommandsList,
    target_tick: Tick,
    commands: SyncedPlayerCommand,
) -> (r: Result<(), SyncError>)
    requires
        old(most_recent_server_tick).0.0 < i64::MAX,
        old(synced_commands).wf(),
    ensures
        final(synced_commands).wf(),
        (r is Ok) == spec_update_tick_accepted(old(most_recent_server_tick).0.0, target_tick),
        r is Ok ==> final(most_recent_server_tick).0.0 == target_tick.0 && spec_assoc_lookup(
            final(synced_commands)@,
            target_tick,
        ) == Some(commands@) && (forall|t: Tick|
            t != target_tick ==> #[trigger] spec_assoc_lookup(final(synced_commands)@, t)
                == spec_assoc_lookup(old(synced_commands)@, t)),
        r is Err ==> *final(most_recent_server_tick) == *old(most_recent_server_tick)
            && final(synced_commands)@ == old(synced_commands)@ && r == Err::<(), SyncError>(
            SyncError::OutOfOrderTick {
                expected: Tick((old(most_recent_server_tick).0.0 + 1) as i64),
                declared: target_tick,
            },
        ),
{
    let expected = most_recent_server_tick.get() + 1;
    if target_tick.get() != expected {
        return Err(SyncError::OutOfOrderTick { expected: Tick(expected), declared: target_tick });
    }
    most_recent_server_tick.set(target_tick.get());
    synced_commands.insert(target_tick, commands);
    Ok(())
}

/// The participant-side step condition: the participant takes its
/// synchronizer step exactly when the coordinator has announced the tick
/// one past the participant's own.
pub fn run_if_tick_in_sync_client(
    most_recent_server_tick: &LocalServerTick,
    most_recent_tick: &Tick,
) -> (r: bool)
    ensures
        r == (most_recent_tick.0 + 1 == most_recent_server_tick.0.0),
{
    (most_recent_tick.get() as i128) + 1 == (most_recent_server_tick.get() as i128)
}

/// One participant synchronizer step, taken after the received broadcast
/// was applied: catches the local Tick Clock up to the coordinator's
/// announced tick, atomically drains the Command Queue, and returns the
/// report to send. The local clock advances only here and in direct
/// response to a broadcast, so no participant can run ahead.
pub fn fixed_time_step_client(
    most_recent_tick: &mut Tick,
    most_recent_server_tick: &LocalServerTick,
    to_sync_commands: &mut CommandQueue,
) -> (msg: ClientMessages)
    ensures
        final(most_recent_tick).0 == most_recent_server_tick.0.0,
        final(to_sync_commands)@ == Seq::<PlayerCommandView>::empty(),
        msg@ == (ClientMessagesView::ClientUpdateTick {
            current_tick: Tick(most_recent_server_tick.0.0),
            commands: old(to_sync_commands)@,
        }),
{
    most_recent_tick.set(most_recent_server_tick.get());
    let commands = to_sync_commands.drain();
    ClientMessages::ClientUpdateTick { current_tick: Tick(most_recent_server_tick.get()), commands }
}

/// Participant bookkeeping for a `PlayerCreate` message: files the fellow
/// participant (under the entity the local rendering layer spawned for
/// it) and remembers the entity correspondence.
pub fn handle_player_create(
    lobby: &mut ClientLobby,
    network_mapping: &mut NetworkMapping,
    player: &Player,
    server_entity: u64,
    client_entity: u64,
)
    requires
        old(lobby).wf(),
        old(network_mapping).wf(),
    ensures
        final(lobby).wf(),
        final(network_mapping).wf(),
        spec_assoc_lookup(final(lobby)@, player.id) == Some(
            PlayerInfoView { client_entity, server_entity, username: player.username@ },
        ),
        forall|t: PlayerId|
            t != player.id ==> #[trigger] spec_assoc_lookup(final(lobby)@, t) == spec_assoc_lookup(
                old(lobby)@,
                t,
            ),
        spec_assoc_lookup(final(network_mapping)@, server_entity) == Some(client_entity),
        forall|t: u64|
            t != server_entity ==> #[trigger] spec_assoc_lookup(final(network_mapping)@, t)
                == spec_assoc_lookup(old(network_mapping)@, t),
{
    let info = PlayerInfo {
        client_entity,
        server_entity,
        username: Username(player.username.0.clone()),
    };
    lobby.insert(player.id, info);
    network_mapping.insert(server_entity, client_entity);
}

/// Participant bookkeeping for a `PlayerRemove` message: frees the fellow
/// participant's record and the entity correspondence, and returns both
/// tick clocks to 0 so the session can re-synchronize from a clean point.
/// Hands back the removed record so the rendering layer can despawn the
/// local entity.
pub fn handle_player_remove(
    lobby: &mut ClientLobby,
    network_mapping: &mut NetworkMapping,
    most_recent_tick: &mut Tick,
    most_recent_server_tick: &mut LocalServerTick,
    id: PlayerId,
) -> (r: Option<PlayerInfo>)
    requires
        old(lobby).wf(),
        old(network_mapping).wf(),
    ensures
        final(lobby).wf(),
        final(network_mapping).wf(),
        spec_assoc_lookup(final(lobby)@, id) is None,
        forall|t: PlayerId|
            t != id ==> #[trigger] spec_assoc_lookup(final(lobby)@, t) == spec_assoc_lookup(
                old(lobby)@,
                t,
            ),
        final(most_recent_tick).0 == 0,
        final(most_recent_server_tick).0.0 == 0,
        match r {
            Some(info) => spec_assoc_lookup(old(lobby)@, id) == Some(info@) && spec_assoc_lookup(
                final(network_mapping)@,
                info.server_entity,
            ) is None,
            None => spec_assoc_lookup(old(lobby)@, id) is None && final(network_mapping)@ == old(
                network_mapping,
            )@,
        },
{
    let removed = lobby.remove(id);
    let r = match removed {
        Some(info) => {
            network_mapping.remove(info.server_entity);
            Some(info)
        },
        None => None,
    };
    most_recent_server_tick.reset();
    most_recent_tick.reset();
    r
}

/// How a display name is laid out in connection user data: eight bytes of
/// byte length, the UTF-8 bytes, and zero padding up to 256 bytes.
pub open spec fn spec_user_data_for_name(name: Seq<char>) -> Seq<u8> {
    let bytes = vstd::utf8::encode_utf8(name);
    vstd::bytes::spec_u64_to_le_bytes(bytes.len() as u64) + bytes + Seq::new(
        (248 - bytes.len()) as nat,
        |i: int| 0u8,
    )
}

/// Packs a display name into connection user data. The name must fit in
/// the 248 bytes that follow the length field; the connection layer
/// refuses longer names before calling this.
pub fn user_data_for_name(name: &str) -> (r: Vec<u8>)
    requires
        vstd::utf8::encode_utf8(name@).len() <= 248,
    ensures
        r@ == spec_user_data_for_name(name@),
        r@.len() == 256,
{
    let bytes = name.as_bytes();
    let len: usize = bytes.len();
    let mut out = vstd::bytes::u64_to_le_bytes(len as u64);
    let mut i: usize = 0;
    while i < len
        invariant
            i <= len,
            len == bytes@.len(),
            bytes@ == vstd::utf8::encode_utf8(name@),
            len <= 248,
            out@ =~= vstd::bytes::spec_u64_to_le_bytes(len as u64) + bytes@.subrange(0, i as int),
        decreases len - i,
    {
        out.push(bytes[i]);
        i = i + 1;
        proof {
            assert(out@ =~= vstd::bytes::spec_u64_to_le_bytes(len as u64) + bytes@.subrange(
                0,
                i as int,
            ));
        }
    }
    proof {
        assert(bytes@.subrange(0, len as int) =~= bytes@);
    }
    let mut pad: usize = 0;
    while pad < 248 - len
        invariant
            pad <= 248 - len,
            len <= 248,
            len == bytes@.len(),
            bytes@ == vstd::utf8::encode_utf8(name@),
            out@ =~= vstd::bytes::spec_u64_to_le_bytes(len as u64) + bytes@ + Seq::new(
                pad as nat,
                |i: int| 0u8,
            ),
        decreases 248 - len - pad,
    {
        out.push(0);
        pad = pad + 1;
        proof {
            assert(out@ =~= vstd::bytes::spec_u64_to_le_bytes(len as u64) + bytes@ + Seq::new(
                pad as nat,
                |i: int| 0u8,
            ));
        }
    }
    proof {
        vstd::bytes::lemma_auto_spec_u64_to_from_le_bytes();
        assert(out@ =~= spec_user_data_for_name(name@));
    }
    out
}

} // verus!
