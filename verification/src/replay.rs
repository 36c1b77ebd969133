use vstd::prelude::*;
use vstd::utf8::encode_utf8;

use crate::{Tick, Username};
use crate::codec::{
    dec_i64, dec_ledger, dec_string, enc_i64, enc_ledger, enc_string, lemma_i64_round_trip,
    lemma_ledger_round_trip, lemma_string_round_trip, sd_i64, sd_ledger, sd_string, se_i64,
    se_ledger, se_string, spec_ledger_encodable,
};
use crate::commands::{MyDateTime, SyncedPlayerCommandView, SyncedPlayerCommandsList};

verus! {

/// The durable record of a session: the recording participant's display
/// name, the creation time, and the Command Ledger restricted to
/// non-empty entries.
#[derive(Debug, PartialEq)]
pub struct ReplayLog {
    pub username: Username,
    pub created: MyDateTime,
    pub ledger: SyncedPlayerCommandsList,
}

/// The view of a replay log.
pub struct ReplayLogView {
    pub username: Seq<char>,
    pub created: MyDateTime,
    pub ledger: Seq<(Tick, SyncedPlayerCommandView)>,
}

impl View for ReplayLog {
    type V = ReplayLogView;

    open spec fn view(&self) -> ReplayLogView {
        ReplayLogView { username: self.username@, created: self.created, ledger: self.ledger@ }
    }
}

/// The replay file format: the recording participant's name, the creation
/// time, and the ledger.
pub open spec fn se_replay(r: ReplayLogView) -> Seq<u8> {
    se_string(r.username) + se_i64(r.created.0) + se_ledger(r.ledger)
}

/// Reads one replay log off the front.
pub open spec fn sd_replay(b: Seq<u8>) -> Option<(ReplayLogView, Seq<u8>)> {
    match sd_string(b) {
        Some((username, b)) => match sd_i64(b) {
            Some((t, b)) => match sd_ledger(b) {
                Some((ledger, b)) => Some(
                    (ReplayLogView { username, created: MyDateTime(t), ledger }, b),
                ),
                None => None,
            },
            None => None,
        },
        None => None,
    }
}

/// A replay log is encodable when the name and the ledger fit their
/// length fields.
pub open spec fn spec_replay_encodable(r: ReplayLogView) -> bool {
    encode_utf8(r.username).len() <= u64::MAX && spec_ledger_encodable(r.ledger)
}

/// The round-trip law of the Replay Log: serializing a Command Ledger to
/// the replay format and deserializing it reproduces an equal log —
/// name, creation time and ledger — whatever bytes follow.
pub proof fn lemma_replay_round_trip(r: ReplayLogView, rest: Seq<u8>)
    requires
        spec_replay_encodable(r),
    ensures
        sd_replay(se_replay(r) + rest) == Some((r, rest)),
{
    let t1 = se_i64(r.created.0) + (se_ledger(r.ledger) + rest);
    assert(se_replay(r) + rest =~= se_string(r.username) + t1);
    lemma_string_round_trip(r.username, t1);
    lemma_i64_round_trip(r.created.0, se_ledger(r.ledger) + rest);
    lemma_ledger_round_trip(r.ledger, rest);
    assert(MyDateTime(r.created.0) == r.created);
}

/// The encoded form of a replay log.
pub fn encode_replay_log(
    username: &Username,
    created: MyDateTime,
    ledger: &SyncedPlayerCommandsList,
) -> (r: Vec<u8>)
    ensures
        r@ == se_replay(ReplayLogView { username: username@, created, ledger: ledger@ }),
{
    let mut out: Vec<u8> = Vec::new();
    enc_string(&mut out, username.0.as_str());
    enc_i64(&mut out, created.0);
    enc_ledger(&mut out, ledger);
    proof {
        assert(out@ =~= se_replay(ReplayLogView { username: username@, created, ledger: ledger@ }));
    }
    out
}

/// Decodes one replay log; the log must fill the buffer exactly.
pub fn decode_replay_log(b: &Vec<u8>) -> (r: Option<ReplayLog>)
    ensures
        match r {
            Some(log) => sd_replay(b@) matches Some((lv, rest)) && lv == log@ && rest.len() == 0,
            None => sd_replay(b@) is None || (sd_replay(b@) matches Some((lv, rest))
                && rest.len() > 0),
        },
{
    proof {
        assert(b@.skip(0) =~= b@);
    }
    let (username, p) = match dec_string(b, 0) {
        Some(v) => v,
        None => {
            return None;
        },
    };
    let (t, p1) = match dec_i64(b, p) {
        Some(v) => v,
        None => {
            return None;
        },
    };
    let (ledger, p2) = match dec_ledger(b, p1) {
        Some(v) => v,
        None => {
            return None;
        },
    };
    if p2 == b.len() {
        proof {
            assert(b@.skip(p2 as int).len() == 0);
        }
        Some(ReplayLog { username: Username(username), created: MyDateTime(t), ledger })
    } else {
        None
    }
}

/// The Replay Recorder's session-end step: prunes every empty entry from
/// the ledger (the in-memory ledger reflects the pruning afterwards) and,
/// only when something non-empty remains, returns the encoded replay log
/// to be written. An empty session leaves nothing to record.
pub fn save_replays(
    command_history: &mut SyncedPlayerCommandsList,
    username: &Username,
    now: MyDateTime,
) -> (r: Option<Vec<u8>>)
    requires
        old(command_history).wf(),
    ensures
        final(command_history).wf(),
        final(command_history)@ == old(command_history)@.filter(
            |p: (Tick, SyncedPlayerCommandView)| crate::commands::spec_entry_nonempty(p),
        ),
        (r is Some) == (final(command_history)@.len() > 0),
        r matches Some(bytes) ==> bytes@ == se_replay(
            ReplayLogView {
                username: username@,
                created: now,
                ledger: final(command_history)@,
            },
        ),
{
    command_history.remove_empty();
    if command_history.is_empty() {
        None
    } else {
        Some(encode_replay_log(username, now, command_history))
    }
}

} // verus!