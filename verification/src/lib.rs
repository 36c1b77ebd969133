pub mod client_functionality;
pub mod codec;
pub mod commands;
pub mod entities;
pub mod replay;
pub mod server_functionality;

use vstd::prelude::*;
use vstd::string::StrSliceExecFns;

use crate::commands::{
    spec_batch_view, PlayerCommand, PlayerCommandView, SyncedPlayerCommand, SyncedPlayerCommandView,
};

verus! {

/// Default UDP port for a session.
pub const PORT: i32 = 5000;

/// Default number of participants a session waits for before ticks advance.
pub const AMOUNT_PLAYERS: usize = 4;

/// Application-level protocol identifier carried in the connection handshake.
pub const PROTOCOL_ID: u64 = 6969;

/// Default tick period in milliseconds.
pub const TICKRATE: u64 = 250;

/// Whether a replay log is written on session end by default.
pub const SAVE_REPLAY: bool = true;

/// A discrete simulation time step: the unit of lockstep advancement.
///
/// The coordinator's tick is authoritative; each participant keeps a local
/// copy that only advances in response to a coordinator broadcast.
#[derive(Debug, Clone, Copy, PartialEq, Eq, Structural, Hash)]
pub struct Tick(pub i64);

impl Tick {
    /// A fresh clock, at tick 0.
    pub fn new() -> (r: Self)
        ensures
            r.0 == 0,
    {
        Tick(0)
    }

    pub fn get(&self) -> (r: i64)
        ensures
            r == self.0,
    {
        self.0
    }

    pub fn set(&mut self, tick: i64)
        ensures
            final(self).0 == tick,
    {
        self.0 = tick;
    }

    /// Advances the clock by exactly one tick: lockstep never skips.
    pub fn increment(&mut self)
        requires
            old(self).0 < i64::MAX,
        ensures
            final(self).0 == old(self).0 + 1,
    {
        self.0 = self.0 + 1;
    }

    /// Returns the clock to tick 0, used on a full re-synchronization.
    pub fn reset(&mut self)
        ensures
            final(self).0 == 0,
    {
        self.0 = 0;
    }
}

/// First-match lookup in an association sequence.
pub open spec fn spec_assoc_lookup<K, V>(s: Seq<(K, V)>, key: K) -> Option<V>
    decreases s.len(),
{
    if s.len() == 0 {
        None
    } else if s[0].0 == key {
        Some(s[0].1)
    } else {
        spec_assoc_lookup(s.drop_first(), key)
    }
}

/// No two entries share a key.
pub open spec fn spec_unique_keys<K, V>(s: Seq<(K, V)>) -> bool {
    forall|i: int, j: int| 0 <= i < j < s.len() ==> #[trigger] s[i].0 != #[trigger] s[j].0
}

/// A first match at `i` with no earlier match determines the lookup result.
pub proof fn lemma_assoc_lookup_some<K, V>(s: Seq<(K, V)>, key: K, i: int)
    requires
        0 <= i < s.len(),
        s[i].0 == key,
        forall|j: int| 0 <= j < i ==> (#[trigger] s[j]).0 != key,
    ensures
        spec_assoc_lookup(s, key) == Some(s[i].1),
    decreases i,
{
    if i == 0 {
    } else {
        assert(s.drop_first()[i - 1] == s[i]);
        assert(forall|j: int| 0 <= j < i - 1 ==> (#[trigger] s.drop_first()[j]).0 == s[j + 1].0);
        lemma_assoc_lookup_some(s.drop_first(), key, i - 1);
    }
}

/// Without a matching key the lookup misses.
pub proof fn lemma_assoc_lookup_none<K, V>(s: Seq<(K, V)>, key: K)
    requires
        forall|j: int| 0 <= j < s.len() ==> (#[trigger] s[j]).0 != key,
    ensures
        spec_assoc_lookup(s, key) is None,
    decreases s.len(),
{
    if s.len() > 0 {
        assert(forall|j: int| 0 <= j < s.len() - 1 ==> (#[trigger] s.drop_first()[j]).0 == s[j
            + 1].0);
        lemma_assoc_lookup_none(s.drop_first(), key);
    }
}

/// What a lookup result says about the entries: a hit has a witness index,
/// and a miss means no entry carries the key.
pub proof fn lemma_assoc_lookup_finds<K, V>(s: Seq<(K, V)>, key: K)
    ensures
        match spec_assoc_lookup(s, key) {
            Some(v) => exists|j: int| 0 <= j < s.len() && #[trigger] s[j] == (key, v),
            None => forall|j: int| 0 <= j < s.len() ==> (#[trigger] s[j]).0 != key,
        },
    decreases s.len(),
{
    if s.len() > 0 {
        if s[0].0 == key {
            assert(s[0] == (key, s[0].1));
        } else {
            lemma_assoc_lookup_finds(s.drop_first(), key);
            match spec_assoc_lookup(s, key) {
                Some(v) => {
                    let j = choose|j: int|
                        0 <= j < s.drop_first().len() && #[trigger] s.drop_first()[j] == (key, v);
                    assert(s[j + 1] == (key, v));
                },
                None => {
                    assert(forall|j: int|
                        1 <= j < s.len() ==> (#[trigger] s[j]) == s.drop_first()[j - 1]);
                },
            }
        }
    }
}

/// Replacing the value at a matching index keeps keys unique, binds the
/// key to the new value, and leaves every other key's lookup alone.
pub proof fn lemma_assoc_update<K, V>(s: Seq<(K, V)>, i: int, key: K, v: V)
    requires
        spec_unique_keys(s),
        0 <= i < s.len(),
        s[i].0 == key,
    ensures
        spec_unique_keys(s.update(i, (key, v))),
        spec_assoc_lookup(s.update(i, (key, v)), key) == Some(v),
        forall|t: K|
            t != key ==> #[trigger] spec_assoc_lookup(s.update(i, (key, v)), t)
                == spec_assoc_lookup(s, t),
{
    let post = s.update(i, (key, v));
    assert(forall|j: int| 0 <= j < i ==> (#[trigger] post[j]).0 != key);
    lemma_assoc_lookup_some(post, key, i);
    assert forall|t: K| t != key implies #[trigger] spec_assoc_lookup(post, t)
        == spec_assoc_lookup(s, t) by {
        lemma_assoc_lookup_finds(s, t);
        lemma_assoc_lookup_finds(post, t);
        match spec_assoc_lookup(s, t) {
            Some(w) => {
                let j = choose|j: int| 0 <= j < s.len() && #[trigger] s[j] == (t, w);
                assert(post[j] == (t, w));
                assert forall|k: int| 0 <= k < j implies (#[trigger] post[k]).0 != t by {
                    if k != i {
                        assert(s[k].0 != s[j].0);
                    }
                }
                lemma_assoc_lookup_some(post, t, j);
            },
            None => {
                assert(forall|k: int| 0 <= k < post.len() ==> (#[trigger] post[k]).0 != t);
                lemma_assoc_lookup_none(post, t);
            },
        }
    }
}

/// Appending a fresh key keeps keys unique, binds it, and leaves every
/// other key's lookup alone.
pub proof fn lemma_assoc_push<K, V>(s: Seq<(K, V)>, key: K, v: V)
    requires
        spec_unique_keys(s),
        forall|j: int| 0 <= j < s.len() ==> (#[trigger] s[j]).0 != key,
    ensures
        spec_unique_keys(s.push((key, v))),
        spec_assoc_lookup(s.push((key, v)), key) == Some(v),
        forall|t: K|
            t != key ==> #[trigger] spec_assoc_lookup(s.push((key, v)), t) == spec_assoc_lookup(
                s,
                t,
            ),
{
    let post = s.push((key, v));
    lemma_assoc_lookup_some(post, key, s.len() as int);
    assert forall|t: K| t != key implies #[trigger] spec_assoc_lookup(post, t)
        == spec_assoc_lookup(s, t) by {
        lemma_assoc_lookup_finds(s, t);
        lemma_assoc_lookup_finds(post, t);
        match spec_assoc_lookup(s, t) {
            Some(w) => {
                let j = choose|j: int| 0 <= j < s.len() && #[trigger] s[j] == (t, w);
                assert(post[j] == (t, w));
                assert forall|k: int| 0 <= k < j implies (#[trigger] post[k]).0 != t by {
                    assert(s[k].0 != s[j].0);
                }
                lemma_assoc_lookup_some(post, t, j);
            },
            None => {
                assert(forall|k: int| 0 <= k < post.len() ==> (#[trigger] post[k]).0 != t);
                lemma_assoc_lookup_none(post, t);
            },
        }
    }
}

/// Removing the entry at a matching index keeps keys unique, clears the
/// key, and leaves every other key's lookup alone.
pub proof fn lemma_assoc_remove<K, V>(s: Seq<(K, V)>, i: int, key: K)
    requires
        spec_unique_keys(s),
        0 <= i < s.len(),
        s[i].0 == key,
    ensures
        spec_unique_keys(s.remove(i)),
        spec_assoc_lookup(s.remove(i), key) is None,
        forall|t: K|
            t != key ==> #[trigger] spec_assoc_lookup(s.remove(i), t) == spec_assoc_lookup(s, t),
{
    let post = s.remove(i);
    assert(forall|k: int| 0 <= k < i ==> post[k] == s[k]);
    assert(forall|k: int| i <= k < post.len() ==> post[k] == s[k + 1]);
    assert(forall|k: int| 0 <= k < post.len() ==> (#[trigger] post[k]).0 != key);
    lemma_assoc_lookup_none(post, key);
    assert forall|t: K| t != key implies #[trigger] spec_assoc_lookup(post, t)
        == spec_assoc_lookup(s, t) by {
        lemma_assoc_lookup_finds(s, t);
        lemma_assoc_lookup_finds(post, t);
        match spec_assoc_lookup(s, t) {
            Some(w) => {
                let j = choose|j: int| 0 <= j < s.len() && #[trigger] s[j] == (t, w);
                let j2 = if j < i {
                    j
                } else {
                    j - 1
                };
                assert(post[j2] == (t, w));
                assert forall|k: int| 0 <= k < j2 implies (#[trigger] post[k]).0 != t by {
                    if k < i {
                        assert(s[k].0 != s[j].0);
                    } else {
                        assert(s[k + 1].0 != s[j].0);
                    }
                }
                lemma_assoc_lookup_some(post, t, j2);
            },
            None => {
                assert(forall|k: int| 0 <= k < post.len() ==> (#[trigger] post[k]).0 != t);
                lemma_assoc_lookup_none(post, t);
            },
        }
    }
}

/// The coordinator's authoritative tick clock: the single source of truth
/// for how far the simulation has advanced.
#[derive(Debug, Clone, Copy, PartialEq, Eq, Structural)]
pub struct CurrentServerTick(pub Tick);

impl CurrentServerTick {
    pub fn new() -> (r: Self)
        ensures
            r.0.0 == 0,
    {
        CurrentServerTick(Tick::new())
    }

    pub fn get(&self) -> (r: i64)
        ensures
            r == self.0.0,
    {
        self.0.get()
    }

    pub fn set(&mut self, tick: i64)
        ensures
            final(self).0.0 == tick,
    {
        self.0.set(tick);
    }

    pub fn increment(&mut self)
        requires
            old(self).0.0 < i64::MAX,
        ensures
            final(self).0.0 == old(self).0.0 + 1,
    {
        self.0.increment();
    }

    pub fn reset(&mut self)
        ensures
            final(self).0.0 == 0,
    {
        self.0.reset();
    }
}

/// A participant's copy of the coordinator's tick: the tick most recently
/// announced by a broadcast. Advisory only; never authoritative.
#[derive(Debug, Clone, Copy, PartialEq, Eq, Structural)]
pub struct LocalServerTick(pub Tick);

impl LocalServerTick {
    pub fn new() -> (r: Self)
        ensures
            r.0.0 == 0,
    {
        LocalServerTick(Tick::new())
    }

    pub fn get(&self) -> (r: i64)
        ensures
            r == self.0.0,
    {
        self.0.get()
    }

    pub fn set(&mut self, tick: i64)
        ensures
            final(self).0.0 == tick,
    {
        self.0.set(tick);
    }

    pub fn increment(&mut self)
        requires
            old(self).0.0 < i64::MAX,
        ensures
            final(self).0.0 == old(self).0.0 + 1,
    {
        self.0.increment();
    }

    pub fn reset(&mut self)
        ensures
            final(self).0.0 == 0,
    {
        self.0.reset();
    }
}

/// Marks a process as the session's coordinator.
#[derive(Debug, Clone, Copy)]
pub struct ServerMarker;

/// Opaque identifier of one participant connection, assigned at connect time.
#[derive(Debug, Clone, Copy, PartialEq, Eq, Structural, Hash)]
pub struct PlayerId(pub u64);

/// A participant's display name.
#[derive(Debug, Clone, PartialEq)]
pub struct Username(pub String);

impl View for Username {
    type V = Seq<char>;

    open spec fn view(&self) -> Seq<char> {
        self.0@
    }
}

/// All participants' last-acknowledged ticks equal `t`: nobody is behind.
pub open spec fn spec_all_ticks_at(s: Seq<(PlayerId, Tick)>, t: i64) -> bool {
    forall|i: int| 0 <= i < s.len() ==> (#[trigger] s[i]).1.0 == t
}

/// The coordinator's record of each connected participant's
/// last-acknowledged tick.
#[derive(Debug)]
pub struct ClientTicks(pub Vec<(PlayerId, Tick)>);

impl View for ClientTicks {
    type V = Seq<(PlayerId, Tick)>;

    open spec fn view(&self) -> Seq<(PlayerId, Tick)> {
        self.0@
    }
}

impl ClientTicks {
    /// The record's invariant: one entry per participant.
    pub open spec fn wf(&self) -> bool {
        spec_unique_keys(self@)
    }

    pub fn new() -> (r: Self)
        ensures
            r@ == Seq::<(PlayerId, Tick)>::empty(),
            r.wf(),
    {
        ClientTicks(Vec::new())
    }

    pub fn len(&self) -> (r: usize)
        ensures
            r == self@.len(),
    {
        self.0.len()
    }

    /// The matching entry's index, scanning from the front.
    fn find_index(&self, id: PlayerId) -> (r: Option<usize>)
        ensures
            match r {
                Some(i) => i < self@.len() && self@[i as int].0 == id && forall|j: int|
                    0 <= j < i ==> (#[trigger] self@[j]).0 != id,
                None => forall|j: int| 0 <= j < self@.len() ==> (#[trigger] self@[j]).0 != id,
            },
    {
        let mut i: usize = 0;
        while i < self.0.len()
            invariant
                i <= self.0.len(),
                forall|j: int| 0 <= j < i ==> (#[trigger] self@[j]).0 != id,
            decreases self.0.len() - i,
        {
            if self.0[i].0 == id {
                return Some(i);
            }
            i = i + 1;
        }
        None
    }

    /// The participant's last-acknowledged tick, if it is tracked.
    pub fn get(&self, id: PlayerId) -> (r: Option<Tick>)
        ensures
            r == spec_assoc_lookup(self@, id),
    {
        match self.find_index(id) {
            Some(i) => {
                proof {
                    lemma_assoc_lookup_some(self@, id, i as int);
                }
                Some(self.0[i].1)
            },
            None => {
                proof {
                    lemma_assoc_lookup_none(self@, id);
                }
                None
            },
        }
    }

    /// Records `tick` as the participant's last-acknowledged tick,
    /// creating the entry if the participant is new.
    pub fn set(&mut self, id: PlayerId, tick: Tick)
        requires
            old(self).wf(),
        ensures
            final(self).wf(),
            spec_assoc_lookup(final(self)@, id) == Some(tick),
            forall|t: PlayerId|
                t != id ==> #[trigger] spec_assoc_lookup(final(self)@, t) == spec_assoc_lookup(
                    old(self)@,
                    t,
                ),
            final(self)@.len() <= old(self)@.len() + 1,
    {
        let ghost pre = self@;
        match self.find_index(id) {
            Some(i) => {
                self.0.remove(i);
                self.0.insert(i, (id, tick));
                proof {
                    assert(self@ =~= pre.update(i as int, (id, tick)));
                    lemma_assoc_update(pre, i as int, id, tick);
                }
            },
            None => {
                self.0.push((id, tick));
                proof {
                    lemma_assoc_push(pre, id, tick);
                }
            },
        }
    }

    /// Frees the participant's bookkeeping on disconnect.
    pub fn remove(&mut self, id: PlayerId)
        requires
            old(self).wf(),
        ensures
            final(self).wf(),
            spec_assoc_lookup(final(self)@, id) is None,
            forall|t: PlayerId|
                t != id ==> #[trigger] spec_assoc_lookup(final(self)@, t) == spec_assoc_lookup(
                    old(self)@,
                    t,
                ),
    {
        let ghost pre = self@;
        match self.find_index(id) {
            Some(i) => {
                self.0.remove(i);
                proof {
                    lemma_assoc_remove(pre, i as int, id);
                }
            },
            None => {
                proof {
                    lemma_assoc_lookup_none(pre, id);
                }
            },
        }
    }

    /// Returns every tracked tick to 0: the clean re-sync point forced
    /// after a disconnect.
    pub fn reset_all(&mut self)
        ensures
            final(self)@.len() == old(self)@.len(),
            forall|i: int|
                0 <= i < old(self)@.len() ==> #[trigger] final(self)@[i] == (
                old(self)@[i].0,
                Tick(0),
                ),
            old(self).wf() ==> final(self).wf(),
    {
        let ghost pre = self@;
        let mut out: Vec<(PlayerId, Tick)> = Vec::new();
        let mut i: usize = 0;
        while i < self.0.len()
            invariant
                i <= self.0.len(),
                self@ == pre,
                out@.len() == i,
                forall|j: int| 0 <= j < i ==> #[trigger] out@[j] == (pre[j].0, Tick(0)),
            decreases self.0.len() - i,
        {
            out.push((self.0[i].0, Tick(0)));
            i = i + 1;
        }
        self.0 = out;
        proof {
            if spec_unique_keys(pre) {
                assert forall|a: int, b: int| 0 <= a < b < final(self)@.len() implies #[trigger] (
                final(self)@[a]).0 != #[trigger] (final(self)@[b]).0 by {
                    assert(pre[a].0 != pre[b].0);
                }
            }
        }
    }

    /// Whether every tracked participant has acknowledged tick `t`.
    pub fn all_at(&self, t: i64) -> (r: bool)
        ensures
            r == spec_all_ticks_at(self@, t),
    {
        let mut i: usize = 0;
        while i < self.0.len()
            invariant
                i <= self.0.len(),
                forall|j: int| 0 <= j < i ==> (#[trigger] self@[j]).1.0 == t,
            decreases self.0.len() - i,
        {
            if self.0[i].1.get() != t {
                return false;
            }
            i = i + 1;
        }
        true
    }
}

impl Default for ClientTicks {
    fn default() -> (r: Self)
        ensures
            r@ == Seq::<(PlayerId, Tick)>::empty(),
            r.wf(),
    {
        ClientTicks(Vec::new())
    }
}

/// Whether a process acts as a plain participant or as the coordinator.
#[derive(Debug, Clone, Copy, PartialEq, Eq, Structural)]
pub enum ClientType {
    Client,
    Server,
}

/// One connected participant as the coordinator tracks it: identity,
/// display name, the rendering layer's entity handle (if one was spawned),
/// and the most recently reported movement state.
#[derive(Debug, Clone, PartialEq)]
pub struct Player {
    pub id: PlayerId,
    pub username: Username,
    pub entity: Option<u64>,
    pub movement: Option<CameraMovement>,
}

/// The view of a participant record.
pub struct PlayerView {
    pub id: PlayerId,
    pub username: Seq<char>,
    pub entity: Option<u64>,
    pub movement: Option<CameraMovement>,
}

impl View for Player {
    type V = PlayerView;

    open spec fn view(&self) -> PlayerView {
        PlayerView {
            id: self.id,
            username: self.username@,
            entity: self.entity,
            movement: self.movement,
        }
    }
}

impl Player {
    /// An owned copy with the same view.
    pub fn duplicate(&self) -> (r: Self)
        ensures
            r@ == self@,
    {
        Player {
            id: self.id,
            username: Username(self.username.0.clone()),
            entity: self.entity,
            movement: self.movement,
        }
    }
}

/// The view of a lobby's backing vector.
pub open spec fn spec_lobby_view(v: Vec<(PlayerId, Player)>) -> Seq<(PlayerId, PlayerView)> {
    v@.map_values(|p: (PlayerId, Player)| (p.0, p.1@))
}

/// The coordinator's directory of connected participants.
#[derive(Debug)]
pub struct ServerLobby(pub Vec<(PlayerId, Player)>);

impl View for ServerLobby {
    type V = Seq<(PlayerId, PlayerView)>;

    open spec fn view(&self) -> Seq<(PlayerId, PlayerView)> {
        spec_lobby_view(self.0)
    }
}

impl ServerLobby {
    /// The lobby's invariant: one entry per participant.
    pub open spec fn wf(&self) -> bool {
        spec_unique_keys(self@)
    }

    pub fn new() -> (r: Self)
        ensures
            r@ == Seq::<(PlayerId, PlayerView)>::empty(),
            r.wf(),
    {
        let r = ServerLobby(Vec::new());
        proof {
            assert(r@ =~= Seq::<(PlayerId, PlayerView)>::empty());
        }
        r
    }

    pub fn len(&self) -> (r: usize)
        ensures
            r == self@.len(),
    {
        proof {
            assert(self@.len() == self.0@.len());
        }
        self.0.len()
    }

    /// The matching entry's index, scanning from the front.
    fn find_index(&self, id: PlayerId) -> (r: Option<usize>)
        ensures
            self@.len() == self.0@.len(),
            match r {
                Some(i) => i < self@.len() && self@[i as int].0 == id && forall|j: int|
                    0 <= j < i ==> (#[trigger] self@[j]).0 != id,
                None => forall|j: int| 0 <= j < self@.len() ==> (#[trigger] self@[j]).0 != id,
            },
    {
        proof {
            assert(self@.len() == self.0@.len());
        }
        let mut i: usize = 0;
        while i < self.0.len()
            invariant
                i <= self.0.len(),
                self@.len() == self.0@.len(),
                forall|j: int| 0 <= j < i ==> (#[trigger] self@[j]).0 != id,
            decreases self.0.len() - i,
        {
            if self.0[i].0 == id {
                proof {
                    assert(self@[i as int] == (self.0@[i as int].0, self.0@[i as int].1@));
                }
                return Some(i);
            }
            proof {
                assert(self@[i as int] == (self.0@[i as int].0, self.0@[i as int].1@));
            }
            i = i + 1;
        }
        None
    }

    /// The display name of a connected participant.
    pub fn get_username(&self, player_id: PlayerId) -> (r: Option<String>)
        ensures
            match spec_assoc_lookup(self@, player_id) {
                Some(p) => r matches Some(u) && u@ == p.username,
                None => r is None,
            },
    {
        match self.find_index(player_id) {
            Some(i) => {
                proof {
                    lemma_assoc_lookup_some(self@, player_id, i as int);
                    assert(self@[i as int] == (self.0@[i as int].0, self.0@[i as int].1@));
                }
                Some(self.0[i].1.username.0.clone())
            },
            None => {
                proof {
                    lemma_assoc_lookup_none(self@, player_id);
                }
                None
            },
        }
    }

    /// Files `player` under `id`, replacing any record already there.
    pub fn insert(&mut self, id: PlayerId, player: Player)
        requires
            old(self).wf(),
        ensures
            final(self).wf(),
            spec_assoc_lookup(final(self)@, id) == Some(player@),
            forall|t: PlayerId|
                t != id ==> #[trigger] spec_assoc_lookup(final(self)@, t) == spec_assoc_lookup(
                    old(self)@,
                    t,
                ),
            final(self)@.len() <= old(self)@.len() + 1,
    {
        let ghost pre = self@;
        let ghost pv = player@;
        match self.find_index(id) {
            Some(i) => {
                self.0.remove(i);
                self.0.insert(i, (id, player));
                proof {
                    assert(self@ =~= pre.update(i as int, (id, pv)));
                    lemma_assoc_update(pre, i as int, id, pv);
                }
            },
            None => {
                self.0.push((id, player));
                proof {
                    assert(self@ =~= pre.push((id, pv)));
                    lemma_assoc_push(pre, id, pv);
                }
            },
        }
    }

    /// Frees the participant's record on disconnect, handing it back.
    pub fn remove(&mut self, id: PlayerId) -> (r: Option<Player>)
        requires
            old(self).wf(),
        ensures
            final(self).wf(),
            spec_assoc_lookup(final(self)@, id) is None,
            forall|t: PlayerId|
                t != id ==> #[trigger] spec_assoc_lookup(final(self)@, t) == spec_assoc_lookup(
                    old(self)@,
                    t,
                ),
            match r {
                Some(p) => spec_assoc_lookup(old(self)@, id) == Some(p@),
                None => spec_assoc_lookup(old(self)@, id) is None,
            },
    {
        let ghost pre = self@;
        match self.find_index(id) {
            Some(i) => {
                proof {
                    lemma_assoc_lookup_some(pre, id, i as int);
                }
                let pair = self.0.remove(i);
                proof {
                    assert(self@ =~= pre.remove(i as int));
                    lemma_assoc_remove(pre, i as int, id);
                    assert(pre[i as int] == (pair.0, pair.1@));
                }
                Some(pair.1)
            },
            None => {
                proof {
                    lemma_assoc_lookup_none(pre, id);
                }
                None
            },
        }
    }
}

impl Default for ServerLobby {
    fn default() -> (r: Self)
        ensures
            r@ == Seq::<(PlayerId, PlayerView)>::empty(),
            r.wf(),
    {
        ServerLobby::new()
    }
}

/// What a participant knows of a fellow participant: the entity handles on
/// both sides and the display name.
#[derive(Debug, PartialEq)]
pub struct PlayerInfo {
    pub client_entity: u64,
    pub server_entity: u64,
    pub username: Username,
}

/// The view of a fellow-participant record.
pub struct PlayerInfoView {
    pub client_entity: u64,
    pub server_entity: u64,
    pub username: Seq<char>,
}

impl View for PlayerInfo {
    type V = PlayerInfoView;

    open spec fn view(&self) -> PlayerInfoView {
        PlayerInfoView {
            client_entity: self.client_entity,
            server_entity: self.server_entity,
            username: self.username@,
        }
    }
}

/// The view of a participant-side lobby's backing vector.
pub open spec fn spec_client_lobby_view(v: Vec<(PlayerId, PlayerInfo)>) -> Seq<
    (PlayerId, PlayerInfoView),
> {
    v@.map_values(|p: (PlayerId, PlayerInfo)| (p.0, p.1@))
}

/// A participant's directory of fellow participants.
#[derive(Debug)]
pub struct ClientLobby(pub Vec<(PlayerId, PlayerInfo)>);

impl View for ClientLobby {
    type V = Seq<(PlayerId, PlayerInfoView)>;

    open spec fn view(&self) -> Seq<(PlayerId, PlayerInfoView)> {
        spec_client_lobby_view(self.0)
    }
}

impl ClientLobby {
    /// The lobby's invariant: one entry per participant.
    pub open spec fn wf(&self) -> bool {
        spec_unique_keys(self@)
    }

    pub fn new() -> (r: Self)
        ensures
            r@ == Seq::<(PlayerId, PlayerInfoView)>::empty(),
            r.wf(),
    {
        let r = ClientLobby(Vec::new());
        proof {
            assert(r@ =~= Seq::<(PlayerId, PlayerInfoView)>::empty());
        }
        r
    }

    pub fn len(&self) -> (r: usize)
        ensures
            r == self@.len(),
    {
        proof {
            assert(self@.len() == self.0@.len());
        }
        self.0.len()
    }

    /// The matching entry's index, scanning from the front.
    fn find_index(&self, id: PlayerId) -> (r: Option<usize>)
        ensures
            self@.len() == self.0@.len(),
            match r {
                Some(i) => i < self@.len() && self@[i as int].0 == id && forall|j: int|
                    0 <= j < i ==> (#[trigger] self@[j]).0 != id,
                None => forall|j: int| 0 <= j < self@.len() ==> (#[trigger] self@[j]).0 != id,
            },
    {
        proof {
            assert(self@.len() == self.0@.len());
        }
        let mut i: usize = 0;
        while i < self.0.len()
            invariant
                i <= self.0.len(),
                self@.len() == self.0@.len(),
                forall|j: int| 0 <= j < i ==> (#[trigger] self@[j]).0 != id,
            decreases self.0.len() - i,
        {
            if self.0[i].0 == id {
                proof {
                    assert(self@[i as int] == (self.0@[i as int].0, self.0@[i as int].1@));
                }
                return Some(i);
            }
            proof {
                assert(self@[i as int] == (self.0@[i as int].0, self.0@[i as int].1@));
            }
            i = i + 1;
        }
        None
    }

    /// The display name of a fellow participant.
    pub fn get_username(&self, player_id: PlayerId) -> (r: Option<String>)
        ensures
            match spec_assoc_lookup(self@, player_id) {
                Some(p) => r matches Some(u) && u@ == p.username,
                None => r is None,
            },
    {
        match self.find_index(player_id) {
            Some(i) => {
                proof {
                    lemma_assoc_lookup_some(self@, player_id, i as int);
                    assert(self@[i as int] == (self.0@[i as int].0, self.0@[i as int].1@));
                }
                Some(self.0[i].1.username.0.clone())
            },
            None => {
                proof {
                    lemma_assoc_lookup_none(self@, player_id);
                }
                None
            },
        }
    }

    /// Files a fellow participant's record, replacing any already there.
    pub fn insert(&mut self, id: PlayerId, info: PlayerInfo)
        requires
            old(self).wf(),
        ensures
            final(self).wf(),
            spec_assoc_lookup(final(self)@, id) == Some(info@),
            forall|t: PlayerId|
                t != id ==> #[trigger] spec_assoc_lookup(final(self)@, t) == spec_assoc_lookup(
                    old(self)@,
                    t,
                ),
            final(self)@.len() <= old(self)@.len() + 1,
    {
        let ghost pre = self@;
        let ghost iv = info@;
        match self.find_index(id) {
            Some(i) => {
                self.0.remove(i);
                self.0.insert(i, (id, info));
                proof {
                    assert(self@ =~= pre.update(i as int, (id, iv)));
                    lemma_assoc_update(pre, i as int, id, iv);
                }
            },
            None => {
                self.0.push((id, info));
                proof {
                    assert(self@ =~= pre.push((id, iv)));
                    lemma_assoc_push(pre, id, iv);
                }
            },
        }
    }

    /// Frees a fellow participant's record on disconnect, handing it back.
    pub fn remove(&mut self, id: PlayerId) -> (r: Option<PlayerInfo>)
        requires
            old(self).wf(),
        ensures
            final(self).wf(),
            spec_assoc_lookup(final(self)@, id) is None,
            forall|t: PlayerId|
                t != id ==> #[trigger] spec_assoc_lookup(final(self)@, t) == spec_assoc_lookup(
                    old(self)@,
                    t,
                ),
            match r {
                Some(p) => spec_assoc_lookup(old(self)@, id) == Some(p@),
                None => spec_assoc_lookup(old(self)@, id) is None,
            },
    {
        let ghost pre = self@;
        match self.find_index(id) {
            Some(i) => {
                proof {
                    lemma_assoc_lookup_some(pre, id, i as int);
                }
                let pair = self.0.remove(i);
                proof {
                    assert(self@ =~= pre.remove(i as int));
                    lemma_assoc_remove(pre, i as int, id);
                    assert(pre[i as int] == (pair.0, pair.1@));
                }
                Some(pair.1)
            },
            None => {
                proof {
                    lemma_assoc_lookup_none(pre, id);
                }
                None
            },
        }
    }
}

impl Default for ClientLobby {
    fn default() -> (r: Self)
        ensures
            r@ == Seq::<(PlayerId, PlayerInfoView)>::empty(),
            r.wf(),
    {
        ClientLobby::new()
    }
}

/// A participant's map from the coordinator's entity handles to its own.
#[derive(Debug)]
pub struct NetworkMapping(pub Vec<(u64, u64)>);

impl View for NetworkMapping {
    type V = Seq<(u64, u64)>;

    open spec fn view(&self) -> Seq<(u64, u64)> {
        self.0@
    }
}

impl NetworkMapping {
    /// The mapping's invariant: one entry per coordinator-side handle.
    pub open spec fn wf(&self) -> bool {
        spec_unique_keys(self@)
    }

    pub fn new() -> (r: Self)
        ensures
            r@ == Seq::<(u64, u64)>::empty(),
            r.wf(),
    {
        NetworkMapping(Vec::new())
    }

    /// The matching entry's index, scanning from the front.
    fn find_index(&self, server_entity: u64) -> (r: Option<usize>)
        ensures
            match r {
                Some(i) => i < self@.len() && self@[i as int].0 == server_entity && forall|j: int|
                    0 <= j < i ==> (#[trigger] self@[j]).0 != server_entity,
                None => forall|j: int|
                    0 <= j < self@.len() ==> (#[trigger] self@[j]).0 != server_entity,
            },
    {
        let mut i: usize = 0;
        while i < self.0.len()
            invariant
                i <= self.0.len(),
                forall|j: int| 0 <= j < i ==> (#[trigger] self@[j]).0 != server_entity,
            decreases self.0.len() - i,
        {
            if self.0[i].0 == server_entity {
                return Some(i);
            }
            i = i + 1;
        }
        None
    }

    /// Remembers which local entity mirrors a coordinator-side entity.
    pub fn insert(&mut self, server_entity: u64, client_entity: u64)
        requires
            old(self).wf(),
        ensures
            final(self).wf(),
            spec_assoc_lookup(final(self)@, server_entity) == Some(client_entity),
            forall|t: u64|
                t != server_entity ==> #[trigger] spec_assoc_lookup(final(self)@, t)
                    == spec_assoc_lookup(old(self)@, t),
    {
        let ghost pre = self@;
        match self.find_index(server_entity) {
            Some(i) => {
                self.0.remove(i);
                self.0.insert(i, (server_entity, client_entity));
                proof {
                    assert(self@ =~= pre.update(i as int, (server_entity, client_entity)));
                    lemma_assoc_update(pre, i as int, server_entity, client_entity);
                }
            },
            None => {
                self.0.push((server_entity, client_entity));
                proof {
                    lemma_assoc_push(pre, server_entity, client_entity);
                }
            },
        }
    }

    /// Forgets a coordinator-side entity, handing back the local mirror.
    pub fn remove(&mut self, server_entity: u64) -> (r: Option<u64>)
        requires
            old(self).wf(),
        ensures
            final(self).wf(),
            spec_assoc_lookup(final(self)@, server_entity) is None,
            forall|t: u64|
                t != server_entity ==> #[trigger] spec_assoc_lookup(final(self)@, t)
                    == spec_assoc_lookup(old(self)@, t),
            r == spec_assoc_lookup(old(self)@, server_entity),
    {
        let ghost pre = self@;
        match self.find_index(server_entity) {
            Some(i) => {
                proof {
                    lemma_assoc_lookup_some(pre, server_entity, i as int);
                }
                let pair = self.0.remove(i);
                proof {
                    lemma_assoc_remove(pre, i as int, server_entity);
                }
                Some(pair.1)
            },
            None => {
                proof {
                    lemma_assoc_lookup_none(pre, server_entity);
                }
                None
            },
        }
    }
}

impl Default for NetworkMapping {
    fn default() -> (r: Self)
        ensures
            r@ == Seq::<(u64, u64)>::empty(),
            r.wf(),
    {
        NetworkMapping(Vec::new())
    }
}

/// The three components of a rendering-layer vector, carried as IEEE-754
/// bit patterns. The synchronization core never interprets them as numbers;
/// it only stores, compares and transports them.
#[derive(Debug, Clone, Copy, PartialEq, Eq, Structural)]
pub struct Vec3Bits {
    pub x: u32,
    pub y: u32,
    pub z: u32,
}

/// The four components of a rendering-layer rotation, as IEEE-754 bit patterns.
#[derive(Debug, Clone, Copy, PartialEq, Eq, Structural)]
pub struct QuatBits {
    pub x: u32,
    pub y: u32,
    pub z: u32,
    pub w: u32,
}

/// A participant's camera movement state, reported inside position-update
/// commands. All components are IEEE-754 bit patterns, opaque to this core.
#[derive(Debug, Clone, Copy, PartialEq, Eq, Structural)]
pub struct CameraMovement {
    pub velocity: Vec3Bits,
    pub target_camera_height: u32,
    pub last_mouse_position_x: u32,
    pub last_mouse_position_y: u32,
    pub mouse_yaw: u32,
    pub mouse_pitch: u32,
}

/// The participant-to-coordinator message classes, each on its own
/// reliable channel.
#[derive(Debug, Clone, Copy, PartialEq, Eq, Structural)]
pub enum ClientChannel {
    Input,
    ClientTick,
}

impl ClientChannel {
    /// The channel's wire identifier.
    pub fn id(&self) -> (r: u8)
        ensures
            r == match self {
                ClientChannel::Input => 1u8,
                ClientChannel::ClientTick => 2u8,
            },
    {
        match self {
            ClientChannel::Input => 1,
            ClientChannel::ClientTick => 2,
        }
    }

    /// The channel's retransmission interval in milliseconds, chosen so
    /// tick traffic is not blocked behind slower control traffic.
    pub fn resend_millis(&self) -> (r: u64)
        ensures
            r == match self {
                ClientChannel::Input => 0u64,
                ClientChannel::ClientTick => 100u64,
            },
    {
        match self {
            ClientChannel::Input => 0,
            ClientChannel::ClientTick => 100,
        }
    }
}

/// The coordinator-to-participant message classes, each on its own
/// reliable channel.
#[derive(Debug, Clone, Copy, PartialEq, Eq, Structural)]
pub enum ServerChannel {
    ServerMessages,
    ServerTick,
}

impl ServerChannel {
    /// The channel's wire identifier.
    pub fn id(&self) -> (r: u8)
        ensures
            r == match self {
                ServerChannel::ServerMessages => 3u8,
                ServerChannel::ServerTick => 4u8,
            },
    {
        match self {
            ServerChannel::ServerMessages => 3,
            ServerChannel::ServerTick => 4,
        }
    }

    /// The channel's retransmission interval in milliseconds.
    pub fn resend_millis(&self) -> (r: u64)
        ensures
            r == match self {
                ServerChannel::ServerMessages => 200u64,
                ServerChannel::ServerTick => 100u64,
            },
    {
        match self {
            ServerChannel::ServerMessages => 200,
            ServerChannel::ServerTick => 100,
        }
    }
}

/// A coordinator-to-participant message.
#[derive(Debug, PartialEq)]
pub enum ServerMessages {
    /// A participant joined: its record and its coordinator-side entity.
    PlayerCreate { entity: u64, player: Player },
    /// A participant left.
    PlayerRemove { id: PlayerId },
    /// The tick gate passed: the new target tick and the entry committed
    /// for the tick just closed.
    UpdateTick { target_tick: Tick, commands: SyncedPlayerCommand },
}

/// The view of a coordinator-to-participant message.
pub enum ServerMessagesView {
    PlayerCreate { entity: u64, player: PlayerView },
    PlayerRemove { id: PlayerId },
    UpdateTick { target_tick: Tick, commands: SyncedPlayerCommandView },
}

impl View for ServerMessages {
    type V = ServerMessagesView;

    open spec fn view(&self) -> ServerMessagesView {
        match self {
            ServerMessages::PlayerCreate { entity, player } => ServerMessagesView::PlayerCreate {
                entity: *entity,
                player: player@,
            },
            ServerMessages::PlayerRemove { id } => ServerMessagesView::PlayerRemove { id: *id },
            ServerMessages::UpdateTick { target_tick, commands } => ServerMessagesView::UpdateTick {
                target_tick: *target_tick,
                commands: commands@,
            },
        }
    }
}

/// A participant-to-coordinator message.
#[derive(Debug, PartialEq)]
pub enum ClientMessages {
    /// The participant caught up to `current_tick` and submits the batch
    /// it accumulated since its previous report.
    ClientUpdateTick { current_tick: Tick, commands: Vec<PlayerCommand> },
}

/// The view of a participant-to-coordinator message.
pub enum ClientMessagesView {
    ClientUpdateTick { current_tick: Tick, commands: Seq<PlayerCommandView> },
}

impl View for ClientMessages {
    type V = ClientMessagesView;

    open spec fn view(&self) -> ClientMessagesView {
        match self {
            ClientMessages::ClientUpdateTick { current_tick, commands } => {
                ClientMessagesView::ClientUpdateTick {
                    current_tick: *current_tick,
                    commands: spec_batch_view(*commands),
                }
            },
        }
    }
}

/// A broken lockstep invariant: the connection (or process) cannot safely
/// continue and must be torn down.
#[derive(Debug, Clone, Copy, PartialEq, Eq, Structural)]
pub enum SyncError {
    /// A declared tick that is neither the next expected tick nor a
    /// retransmit of the last acknowledged one.
    OutOfOrderTick { expected: Tick, declared: Tick },
}

impl Default for CameraMovement {
    /// All components zeroed (the bit pattern of 0.0).
    fn default() -> (r: Self)
        ensures
            r == (CameraMovement {
                velocity: Vec3Bits { x: 0, y: 0, z: 0 },
                target_camera_height: 0,
                last_mouse_position_x: 0,
                last_mouse_position_y: 0,
                mouse_yaw: 0,
                mouse_pitch: 0,
            }),
    {
        CameraMovement {
            velocity: Vec3Bits { x: 0, y: 0, z: 0 },
            target_camera_height: 0,
            last_mouse_position_x: 0,
            last_mouse_position_y: 0,
            mouse_yaw: 0,
            mouse_pitch: 0,
        }
    }
}

/// An ASCII decimal digit.
pub open spec fn spec_is_digit(c: char) -> bool {
    48 <= c as u32 <= 57
}

/// The numeric value of a digit character.
pub open spec fn spec_digit(c: char) -> int {
    c as u32 - 48
}

pub open spec fn spec_all_digits(s: Seq<char>) -> bool {
    forall|i: int| 0 <= i < s.len() ==> spec_is_digit(#[trigger] s[i])
}

/// The value of a digit string, most significant digit first.
pub open spec fn spec_digits_value(s: Seq<char>) -> int
    decreases s.len(),
{
    if s.len() == 0 {
        0
    } else {
        spec_digits_value(s.drop_last()) * 10 + spec_digit(s.last())
    }
}

/// A digit string's value is nonnegative.
pub proof fn lemma_digits_value_nonneg(s: Seq<char>)
    requires
        spec_all_digits(s),
    ensures
        spec_digits_value(s) >= 0,
    decreases s.len(),
{
    if s.len() > 0 {
        assert(spec_all_digits(s.drop_last()));
        lemma_digits_value_nonneg(s.drop_last());
    }
}

/// Each prefix of a digit string is worth no more than the whole string.
pub proof fn lemma_digits_value_prefix_le(s: Seq<char>, i: int)
    requires
        spec_all_digits(s),
        0 <= i <= s.len(),
    ensures
        0 <= spec_digits_value(s.subrange(0, i)) <= spec_digits_value(s),
    decreases s.len() - i,
{
    assert(spec_all_digits(s.subrange(0, i)));
    lemma_digits_value_nonneg(s.subrange(0, i));
    if i == s.len() {
        assert(s.subrange(0, i) =~= s);
    } else {
        assert(s.subrange(0, i + 1).drop_last() =~= s.subrange(0, i));
        assert(s.subrange(0, i + 1).last() == s[i]);
        lemma_digits_value_prefix_le(s, i + 1);
    }
}

/// How `str::parse::<i32>` reads a string: an optional sign, then at
/// least one digit and nothing else, with the value in `i32`'s range.
pub open spec fn spec_parse_i32(s: Seq<char>) -> Option<i32> {
    let neg = s.len() > 0 && s[0] == '-';
    let ds = if s.len() > 0 && (s[0] == '+' || s[0] == '-') {
        s.drop_first()
    } else {
        s
    };
    if ds.len() == 0 || !spec_all_digits(ds) {
        None
    } else {
        let m = spec_digits_value(ds);
        let v = if neg {
            -m
        } else {
            m
        };
        if -0x8000_0000 <= v <= 0x7fff_ffff {
            Some(v as i32)
        } else {
            None
        }
    }
}

/// Reads a port number from a command-line argument, falling back to the
/// default port when the argument is not a decimal integer.
pub fn translate_port(port: &str) -> (r: i32)
    ensures
        r == match spec_parse_i32(port@) {
            Some(v) => v,
            None => PORT,
        },
{
    let n = port.unicode_len();
    let mut start: usize = 0;
    let mut neg = false;
    if n > 0 {
        let c0 = port.get_char(0);
        if c0 == '+' || c0 == '-' {
            neg = c0 == '-';
            start = 1;
        }
    }
    let ghost ds = if start == 1 {
        port@.drop_first()
    } else {
        port@
    };
    proof {
        assert(start == 1 ==> ds =~= port@.subrange(1, n as int));
        assert(start == 0 ==> ds =~= port@.subrange(0, n as int));
    }
    if start >= n {
        return PORT;
    }
    let mut acc: u64 = 0;
    let mut i: usize = start;
    while i < n
        invariant
            start <= i <= n,
            n == port@.len(),
            start == 0 || start == 1,
            (start == 1) == (port@.len() > 0 && (port@[0] == '+' || port@[0] == '-')),
            neg == (port@.len() > 0 && port@[0] == '-'),
            ds == (if port@.len() > 0 && (port@[0] == '+' || port@[0] == '-') {
                port@.drop_first()
            } else {
                port@
            }),
            ds =~= port@.subrange(start as int, n as int),
            acc <= 0x8000_0000,
            acc == spec_digits_value(ds.subrange(0, i - start)),
            spec_all_digits(ds.subrange(0, i - start)),
        decreases n - i,
    {
        let c = port.get_char(i);
        let cu = c as u32;
        proof {
            assert(ds[i - start] == port@[i as int]);
        }
        if cu < 48 || cu > 57 {
            proof {
                assert(!spec_is_digit(ds[i - start]));
                assert(!spec_all_digits(ds));
            }
            return PORT;
        }
        proof {
            assert(ds.subrange(0, i - start + 1).drop_last() =~= ds.subrange(0, i - start));
            assert(ds.subrange(0, i - start + 1).last() == ds[i - start]);
        }
        acc = acc * 10 + ((cu - 48) as u64);
        i = i + 1;
        if acc > 0x8000_0000 {
            proof {
                if spec_all_digits(ds) {
                    lemma_digits_value_prefix_le(ds, i - start);
                }
            }
            return PORT;
        }
    }
    proof {
        assert(ds.subrange(0, n - start) =~= ds);
    }
    if neg {
        proof {
            assert(spec_parse_i32(port@) == Some((-(acc as int)) as i32));
        }
        (-(acc as i64)) as i32
    } else {
        if acc > 0x7fff_ffff {
            return PORT;
        }
        proof {
            assert(spec_parse_i32(port@) == Some((acc as int) as i32));
        }
        acc as i32
    }
}

/// Character-by-character string equality.
fn str_eq(a: &str, b: &str) -> (r: bool)
    ensures
        r == (a@ == b@),
{
    let la = a.unicode_len();
    let lb = b.unicode_len();
    if la != lb {
        return false;
    }
    let mut i: usize = 0;
    while i < la
        invariant
            i <= la,
            la == a@.len(),
            la == b@.len(),
            forall|j: int| 0 <= j < i ==> a@[j] == b@[j],
        decreases la - i,
    {
        if a.get_char(i) != b.get_char(i) {
            return false;
        }
        i = i + 1;
    }
    proof {
        assert(a@ =~= b@);
    }
    true
}

/// The placeholder host names that stand for "use the default host".
pub open spec fn spec_is_host_placeholder(host: Seq<char>) -> bool {
    host == "localhost"@ || host == "-"@ || host == "."@
}

/// What `translate_host` returns: the host as given, unless it is a
/// placeholder, in which case the default (or the loopback address when no
/// default was given).
pub open spec fn spec_translate_host(host: Seq<char>, default: Seq<char>) -> Seq<char> {
    let d = if default.len() == 0 {
        "127.0.0.1"@
    } else {
        default
    };
    if spec_is_host_placeholder(host) {
        d
    } else {
        host
    }
}

/// Resolves a host argument, turning the placeholder names into the given
/// default and an empty default into the loopback address.
pub fn translate_host<'a>(host: &'a str, default: &'a str) -> (r: &'a str)
    ensures
        r@ == spec_translate_host(host@, default@),
{
    let d = if default.unicode_len() == 0 {
        "127.0.0.1"
    } else {
        default
    };
    if str_eq(host, "localhost") || str_eq(host, "-") || str_eq(host, ".") {
        d
    } else {
        host
    }
}

} // verus!
