use vstd::prelude::*;

use crate::{
    lemma_assoc_lookup_finds, lemma_assoc_lookup_none, lemma_assoc_lookup_some, spec_assoc_lookup,
    CameraMovement, PlayerId, Tick, Vec3Bits,
};
use crate::client_functionality::SerializableTransform;

verus! {

/// One discrete intent of a participant, submitted for a tick.
#[derive(Debug, Clone, PartialEq)]
pub enum PlayerCommand {
    /// A chat/test message.
    Test(String),
    /// A continuous intent: only the most recent one per queue matters.
    SetTargetPosition(Vec3Bits),
    /// A discrete intent: every instance matters.
    SpawnUnit(Vec3Bits),
    /// A report of the participant's own camera movement and transform.
    UpdatePlayerPosition(CameraMovement, SerializableTransform),
}

/// The mathematical shape of a command: as `PlayerCommand`, with the
/// message text abstracted to its character sequence.
pub enum PlayerCommandView {
    Test(Seq<char>),
    SetTargetPosition(Vec3Bits),
    SpawnUnit(Vec3Bits),
    UpdatePlayerPosition(CameraMovement, SerializableTransform),
}

impl View for PlayerCommand {
    type V = PlayerCommandView;

    open spec fn view(&self) -> PlayerCommandView {
        match self {
            PlayerCommand::Test(s) => PlayerCommandView::Test(s@),
            PlayerCommand::SetTargetPosition(v) => PlayerCommandView::SetTargetPosition(*v),
            PlayerCommand::SpawnUnit(v) => PlayerCommandView::SpawnUnit(*v),
            PlayerCommand::UpdatePlayerPosition(m, t) => PlayerCommandView::UpdatePlayerPosition(
                *m,
                *t,
            ),
        }
    }
}

/// Equality used for queue deduplication. Position updates are never
/// considered equal: each report accumulates.
pub open spec fn spec_commands_equal(a: PlayerCommandView, b: PlayerCommandView) -> bool {
    match (a, b) {
        (PlayerCommandView::Test(x), PlayerCommandView::Test(y)) => x == y,
        (
            PlayerCommandView::SetTargetPosition(u),
            PlayerCommandView::SetTargetPosition(v),
        ) => u == v,
        (PlayerCommandView::SpawnUnit(u), PlayerCommandView::SpawnUnit(v)) => u == v,
        _ => false,
    }
}

/// True of the command class whose queue policy is most-recent-intent-wins.
pub open spec fn spec_is_set_target(c: PlayerCommandView) -> bool {
    c is SetTargetPosition
}

impl PlayerCommand {
    /// The deduplication equality from `spec_commands_equal`.
    pub fn equals(&self, other: &Self) -> (r: bool)
        ensures
            r == spec_commands_equal(self@, other@),
    {
        match (self, other) {
            (PlayerCommand::Test(a), PlayerCommand::Test(b)) => *a == *b,
            (PlayerCommand::SetTargetPosition(a), PlayerCommand::SetTargetPosition(b)) => *a
                == *b,
            (PlayerCommand::SpawnUnit(a), PlayerCommand::SpawnUnit(b)) => *a == *b,
            _ => false,
        }
    }

    /// Whether this command is of the "set target position" class.
    pub fn is_set_target(&self) -> (r: bool)
        ensures
            r == spec_is_set_target(self@),
    {
        match self {
            PlayerCommand::SetTargetPosition(_) => true,
            _ => false,
        }
    }

    /// An owned copy with the same view.
    pub fn duplicate(&self) -> (r: Self)
        ensures
            r@ == self@,
    {
        match self {
            PlayerCommand::Test(s) => PlayerCommand::Test(s.clone()),
            PlayerCommand::SetTargetPosition(v) => PlayerCommand::SetTargetPosition(*v),
            PlayerCommand::SpawnUnit(v) => PlayerCommand::SpawnUnit(*v),
            PlayerCommand::UpdatePlayerPosition(m, t) => PlayerCommand::UpdatePlayerPosition(
                *m,
                *t,
            ),
        }
    }
}

/// The view of a batch of commands.
pub open spec fn spec_batch_view(v: Vec<PlayerCommand>) -> Seq<PlayerCommandView> {
    v@.map_values(|c: PlayerCommand| c@)
}

/// An owned copy of a batch, with the same view.
pub fn duplicate_batch(v: &Vec<PlayerCommand>) -> (r: Vec<PlayerCommand>)
    ensures
        spec_batch_view(r) == spec_batch_view(*v),
{
    let mut out: Vec<PlayerCommand> = Vec::new();
    let mut i: usize = 0;
    proof {
        assert(spec_batch_view(out) =~= spec_batch_view(*v).subrange(0, 0));
    }
    while i < v.len()
        invariant
            i <= v.len(),
            spec_batch_view(out) == spec_batch_view(*v).subrange(0, i as int),
        decreases v.len() - i,
    {
        let ghost prev = spec_batch_view(out);
        let ghost prev_raw = out@;
        let c = v[i].duplicate();
        out.push(c);
        i = i + 1;
        proof {
            assert(prev_raw.map_values(|c: PlayerCommand| c@).len() == prev_raw.len());
            assert forall|k: int| 0 <= k < i implies #[trigger] spec_batch_view(out)[k]
                == spec_batch_view(*v).subrange(0, i as int)[k] by {
                if k < i - 1 {
                    assert(prev[k] == spec_batch_view(*v).subrange(0, i - 1)[k]);
                }
            }
            assert(spec_batch_view(out) =~= spec_batch_view(*v).subrange(0, i as int));
        }
    }
    proof {
        assert(spec_batch_view(*v).subrange(0, v.len() as int) =~= spec_batch_view(*v));
    }
    out
}

/// True when `q` already holds a command that `spec_commands_equal` treats
/// as equal to `c`.
pub open spec fn spec_contains_equal(q: Seq<PlayerCommandView>, c: PlayerCommandView) -> bool {
    exists|i: int| 0 <= i < q.len() && spec_commands_equal(q[i], c)
}

/// What one enqueue does: a duplicate is a silent no-op; a "set target
/// position" command replaces every pending command of that class; any
/// other command is appended.
pub open spec fn spec_add_command(q: Seq<PlayerCommandView>, c: PlayerCommandView) -> Seq<
    PlayerCommandView,
> {
    if spec_contains_equal(q, c) {
        q
    } else if spec_is_set_target(c) {
        q.filter(|x: PlayerCommandView| !spec_is_set_target(x)).push(c)
    } else {
        q.push(c)
    }
}

/// The queue of locally generated intents a participant accumulates
/// between ticks.
#[derive(Debug, Clone, PartialEq)]
pub struct CommandQueue(pub Vec<PlayerCommand>);

impl View for CommandQueue {
    type V = Seq<PlayerCommandView>;

    open spec fn view(&self) -> Seq<PlayerCommandView> {
        spec_batch_view(self.0)
    }
}

impl CommandQueue {
    pub fn new() -> (r: Self)
        ensures
            r@ == Seq::<PlayerCommandView>::empty(),
    {
        CommandQueue(Vec::new())
    }

    /// Discards every pending command.
    pub fn reset(&mut self)
        ensures
            final(self)@ == Seq::<PlayerCommandView>::empty(),
    {
        self.0 = Vec::new();
    }

    /// Whether an equal command (under the deduplication equality) is
    /// already pending.
    pub fn contains(&self, command: &PlayerCommand) -> (r: bool)
        ensures
            r == spec_contains_equal(self@, command@),
    {
        let mut i: usize = 0;
        while i < self.0.len()
            invariant
                i <= self.0.len(),
                forall|j: int| 0 <= j < i ==> !spec_commands_equal(self@[j], command@),
            decreases self.0.len() - i,
        {
            if self.0[i].equals(command) {
                proof {
                    assert(spec_commands_equal(self@[i as int], command@));
                }
                return true;
            }
            i = i + 1;
        }
        false
    }

    /// Enqueues a command under the policy of `spec_add_command`.
    pub fn add_command(&mut self, command: PlayerCommand)
        ensures
            final(self)@ == spec_add_command(old(self)@, command@),
    {
        if self.contains(&command) {
            return ;
        }
        if command.is_set_target() {
            let ghost q0 = self@;
            let mut kept: Vec<PlayerCommand> = Vec::new();
            let mut i: usize = 0;
            while i < self.0.len()
                invariant
                    i <= self.0.len(),
                    self@ == q0,
                    spec_batch_view(kept) == q0.subrange(0, i as int).filter(
                        |x: PlayerCommandView| !spec_is_set_target(x),
                    ),
                decreases self.0.len() - i,
            {
                proof {
                    assert(q0.subrange(0, i + 1 as int).drop_last() =~= q0.subrange(0, i as int));
                    reveal_with_fuel(Seq::filter, 2);
                }
                if !self.0[i].is_set_target() {
                    kept.push(self.0[i].duplicate());
                }
                i = i + 1;
                proof {
                    assert(q0.subrange(0, i as int).last() == q0[i - 1]);
                    assert(spec_batch_view(kept) =~= q0.subrange(0, i as int).filter(
                        |x: PlayerCommandView| !spec_is_set_target(x),
                    ));
                }
            }
            proof {
                assert(q0.subrange(0, self.0.len() as int) =~= q0);
            }
            kept.push(command);
            self.0 = kept;
        } else {
            self.0.push(command);
            proof {
                assert(final(self)@ =~= spec_add_command(old(self)@, command@));
            }
        }
    }

    /// Atomically takes every pending command, in insertion order, and
    /// leaves the queue empty: the only way to consume the queue.
    pub fn drain(&mut self) -> (r: Vec<PlayerCommand>)
        ensures
            spec_batch_view(r) == old(self)@,
            final(self)@ == Seq::<PlayerCommandView>::empty(),
    {
        let mut out: Vec<PlayerCommand> = Vec::new();
        core::mem::swap(&mut out, &mut self.0);
        out
    }
}

impl Default for CommandQueue {
    fn default() -> (r: Self)
        ensures
            r@ == Seq::<PlayerCommandView>::empty(),
    {
        CommandQueue(Vec::new())
    }
}

/// The queue contents after enqueuing `cs`, in order, into an empty queue.
pub open spec fn spec_queue_after(cs: Seq<PlayerCommandView>) -> Seq<PlayerCommandView>
    decreases cs.len(),
{
    if cs.len() == 0 {
        Seq::empty()
    } else {
        spec_add_command(spec_queue_after(cs.drop_last()), cs.last())
    }
}

/// The elements of `a` appear in `b`, in the same order.
pub open spec fn spec_is_subseq(a: Seq<PlayerCommandView>, b: Seq<PlayerCommandView>) -> bool
    decreases a.len() + b.len(),
{
    if a.len() == 0 {
        true
    } else if b.len() == 0 {
        false
    } else {
        (a.last() == b.last() && spec_is_subseq(a.drop_last(), b.drop_last())) || spec_is_subseq(
            a,
            b.drop_last(),
        )
    }
}

/// The most recent "set target position" command in `cs`.
pub open spec fn spec_last_set_target(cs: Seq<PlayerCommandView>) -> Option<PlayerCommandView>
    decreases cs.len(),
{
    if cs.len() == 0 {
        None
    } else if spec_is_set_target(cs.last()) {
        Some(cs.last())
    } else {
        spec_last_set_target(cs.drop_last())
    }
}

/// A sequence loses no subsequence by growing on the right.
proof fn lemma_subseq_extend(a: Seq<PlayerCommandView>, b: Seq<PlayerCommandView>, x: PlayerCommandView)
    requires
        spec_is_subseq(a, b),
    ensures
        spec_is_subseq(a, b.push(x)),
{
    if a.len() > 0 {
        assert(b.push(x).drop_last() =~= b);
    }
}

/// Appending the same element on both sides keeps the subsequence
/// relation.
proof fn lemma_subseq_push_both(
    a: Seq<PlayerCommandView>,
    b: Seq<PlayerCommandView>,
    x: PlayerCommandView,
)
    requires
        spec_is_subseq(a, b),
    ensures
        spec_is_subseq(a.push(x), b.push(x)),
{
    assert(a.push(x).drop_last() =~= a);
    assert(b.push(x).drop_last() =~= b);
    assert(a.push(x).last() == b.push(x).last());
}

/// A filtered sequence is a subsequence of the original.
proof fn lemma_subseq_filter(s: Seq<PlayerCommandView>, pred: spec_fn(PlayerCommandView) -> bool)
    ensures
        spec_is_subseq(s.filter(pred), s),
    decreases s.len(),
{
    reveal_with_fuel(Seq::filter, 2);
    if s.len() == 0 {
    } else {
        lemma_subseq_filter(s.drop_last(), pred);
        assert(s =~= s.drop_last().push(s.last()));
        if pred(s.last()) {
            lemma_subseq_push_both(s.drop_last().filter(pred), s.drop_last(), s.last());
        } else {
            lemma_subseq_extend(s.drop_last().filter(pred), s.drop_last(), s.last());
        }
    }
}

/// The subsequence relation is transitive.
proof fn lemma_subseq_trans(
    a: Seq<PlayerCommandView>,
    b: Seq<PlayerCommandView>,
    c: Seq<PlayerCommandView>,
)
    requires
        spec_is_subseq(a, b),
        spec_is_subseq(b, c),
    ensures
        spec_is_subseq(a, c),
    decreases b.len() + c.len(),
{
    if a.len() == 0 || b.len() == 0 || c.len() == 0 {
    } else {
        if b.last() == c.last() && spec_is_subseq(b.drop_last(), c.drop_last()) {
            if a.last() == b.last() && spec_is_subseq(a.drop_last(), b.drop_last()) {
                lemma_subseq_trans(a.drop_last(), b.drop_last(), c.drop_last());
            } else {
                lemma_subseq_trans(a, b.drop_last(), c.drop_last());
            }
        } else {
            lemma_subseq_trans(a, b, c.drop_last());
        }
    }
}

/// An element of a filtered sequence is an element of the original.
proof fn lemma_filter_elem_of(
    s: Seq<PlayerCommandView>,
    pred: spec_fn(PlayerCommandView) -> bool,
    i: int,
)
    requires
        0 <= i < s.filter(pred).len(),
    ensures
        s.contains(s.filter(pred)[i]),
    decreases s.len(),
{
    reveal_with_fuel(Seq::filter, 2);
    if s.len() > 0 {
        let f = s.filter(pred);
        let fd = s.drop_last().filter(pred);
        if i < fd.len() {
            lemma_filter_elem_of(s.drop_last(), pred, i);
            let j = choose|j: int| 0 <= j < s.drop_last().len() && s.drop_last()[j] == fd[i];
            assert(s[j] == f[i]);
        } else {
            assert(f[i] == s.last());
            assert(s[s.len() - 1] == s.last());
        }
    }
}

/// Filtering cannot create a duplicate pair under the deduplication
/// equality.
proof fn lemma_filter_no_dup(s: Seq<PlayerCommandView>, pred: spec_fn(PlayerCommandView) -> bool)
    requires
        forall|i: int, j: int|
            0 <= i < j < s.len() ==> !spec_commands_equal(#[trigger] s[i], #[trigger] s[j]),
    ensures
        forall|i: int, j: int|
            0 <= i < j < s.filter(pred).len() ==> !spec_commands_equal(
                #[trigger] s.filter(pred)[i],
                #[trigger] s.filter(pred)[j],
            ),
    decreases s.len(),
{
    reveal_with_fuel(Seq::filter, 2);
    if s.len() > 0 {
        let f = s.filter(pred);
        let fd = s.drop_last().filter(pred);
        assert(forall|i: int, j: int|
            0 <= i < j < s.drop_last().len() ==> !spec_commands_equal(
                #[trigger] s.drop_last()[i],
                #[trigger] s.drop_last()[j],
            ));
        lemma_filter_no_dup(s.drop_last(), pred);
        assert forall|i: int, j: int| 0 <= i < j < f.len() implies !spec_commands_equal(
            #[trigger] f[i],
            #[trigger] f[j],
        ) by {
            if j < fd.len() {
                assert(f[i] == fd[i] && f[j] == fd[j]);
            } else if j == fd.len() && f.len() == fd.len() + 1 {
                assert(f[j] == s.last());
                assert(f[i] == fd[i]);
                lemma_filter_elem_of(s.drop_last(), pred, i);
                let k = choose|k: int|
                    0 <= k < s.drop_last().len() && s.drop_last()[k] == fd[i];
                assert(s[k] == fd[i]);
                assert(!spec_commands_equal(s[k], s[s.len() - 1]));
            }
        }
    }
}

/// The law of the Command Queue: enqueuing any sequence of commands into
/// an empty queue and draining yields the enqueued commands in insertion
/// order, without duplicates (under the deduplication equality), with the
/// "set target position" class collapsed to only the most recent
/// instance, and with no other command lost.
pub proof fn lemma_enqueue_drain_collapse(cs: Seq<PlayerCommandView>)
    ensures
        spec_is_subseq(spec_queue_after(cs), cs),
        forall|i: int, j: int|
            0 <= i < j < spec_queue_after(cs).len() ==> !spec_commands_equal(
                #[trigger] spec_queue_after(cs)[i],
                #[trigger] spec_queue_after(cs)[j],
            ),
        forall|i: int, j: int|
            0 <= i < j < spec_queue_after(cs).len() ==> !(spec_is_set_target(
                #[trigger] spec_queue_after(cs)[i],
            ) && spec_is_set_target(#[trigger] spec_queue_after(cs)[j])),
        match spec_last_set_target(cs) {
            None => forall|i: int|
                0 <= i < spec_queue_after(cs).len() ==> !spec_is_set_target(
                    #[trigger] spec_queue_after(cs)[i],
                ),
            Some(c) => exists|k: int|
                0 <= k < spec_queue_after(cs).len() && #[trigger] spec_queue_after(cs)[k] == c,
        },
        forall|i: int|
            0 <= i < cs.len() && !spec_is_set_target(#[trigger] cs[i]) ==> exists|j: int|
                0 <= j < spec_queue_after(cs).len() && #[trigger] spec_queue_after(cs)[j] == cs[i],
    decreases cs.len(),
{
    if cs.len() == 0 {
    } else {
        let dl = cs.drop_last();
        let c = cs.last();
        let q0 = spec_queue_after(dl);
        let q = spec_queue_after(cs);
        lemma_enqueue_drain_collapse(dl);
        assert(cs =~= dl.push(c));
        if spec_contains_equal(q0, c) {
            let k = choose|k: int| 0 <= k < q0.len() && spec_commands_equal(q0[k], c);
            assert(q == q0);
            lemma_subseq_extend(q0, dl, c);
            assert(q0[k] == c);
            assert forall|i: int|
                0 <= i < cs.len() && !spec_is_set_target(#[trigger] cs[i]) implies exists|j: int|
                0 <= j < q.len() && #[trigger] q[j] == cs[i] by {
                if i == cs.len() - 1 {
                    assert(q[k] == cs[i]);
                } else {
                    assert(dl[i] == cs[i]);
                }
            }
            if spec_is_set_target(c) {
                assert(spec_last_set_target(cs) == Some(c));
                assert(q[k] == c);
            }
        } else if spec_is_set_target(c) {
            let npred = |x: PlayerCommandView| !spec_is_set_target(x);
            let filt = q0.filter(npred);
            assert(q == filt.push(c));
            lemma_subseq_filter(q0, npred);
            lemma_subseq_trans(filt, q0, dl);
            lemma_subseq_push_both(filt, dl, c);
            lemma_filter_no_dup(q0, npred);
            assert forall|i: int, j: int| 0 <= i < j < q.len() implies !spec_commands_equal(
                #[trigger] q[i],
                #[trigger] q[j],
            ) by {
                if j == q.len() - 1 {
                    assert(q[i] == filt[i]);
                    lemma_filter_elem_of(q0, npred, i);
                    let m = choose|m: int| 0 <= m < q0.len() && q0[m] == filt[i];
                    assert(!spec_commands_equal(q0[m], c));
                } else {
                    assert(q[i] == filt[i] && q[j] == filt[j]);
                }
            }
            assert forall|i: int, j: int| 0 <= i < j < q.len() implies !(spec_is_set_target(
                #[trigger] q[i],
            ) && spec_is_set_target(#[trigger] q[j])) by {
                if i < filt.len() {
                    q0.lemma_filter_pred(npred, i);
                    assert(q[i] == filt[i]);
                }
            }
            assert(spec_last_set_target(cs) == Some(c));
            assert(q[q.len() - 1] == c);
            assert forall|i: int|
                0 <= i < cs.len() && !spec_is_set_target(#[trigger] cs[i]) implies exists|j: int|
                0 <= j < q.len() && #[trigger] q[j] == cs[i] by {
                if i < cs.len() - 1 {
                    assert(dl[i] == cs[i]);
                    let j0 = choose|j0: int| 0 <= j0 < q0.len() && q0[j0] == dl[i];
                    assert(npred(q0[j0]));
                    q0.lemma_filter_contains(npred, j0);
                    assert(filt.contains(q0[j0]));
                    let j1 = choose|j1: int| 0 <= j1 < filt.len() && filt[j1] == q0[j0];
                    assert(q[j1] == cs[i]);
                }
            }
        } else {
            assert(q == q0.push(c));
            lemma_subseq_push_both(q0, dl, c);
            assert forall|i: int, j: int| 0 <= i < j < q.len() implies !spec_commands_equal(
                #[trigger] q[i],
                #[trigger] q[j],
            ) by {
                if j == q.len() - 1 {
                    assert(q[i] == q0[i]);
                    assert(!spec_contains_equal(q0, c));
                }
            }
            assert forall|i: int, j: int| 0 <= i < j < q.len() implies !(spec_is_set_target(
                #[trigger] q[i],
            ) && spec_is_set_target(#[trigger] q[j])) by {}
            assert(spec_last_set_target(cs) == spec_last_set_target(dl));
            match spec_last_set_target(dl) {
                None => {},
                Some(lc) => {
                    let k = choose|k: int| 0 <= k < q0.len() && q0[k] == lc;
                    assert(q[k] == lc);
                },
            }
            assert forall|i: int|
                0 <= i < cs.len() && !spec_is_set_target(#[trigger] cs[i]) implies exists|j: int|
                0 <= j < q.len() && #[trigger] q[j] == cs[i] by {
                if i == cs.len() - 1 {
                    assert(q[q.len() - 1] == cs[i]);
                } else {
                    assert(dl[i] == cs[i]);
                    let j0 = choose|j0: int| 0 <= j0 < q0.len() && q0[j0] == dl[i];
                    assert(q[j0] == cs[i]);
                }
            }
        }
    }
}

/// A wall-clock timestamp in milliseconds since the Unix epoch, recorded
/// when a ledger entry is committed.
#[derive(Debug, Clone, Copy, PartialEq, Eq, Structural)]
pub struct MyDateTime(pub i64);

impl MyDateTime {
    /// Relies on chrono::Utc::now for a wall-clock reading. The value
    /// depends on the machine's clock, so nothing is assumed of it;
    /// callers state what holds of every outcome.
    #[verifier::external_body]
    pub fn now() -> MyDateTime {
        MyDateTime(chrono::Utc::now().timestamp_millis())
    }

    pub fn millis(&self) -> (r: i64)
        ensures
            r == self.0,
    {
        self.0
    }
}

/// The commands of one tick, grouped per participant: an ordered sequence
/// of (participant, batch) pairs in arrival order.
#[derive(Debug, Clone, PartialEq)]
pub struct PlayerCommandsList(pub Vec<(PlayerId, Vec<PlayerCommand>)>);

/// The view of a commands list: participants with their batch views.
pub open spec fn spec_list_view(l: PlayerCommandsList) -> Seq<(PlayerId, Seq<PlayerCommandView>)> {
    l.0@.map_values(|p: (PlayerId, Vec<PlayerCommand>)| (p.0, spec_batch_view(p.1)))
}

impl View for PlayerCommandsList {
    type V = Seq<(PlayerId, Seq<PlayerCommandView>)>;

    open spec fn view(&self) -> Seq<(PlayerId, Seq<PlayerCommandView>)> {
        spec_list_view(*self)
    }
}

/// True when every batch of the list view is empty.
pub open spec fn spec_list_is_empty(l: Seq<(PlayerId, Seq<PlayerCommandView>)>) -> bool {
    forall|i: int| 0 <= i < l.len() ==> (#[trigger] l[i]).1.len() == 0
}

impl PlayerCommandsList {
    pub fn new() -> (r: Self)
        ensures
            r@ == Seq::<(PlayerId, Seq<PlayerCommandView>)>::empty(),
    {
        PlayerCommandsList(Vec::new())
    }

    /// Whether no participant contributed any command.
    pub fn is_empty(&self) -> (r: bool)
        ensures
            r == spec_list_is_empty(self@),
    {
        let mut i: usize = 0;
        while i < self.0.len()
            invariant
                i <= self.0.len(),
                forall|j: int| 0 <= j < i ==> (#[trigger] self@[j]).1.len() == 0,
            decreases self.0.len() - i,
        {
            proof {
                assert(self@[i as int].1 == spec_batch_view(self.0@[i as int].1));
                assert(self.0@.map_values(
                    |p: (PlayerId, Vec<PlayerCommand>)| (p.0, spec_batch_view(p.1)),
                ).len() == self.0@.len());
            }
            if self.0[i].1.len() > 0 {
                return false;
            }
            i = i + 1;
        }
        true
    }

    /// Appends one participant's batch.
    pub fn push_batch(&mut self, player: PlayerId, commands: Vec<PlayerCommand>)
        ensures
            final(self)@ == old(self)@.push((player, spec_batch_view(commands))),
    {
        let ghost cv = spec_batch_view(commands);
        self.0.push((player, commands));
        proof {
            assert(old(self).0@.map_values(
                |p: (PlayerId, Vec<PlayerCommand>)| (p.0, spec_batch_view(p.1)),
            ).len() == old(self).0@.len());
            assert(final(self)@ =~= old(self)@.push((player, cv)));
        }
    }

    /// An owned copy with the same view.
    pub fn duplicate(&self) -> (r: Self)
        ensures
            r@ == self@,
    {
        let mut out = PlayerCommandsList(Vec::new());
        let mut i: usize = 0;
        proof {
            assert(out@ =~= self@.subrange(0, 0));
        }
        while i < self.0.len()
            invariant
                i <= self.0.len(),
                out@ == self@.subrange(0, i as int),
            decreases self.0.len() - i,
        {
            let ghost prev = out@;
            let pair = &self.0[i];
            out.push_batch(pair.0, duplicate_batch(&pair.1));
            i = i + 1;
            proof {
                assert(self.0@.map_values(
                    |p: (PlayerId, Vec<PlayerCommand>)| (p.0, spec_batch_view(p.1)),
                ).len() == self.0@.len());
                assert(self@[i - 1] == (pair.0, spec_batch_view(pair.1)));
                assert(out@ =~= self@.subrange(0, i as int));
            }
        }
        proof {
            assert(self@.subrange(0, self.0.len() as int) =~= self@);
        }
        out
    }
}

impl Default for PlayerCommandsList {
    fn default() -> (r: Self)
        ensures
            r@ == Seq::<(PlayerId, Seq<PlayerCommandView>)>::empty(),
    {
        PlayerCommandsList(Vec::new())
    }
}

/// One committed ledger entry: the commands of one tick and the wall-clock
/// time at which the coordinator committed them.
#[derive(Debug, Clone, PartialEq)]
pub struct SyncedPlayerCommand(pub PlayerCommandsList, pub MyDateTime);

/// The view of a ledger entry.
pub struct SyncedPlayerCommandView {
    pub commands: Seq<(PlayerId, Seq<PlayerCommandView>)>,
    pub time: MyDateTime,
}

impl View for SyncedPlayerCommand {
    type V = SyncedPlayerCommandView;

    open spec fn view(&self) -> SyncedPlayerCommandView {
        SyncedPlayerCommandView { commands: spec_list_view(self.0), time: self.1 }
    }
}

impl SyncedPlayerCommand {
    /// An entry with no commands, committed at `time`.
    pub fn empty(time: MyDateTime) -> (r: Self)
        ensures
            r@.commands == Seq::<(PlayerId, Seq<PlayerCommandView>)>::empty(),
            r@.time == time,
    {
        SyncedPlayerCommand(PlayerCommandsList::new(), time)
    }

    /// Whether no participant contributed any command to this entry.
    pub fn is_empty(&self) -> (r: bool)
        ensures
            r == spec_list_is_empty(self@.commands),
    {
        self.0.is_empty()
    }

    /// An owned copy with the same view.
    pub fn duplicate(&self) -> (r: Self)
        ensures
            r@ == self@,
    {
        SyncedPlayerCommand(self.0.duplicate(), self.1)
    }
}

impl Default for SyncedPlayerCommand {
    /// An empty entry stamped with time zero.
    fn default() -> (r: Self)
        ensures
            r@.commands == Seq::<(PlayerId, Seq<PlayerCommandView>)>::empty(),
            r@.time == (MyDateTime(0)),
    {
        SyncedPlayerCommand(PlayerCommandsList::new(), MyDateTime(0))
    }
}

/// The view of the ledger's backing vector.
pub open spec fn spec_entries_view(v: Vec<(Tick, SyncedPlayerCommand)>) -> Seq<
    (Tick, SyncedPlayerCommandView),
> {
    v@.map_values(|p: (Tick, SyncedPlayerCommand)| (p.0, p.1@))
}

/// Entries are in strictly ascending tick order, so every tick occurs at
/// most once.
pub open spec fn spec_ledger_sorted(s: Seq<(Tick, SyncedPlayerCommandView)>) -> bool {
    forall|i: int, j: int|
        0 <= i < j < s.len() ==> (#[trigger] s[i]).0.0 < (#[trigger] s[j]).0.0
}

/// An entry is kept by pruning exactly when some participant contributed
/// a command to it.
pub open spec fn spec_entry_nonempty(p: (Tick, SyncedPlayerCommandView)) -> bool {
    !spec_list_is_empty(p.1.commands)
}

/// The Command Ledger: a tick-ordered map from tick to committed entry,
/// held as a vector sorted strictly by tick.
#[derive(Debug, PartialEq)]
pub struct SyncedPlayerCommandsList(pub Vec<(Tick, SyncedPlayerCommand)>);

impl View for SyncedPlayerCommandsList {
    type V = Seq<(Tick, SyncedPlayerCommandView)>;

    open spec fn view(&self) -> Seq<(Tick, SyncedPlayerCommandView)> {
        spec_entries_view(self.0)
    }
}

impl SyncedPlayerCommandsList {
    /// The ledger's invariant: entries sorted strictly by tick.
    pub open spec fn wf(&self) -> bool {
        spec_ledger_sorted(self@)
    }

    pub fn new() -> (r: Self)
        ensures
            r@ == Seq::<(Tick, SyncedPlayerCommandView)>::empty(),
            r.wf(),
    {
        let r = SyncedPlayerCommandsList(Vec::new());
        proof {
            assert(r@ =~= Seq::<(Tick, SyncedPlayerCommandView)>::empty());
        }
        r
    }

    /// Whether the ledger holds no entry at all.
    pub fn is_empty(&self) -> (r: bool)
        ensures
            r == (self@.len() == 0),
    {
        proof {
            assert(self@.len() == self.0@.len());
        }
        self.0.len() == 0
    }

    /// The number of entries.
    pub fn len(&self) -> (r: usize)
        ensures
            r == self@.len(),
    {
        proof {
            assert(self@.len() == self.0@.len());
        }
        self.0.len()
    }

    /// A borrow of the entry committed for `tick`, if one exists.
    pub fn lookup_entry(&self, tick: Tick) -> (r: Option<&SyncedPlayerCommand>)
        ensures
            match r {
                Some(e) => spec_assoc_lookup(self@, tick) == Some(e@),
                None => spec_assoc_lookup(self@, tick) is None,
            },
    {
        proof {
            assert(self@.len() == self.0@.len());
        }
        let mut i: usize = 0;
        while i < self.0.len()
            invariant
                i <= self.0.len(),
                self@.len() == self.0@.len(),
                forall|j: int| 0 <= j < i ==> (#[trigger] self@[j]).0 != tick,
            decreases self.0.len() - i,
        {
            if self.0[i].0 == tick {
                proof {
                    lemma_assoc_lookup_some(self@, tick, i as int);
                }
                return Some(&self.0[i].1);
            }
            i = i + 1;
        }
        proof {
            lemma_assoc_lookup_none(self@, tick);
        }
        None
    }

    /// The commands committed for `tick`, or an empty list when no entry
    /// exists: a bookkeeping miss is recovered locally, never fatal.
    pub fn get_commands_for_tick(&self, tick: Tick) -> (r: PlayerCommandsList)
        ensures
            r@ == match spec_assoc_lookup(self@, tick) {
                Some(e) => e.commands,
                None => Seq::<(PlayerId, Seq<PlayerCommandView>)>::empty(),
            },
    {
        match self.lookup_entry(tick) {
            Some(e) => e.0.duplicate(),
            None => PlayerCommandsList::new(),
        }
    }

    /// Commits `entry` for `tick`, replacing any entry already there and
    /// keeping the ledger sorted.
    pub fn insert(&mut self, tick: Tick, entry: SyncedPlayerCommand)
        requires
            old(self).wf(),
        ensures
            final(self).wf(),
            spec_assoc_lookup(final(self)@, tick) == Some(entry@),
            forall|t: Tick|
                t != tick ==> #[trigger] spec_assoc_lookup(final(self)@, t) == spec_assoc_lookup(
                    old(self)@,
                    t,
                ),
            final(self)@.len() <= old(self)@.len() + 1,
    {
        let ghost pre = self@;
        let ghost ev = entry@;
        proof {
            assert(pre.len() == self.0@.len());
        }
        let mut i: usize = 0;
        while i < self.0.len() && self.0[i].0.get() < tick.get()
            invariant
                i <= self.0.len(),
                self@ == pre,
                pre.len() == self.0@.len(),
                forall|j: int| 0 <= j < i ==> (#[trigger] pre[j]).0.0 < tick.0,
            decreases self.0.len() - i,
        {
            i = i + 1;
        }
        let replace = i < self.0.len() && self.0[i].0 == tick;
        if replace {
            self.0.remove(i);
            self.0.insert(i, (tick, entry));
            proof {
                assert(final(self)@ =~= pre.update(i as int, (tick, ev)));
                lemma_ledger_update_keeps_form(pre, i as int, tick, ev);
            }
        } else {
            self.0.insert(i, (tick, entry));
            proof {
                assert(i < pre.len() ==> pre[i as int].0.0 > tick.0);
                assert(final(self)@ =~= pre.insert(i as int, (tick, ev)));
                lemma_ledger_insert_keeps_form(pre, i as int, tick, ev);
            }
        }
    }

    /// Removes every entry to which no participant contributed a command.
    pub fn remove_empty(&mut self)
        requires
            old(self).wf(),
        ensures
            final(self).wf(),
            final(self)@ == old(self)@.filter(
                |p: (Tick, SyncedPlayerCommandView)| spec_entry_nonempty(p),
            ),
    {
        let ghost orig = self@;
        let mut src: Vec<(Tick, SyncedPlayerCommand)> = Vec::new();
        core::mem::swap(&mut src, &mut self.0);
        let ghost n = orig.len();
        proof {
            assert(spec_entries_view(src) == orig);
            assert(orig.len() == src@.len());
            assert(self@ =~= orig.subrange(0, 0).filter(|p: (Tick, SyncedPlayerCommandView)| spec_entry_nonempty(p)));
        }
        let mut i: usize = 0;
        while i < src.len()
            invariant
                i <= src.len(),
                spec_entries_view(src) == orig,
                orig.len() == src@.len(),
                self@ == orig.subrange(0, i as int).filter(|p: (Tick, SyncedPlayerCommandView)| spec_entry_nonempty(p)),
                spec_ledger_sorted(orig),
                spec_ledger_sorted(self@),
                forall|m: int, j: int|
                    0 <= m < self@.len() && i <= j < orig.len() ==> (#[trigger] self@[m]).0.0 < (
                    #[trigger] orig[j]).0.0,
            decreases src.len() - i,
        {
            let ghost kept_pre = self@;
            let keep = !src[i].1.is_empty();
            proof {
                assert(orig[i as int] == (src@[i as int].0, src@[i as int].1@));
            }
            if keep {
                let pair = &src[i];
                let t = pair.0;
                let dup = pair.1.duplicate();
                self.0.push((t, dup));
                proof {
                    assert(self@ =~= kept_pre.push((t, dup@)));
                }
            }
            i = i + 1;
            proof {
                reveal_with_fuel(Seq::filter, 2);
                let sub1 = orig.subrange(0, i as int);
                let sub0 = orig.subrange(0, i - 1);
                assert(sub1.drop_last() =~= sub0);
                assert(sub1.last() == orig[i - 1]);
                let fp = |p: (Tick, SyncedPlayerCommandView)| spec_entry_nonempty(p);
                assert(sub1.filter(fp) == if fp(orig[i - 1]) {
                    sub0.filter(fp).push(orig[i - 1])
                } else {
                    sub0.filter(fp)
                });
                assert(keep == spec_entry_nonempty(orig[i - 1]));
                assert(self@ =~= sub1.filter(fp));
            }
        }
        proof {
            assert(orig.subrange(0, n as int) =~= orig);
        }
    }
}

impl Default for SyncedPlayerCommandsList {
    fn default() -> (r: Self)
        ensures
            r@ == Seq::<(Tick, SyncedPlayerCommandView)>::empty(),
            r.wf(),
    {
        SyncedPlayerCommandsList::new()
    }
}

/// Updating one position in a sorted ledger keeps it sorted, commits the
/// new entry under its tick, and leaves every other tick's lookup alone.
proof fn lemma_ledger_update_keeps_form(
    pre: Seq<(Tick, SyncedPlayerCommandView)>,
    i: int,
    tick: Tick,
    ev: SyncedPlayerCommandView,
)
    requires
        spec_ledger_sorted(pre),
        0 <= i < pre.len(),
        pre[i].0 == tick,
    ensures
        spec_ledger_sorted(pre.update(i, (tick, ev))),
        spec_assoc_lookup(pre.update(i, (tick, ev)), tick) == Some(ev),
        forall|t: Tick|
            t != tick ==> #[trigger] spec_assoc_lookup(pre.update(i, (tick, ev)), t)
                == spec_assoc_lookup(pre, t),
{
    let post = pre.update(i, (tick, ev));
    assert(spec_ledger_sorted(post));
    lemma_assoc_lookup_some(post, tick, i);
    assert forall|t: Tick| t != tick implies #[trigger] spec_assoc_lookup(post, t)
        == spec_assoc_lookup(pre, t) by {
        lemma_assoc_lookup_finds(pre, t);
        lemma_assoc_lookup_finds(post, t);
        match spec_assoc_lookup(pre, t) {
            Some(v) => {
                let j = choose|j: int| 0 <= j < pre.len() && #[trigger] pre[j] == (t, v);
                assert(post[j] == (t, v));
                assert(forall|k: int| 0 <= k < j ==> (#[trigger] post[k]).0 != t);
                lemma_assoc_lookup_some(post, t, j);
            },
            None => {
                assert(forall|k: int| 0 <= k < post.len() ==> (#[trigger] post[k]).0 != t);
                lemma_assoc_lookup_none(post, t);
            },
        }
    }
}

/// Inserting a fresh tick at its sorted position keeps the ledger sorted,
/// commits the entry, and leaves every other tick's lookup alone.
proof fn lemma_ledger_insert_keeps_form(
    pre: Seq<(Tick, SyncedPlayerCommandView)>,
    i: int,
    tick: Tick,
    ev: SyncedPlayerCommandView,
)
    requires
        spec_ledger_sorted(pre),
        0 <= i <= pre.len(),
        forall|j: int| 0 <= j < i ==> (#[trigger] pre[j]).0.0 < tick.0,
        i < pre.len() ==> pre[i].0.0 > tick.0,
    ensures
        spec_ledger_sorted(pre.insert(i, (tick, ev))),
        spec_assoc_lookup(pre.insert(i, (tick, ev)), tick) == Some(ev),
        forall|t: Tick|
            t != tick ==> #[trigger] spec_assoc_lookup(pre.insert(i, (tick, ev)), t)
                == spec_assoc_lookup(pre, t),
{
    let post = pre.insert(i, (tick, ev));
    assert(forall|k: int| 0 <= k < i ==> post[k] == pre[k]);
    assert(forall|k: int| i < k < post.len() ==> post[k] == pre[k - 1]);
    assert(post[i] == (tick, ev));
    assert forall|a: int, b: int| 0 <= a < b < post.len() implies (#[trigger] post[a]).0.0 < (
    #[trigger] post[b]).0.0 by {
        if a == i && b > i {
            assert(post[b] == pre[b - 1]);
        }
    }
    lemma_assoc_lookup_some(post, tick, i);
    assert forall|t: Tick| t != tick implies #[trigger] spec_assoc_lookup(post, t)
        == spec_assoc_lookup(pre, t) by {
        lemma_assoc_lookup_finds(pre, t);
        lemma_assoc_lookup_finds(post, t);
        match spec_assoc_lookup(pre, t) {
            Some(v) => {
                let j = choose|j: int| 0 <= j < pre.len() && #[trigger] pre[j] == (t, v);
                let j2 = if j < i {
                    j
                } else {
                    j + 1
                };
                assert(post[j2] == (t, v));
                assert(forall|k: int| 0 <= k < j2 ==> (#[trigger] post[k]).0 != t);
                lemma_assoc_lookup_some(post, t, j2);
            },
            None => {
                assert(forall|k: int| 0 <= k < post.len() ==> (#[trigger] post[k]).0 != t);
                lemma_assoc_lookup_none(post, t);
            },
        }
    }
}

/// The coordinator's ledger, with the merge operation that files a
/// participant's batch under its declared tick.
#[derive(Debug)]
pub struct ServerSyncedPlayerCommandsList(pub SyncedPlayerCommandsList);

impl ServerSyncedPlayerCommandsList {
    /// Appends `commands` from `player_id` to the entry for `tick`,
    /// creating the entry (committed at `now`) if it is absent.
    pub fn add_command(
        &mut self,
        tick: Tick,
        player_id: PlayerId,
        commands: Vec<PlayerCommand>,
        now: MyDateTime,
    )
        requires
            old(self).0.wf(),
        ensures
            final(self).0.wf(),
            spec_assoc_lookup(final(self).0@, tick) == Some(
                match spec_assoc_lookup(old(self).0@, tick) {
                    Some(e) => SyncedPlayerCommandView {
                        commands: e.commands.push((player_id, spec_batch_view(commands))),
                        time: e.time,
                    },
                    None => SyncedPlayerCommandView {
                        commands: seq![(player_id, spec_batch_view(commands))],
                        time: now,
                    },
                },
            ),
            forall|t: Tick|
                t != tick ==> #[trigger] spec_assoc_lookup(final(self).0@, t) == spec_assoc_lookup(
                    old(self).0@,
                    t,
                ),
    {
        let ghost cv = spec_batch_view(commands);
        let updated: SyncedPlayerCommand = match self.0.lookup_entry(tick) {
            Some(e) => {
                let mut d = e.duplicate();
                d.0.push_batch(player_id, commands);
                d
            },
            None => {
                let mut l = PlayerCommandsList::new();
                l.push_batch(player_id, commands);
                proof {
                    assert(l@ =~= seq![(player_id, cv)]);
                }
                SyncedPlayerCommand(l, now)
            },
        };
        self.0.insert(tick, updated);
    }
}

impl Default for ServerSyncedPlayerCommandsList {
    fn default() -> (r: Self)
        ensures
            r.0@ == Seq::<(Tick, SyncedPlayerCommandView)>::empty(),
            r.0.wf(),
    {
        ServerSyncedPlayerCommandsList(SyncedPlayerCommandsList::new())
    }
}

} // verus!
