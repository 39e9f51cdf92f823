//! The poll-cycle engine: a state machine that is told what happened
//! (checkpoint loaded, messages fetched, delivery done, checkpoint saved)
//! and answers with the next thing to do. The caller performs the I/O.
use vstd::prelude::*;
use crate::checkpoint::{Marker, marker_lt, is_after, after_checkpoint};
use crate::message::{Message, key};
use crate::format::{NotificationPayload, format_message, preview_of};

verus! {

/// Why loading or saving the checkpoint failed.
#[derive(Clone, Copy, Debug, PartialEq, Eq, Structural)]
pub enum StoreError {
    Io,
}

/// Failures of the mailbox reader.
#[derive(Clone, Copy, Debug, PartialEq, Eq, Structural)]
pub enum FetchError {
    /// Network or TLS failure; retried next cycle.
    Connection,
    /// Credentials rejected; ends the process.
    Auth,
    /// Malformed server response; retried next cycle.
    Protocol,
}

/// Failures of the delivery client.
#[derive(Clone, Copy, Debug, PartialEq, Eq, Structural)]
pub enum DeliveryError {
    /// Connection refused or timed out; retried next cycle.
    Unreachable,
    /// The gateway answered with a non-success status; retried next cycle.
    Rejected,
    /// The payload could not be serialised: a defect, ends the process.
    Malformed,
}

/// How a cycle ended.
#[derive(Clone, Copy, Debug, PartialEq, Eq, Structural)]
pub enum CycleOutcome {
    Success,
    StorageFailed,
    FetchFailed,
    AuthFailed,
    DeliveryFailed,
    DeliveryDefect,
}

/// Where the engine stands within a cycle.
#[derive(Clone, Copy, Debug, PartialEq, Eq, Structural)]
pub enum Phase {
    Idle,
    Loading,
    Fetching,
    Delivering,
    Saving,
    Done(CycleOutcome),
}

/// What the caller is to do next.
#[derive(Debug)]
pub enum Action {
    /// Read the durable checkpoint and report it with `on_loaded`.
    Load,
    /// Ask the mailbox for messages after this marker; report with `on_fetched`.
    Fetch(Option<Marker>),
    /// Send this payload to the gateway; report with `on_delivered`.
    Deliver(NotificationPayload),
    /// Persist this checkpoint; report with `on_saved`.
    Save(Marker),
    /// The cycle is over.
    Finish(CycleOutcome),
    /// The event does not fit the current phase; nothing changed.
    Reject,
}

/// Markers in strictly increasing mailbox order (hence pairwise distinct).
pub open spec fn ascending(s: Seq<Marker>) -> bool {
    forall|i: int, j: int| 0 <= i < j < s.len() ==> marker_lt(s[i], s[j])
}

pub open spec fn all_after(s: Seq<Marker>, cp: Option<Marker>) -> bool {
    forall|i: int| 0 <= i < s.len() ==> is_after(#[trigger] s[i], cp)
}

pub open spec fn keys_of(s: Seq<Message>) -> Seq<Marker> {
    s.map_values(|m: Message| key(m))
}

/// The messages a cycle takes from a fetched list: walking it in order,
/// each one strictly after the checkpoint and after every one taken so far.
pub open spec fn take_new(ks: Seq<Marker>, floor: Option<Marker>) -> Seq<Marker>
    decreases ks.len(),
{
    if ks.len() == 0 {
        Seq::empty()
    } else if is_after(ks[0], floor) {
        seq![ks[0]] + take_new(ks.drop_first(), Some(ks[0]))
    } else {
        take_new(ks.drop_first(), floor)
    }
}

/// The abstract state of the engine.
pub struct EngineModel {
    pub phase: Phase,
    /// Marker of the last message known delivered.
    pub checkpoint: Option<Marker>,
    /// The checkpoint this cycle started from.
    pub origin: Option<Marker>,
    /// Messages still to deliver this cycle, head first.
    pub queue: Seq<Marker>,
    /// Messages delivered this cycle, in order.
    pub delivered: Seq<Marker>,
}

pub open spec fn finished(s: EngineModel, o: CycleOutcome) -> EngineModel {
    EngineModel { phase: Phase::Done(o), ..s }
}

pub open spec fn model_start(s: EngineModel) -> EngineModel {
    if s.phase is Idle || s.phase is Done {
        EngineModel {
            phase: Phase::Loading,
            checkpoint: s.checkpoint,
            origin: s.checkpoint,
            queue: Seq::empty(),
            delivered: Seq::empty(),
        }
    } else {
        s
    }
}

pub open spec fn model_loaded(s: EngineModel, r: Result<Option<Marker>, StoreError>) -> EngineModel {
    if s.phase is Loading {
        match r {
            Ok(cp) => EngineModel {
                phase: Phase::Fetching,
                checkpoint: cp,
                origin: cp,
                queue: Seq::empty(),
                delivered: Seq::empty(),
            },
            Err(_) => finished(s, CycleOutcome::StorageFailed),
        }
    } else {
        s
    }
}

pub open spec fn model_fetched(s: EngineModel, r: Result<Seq<Marker>, FetchError>) -> EngineModel {
    if s.phase is Fetching {
        match r {
            Ok(ks) => {
                let q = take_new(ks, s.checkpoint);
                EngineModel {
                    phase: if q.len() == 0 {
                        Phase::Done(CycleOutcome::Success)
                    } else {
                        Phase::Delivering
                    },
                    queue: q,
                    ..s
                }
            },
            Err(FetchError::Auth) => finished(s, CycleOutcome::AuthFailed),
            Err(_) => finished(s, CycleOutcome::FetchFailed),
        }
    } else {
        s
    }
}

pub open spec fn model_delivered(s: EngineModel, r: Result<(), DeliveryError>) -> EngineModel {
    if s.phase is Delivering && s.queue.len() > 0 {
        match r {
            Ok(_) => EngineModel {
                phase: Phase::Saving,
                checkpoint: Some(s.queue[0]),
                origin: s.origin,
                queue: s.queue.drop_first(),
                delivered: s.delivered.push(s.queue[0]),
            },
            Err(DeliveryError::Malformed) => finished(s, CycleOutcome::DeliveryDefect),
            Err(_) => finished(s, CycleOutcome::DeliveryFailed),
        }
    } else {
        s
    }
}

pub open spec fn model_saved(s: EngineModel, r: Result<(), StoreError>) -> EngineModel {
    if s.phase is Saving {
        match r {
            Ok(_) => EngineModel {
                phase: if s.queue.len() == 0 {
                    Phase::Done(CycleOutcome::Success)
                } else {
                    Phase::Delivering
                },
                ..s
            },
            Err(_) => finished(s, CycleOutcome::StorageFailed),
        }
    } else {
        s
    }
}

/// The invariant of every reachable state: nothing is delivered twice in a
/// cycle, the checkpoint is the cycle's starting point or the last message
/// delivered, and everything still queued lies after the checkpoint.
pub open spec fn model_wf(s: EngineModel) -> bool {
    &&& ascending(s.delivered)
    &&& all_after(s.delivered, s.origin)
    &&& s.delivered.len() == 0 ==> s.checkpoint == s.origin
    &&& s.delivered.len() > 0 ==> s.checkpoint == Some(s.delivered.last())
    &&& ascending(s.queue)
    &&& all_after(s.queue, s.checkpoint)
    &&& s.phase is Delivering ==> s.queue.len() > 0
    &&& s.phase is Saving ==> s.delivered.len() > 0
    &&& (s.phase is Idle || s.phase is Loading || s.phase is Fetching) ==> s.queue.len() == 0
        && s.delivered.len() == 0
}

/// `p` is the notification for `m` with previews of at most `limit` characters.
pub open spec fn payload_for(p: NotificationPayload, m: Message, limit: usize) -> bool {
    &&& p.sender@ == m.sender@
    &&& p.subject@ == m.subject@
    &&& p.timestamp == m.timestamp
    &&& p.preview@ == preview_of(m.body@, limit as nat)
}

/// What `take_new` keeps is in strictly increasing order and after the floor.
pub proof fn lemma_take_new_ordered(ks: Seq<Marker>, floor: Option<Marker>)
    ensures
        ascending(take_new(ks, floor)),
        all_after(take_new(ks, floor), floor),
    decreases ks.len(),
{
    if ks.len() > 0 {
        let rest = ks.drop_first();
        if is_after(ks[0], floor) {
            lemma_take_new_ordered(rest, Some(ks[0]));
            let t = take_new(rest, Some(ks[0]));
            let r = seq![ks[0]] + t;
            assert forall|i: int| 0 <= i < r.len() implies is_after(#[trigger] r[i], floor) by {
                if i > 0 {
                    assert(r[i] == t[i - 1]);
                    assert(is_after(t[i - 1], Some(ks[0])));
                }
            }
            assert forall|i: int, j: int| 0 <= i < j < r.len() implies marker_lt(r[i], r[j]) by {
                assert(r[j] == t[j - 1]);
                assert(is_after(t[j - 1], Some(ks[0])));
                if i > 0 {
                    assert(r[i] == t[i - 1]);
                }
            }
        } else {
            lemma_take_new_ordered(rest, floor);
        }
    }
}

/// A fetched list that is already strictly increasing and after the
/// checkpoint is taken whole.
pub proof fn lemma_take_new_keeps_ordered(ks: Seq<Marker>, floor: Option<Marker>)
    requires
        ascending(ks),
        all_after(ks, floor),
    ensures
        take_new(ks, floor) == ks,
    decreases ks.len(),
{
    if ks.len() > 0 {
        let rest = ks.drop_first();
        assert forall|i: int| 0 <= i < rest.len() implies is_after(#[trigger] rest[i], Some(ks[0])) by {
            assert(rest[i] == ks[i + 1]);
        }
        assert(ascending(rest)) by {
            assert forall|i: int, j: int| 0 <= i < j < rest.len() implies marker_lt(rest[i], rest[j]) by {
                assert(rest[i] == ks[i + 1] && rest[j] == ks[j + 1]);
            }
        }
        lemma_take_new_keeps_ordered(rest, Some(ks[0]));
        assert(seq![ks[0]] + rest =~= ks);
    }
}

/// Messages taken from `msgs`, in order, by the rule of `take_new`.
fn take_new_messages(msgs: Vec<Message>, floor: Option<Marker>) -> (r: Vec<Message>)
    ensures
        keys_of(r@) == take_new(keys_of(msgs@), floor),
{
    let ghost all = keys_of(msgs@);
    let mut rest = msgs;
    let mut out: Vec<Message> = Vec::new();
    let mut f = floor;
    assert(keys_of(out@) =~= Seq::<Marker>::empty());
    while rest.len() > 0
        invariant
            keys_of(out@) + take_new(keys_of(rest@), f) == take_new(all, floor),
        decreases rest@.len(),
    {
        let ghost before = rest@;
        let m = rest.remove(0);
        assert(keys_of(before).drop_first() =~= keys_of(rest@));
        assert(keys_of(before)[0] == key(m));
        let mk = m.marker();
        if after_checkpoint(&mk, &f) {
            let ghost o = out@;
            out.push(m);
            assert(keys_of(out@) =~= keys_of(o).push(mk));
            assert(keys_of(o) + (seq![mk] + take_new(keys_of(rest@), Some(mk))) =~= keys_of(out@)
                + take_new(keys_of(rest@), Some(mk)));
            f = Some(mk);
        }
    }
    assert(take_new(keys_of(rest@), f) == Seq::<Marker>::empty());
    assert(keys_of(out@) + Seq::<Marker>::empty() =~= keys_of(out@));
    out
}

/// The fetch result as the model sees it.
pub open spec fn fetched_keys(r: Result<Vec<Message>, FetchError>) -> Result<Seq<Marker>, FetchError> {
    match r {
        Ok(v) => Ok(keys_of(v@)),
        Err(e) => Err(e),
    }
}

/// An event reported to the engine.
pub enum Event {
    Start,
    Loaded(Result<Option<Marker>, StoreError>),
    Fetched(Result<Vec<Message>, FetchError>),
    Delivered(Result<(), DeliveryError>),
    Saved(Result<(), StoreError>),
}

pub open spec fn model_step(s: EngineModel, e: Event) -> EngineModel {
    match e {
        Event::Start => model_start(s),
        Event::Loaded(r) => model_loaded(s, r),
        Event::Fetched(r) => model_fetched(s, fetched_keys(r)),
        Event::Delivered(r) => model_delivered(s, r),
        Event::Saved(r) => model_saved(s, r),
    }
}

/// One message delivered and its checkpoint saved, both successfully.
pub open spec fn deliver_round(s: EngineModel) -> EngineModel {
    model_saved(model_delivered(s, Ok(())), Ok(()))
}

pub open spec fn deliver_rounds(s: EngineModel, n: nat) -> EngineModel
    decreases n,
{
    if n == 0 {
        s
    } else {
        deliver_rounds(deliver_round(s), (n - 1) as nat)
    }
}

/// After `j` successful rounds from a delivering state, the first `j`
/// queued messages are delivered, in order, and the checkpoint is the
/// last of them; once the queue is exhausted the cycle has succeeded.
pub proof fn lemma_rounds(s: EngineModel, j: nat)
    requires
        s.phase is Delivering,
        0 < s.queue.len(),
        j <= s.queue.len(),
    ensures
        deliver_rounds(s, j).queue == s.queue.skip(j as int),
        deliver_rounds(s, j).delivered == s.delivered + s.queue.take(j as int),
        j == 0 ==> deliver_rounds(s, j).checkpoint == s.checkpoint,
        j > 0 ==> deliver_rounds(s, j).checkpoint == Some(s.queue[j - 1]),
        j < s.queue.len() ==> deliver_rounds(s, j).phase is Delivering,
        j == s.queue.len() ==> deliver_rounds(s, j).phase == Phase::Done(CycleOutcome::Success),
    decreases j,
{
    let q = s.queue;
    if j == 0 {
        assert(q.skip(0) =~= q);
        assert(s.delivered + q.take(0) =~= s.delivered);
    } else {
        let r = deliver_round(s);
        assert(r.queue == q.drop_first());
        if q.len() == 1 {
            assert(deliver_rounds(r, 0) == r);
            assert(q.drop_first() =~= q.skip(1));
            assert(s.delivered.push(q[0]) =~= s.delivered + q.take(1));
        } else {
            lemma_rounds(r, (j - 1) as nat);
            assert(q.drop_first().skip(j - 1) =~= q.skip(j as int));
            assert(s.delivered.push(q[0]) + q.drop_first().take(j - 1) =~= s.delivered + q.take(
                j as int,
            ));
            if j > 1 {
                assert(q.drop_first()[j - 2] == q[j - 1]);
            }
        }
    }
}

/// A cycle whose deliveries and saves all succeed ends in success with
/// every newly fetched message delivered exactly once, in mailbox order,
/// and the checkpoint at the last of them. When the mailbox reader hands
/// over messages in strictly increasing order after the checkpoint, which
/// `fetch_since` guarantees, these are all of the fetched messages.
pub proof fn lemma_cycle_all_delivered(s: EngineModel, msgs: Seq<Message>)
    requires
        model_wf(s),
        s.phase is Fetching,
    ensures
        ({
            let q = take_new(keys_of(msgs), s.checkpoint);
            let t = deliver_rounds(model_fetched(s, Ok(keys_of(msgs))), q.len());
            &&& t.phase == Phase::Done(CycleOutcome::Success)
            &&& t.delivered == q
            &&& ascending(t.delivered)
            &&& q.len() > 0 ==> t.checkpoint == Some(q.last())
            &&& q.len() == 0 ==> t.checkpoint == s.checkpoint
            &&& (ascending(keys_of(msgs)) && all_after(keys_of(msgs), s.checkpoint)) ==> q
                == keys_of(msgs)
        }),
{
    let ks = keys_of(msgs);
    let q = take_new(ks, s.checkpoint);
    lemma_take_new_ordered(ks, s.checkpoint);
    let f = model_fetched(s, Ok(ks));
    if q.len() > 0 {
        lemma_rounds(f, q.len());
        assert(q.take(q.len() as int) =~= q);
        assert(s.delivered + q =~= q);
    }
    if ascending(ks) && all_after(ks, s.checkpoint) {
        lemma_take_new_keeps_ordered(ks, s.checkpoint);
    }
}

/// When the delivery of the `i`-th new message fails, the cycle fails with
/// exactly the messages before it delivered and the checkpoint at the one
/// just before it (or where the cycle started, for the first); the next
/// cycle, fetching the same messages from that checkpoint, starts again at
/// the `i`-th message, before any later one.
pub proof fn lemma_cycle_failure_at(
    s: EngineModel,
    msgs: Seq<Message>,
    i: nat,
    e: DeliveryError,
)
    requires
        model_wf(s),
        s.phase is Fetching,
        ascending(keys_of(msgs)),
        all_after(keys_of(msgs), s.checkpoint),
        i < msgs.len(),
        e != DeliveryError::Malformed,
    ensures
        ({
            let ks = keys_of(msgs);
            let t = model_delivered(deliver_rounds(model_fetched(s, Ok(ks)), i), Err(e));
            let u = model_fetched(model_loaded(model_start(t), Ok(t.checkpoint)), Ok(ks));
            &&& t.phase == Phase::Done(CycleOutcome::DeliveryFailed)
            &&& t.delivered == ks.take(i as int)
            &&& i == 0 ==> t.checkpoint == s.checkpoint
            &&& i > 0 ==> t.checkpoint == Some(ks[i - 1])
            &&& u.phase is Delivering
            &&& u.queue == ks.skip(i as int)
            &&& u.queue[0] == ks[i as int]
        }),
{
    let ks = keys_of(msgs);
    lemma_take_new_keeps_ordered(ks, s.checkpoint);
    let f = model_fetched(s, Ok(ks));
    lemma_rounds(f, i);
    assert(s.delivered + ks.take(i as int) =~= ks.take(i as int));
    let t = model_delivered(deliver_rounds(f, i), Err(e));
    let l = model_loaded(model_start(t), Ok(t.checkpoint));
    if i == 0 {
        assert(ks.skip(0) =~= ks);
    } else {
        lemma_take_new_skip(ks, i);
    }
}

/// From the marker of the `(i-1)`-th message of a strictly increasing list,
/// `take_new` keeps exactly the messages from the `i`-th on.
pub proof fn lemma_take_new_skip(ks: Seq<Marker>, i: nat)
    requires
        ascending(ks),
        0 < i <= ks.len(),
    ensures
        take_new(ks, Some(ks[i - 1])) == ks.skip(i as int),
    decreases i,
{
    let rest = ks.drop_first();
    assert(ascending(rest)) by {
        assert forall|a: int, b: int| 0 <= a < b < rest.len() implies marker_lt(rest[a], rest[b]) by {
            assert(rest[a] == ks[a + 1] && rest[b] == ks[b + 1]);
        }
    }
    if i == 1 {
        assert forall|k: int| 0 <= k < rest.len() implies is_after(#[trigger] rest[k], Some(ks[0])) by {
            assert(rest[k] == ks[k + 1]);
        }
        lemma_take_new_keeps_ordered(rest, Some(ks[0]));
        assert(rest =~= ks.skip(1));
    } else {
        assert(marker_lt(ks[0], ks[i - 1]));
        assert(rest[i - 2] == ks[i - 1]);
        lemma_take_new_skip(rest, (i - 1) as nat);
        assert(rest.skip(i - 1) =~= ks.skip(i as int));
    }
}

/// The engine's state-machine driver for one cycle at a time.
pub struct Engine {
    phase: Phase,
    checkpoint: Option<Marker>,
    origin: Option<Marker>,
    queue: Vec<Message>,
    delivered: Vec<Marker>,
    preview_len: usize,
}

impl Engine {
    pub closed spec fn model(&self) -> EngineModel {
        EngineModel {
            phase: self.phase,
            checkpoint: self.checkpoint,
            origin: self.origin,
            queue: keys_of(self.queue@),
            delivered: self.delivered@,
        }
    }

    pub closed spec fn spec_preview_len(&self) -> usize {
        self.preview_len
    }

    /// The message at the head of the queue.
    pub closed spec fn spec_head(&self) -> Message {
        self.queue@[0]
    }

    pub open spec fn wf(&self) -> bool {
        model_wf(self.model())
    }

    /// What the caller is owed after a transition into the current phase.
    pub open spec fn action_fits(&self, a: Action) -> bool {
        match self.model().phase {
            Phase::Idle => a is Reject,
            Phase::Loading => a is Load,
            Phase::Fetching => a == Action::Fetch(self.model().checkpoint),
            Phase::Delivering => a matches Action::Deliver(p) && payload_for(
                p,
                self.spec_head(),
                self.spec_preview_len(),
            ),
            Phase::Saving => self.model().checkpoint matches Some(c) && a == Action::Save(c),
            Phase::Done(o) => a == Action::Finish(o),
        }
    }

    /// An engine between cycles, with previews cut to `preview_len` characters.
    pub fn new(preview_len: usize) -> (r: Engine)
        ensures
            r.wf(),
            r.model().phase == Phase::Idle,
            r.model().checkpoint is None,
            r.spec_preview_len() == preview_len,
    {
        Engine {
            phase: Phase::Idle,
            checkpoint: None,
            origin: None,
            queue: Vec::new(),
            delivered: Vec::new(),
            preview_len,
        }
    }

    fn next_action(&self) -> (r: Action)
        requires
            self.wf(),
        ensures
            self.action_fits(r),
    {
        match self.phase {
            Phase::Idle => Action::Reject,
            Phase::Loading => Action::Load,
            Phase::Fetching => Action::Fetch(self.checkpoint),
            Phase::Delivering => Action::Deliver(format_message(&self.queue[0], self.preview_len)),
            Phase::Saving => {
                assert(self.delivered@.len() > 0);
                Action::Save(self.checkpoint.unwrap())
            },
            Phase::Done(o) => Action::Finish(o),
        }
    }

    /// Begins a cycle. Refused while one is running.
    pub fn start(&mut self) -> (r: Action)
        requires
            old(self).wf(),
        ensures
            final(self).wf(),
            final(self).model() == model_start(old(self).model()),
            final(self).spec_preview_len() == old(self).spec_preview_len(),
            old(self).model().phase is Idle || old(self).model().phase is Done ==> r is Load,
            !(old(self).model().phase is Idle || old(self).model().phase is Done) ==> r is Reject,
    {
        match self.phase {
            Phase::Idle | Phase::Done(_) => {
                self.phase = Phase::Loading;
                self.origin = self.checkpoint;
                self.queue = Vec::new();
                self.delivered = Vec::new();
                assert(keys_of(self.queue@) =~= Seq::<Marker>::empty());
                Action::Load
            },
            _ => Action::Reject,
        }
    }

    /// Reports the checkpoint read at the start of the cycle.
    pub fn on_loaded(&mut self, r: Result<Option<Marker>, StoreError>) -> (a: Action)
        requires
            old(self).wf(),
        ensures
            final(self).wf(),
            final(self).model() == model_loaded(old(self).model(), r),
            final(self).spec_preview_len() == old(self).spec_preview_len(),
            old(self).model().phase is Loading ==> final(self).action_fits(a),
            !(old(self).model().phase is Loading) ==> a is Reject,
    {
        if self.phase != Phase::Loading {
            return Action::Reject;
        }
        match r {
            Ok(cp) => {
                self.phase = Phase::Fetching;
                self.checkpoint = cp;
                self.origin = cp;
                self.queue = Vec::new();
                self.delivered = Vec::new();
                assert(keys_of(self.queue@) =~= Seq::<Marker>::empty());
            },
            Err(_) => {
                self.phase = Phase::Done(CycleOutcome::StorageFailed);
            },
        }
        self.next_action()
    }

    /// Reports what the mailbox returned. Only messages strictly after the
    /// checkpoint, each after the one before, are queued.
    pub fn on_fetched(&mut self, r: Result<Vec<Message>, FetchError>) -> (a: Action)
        requires
            old(self).wf(),
        ensures
            final(self).wf(),
            final(self).model() == model_fetched(old(self).model(), fetched_keys(r)),
            final(self).spec_preview_len() == old(self).spec_preview_len(),
            old(self).model().phase is Fetching ==> final(self).action_fits(a),
            !(old(self).model().phase is Fetching) ==> a is Reject,
    {
        if self.phase != Phase::Fetching {
            return Action::Reject;
        }
        match r {
            Ok(msgs) => {
                let ghost ks = keys_of(msgs@);
                let q = take_new_messages(msgs, self.checkpoint);
                proof {
                    lemma_take_new_ordered(ks, self.checkpoint);
                }
                self.phase = if q.len() == 0 {
                    Phase::Done(CycleOutcome::Success)
                } else {
                    Phase::Delivering
                };
                self.queue = q;
            },
            Err(FetchError::Auth) => {
                self.phase = Phase::Done(CycleOutcome::AuthFailed);
            },
            Err(_) => {
                self.phase = Phase::Done(CycleOutcome::FetchFailed);
            },
        }
        self.next_action()
    }

    /// Reports the gateway's answer for the message at the head of the
    /// queue. On success the checkpoint moves to that message at once.
    pub fn on_delivered(&mut self, r: Result<(), DeliveryError>) -> (a: Action)
        requires
            old(self).wf(),
        ensures
            final(self).wf(),
            final(self).model() == model_delivered(old(self).model(), r),
            final(self).spec_preview_len() == old(self).spec_preview_len(),
            old(self).model().phase is Delivering ==> final(self).action_fits(a),
            !(old(self).model().phase is Delivering) ==> a is Reject,
    {
        if self.phase != Phase::Delivering {
            return Action::Reject;
        }
        let ghost s = self.model();
        match r {
            Ok(_) => {
                let m = self.queue.remove(0);
                let mk = m.marker();
                assert(keys_of(old(self).queue@).drop_first() =~= keys_of(self.queue@));
                assert(s.queue[0] == mk);
                self.delivered.push(mk);
                self.checkpoint = Some(mk);
                self.phase = Phase::Saving;
                proof {
                    let q = s.queue;
                    let d = self.delivered@;
                    assert forall|i: int| 0 <= i < d.len() implies is_after(#[trigger] d[i], s.origin) by {
                        if i == d.len() - 1 {
                            if s.delivered.len() > 0 {
                                assert(is_after(mk, s.checkpoint));
                                assert(is_after(s.delivered.last(), s.origin));
                            }
                        } else {
                            assert(d[i] == s.delivered[i]);
                        }
                    }
                    assert forall|i: int, j: int| 0 <= i < j < d.len() implies marker_lt(d[i], d[j]) by {
                        assert(d[i] == s.delivered[i]);
                        if j == d.len() - 1 {
                            assert(is_after(mk, s.checkpoint));
                            assert(s.checkpoint == Some(s.delivered.last()));
                            if i < s.delivered.len() - 1 {
                                assert(marker_lt(s.delivered[i], s.delivered[s.delivered.len() - 1]));
                            }
                        } else {
                            assert(d[j] == s.delivered[j]);
                        }
                    }
                    let nq = q.drop_first();
                    assert forall|i: int| 0 <= i < nq.len() implies is_after(#[trigger] nq[i], Some(mk)) by {
                        assert(nq[i] == q[i + 1]);
                    }
                    assert forall|i: int, j: int| 0 <= i < j < nq.len() implies marker_lt(nq[i], nq[j]) by {
                        assert(nq[i] == q[i + 1] && nq[j] == q[j + 1]);
                    }
                }
            },
            Err(DeliveryError::Malformed) => {
                self.phase = Phase::Done(CycleOutcome::DeliveryDefect);
            },
            Err(_) => {
                self.phase = Phase::Done(CycleOutcome::DeliveryFailed);
            },
        }
        self.next_action()
    }

    /// Reports whether persisting the checkpoint succeeded.
    pub fn on_saved(&mut self, r: Result<(), StoreError>) -> (a: Action)
        requires
            old(self).wf(),
        ensures
            final(self).wf(),
            final(self).model() == model_saved(old(self).model(), r),
            final(self).spec_preview_len() == old(self).spec_preview_len(),
            old(self).model().phase is Saving ==> final(self).action_fits(a),
            !(old(self).model().phase is Saving) ==> a is Reject,
    {
        if self.phase != Phase::Saving {
            return Action::Reject;
        }
        match r {
            Ok(_) => {
                self.phase = if self.queue.len() == 0 {
                    Phase::Done(CycleOutcome::Success)
                } else {
                    Phase::Delivering
                };
            },
            Err(_) => {
                self.phase = Phase::Done(CycleOutcome::StorageFailed);
            },
        }
        self.next_action()
    }

    /// Feeds one event to the engine and returns what to do next.
    pub fn step(&mut self, e: Event) -> (a: Action)
        requires
            old(self).wf(),
        ensures
            final(self).wf(),
            final(self).model() == model_step(old(self).model(), e),
            final(self).spec_preview_len() == old(self).spec_preview_len(),
            final(self).model() != old(self).model() ==> final(self).action_fits(a),
            final(self).model() == old(self).model() ==> a is Reject,
    {
        match e {
            Event::Start => self.start(),
            Event::Loaded(r) => self.on_loaded(r),
            Event::Fetched(r) => self.on_fetched(r),
            Event::Delivered(r) => self.on_delivered(r),
            Event::Saved(r) => self.on_saved(r),
        }
    }

    /// The current phase.
    pub fn phase(&self) -> (r: Phase)
        ensures
            r == self.model().phase,
    {
        self.phase
    }

    /// Marker of the last message known delivered.
    pub fn checkpoint(&self) -> (r: Option<Marker>)
        ensures
            r == self.model().checkpoint,
    {
        self.checkpoint
    }

    /// Markers delivered during the current (or last) cycle, in order.
    pub fn delivered(&self) -> (r: &Vec<Marker>)
        ensures
            r@ == self.model().delivered,
    {
        &self.delivered
    }

    /// How many messages are still queued in this cycle.
    pub fn pending(&self) -> (r: usize)
        ensures
            r == self.model().queue.len(),
    {
        self.queue.len()
    }
}

/// Exit status when a cycle fails in run-once mode.
pub const EXIT_CYCLE_FAILED: i32 = 1;

/// Exit status when the configuration lacks a credential.
pub const EXIT_CONFIG: i32 = 2;

/// Exit status when the mailbox rejects the credentials.
pub const EXIT_AUTH: i32 = 3;

/// Exit status when a payload could not be serialised.
pub const EXIT_DEFECT: i32 = 4;

impl CycleOutcome {
    /// Outcomes that retrying cannot mend: they end the process.
    pub fn is_fatal(&self) -> (r: bool)
        ensures
            r <==> (*self == CycleOutcome::AuthFailed || *self == CycleOutcome::DeliveryDefect),
    {
        match self {
            CycleOutcome::AuthFailed | CycleOutcome::DeliveryDefect => true,
            _ => false,
        }
    }
}

/// What the scheduling loop does once a cycle has finished.
#[derive(Clone, Copy, Debug, PartialEq, Eq, Structural)]
pub enum NextStep {
    /// Sleep for the check interval, then start the next cycle.
    SleepThenRepeat,
    /// End the process with this status.
    Exit(i32),
}

/// The scheduling decision after a cycle: fatal outcomes end the process
/// with their own status; otherwise a continuous run sleeps and repeats,
/// and a single run ends, with status zero only on success.
pub fn after_cycle(outcome: CycleOutcome, run_once: bool) -> (r: NextStep)
    ensures
        outcome == CycleOutcome::AuthFailed ==> r == NextStep::Exit(EXIT_AUTH),
        outcome == CycleOutcome::DeliveryDefect ==> r == NextStep::Exit(EXIT_DEFECT),
        !(outcome == CycleOutcome::AuthFailed || outcome == CycleOutcome::DeliveryDefect) ==> (
        if !run_once {
            r == NextStep::SleepThenRepeat
        } else if outcome == CycleOutcome::Success {
            r == NextStep::Exit(0)
        } else {
            r == NextStep::Exit(EXIT_CYCLE_FAILED)
        }),
{
    match outcome {
        CycleOutcome::AuthFailed => NextStep::Exit(EXIT_AUTH),
        CycleOutcome::DeliveryDefect => NextStep::Exit(EXIT_DEFECT),
        CycleOutcome::Success => if run_once {
            NextStep::Exit(0)
        } else {
            NextStep::SleepThenRepeat
        },
        _ => if run_once {
            NextStep::Exit(EXIT_CYCLE_FAILED)
        } else {
            NextStep::SleepThenRepeat
        },
    }
}

} // verus!
