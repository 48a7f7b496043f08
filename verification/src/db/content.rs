//! What happens to an event and its content: the state an inserted event's
//! content is in, whether it is wanted, and the schedule of fetches for
//! missing content.
use vstd::prelude::*;
use crate::db::keys::{set_of, time_set_insert, time_set_remove, ShortEventId, TimeKey, Timestamp};
use crate::kv::{has_key, key_index, keys_unique, lemma_key_index, lemma_put, lemma_remove, put, remove_key, value_at};

verus! {

/// Content longer than this is not stored.
pub const MAX_CONTENT_LEN: u32 = 10000000;

/// What inserting an event did.
pub enum InsertEventOutcome {
    /// An event already existed, so it changed nothing
    AlreadyPresent,
    Inserted {
        /// An event already had a child reporting its existence.
        was_missing: bool,
        /// This event was already marked as deleted by some processed
        /// children event.
        is_deleted: bool,
        /// An existing parent event had its content marked as deleted by
        /// this event.
        deleted_parent: Option<ShortEventId>,
        /// Parent content to be reverted.
        reverted_parent_content: Option<Vec<u8>>,
        /// Ids of parents we don't have yet, so they are now marked as
        /// "missing".
        missing_parents: Vec<ShortEventId>,
    },
}

impl InsertEventOutcome {
    /// Reverted content always comes with the parent whose deletion
    /// reverted it.
    pub open spec fn is_valid(&self) -> bool {
        match self {
            InsertEventOutcome::AlreadyPresent => true,
            InsertEventOutcome::Inserted { deleted_parent, reverted_parent_content, .. } => {
                reverted_parent_content is Some ==> deleted_parent is Some
            },
        }
    }

    /// Checks the outcome's consistency (an inconsistent one is a bug that
    /// stops the program); returns it unchanged.
    pub fn validate(self) -> (r: Self)
        requires
            self.is_valid(),
        ensures
            r == self,
    {
        self
    }
}

/// The state of an event's content after the event is processed.
#[derive(Clone, Copy, PartialEq, Eq, Structural)]
pub enum ProcessEventState {
    New,
    Existing,
    Pruned,
    Deleted,
    NoContent,
}

/// Whether an event's content is wanted.
#[derive(Clone, Copy, PartialEq, Eq, Structural)]
pub enum ContentWantState {
    Wants,
    MaybeWants,
    DoesNotWant,
}

impl ProcessEventState {
    /// New content is wanted, existing content maybe, and pruned, deleted
    /// or absent content not.
    pub open spec fn spec_wants_content(self) -> ContentWantState {
        match self {
            ProcessEventState::New => ContentWantState::Wants,
            ProcessEventState::Existing => ContentWantState::MaybeWants,
            _ => ContentWantState::DoesNotWant,
        }
    }

    /// Whether the content of an event in this state is wanted.
    pub fn wants_content(self) -> (r: ContentWantState)
        ensures
            r == self.spec_wants_content(),
    {
        match self {
            ProcessEventState::New => ContentWantState::Wants,
            ProcessEventState::Existing => ContentWantState::MaybeWants,
            ProcessEventState::Pruned => ContentWantState::DoesNotWant,
            ProcessEventState::Deleted => ContentWantState::DoesNotWant,
            ProcessEventState::NoContent => ContentWantState::DoesNotWant,
        }
    }
}

/// The content state after inserting an event: none for an event without
/// content; too long content is pruned (or was deleted when there was
/// nothing to prune); else an existing event's content exists, a deleted
/// one's is deleted, and a new one's is new.
pub open spec fn spec_process_event_state(
    outcome_present: bool,
    outcome_deleted: bool,
    content_hash_is_zero: bool,
    content_len: u32,
    pruned: bool,
) -> ProcessEventState {
    if content_hash_is_zero {
        ProcessEventState::NoContent
    } else if MAX_CONTENT_LEN < content_len {
        if pruned {
            ProcessEventState::Pruned
        } else {
            ProcessEventState::Deleted
        }
    } else if outcome_present {
        ProcessEventState::Existing
    } else if outcome_deleted {
        ProcessEventState::Deleted
    } else {
        ProcessEventState::New
    }
}

/// Decides the content state of a processed event; `pruned` is whether
/// pruning the too-long content removed anything.
pub fn process_event_state(
    outcome: &InsertEventOutcome,
    content_hash_is_zero: bool,
    content_len: u32,
    pruned: bool,
) -> (r: ProcessEventState)
    ensures
        r == spec_process_event_state(
            outcome is AlreadyPresent,
            *outcome matches InsertEventOutcome::Inserted { is_deleted, .. } && is_deleted,
            content_hash_is_zero,
            content_len,
            pruned,
        ),
{
    if content_hash_is_zero {
        ProcessEventState::NoContent
    } else if MAX_CONTENT_LEN < content_len {
        if pruned {
            ProcessEventState::Pruned
        } else {
            ProcessEventState::Deleted
        }
    } else {
        match outcome {
            InsertEventOutcome::AlreadyPresent => ProcessEventState::Existing,
            InsertEventOutcome::Inserted { is_deleted, .. } => {
                if *is_deleted {
                    ProcessEventState::Deleted
                } else {
                    ProcessEventState::New
                }
            },
        }
    }
}

/// What processing an inserted event leads to besides its content state.
pub struct EventEffects {
    /// Record the event among the local identity's own events.
    pub record_self_event: bool,
    /// The event is the local identity's new head.
    pub new_self_head: bool,
    /// Some parents are missing; their author's events are to be fetched.
    pub has_missing_parents: bool,
    /// The content of this parent is to be reverted.
    pub revert_parent: Option<ShortEventId>,
    /// The event's content is to be marked missing.
    pub mark_content_missing: bool,
}

/// Decides the effects of an inserted event: an event not already deleted
/// by the local identity is recorded as its own, and is its new head unless
/// a child had already announced it; parents not present are fetched;
/// reverted parent content is reverted; new content is marked missing.
pub fn event_effects(outcome: &InsertEventOutcome, authored_by_self: bool, state: ProcessEventState) -> (r: EventEffects)
    requires
        outcome.is_valid(),
    ensures
        match *outcome {
            InsertEventOutcome::AlreadyPresent => {
                &&& !r.record_self_event
                &&& !r.new_self_head
                &&& !r.has_missing_parents
                &&& r.revert_parent is None
            },
            InsertEventOutcome::Inserted { was_missing, is_deleted, deleted_parent, reverted_parent_content, missing_parents } => {
                &&& r.record_self_event == (!is_deleted && authored_by_self)
                &&& r.new_self_head == (!is_deleted && authored_by_self && !was_missing)
                &&& r.has_missing_parents == (missing_parents.len() > 0)
                &&& r.revert_parent == if reverted_parent_content is Some {
                    deleted_parent
                } else {
                    None
                }
            },
        },
        r.mark_content_missing == (state == ProcessEventState::New),
{
    let mark_content_missing = state == ProcessEventState::New;
    match outcome {
        InsertEventOutcome::AlreadyPresent => EventEffects {
            record_self_event: false,
            new_self_head: false,
            has_missing_parents: false,
            revert_parent: None,
            mark_content_missing,
        },
        InsertEventOutcome::Inserted { was_missing, is_deleted, deleted_parent, reverted_parent_content, missing_parents } => {
            let own = !*is_deleted && authored_by_self;
            EventEffects {
                record_self_event: own,
                new_self_head: own && !*was_missing,
                has_missing_parents: missing_parents.len() > 0,
                revert_parent: if reverted_parent_content.is_some() {
                    *deleted_parent
                } else {
                    None
                },
                mark_content_missing,
            }
        },
    }
}

/// Whether content is wanted: as the state says, and for existing events
/// when the event is known and its content is not held yet.
pub open spec fn spec_content_wanted(state: ProcessEventState, event_known: bool, has_content: bool) -> bool {
    match state.spec_wants_content() {
        ContentWantState::DoesNotWant => false,
        ContentWantState::Wants => true,
        ContentWantState::MaybeWants => event_known && !has_content,
    }
}

/// Decides whether an event's content is wanted.
pub fn content_wanted(state: ProcessEventState, event_known: bool, has_content: bool) -> (r: bool)
    ensures
        r == spec_content_wanted(state, event_known, has_content),
{
    match state.wants_content() {
        ContentWantState::DoesNotWant => false,
        ContentWantState::Wants => true,
        ContentWantState::MaybeWants => event_known && !has_content,
    }
}

/// How stored content is recorded.
#[derive(Clone, Copy, PartialEq, Eq, Structural)]
pub enum StoreRecord {
    Present,
    Invalid,
}

/// What processing received content does.
pub struct ContentPlan {
    /// Apply the content's side effects and clear its processing marker.
    pub process: bool,
    /// Store the content, and how.
    pub store: Option<StoreRecord>,
}

/// Decides what to do with received content: nothing for an unknown event;
/// content within the size limit whose state allows it is processed, and
/// stored (as valid or invalid) unless the store already has it.
pub fn content_plan(
    has_event: bool,
    content_len: u32,
    state_allows: bool,
    has_payload: bool,
    side_effects_valid: bool,
    already_stored: bool,
) -> (r: ContentPlan)
    ensures
        r.process == (has_event && content_len < MAX_CONTENT_LEN && state_allows && has_payload),
        r.store == if r.process && !already_stored {
            Some(
                if side_effects_valid {
                    StoreRecord::Present
                } else {
                    StoreRecord::Invalid
                },
            )
        } else {
            None
        },
{
    let process = has_event && content_len < MAX_CONTENT_LEN && state_allows && has_payload;
    let store = if process && !already_stored {
        Some(if side_effects_valid { StoreRecord::Present } else { StoreRecord::Invalid })
    } else {
        None
    };
    ContentPlan { process, store }
}

// ---------------------------------------------------------------------------
// missing content
// ---------------------------------------------------------------------------

/// The per-event content state kept while content is not simply present.
#[derive(Clone, Copy, PartialEq, Eq, Structural)]
pub enum EventContentState {
    /// The content is missing and scheduled for fetching.
    Missing { last_fetch_attempt: Option<Timestamp>, fetch_attempt_count: u16, next_fetch_attempt: Timestamp },
    /// Content was deleted by the author via a deletion event.
    Deleted { deleted_by: ShortEventId },
    /// Content was pruned locally.
    Pruned,
    /// The content did not pass validation.
    Invalid,
}

/// The missing-content tables as plain values.
pub struct MissingView {
    /// Event id → content state.
    pub states: Seq<(ShortEventId, EventContentState)>,
    /// The fetch schedule: (next attempt time, event id).
    pub schedule: Set<TimeKey>,
}

/// The tables after content of `event_id` arrives: its fetch schedule
/// entries go, and its content state when the content was processed.
pub open spec fn spec_content_received(v: MissingView, event_id: ShortEventId, processed: bool) -> MissingView {
    MissingView {
        states: if processed {
            remove_key(v.states, event_id)
        } else {
            v.states
        },
        schedule: v.schedule.filter(|k: TimeKey| k.1 != event_id),
    }
}

/// Content that arrives for an event queued as missing and is processed
/// leaves no trace in the missing-content tables: the event is neither
/// scheduled nor marked any more, and every other event keeps its state
/// and schedule entries.
pub proof fn lemma_received_content_clears_missing(v: MissingView, event_id: ShortEventId, t: Timestamp)
    requires
        keys_unique(v.states),
    ensures
        ({
            let m = MissingView {
                states: put(
                    v.states,
                    event_id,
                    EventContentState::Missing { last_fetch_attempt: None, fetch_attempt_count: 0, next_fetch_attempt: t },
                ),
                schedule: v.schedule.insert((t, event_id)),
            };
            let r = spec_content_received(m, event_id, true);
            &&& !has_key(r.states, event_id)
            &&& forall|k: TimeKey| r.schedule.contains(k) ==> k.1 != event_id
            &&& forall|x: ShortEventId| x != event_id ==> (has_key(r.states, x) <==> has_key(v.states, x))
            &&& forall|x: ShortEventId| x != event_id && has_key(v.states, x) ==> value_at(r.states, x) == value_at(v.states, x)
            &&& forall|k: TimeKey| k.1 != event_id ==> (r.schedule.contains(k) <==> v.schedule.contains(k))
        }),
{
    let st = EventContentState::Missing { last_fetch_attempt: None, fetch_attempt_count: 0, next_fetch_attempt: t };
    lemma_put(v.states, event_id, st);
    lemma_remove(put(v.states, event_id, st), event_id);
}

/// The tables after a failed fetch of `event_id`'s content, attempted at
/// `attempted_at` and rescheduled to `next_attempt_at`: nothing changes
/// unless the content is missing; then the schedule entry moves and the
/// attempt is counted (saturating).
pub open spec fn spec_failed_fetch(
    v: MissingView,
    event_id: ShortEventId,
    old_scheduled_time: Timestamp,
    attempted_at: Timestamp,
    next_attempt_at: Timestamp,
) -> MissingView {
    if has_key(v.states, event_id) && value_at(v.states, event_id) is Missing {
        let count = value_at(v.states, event_id)->fetch_attempt_count;
        MissingView {
            states: put(
                v.states,
                event_id,
                EventContentState::Missing {
                    last_fetch_attempt: Some(attempted_at),
                    fetch_attempt_count: if count == u16::MAX {
                        count
                    } else {
                        (count + 1) as u16
                    },
                    next_fetch_attempt: next_attempt_at,
                },
            ),
            schedule: v.schedule.remove((old_scheduled_time, event_id)).insert((next_attempt_at, event_id)),
        }
    } else {
        v
    }
}

/// `a` comes no later than `b` (by time, then id).
pub open spec fn time_key_le(a: TimeKey, b: TimeKey) -> bool {
    a.0 < b.0 || (a.0 == b.0 && a.1 <= b.1)
}

/// The content states and the fetch schedule.
pub struct MissingContent {
    states: Vec<(ShortEventId, EventContentState)>,
    schedule: Vec<TimeKey>,
}

impl View for MissingContent {
    type V = MissingView;

    closed spec fn view(&self) -> MissingView {
        MissingView { states: self.states@, schedule: set_of(self.schedule@) }
    }
}

impl MissingContent {
    /// The tables are well formed.
    pub closed spec fn wf(&self) -> bool {
        keys_unique(self.states@) && self.schedule@.no_duplicates()
    }

    /// Empty tables.
    pub fn new() -> (r: MissingContent)
        ensures
            r.wf(),
            r@.states.len() == 0,
            r@.schedule.is_empty(),
    {
        let r = MissingContent { states: Vec::new(), schedule: Vec::new() };
        assert(r@.schedule =~= Set::empty());
        r
    }

    /// The content state of an event.
    pub fn get_state(&self, event_id: ShortEventId) -> (r: Option<EventContentState>)
        requires
            self.wf(),
        ensures
            r is Some <==> has_key(self@.states, event_id),
            r matches Some(s) ==> s == value_at(self@.states, event_id),
    {
        let mut i: usize = 0;
        while i < self.states.len()
            invariant
                i <= self.states.len(),
                keys_unique(self.states@),
                forall|j: int| 0 <= j < i ==> (#[trigger] self.states@[j]).0 != event_id,
            decreases self.states.len() - i,
        {
            if self.states[i].0 == event_id {
                proof {
                    lemma_key_index(self.states@, event_id, i as int);
                }
                return Some(self.states[i].1);
            }
            i = i + 1;
        }
        None
    }

    fn set_state(&mut self, event_id: ShortEventId, st: EventContentState)
        requires
            old(self).wf(),
        ensures
            final(self).wf(),
            final(self).states@ == put(old(self).states@, event_id, st),
            final(self).schedule@ == old(self).schedule@,
    {
        let ghost s = self.states@;
        proof {
            lemma_put(s, event_id, st);
        }
        let mut i: usize = 0;
        while i < self.states.len()
            invariant
                i <= self.states.len(),
                s == self.states@,
                s == old(self).states@,
                self.schedule@ == old(self).schedule@,
                self.wf(),
                forall|j: int| 0 <= j < i ==> (#[trigger] s[j]).0 != event_id,
            decreases self.states.len() - i,
        {
            if self.states[i].0 == event_id {
                proof {
                    lemma_key_index(s, event_id, i as int);
                }
                self.states.set(i, (event_id, st));
                assert(self.states@ =~= s.update(i as int, (event_id, st)));
                return;
            }
            i = i + 1;
        }
        assert(!has_key(s, event_id));
        self.states.push((event_id, st));
        assert(self.states@ =~= s.push((event_id, st)));
    }

    fn remove_state(&mut self, event_id: ShortEventId)
        requires
            old(self).wf(),
        ensures
            final(self).wf(),
            final(self).states@ == remove_key(old(self).states@, event_id),
            final(self).schedule@ == old(self).schedule@,
    {
        let ghost s = self.states@;
        proof {
            lemma_remove(s, event_id);
        }
        let mut i: usize = 0;
        while i < self.states.len()
            invariant
                i <= self.states.len(),
                s == self.states@,
                s == old(self).states@,
                self.schedule@ == old(self).schedule@,
                self.wf(),
                forall|j: int| 0 <= j < i ==> (#[trigger] s[j]).0 != event_id,
            decreases self.states.len() - i,
        {
            if self.states[i].0 == event_id {
                proof {
                    lemma_key_index(s, event_id, i as int);
                }
                self.states.remove(i);
                assert(self.states@ =~= s.remove(key_index(s, event_id)));
                return;
            }
            i = i + 1;
        }
        assert(!has_key(s, event_id));
    }

    /// Received content of `event_id`: the event leaves the fetch schedule,
    /// and, when the content was processed, its content state (the marker)
    /// is cleared.
    pub fn content_received(&mut self, event_id: ShortEventId, processed: bool)
        requires
            old(self).wf(),
        ensures
            final(self).wf(),
            final(self)@ == spec_content_received(old(self)@, event_id, processed),
    {
        let ghost sched = self.schedule@;
        let mut kept: Vec<TimeKey> = Vec::new();
        let mut i: usize = 0;
        while i < self.schedule.len()
            invariant
                i <= self.schedule.len(),
                self.schedule@ == sched,
                sched == old(self).schedule@,
                sched.no_duplicates(),
                kept@.no_duplicates(),
                forall|k: TimeKey| kept@.contains(k) <==> (sched.take(i as int).contains(k) && k.1 != event_id),
            decreases self.schedule.len() - i,
        {
            let k = self.schedule[i];
            assert(sched.take(i + 1) =~= sched.take(i as int).push(k));
            if k.1 != event_id {
                assert(!kept@.contains(k)) by {
                    if kept@.contains(k) {
                        let t0 = sched.take(i as int);
                        let j = choose|j: int| 0 <= j < t0.len() && t0[j] == k;
                        assert(sched[j] == sched[i as int]);
                    }
                }
                let ghost before = kept@;
                assert(forall|y: TimeKey| before.contains(y) <==> (sched.take(i as int).contains(y) && y.1 != event_id));
                kept.push(k);
                assert(kept@ == before.push(k));
                assert forall|y: TimeKey| kept@.contains(y) <==> (sched.take(i + 1).contains(y) && y.1 != event_id) by {
                    if sched.take(i as int).contains(y) && y.1 != event_id {
                        assert(before.contains(y));
                    }
                    if kept@.contains(y) && y != k {
                        let j = choose|j: int| 0 <= j < kept@.len() && kept@[j] == y;
                        assert(before[j] == y);
                    }
                    if before.contains(y) {
                        let j = choose|j: int| 0 <= j < before.len() && before[j] == y;
                        assert(kept@[j] == y);
                    }
                    if y == k {
                        assert(kept@[before.len() as int] == y);
                        assert(sched.take(i + 1)[i as int] == y);
                    }
                    if before.contains(y) {
                        assert(sched.take(i as int).contains(y));
                        let t0 = sched.take(i as int);
                        let j = choose|j: int| 0 <= j < t0.len() && t0[j] == y;
                        assert(sched.take(i + 1)[j] == y);
                    }
                    if sched.take(i + 1).contains(y) {
                        let t1 = sched.take(i + 1);
                        let j = choose|j: int| 0 <= j < t1.len() && t1[j] == y;
                        if j < i {
                            assert(sched.take(i as int)[j] == y);
                        }
                    }
                    if sched.take(i as int).contains(y) {
                        let t0 = sched.take(i as int);
                        let j = choose|j: int| 0 <= j < t0.len() && t0[j] == y;
                        assert(sched.take(i + 1)[j] == y);
                    }
                }
            } else {
                assert forall|y: TimeKey| kept@.contains(y) <==> (sched.take(i + 1).contains(y) && y.1 != event_id) by {
                    if sched.take(i + 1).contains(y) {
                        let t1 = sched.take(i + 1);
                        let j = choose|j: int| 0 <= j < t1.len() && t1[j] == y;
                        if j < i {
                            assert(sched.take(i as int)[j] == y);
                        }
                    }
                    if sched.take(i as int).contains(y) {
                        let t0 = sched.take(i as int);
                        let j = choose|j: int| 0 <= j < t0.len() && t0[j] == y;
                        assert(sched.take(i + 1)[j] == y);
                    }
                }
            }
            i = i + 1;
        }
        assert(sched.take(sched.len() as int) =~= sched);
        self.schedule = kept;
        assert(set_of(self.schedule@) =~= spec_content_received(old(self)@, event_id, processed).schedule);
        if processed {
            self.remove_state(event_id);
        }
    }

    /// Marks an event's content missing and schedules its first fetch.
    pub fn mark_missing(&mut self, event_id: ShortEventId, scheduled: Timestamp)
        requires
            old(self).wf(),
        ensures
            final(self).wf(),
            final(self)@ == (MissingView {
                states: put(
                    old(self)@.states,
                    event_id,
                    EventContentState::Missing {
                        last_fetch_attempt: None,
                        fetch_attempt_count: 0,
                        next_fetch_attempt: scheduled,
                    },
                ),
                schedule: old(self)@.schedule.insert((scheduled, event_id)),
            }),
    {
        self.set_state(
            event_id,
            EventContentState::Missing { last_fetch_attempt: None, fetch_attempt_count: 0, next_fetch_attempt: scheduled },
        );
        time_set_insert(&mut self.schedule, (scheduled, event_id));
    }

    /// Record a failed content fetch attempt: the schedule entry moves to
    /// `next_attempt_at` and the attempt is counted, when the content is
    /// still missing.
    pub fn record_failed_content_fetch(
        &mut self,
        event_id: ShortEventId,
        old_scheduled_time: Timestamp,
        attempted_at: Timestamp,
        next_attempt_at: Timestamp,
    )
        requires
            old(self).wf(),
        ensures
            final(self).wf(),
            final(self)@ == spec_failed_fetch(old(self)@, event_id, old_scheduled_time, attempted_at, next_attempt_at),
    {
        let count = match self.get_state(event_id) {
            Some(EventContentState::Missing { fetch_attempt_count, .. }) => fetch_attempt_count,
            _ => return,
        };
        let ghost before = self@;
        time_set_remove(&mut self.schedule, (old_scheduled_time, event_id));
        time_set_insert(&mut self.schedule, (next_attempt_at, event_id));
        let new_count = count.saturating_add(1);
        self.set_state(
            event_id,
            EventContentState::Missing {
                last_fetch_attempt: Some(attempted_at),
                fetch_attempt_count: new_count,
                next_fetch_attempt: next_attempt_at,
            },
        );
        assert(self@.schedule =~= before.schedule.remove((old_scheduled_time, event_id)).insert(
            (next_attempt_at, event_id),
        ));
    }

    /// The next scheduled fetch: the earliest `(time, event id)` of the
    /// schedule, if any.
    pub fn peek_next_missing_content(&self) -> (r: Option<TimeKey>)
        requires
            self.wf(),
        ensures
            r is None <==> self@.schedule.is_empty(),
            r matches Some(k) ==> self@.schedule.contains(k) && forall|x: TimeKey| #[trigger] self@.schedule.contains(x) ==> time_key_le(k, x),
    {
        if self.schedule.len() == 0 {
            assert(self@.schedule =~= Set::empty());
            return None;
        }
        let mut best = self.schedule[0];
        let mut bi: usize = 0;
        let mut i: usize = 1;
        while i < self.schedule.len()
            invariant
                1 <= i <= self.schedule.len(),
                bi < i,
                best == self.schedule@[bi as int],
                forall|j: int| 0 <= j < i ==> time_key_le(best, #[trigger] self.schedule@[j]),
            decreases self.schedule.len() - i,
        {
            let c = self.schedule[i];
            if c.0 < best.0 || (c.0 == best.0 && c.1 < best.1) {
                best = c;
                bi = i;
            }
            i = i + 1;
        }
        assert(self@.schedule.contains(best)) by {
            assert(self.schedule@[bi as int] == best);
        }
        assert forall|x: TimeKey| #[trigger] self@.schedule.contains(x) implies time_key_le(best, x) by {
            let j = choose|j: int| 0 <= j < self.schedule@.len() && self.schedule@[j] == x;
            assert(time_key_le(best, self.schedule@[j]));
        }
        Some(best)
    }
}

/// After a failed fetch of missing content, the content is scheduled at the
/// new time and its attempts grow by one (up to the counter's maximum).
pub proof fn lemma_failed_fetch_reschedules(
    v: MissingView,
    event_id: ShortEventId,
    old_scheduled_time: Timestamp,
    attempted_at: Timestamp,
    next_attempt_at: Timestamp,
)
    requires
        keys_unique(v.states),
        has_key(v.states, event_id),
        value_at(v.states, event_id) is Missing,
    ensures
        ({
            let w = spec_failed_fetch(v, event_id, old_scheduled_time, attempted_at, next_attempt_at);
            let before = value_at(v.states, event_id)->fetch_attempt_count;
            &&& w.schedule.contains((next_attempt_at, event_id))
            &&& old_scheduled_time != next_attempt_at ==> !w.schedule.contains((old_scheduled_time, event_id))
            &&& value_at(w.states, event_id)->fetch_attempt_count == if before == u16::MAX {
                before as int
            } else {
                before + 1
            }
            &&& value_at(w.states, event_id)->last_fetch_attempt == Some(attempted_at)
        }),
{
    let count = value_at(v.states, event_id)->fetch_attempt_count;
    lemma_put(
        v.states,
        event_id,
        EventContentState::Missing {
            last_fetch_attempt: Some(attempted_at),
            fetch_attempt_count: if count == u16::MAX { count } else { (count + 1) as u16 },
            next_fetch_attempt: next_attempt_at,
        },
    );
}

/// What a lookup of an event's content found.
pub enum EventContentResult {
    /// Content is present and valid
    Present(Vec<u8>),
    /// Content is present but was invalid during processing
    Invalid(Vec<u8>),
    /// Content was deleted by the author
    Deleted { deleted_by: ShortEventId },
    /// Content was pruned locally
    Pruned,
    /// Content is not in the store
    Missing,
}

impl EventContentResult {
    /// Returns the content if present (either valid or invalid).
    pub fn content(&self) -> (r: Option<&Vec<u8>>)
        ensures
            match self {
                EventContentResult::Present(c) => r == Some(c),
                EventContentResult::Invalid(c) => r == Some(c),
                _ => r is None,
            },
    {
        match self {
            EventContentResult::Present(c) => Some(c),
            EventContentResult::Invalid(c) => Some(c),
            _ => None,
        }
    }

    /// Returns true if content is present and valid.
    pub fn is_present(&self) -> (r: bool)
        ensures
            r == self is Present,
    {
        match self {
            EventContentResult::Present(_) => true,
            _ => false,
        }
    }

    /// Returns true if content was deleted.
    pub fn is_deleted(&self) -> (r: bool)
        ensures
            r == self is Deleted,
    {
        match self {
            EventContentResult::Deleted { .. } => true,
            _ => false,
        }
    }
}

} // verus!
