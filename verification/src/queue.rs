use std::collections::{HashMap, VecDeque};
use std::time::Instant;
use vstd::prelude::*;
use crate::clock::{instant_now, nanos_since};
use crate::ids::{is_random_uuid, random_uuid_value};
use vstd::std_specs::iter::IteratorSpec;

verus! {

broadcast use vstd::std_specs::hash::group_hash_axioms;

/// A session identifier: the 128-bit value of a UUID.
#[derive(Debug, Clone, Copy, PartialEq, Eq, Hash, Structural)]
pub struct SessionId(pub u128);

impl SessionId {
    /// A fresh random session identifier (a version-4 UUID).
    pub fn new() -> (s: Self)
        ensures
            is_random_uuid(s.0),
    {
        SessionId(random_uuid_value())
    }
}

/// A session that has been let through to the origin. Times are nanoseconds
/// on the queue's monotonic clock.
#[derive(Debug, Clone, Copy)]
pub struct ActiveSession {
    pub session_id: SessionId,
    pub admitted_at: u64,
    pub last_seen: u64,
}

/// A session waiting in line. `joined_at` is nanoseconds on the queue's clock.
#[derive(Debug, Clone, Copy)]
pub struct QueueEntry {
    pub session_id: SessionId,
    pub joined_at: u64,
}

/// Where a waiting session stands.
#[derive(Debug, Clone, Copy, PartialEq, Eq, Structural)]
pub struct QueuePosition {
    /// 1-based place in line.
    pub position: usize,
    pub total_waiting: usize,
    /// Estimated wait in whole milliseconds (rounded down).
    pub eta_millis: u128,
}

/// Counters of the queue.
#[derive(Debug, Clone, Copy, PartialEq, Eq, Structural)]
pub struct QueueStats {
    pub active_count: usize,
    pub waiting_count: usize,
    /// Mean time a finished session stayed active, in whole milliseconds,
    /// each division rounded down (0 before any finished).
    pub avg_active_duration_millis: u128,
    pub total_admitted: u64,
    pub total_visitors: u64,
}

/// `a + b`, held at `u64::MAX`.
pub open spec fn sat_u64(a: int, b: int) -> u64 {
    if a + b > u64::MAX { u64::MAX } else { (a + b) as u64 }
}

/// `a + b`, held at `u128::MAX`.
pub open spec fn sat_u128(a: int, b: int) -> u128 {
    if a + b > u128::MAX { u128::MAX } else { (a + b) as u128 }
}

/// Mean session length in milliseconds used for wait estimates: the observed
/// mean (rounded down) once a session has finished, five minutes before.
pub open spec fn mean_session_millis(total_duration_millis: int, completed: int) -> int {
    if completed > 0 { total_duration_millis / completed } else { 300_000 }
}

/// Estimated wait in milliseconds for the `position`-th in line:
/// `position / max(active, 1)` mean session lengths, held at `u128::MAX`.
/// The mean and the final division are each rounded down to whole
/// milliseconds.
pub open spec fn eta_millis_spec(position: int, active: int, total_duration_millis: int, completed: int) -> int {
    let product = mean_session_millis(total_duration_millis, completed) * position;
    if product > u128::MAX {
        u128::MAX as int
    } else {
        product / (if active > 1 { active } else { 1 })
    }
}

/// Estimated wait in milliseconds for the `position`-th in line, given how
/// many sessions are active, the summed length of finished sessions and
/// their number; each division rounds down.
pub fn estimate_wait_millis(position: usize, active: usize, total_duration_millis: u128, completed: u64) -> (eta: u128)
    ensures
        eta as int == eta_millis_spec(position as int, active as int, total_duration_millis as int, completed as int),
{
    let mean: u128 = if completed > 0 { total_duration_millis / (completed as u128) } else { 300_000 };
    let divisor: u128 = if active > 1 { active as u128 } else { 1 };
    match mean.checked_mul(position as u128) {
        Some(p) => p / divisor,
        None => u128::MAX,
    }
}

/// Nobody further back in line is told a shorter wait: the estimate does
/// not decrease with the place in line.
pub proof fn lemma_eta_grows_with_position(p1: int, p2: int, active: int, total_duration_millis: int, completed: int)
    requires
        0 <= p1 <= p2,
        total_duration_millis >= 0,
        completed >= 0,
    ensures
        eta_millis_spec(p1, active, total_duration_millis, completed) <= eta_millis_spec(p2, active, total_duration_millis, completed),
{
    let mean = mean_session_millis(total_duration_millis, completed);
    let d: int = if active > 1 { active } else { 1 };
    assert(mean >= 0) by {
        if completed > 0 {
            assert(total_duration_millis / completed >= 0) by (nonlinear_arith)
                requires
                    total_duration_millis >= 0,
                    completed > 0,
            ;
        }
    }
    assert(mean * p1 <= mean * p2) by (nonlinear_arith)
        requires
            mean >= 0,
            p1 <= p2,
    ;
    if mean * p2 <= u128::MAX {
        assert((mean * p1) / d <= (mean * p2) / d) by (nonlinear_arith)
            requires
                mean * p1 <= mean * p2,
                d >= 1,
        ;
    } else if mean * p1 <= u128::MAX {
        assert((mean * p1) / d <= mean * p1) by (nonlinear_arith)
            requires
                mean * p1 >= 0,
                d >= 1,
        ;
    }
}

/// Whether `i` is the place of the last occurrence of `k` in `ids`.
pub open spec fn is_last_index(ids: Seq<u128>, k: u128, i: int) -> bool {
    &&& 0 <= i < ids.len()
    &&& ids[i] == k
    &&& forall|j: int| i < j < ids.len() ==> ids[j] != k
}

/// The place of the last occurrence of `k` in `ids`.
pub open spec fn last_index(ids: Seq<u128>, k: u128) -> int {
    choose|i: int| is_last_index(ids, k, i)
}

/// The abstract state of a queue.
pub struct QueueModel {
    pub active: Map<u128, ActiveSession>,
    pub waiting: Seq<QueueEntry>,
    pub total_active_duration_nanos: u128,
    pub completed_sessions: u64,
    pub total_admitted: u64,
    pub total_visitors: u64,
}

/// Nanoseconds from `from` to `now`, 0 when `now` is earlier.
pub open spec fn elapsed(from: u64, now: u64) -> int {
    if now >= from { now - from } else { 0 }
}

/// Whether an active session has been idle for longer than `ttl_secs` at `now`.
pub open spec fn is_stale(s: ActiveSession, ttl_secs: u64, now: u64) -> bool {
    elapsed(s.last_seen, now) > ttl_secs * 1_000_000_000
}

/// The summed active time at `now` of the sessions `ids` of `active`.
pub open spec fn durations_sum(active: Map<u128, ActiveSession>, ids: Seq<u128>, now: u64) -> int
    decreases ids.len(),
{
    if ids.len() == 0 {
        0
    } else {
        durations_sum(active, ids.drop_last(), now) + elapsed(active[ids.last()].admitted_at, now)
    }
}

/// A fresh active session for `id`, admitted and seen at `now`.
pub open spec fn fresh_session(id: u128, now: u64) -> ActiveSession {
    ActiveSession { session_id: SessionId(id), admitted_at: now, last_seen: now }
}

impl QueueModel {
    /// What every reachable queue state satisfies: finitely many active
    /// sessions, each stored under its own id.
    pub open spec fn valid(self) -> bool {
        &&& self.active.dom().finite()
        &&& forall|k: u128| #[trigger] self.active.contains_key(k) ==> self.active[k].session_id.0 == k
    }

    /// The ids in line, first in line first.
    pub open spec fn waiting_ids(self) -> Seq<u128> {
        self.waiting.map_values(|e: QueueEntry| e.session_id.0)
    }

    /// Whether `id` has been let through.
    pub open spec fn is_active(self, id: u128) -> bool {
        self.active.contains_key(id)
    }

    /// Whether `id` stands in line.
    pub open spec fn is_waiting(self, id: u128) -> bool {
        self.waiting_ids().contains(id)
    }

    /// The 1-based place in line of `id` (its last entry), if it waits.
    pub open spec fn position_of(self, id: u128) -> Option<int> {
        if self.is_waiting(id) {
            Some(last_index(self.waiting_ids(), id) + 1)
        } else {
            None
        }
    }

    /// The estimated wait of the `position`-th in line.
    pub open spec fn eta_of(self, position: int) -> int {
        eta_millis_spec(
            position,
            self.active.len() as int,
            (self.total_active_duration_nanos / 1_000_000) as int,
            self.completed_sessions as int,
        )
    }

    /// What `get_position` reports for `id`.
    pub open spec fn position_report(self, id: u128) -> Option<QueuePosition> {
        match self.position_of(id) {
            Some(p) => Some(QueuePosition {
                position: p as usize,
                total_waiting: self.waiting.len() as usize,
                eta_millis: self.eta_of(p) as u128,
            }),
            None => None,
        }
    }

    /// The state after a new visitor is counted.
    pub open spec fn visited(self) -> QueueModel {
        QueueModel { total_visitors: sat_u64(self.total_visitors as int, 1), ..self }
    }

    /// The state after `id` is admitted at `now`.
    pub open spec fn admitted(self, id: u128, now: u64) -> QueueModel {
        QueueModel {
            active: self.active.insert(id, fresh_session(id, now)),
            total_admitted: sat_u64(self.total_admitted as int, 1),
            ..self
        }
    }

    /// The state after `id` joins the end of the line at `now`.
    pub open spec fn enqueued(self, id: u128, now: u64) -> QueueModel {
        QueueModel {
            waiting: self.waiting.push(QueueEntry { session_id: SessionId(id), joined_at: now }),
            ..self
        }
    }

    /// The state after the session `id`, if active, is seen at `now`.
    pub open spec fn touched(self, id: u128, now: u64) -> QueueModel {
        if self.active.contains_key(id) {
            QueueModel {
                active: self.active.insert(id, ActiveSession { last_seen: now, ..self.active[id] }),
                ..self
            }
        } else {
            self
        }
    }

    /// The ids of sessions idle for longer than `ttl_secs` at `now`.
    pub open spec fn stale_ids(self, ttl_secs: u64, now: u64) -> Set<u128> {
        self.active.dom().filter(|k: u128| is_stale(self.active[k], ttl_secs, now))
    }

    /// The state after the stale sessions, taken in the order `order`, are
    /// expired at `now`: they leave, their active time is added to the total
    /// and they count as finished.
    pub open spec fn expired(self, ttl_secs: u64, now: u64, order: Seq<u128>) -> QueueModel {
        QueueModel {
            active: self.active.remove_keys(self.stale_ids(ttl_secs, now)),
            total_active_duration_nanos: sat_u128(
                self.total_active_duration_nanos as int,
                durations_sum(self.active, order, now),
            ),
            completed_sessions: sat_u64(self.completed_sessions as int, order.len() as int),
            ..self
        }
    }

    /// The number admitted by `admit_from_queue(slots)`.
    pub open spec fn admit_count(self, slots: int) -> int {
        if slots < self.waiting.len() { slots } else { self.waiting.len() as int }
    }

    /// The state after the first `k` in line are admitted at `now`.
    pub open spec fn front_admitted(self, k: int, now: u64) -> QueueModel {
        QueueModel {
            active: self.active.union_prefer_right(
                Map::new(
                    |id: u128| self.waiting_ids().take(k).contains(id),
                    |id: u128| fresh_session(id, now),
                ),
            ),
            waiting: self.waiting.skip(k),
            total_admitted: sat_u64(self.total_admitted as int, k),
            ..self
        }
    }

    /// The state after everything is cleared.
    pub open spec fn flushed(self) -> QueueModel {
        QueueModel {
            active: Map::empty(),
            waiting: Seq::empty(),
            total_active_duration_nanos: 0,
            completed_sessions: 0,
            total_admitted: 0,
            total_visitors: 0,
        }
    }

    /// The counters that `stats` reports; the mean session length is in
    /// whole milliseconds, both divisions rounded down.
    pub open spec fn stats_report(self) -> QueueStats {
        QueueStats {
            active_count: self.active.len() as usize,
            waiting_count: self.waiting.len() as usize,
            avg_active_duration_millis: if self.completed_sessions > 0 {
                ((self.total_active_duration_nanos / 1_000_000) / (self.completed_sessions as u128)) as u128
            } else {
                0
            },
            total_admitted: self.total_admitted,
            total_visitors: self.total_visitors,
        }
    }
}

/// A first-come-first-served line in front of a bounded set of active sessions.
pub struct WaitingQueue {
    base_instant: Instant,
    active: HashMap<u128, ActiveSession>,
    waiting: VecDeque<QueueEntry>,
    waiting_index: HashMap<u128, usize>,
    generation: u64,
    total_active_duration_nanos: u128,
    completed_sessions: u64,
    total_admitted: u64,
    total_visitors: u64,
}

impl View for WaitingQueue {
    type V = QueueModel;

    closed spec fn view(&self) -> QueueModel {
        QueueModel {
            active: self.active@,
            waiting: self.waiting@,
            total_active_duration_nanos: self.total_active_duration_nanos,
            completed_sessions: self.completed_sessions,
            total_admitted: self.total_admitted,
            total_visitors: self.total_visitors,
        }
    }
}

/// Whether `index` maps each id in `ids` to the place of its last occurrence.
pub open spec fn index_matches(index: Map<u128, usize>, ids: Seq<u128>) -> bool {
    &&& forall|k: u128| #[trigger] index.contains_key(k) <==> ids.contains(k)
    &&& forall|k: u128| #[trigger] index.contains_key(k) ==> is_last_index(ids, k, index[k] as int)
}

proof fn lemma_durations_sum_nonneg(active: Map<u128, ActiveSession>, ids: Seq<u128>, now: u64)
    ensures
        durations_sum(active, ids, now) >= 0,
    decreases ids.len(),
{
    if ids.len() > 0 {
        lemma_durations_sum_nonneg(active, ids.drop_last(), now);
    }
}

/// Only one index is the last occurrence of `k`.
pub proof fn lemma_last_index_unique(ids: Seq<u128>, k: u128, i: int)
    requires
        is_last_index(ids, k, i),
    ensures
        last_index(ids, k) == i,
{
    let j = last_index(ids, k);
    assert(is_last_index(ids, k, j));
}

/// Places in line follow the order of arrival: when nobody stands in line
/// twice, the `i`-th in line (from 0) is at place `i + 1`.
pub proof fn lemma_positions_follow_the_line(m: QueueModel, i: int)
    requires
        m.waiting_ids().no_duplicates(),
        0 <= i < m.waiting.len(),
    ensures
        m.position_of(m.waiting_ids()[i]) == Some(i + 1),
{
    let ids = m.waiting_ids();
    let k = ids[i];
    assert(is_last_index(ids, k, i));
    lemma_last_index_unique(ids, k, i);
    assert(ids.contains(k));
}

impl WaitingQueue {
    /// The queue's internal invariant.
    pub closed spec fn wf(&self) -> bool {
        &&& self@.valid()
        &&& index_matches(self.waiting_index@, self@.waiting_ids())
    }

    /// A well-formed queue has a valid abstract state.
    pub proof fn lemma_wf_valid(&self)
        requires
            self.wf(),
        ensures
            self@.valid(),
    {
    }

    /// An empty queue whose clock starts now.
    pub fn new() -> (q: Self)
        ensures
            q.wf(),
            q@ == empty_queue(),
            q@ == (QueueModel {
                active: Map::empty(),
                waiting: Seq::empty(),
                total_active_duration_nanos: 0,
                completed_sessions: 0,
                total_admitted: 0,
                total_visitors: 0,
            }),
    {
        let q = WaitingQueue {
            base_instant: instant_now(),
            active: HashMap::new(),
            waiting: VecDeque::new(),
            waiting_index: HashMap::new(),
            generation: 0,
            total_active_duration_nanos: 0,
            completed_sessions: 0,
            total_admitted: 0,
            total_visitors: 0,
        };
        assert(q@.waiting_ids() =~= Seq::<u128>::empty());
        q
    }

    /// The current reading of the queue's monotonic clock, in nanoseconds.
    pub fn clock_nanos(&self) -> u64 {
        nanos_since(&self.base_instant)
    }

    /// The number of sessions let through.
    pub fn active_count(&self) -> (n: usize)
        ensures
            n == self@.active.len(),
    {
        self.active.len()
    }

    /// The number of sessions in line.
    pub fn waiting_count(&self) -> (n: usize)
        ensures
            n == self@.waiting.len(),
    {
        self.waiting.len()
    }

    /// Whether `id` has been let through.
    pub fn is_active(&self, id: &SessionId) -> (b: bool)
        ensures
            b == self@.is_active(id.0),
    {
        self.active.contains_key(&id.0)
    }

    /// Whether `id` stands in line.
    pub fn is_waiting(&self, id: &SessionId) -> (b: bool)
        requires
            self.wf(),
        ensures
            b == self@.is_waiting(id.0),
    {
        self.waiting_index.contains_key(&id.0)
    }

    /// When the active session `id` was last seen, on the queue's clock.
    pub fn last_seen(&self, id: &SessionId) -> (t: Option<u64>)
        ensures
            t == (if self@.is_active(id.0) { Some(self@.active[id.0].last_seen) } else { None::<u64> }),
    {
        match self.active.get(&id.0) {
            Some(s) => Some(s.last_seen),
            None => None,
        }
    }

    /// Marks the active session `id` as seen at `now`.
    pub fn touch_at(&mut self, id: &SessionId, now: u64)
        requires
            old(self).wf(),
        ensures
            final(self).wf(),
            final(self)@ == old(self)@.touched(id.0, now),
    {
        match self.active.get(&id.0) {
            Some(s) => {
                let updated = ActiveSession { last_seen: now, ..*s };
                self.active.insert(id.0, updated);
            },
            None => {},
        }
        assert(final(self)@.waiting_ids() == old(self)@.waiting_ids());
    }

    /// Marks the active session `id` as seen now.
    pub fn touch(&mut self, id: &SessionId)
        requires
            old(self).wf(),
        ensures
            final(self).wf(),
            exists|now: u64| final(self)@ == #[trigger] old(self)@.touched(id.0, now),
    {
        let now = self.clock_nanos();
        self.touch_at(id, now);
    }

    /// Lets `id` through, admitted at `now`.
    pub fn admit_at(&mut self, id: SessionId, now: u64)
        requires
            old(self).wf(),
        ensures
            final(self).wf(),
            final(self)@ == old(self)@.admitted(id.0, now),
    {
        self.active.insert(id.0, ActiveSession { session_id: id, admitted_at: now, last_seen: now });
        self.total_admitted = self.total_admitted.saturating_add(1);
        assert(final(self)@.waiting_ids() == old(self)@.waiting_ids());
    }

    /// Lets `id` through now.
    pub fn admit_session(&mut self, id: SessionId)
        requires
            old(self).wf(),
        ensures
            final(self).wf(),
            exists|now: u64| final(self)@ == #[trigger] old(self)@.admitted(id.0, now),
    {
        let now = self.clock_nanos();
        self.admit_at(id, now);
    }

    /// Counts a new visitor.
    pub fn record_visitor(&mut self)
        requires
            old(self).wf(),
        ensures
            final(self).wf(),
            final(self)@ == old(self)@.visited(),
    {
        self.total_visitors = self.total_visitors.saturating_add(1);
        assert(final(self)@.waiting_ids() == old(self)@.waiting_ids());
    }

    /// Puts `id` at the end of the line, joined at `now`.
    pub fn enqueue_at(&mut self, id: SessionId, now: u64)
        requires
            old(self).wf(),
        ensures
            final(self).wf(),
            final(self)@ == old(self)@.enqueued(id.0, now),
    {
        let pos = self.waiting.len();
        self.waiting.push_back(QueueEntry { session_id: id, joined_at: now });
        self.waiting_index.insert(id.0, pos);
        proof {
            let old_ids = old(self)@.waiting_ids();
            let ids = self@.waiting_ids();
            assert(ids =~= old_ids.push(id.0));
            assert forall|k: u128| #[trigger] self.waiting_index@.contains_key(k) implies is_last_index(
                ids,
                k,
                self.waiting_index@[k] as int,
            ) by {
                if k != id.0 {
                    assert(old(self).waiting_index@.contains_key(k));
                }
            }
            assert forall|k: u128| ids.contains(k) implies #[trigger] self.waiting_index@.contains_key(k) by {
                if ids.contains(k) && k != id.0 {
                    let j = choose|j: int| 0 <= j < ids.len() && ids[j] == k;
                    assert(old_ids[j] == k);
                    assert(old_ids.contains(k));
                }
            }
        }
    }

    /// Puts `id` at the end of the line now.
    pub fn enqueue(&mut self, id: SessionId)
        requires
            old(self).wf(),
        ensures
            final(self).wf(),
            exists|now: u64| final(self)@ == #[trigger] old(self)@.enqueued(id.0, now),
    {
        let now = self.clock_nanos();
        self.enqueue_at(id, now);
    }

    /// The 1-based place in line of `id`, with the line's length and an estimated wait.
    pub fn get_position(&self, id: &SessionId) -> (p: Option<QueuePosition>)
        requires
            self.wf(),
        ensures
            p == self@.position_report(id.0),
    {
        match self.waiting_index.get(&id.0) {
            Some(pos) => {
                proof {
                    lemma_last_index_unique(self@.waiting_ids(), id.0, *pos as int);
                }
                let total = self.waiting.len();
                let position = *pos + 1;
                let eta = self.estimate_wait(position);
                Some(QueuePosition { position, total_waiting: total, eta_millis: eta })
            },
            None => None,
        }
    }

    fn estimate_wait(&self, position: usize) -> (eta: u128)
        ensures
            eta as int == self@.eta_of(position as int),
    {
        estimate_wait_millis(
            position,
            self.active.len(),
            self.total_active_duration_nanos / 1_000_000,
            self.completed_sessions,
        )
    }

    /// The counters of the queue.
    pub fn stats(&self) -> (s: QueueStats)
        ensures
            s == self@.stats_report(),
    {
        QueueStats {
            active_count: self.active.len(),
            waiting_count: self.waiting.len(),
            avg_active_duration_millis: if self.completed_sessions > 0 {
                (self.total_active_duration_nanos / 1_000_000) / (self.completed_sessions as u128)
            } else {
                0
            },
            total_admitted: self.total_admitted,
            total_visitors: self.total_visitors,
        }
    }


    /// Expires, at `now`, the sessions idle for longer than `ttl_secs`; returns how many.
    pub fn expire_stale_at(&mut self, ttl_secs: u64, now: u64) -> (count: usize)
        requires
            old(self).wf(),
        ensures
            final(self).wf(),
            count == old(self)@.stale_ids(ttl_secs, now).len(),
            exists|order: Seq<u128>|
                {
                    &&& order.no_duplicates()
                    &&& order.to_set() == old(self)@.stale_ids(ttl_secs, now)
                    &&& final(self)@ == #[trigger] old(self)@.expired(ttl_secs, now, order)
                },
    {
        let ghost old_active = self.active@;
        let ttl_nanos: u128 = (ttl_secs as u128) * 1_000_000_000;
        let mut keys: Vec<u128> = Vec::new();
        for k in it: self.active.keys()
            invariant
                keys@ == it.seq().take(it.index() as int).unref(),
                it.index() <= it.seq().len(),
                it.seq().len() == old_active.dom().len(),
                it.seq().unref().to_set() == old_active.dom(),
                it.seq().no_duplicates(),
                forall|x: u128| keys@.contains(x) ==> old_active.dom().contains(x),
            ensures
                keys@.no_duplicates(),
                keys@.len() == old_active.dom().len(),
                forall|x: u128| keys@.contains(x) ==> old_active.dom().contains(x),
        {
            proof {
                let i = it.index() as int;
                assert(it.seq().unref().contains(*it.seq()[i]));
            }
            keys.push(*k);
            proof {
                assert forall|x: u128| keys@.contains(x) implies old_active.dom().contains(x) by {
                    let j = choose|j: int| 0 <= j < keys@.len() && keys@[j] == x;
                    assert(it.seq().unref()[j] == x);
                }
            }
        }
        proof {
            keys@.unique_seq_to_set();
            assert(keys@.to_set().subset_of(old_active.dom()));
            vstd::set_lib::lemma_subset_equality(keys@.to_set(), old_active.dom());
        }
        let n = keys.len();
        let mut count: usize = 0;
        let mut i: usize = 0;
        let ghost mut order: Seq<u128> = Seq::empty();
        while i < n
            invariant
                n == keys@.len(),
                i <= n,
                keys@.no_duplicates(),
                keys@.to_set() == old_active.dom(),
                old_active == old(self).active@,
                old(self).wf(),
                self.waiting@ == old(self).waiting@,
                self.waiting_index@ == old(self).waiting_index@,
                self.total_admitted == old(self).total_admitted,
                self.total_visitors == old(self).total_visitors,
                order.no_duplicates(),
                order.to_set() == Set::new(|k: u128| keys@.take(i as int).contains(k) && is_stale(old_active[k], ttl_secs, now)),
                self.active@ == old_active.remove_keys(order.to_set()),
                count == order.len(),
                count <= i,
                self.total_active_duration_nanos == sat_u128(old(self).total_active_duration_nanos as int, durations_sum(old_active, order, now)),
                self.completed_sessions == sat_u64(old(self).completed_sessions as int, order.len() as int),
                ttl_nanos == ttl_secs * 1_000_000_000,
            decreases n - i,
        {
            let k = keys[i];
            proof {
                assert(old_active.dom().contains(k)) by {
                    assert(keys@.contains(k));
                }
                assert(!order.to_set().contains(k)) by {
                    if order.to_set().contains(k) {
                        let j = choose|j: int| 0 <= j < i && keys@.take(i as int)[j] == k;
                        assert(keys@[j] == keys@[i as int]);
                    }
                }
            }
            match self.active.get(&k) {
                Some(s) => {
                    let s = *s;
                    assert(s == old_active[k]);
                    let idle: u64 = if now >= s.last_seen { now - s.last_seen } else { 0 };
                    let stale = (idle as u128) > ttl_nanos;
                    assert(stale == is_stale(old_active[k], ttl_secs, now));
                    if stale {
                        self.active.remove(&k);
                        let d: u64 = if now >= s.admitted_at { now - s.admitted_at } else { 0 };
                        self.total_active_duration_nanos = self.total_active_duration_nanos.saturating_add(d as u128);
                        self.completed_sessions = self.completed_sessions.saturating_add(1);
                        count = count + 1;
                        proof {
                            let o2 = order.push(k);
                            assert(o2.drop_last() =~= order);
                            lemma_durations_sum_nonneg(old_active, order, now);
                            assert(durations_sum(old_active, o2, now) == durations_sum(old_active, order, now) + elapsed(old_active[k].admitted_at, now));
                            assert(o2.to_set() =~= order.to_set().insert(k));
                            assert forall|a: int, b: int| 0 <= a < b < o2.len() implies o2[a] != o2[b] by {
                                if b == o2.len() - 1 {
                                    assert(order.to_set().contains(order[a]));
                                }
                            }
                            order = o2;
                        }
                    }
                },
                None => {},
            }
            proof {
                assert(keys@.take(i + 1) =~= keys@.take(i as int).push(k));
                let t1 = keys@.take(i as int);
                let t2 = keys@.take(i + 1);
                assert(t2[i as int] == k);
                assert forall|x: u128| t2.contains(x) <==> (t1.contains(x) || x == k) by {
                    if x == k {
                        assert(t2[i as int] == k);
                    }
                    if t2.contains(x) && x != k {
                        let j = choose|j: int| 0 <= j < t2.len() && t2[j] == x;
                        assert(t1[j] == x);
                    }
                    if t1.contains(x) {
                        let j = choose|j: int| 0 <= j < t1.len() && t1[j] == x;
                        assert(t2[j] == x);
                    }
                }
                assert(order.to_set() =~= Set::new(|x: u128| keys@.take(i + 1).contains(x) && is_stale(old_active[x], ttl_secs, now)));
                assert(self.active@ =~= old_active.remove_keys(order.to_set()));
            }
            i = i + 1;
        }
        proof {
            assert(keys@.take(n as int) =~= keys@);
            let stale = old(self)@.stale_ids(ttl_secs, now);
            assert(order.to_set() =~= stale);
            order.unique_seq_to_set();
            assert(self@ == old(self)@.expired(ttl_secs, now, order));
            assert(self@.waiting_ids() == old(self)@.waiting_ids());
        }
        count
    }

    /// Expires the sessions idle for longer than `ttl_secs`; returns how many.
    pub fn expire_stale(&mut self, ttl_secs: u64) -> (count: usize)
        requires
            old(self).wf(),
        ensures
            final(self).wf(),
            exists|now: u64, order: Seq<u128>|
                {
                    &&& count == old(self)@.stale_ids(ttl_secs, now).len()
                    &&& order.no_duplicates()
                    &&& order.to_set() == old(self)@.stale_ids(ttl_secs, now)
                    &&& final(self)@ == #[trigger] old(self)@.expired(ttl_secs, now, order)
                },
    {
        let now = self.clock_nanos();
        self.expire_stale_at(ttl_secs, now)
    }

    fn rebuild_index(&mut self)
        requires
            old(self)@.valid(),
        ensures
            final(self).wf(),
            final(self)@ == old(self)@,
            final(self).waiting@ == old(self).waiting@,
    {
        self.waiting_index.clear();
        let n = self.waiting.len();
        let ghost ids = self@.waiting_ids();
        let mut i: usize = 0;
        while i < n
            invariant
                n == self.waiting@.len(),
                i <= n,
                self@ == old(self)@,
                self.waiting@ == old(self).waiting@,
                ids == self@.waiting_ids(),
                index_matches(self.waiting_index@, ids.take(i as int)),
            decreases n - i,
        {
            let id = self.waiting[i].session_id.0;
            let ghost before = self.waiting_index@;
            self.waiting_index.insert(id, i);
            proof {
                let t = ids.take(i as int);
                let t2 = ids.take(i + 1);
                assert(t2 =~= t.push(id));
                assert forall|k: u128| #[trigger] self.waiting_index@.contains_key(k) implies is_last_index(t2, k, self.waiting_index@[k] as int) by {
                    if k != id {
                        assert(before.contains_key(k));
                        assert(is_last_index(t, k, before[k] as int));
                    }
                }
                assert forall|k: u128| t2.contains(k) implies #[trigger] self.waiting_index@.contains_key(k) by {
                    if k != id {
                        let j = choose|j: int| 0 <= j < t2.len() && t2[j] == k;
                        assert(t[j] == k);
                        assert(t.contains(k));
                    }
                }
                assert forall|k: u128| #[trigger] self.waiting_index@.contains_key(k) implies t2.contains(k) by {
                    if k != id {
                        assert(before.contains_key(k));
                        let j = choose|j: int| 0 <= j < t.len() && t[j] == k;
                        assert(t2[j] == k);
                    } else {
                        assert(t2[i as int] == k);
                    }
                }
            }
            i = i + 1;
        }
        assert(ids.take(n as int) =~= ids);
        self.generation = self.generation.wrapping_add(1);
    }

    /// Lets through, at `now`, up to `slots` sessions from the front of the
    /// line, in order; returns their ids.
    pub fn admit_from_queue_at(&mut self, slots: usize, now: u64) -> (admitted: Vec<SessionId>)
        requires
            old(self).wf(),
        ensures
            final(self).wf(),
            admitted@.len() == old(self)@.admit_count(slots as int),
            admitted@.map_values(|s: SessionId| s.0) == old(self)@.waiting_ids().take(admitted@.len() as int),
            final(self)@ == old(self)@.front_admitted(admitted@.len() as int, now),
    {
        let total = self.waiting.len();
        let ghost old_ids = old(self)@.waiting_ids();
        let mut admitted: Vec<SessionId> = Vec::new();
        let mut n: usize = 0;
        while n < slots && n < total
            invariant
                n <= total,
                total == old(self).waiting@.len(),
                admitted@.len() == n,
                n <= slots,
                admitted@.map_values(|s: SessionId| s.0) == old_ids.take(n as int),
                old_ids == old(self)@.waiting_ids(),
                old(self).wf(),
                self.waiting@ == old(self).waiting@.skip(n as int),
                self.active@ == old(self).active@.union_prefer_right(
                    Map::new(|id: u128| old_ids.take(n as int).contains(id), |id: u128| fresh_session(id, now)),
                ),
                self.active@.dom().finite(),
                forall|k: u128| #[trigger] self.active@.contains_key(k) ==> self.active@[k].session_id.0 == k,
                self.total_admitted == sat_u64(old(self).total_admitted as int, n as int),
                self.total_active_duration_nanos == old(self).total_active_duration_nanos,
                self.completed_sessions == old(self).completed_sessions,
                self.total_visitors == old(self).total_visitors,
                n == 0 ==> self.waiting_index@ == old(self).waiting_index@,
            decreases total - n,
        {
            let front = self.waiting.pop_front();
            match front {
                Some(entry) => {
                    let id = entry.session_id;
                    self.waiting_index.remove(&id.0);
                    self.active.insert(id.0, ActiveSession { session_id: id, admitted_at: now, last_seen: now });
                    self.total_admitted = self.total_admitted.saturating_add(1);
                    admitted.push(id);
                    proof {
                        assert(entry == old(self).waiting@[n as int]);
                        assert(old_ids[n as int] == id.0);
                        assert(old_ids.take(n + 1) =~= old_ids.take(n as int).push(id.0));
                        assert(admitted@.map_values(|s: SessionId| s.0) =~= old_ids.take(n + 1));
                        assert(self.waiting@ =~= old(self).waiting@.skip(n + 1));
                        let t1 = old_ids.take(n as int);
                        let t2 = old_ids.take(n + 1);
                        assert(t2[n as int] == id.0);
                        assert forall|x: u128| t2.contains(x) <==> (t1.contains(x) || x == id.0) by {
                            if x == id.0 {
                                assert(t2[n as int] == id.0);
                            }
                            if t2.contains(x) && x != id.0 {
                                let j = choose|j: int| 0 <= j < t2.len() && t2[j] == x;
                                assert(t1[j] == x);
                            }
                            if t1.contains(x) {
                                let j = choose|j: int| 0 <= j < t1.len() && t1[j] == x;
                                assert(t2[j] == x);
                            }
                        }
                        assert(self.active@ =~= old(self).active@.union_prefer_right(
                            Map::new(|x: u128| old_ids.take(n + 1).contains(x), |x: u128| fresh_session(x, now)),
                        ));
                    }
                    n = n + 1;
                },
                None => {
                    proof {
                        assert(false);
                    }
                },
            }
        }
        if admitted.len() > 0 {
            self.rebuild_index();
        }
        proof {
            assert(self@ == old(self)@.front_admitted(n as int, now));
            if n == 0 {
                assert(self.waiting@ =~= old(self).waiting@);
                assert(self@.waiting_ids() == old(self)@.waiting_ids());
            }
        }
        admitted
    }

    /// Lets through up to `slots` sessions from the front of the line, in order.
    pub fn admit_from_queue(&mut self, slots: usize) -> (admitted: Vec<SessionId>)
        requires
            old(self).wf(),
        ensures
            final(self).wf(),
            admitted@.len() == old(self)@.admit_count(slots as int),
            admitted@.map_values(|s: SessionId| s.0) == old(self)@.waiting_ids().take(admitted@.len() as int),
            exists|now: u64| final(self)@ == #[trigger] old(self)@.front_admitted(admitted@.len() as int, now),
    {
        let now = self.clock_nanos();
        self.admit_from_queue_at(slots, now)
    }

    /// Empties the queue and resets its counters.
    pub fn flush(&mut self)
        requires
            old(self).wf(),
        ensures
            final(self).wf(),
            final(self)@ == old(self)@.flushed(),
    {
        self.active.clear();
        self.waiting.clear();
        self.waiting_index.clear();
        self.generation = self.generation.wrapping_add(1);
        self.total_active_duration_nanos = 0;
        self.completed_sessions = 0;
        self.total_admitted = 0;
        self.total_visitors = 0;
        assert(self@.waiting_ids() =~= Seq::<u128>::empty());
    }
}

} // verus!

verus! {

/// One operation on a queue, as its contracts describe it: each `_at`
/// operation, `record_visitor` and `flush`.
pub enum QueueOp {
    /// `admit_at(id, now)`.
    Admit(u128, u64),
    /// `enqueue_at(id, now)`.
    Enqueue(u128, u64),
    /// `touch_at(id, now)`.
    Touch(u128, u64),
    /// `record_visitor()`.
    Visit,
    /// `expire_stale_at(ttl_secs, now)`, the stale sessions taken in the given order.
    Expire(u64, u64, Seq<u128>),
    /// `admit_from_queue_at(slots, now)`.
    LetIn(usize, u64),
    /// `flush()`.
    Flush,
}

/// The state after `op`.
pub open spec fn apply_op(m: QueueModel, op: QueueOp) -> QueueModel {
    match op {
        QueueOp::Admit(id, now) => m.admitted(id, now),
        QueueOp::Enqueue(id, now) => m.enqueued(id, now),
        QueueOp::Touch(id, now) => m.touched(id, now),
        QueueOp::Visit => m.visited(),
        QueueOp::Expire(ttl, now, order) => m.expired(ttl, now, order),
        QueueOp::LetIn(slots, now) => m.front_admitted(m.admit_count(slots as int), now),
        QueueOp::Flush => m.flushed(),
    }
}

/// The state after the operations `ops`, in order, starting from `m`.
pub open spec fn replay(m: QueueModel, ops: Seq<QueueOp>) -> QueueModel
    decreases ops.len(),
{
    if ops.len() == 0 {
        m
    } else {
        apply_op(replay(m, ops.drop_last()), ops.last())
    }
}

/// How many sessions the operations `ops`, run from `m`, let through since
/// the last flush: one per direct admission, and as many as were let in
/// from the line.
pub open spec fn admitted_since_flush(m: QueueModel, ops: Seq<QueueOp>) -> int
    decreases ops.len(),
{
    if ops.len() == 0 {
        0
    } else {
        let before = admitted_since_flush(m, ops.drop_last());
        match ops.last() {
            QueueOp::Admit(_, _) => before + 1,
            QueueOp::LetIn(slots, _) => before + replay(m, ops.drop_last()).admit_count(slots as int),
            QueueOp::Flush => 0,
            _ => before,
        }
    }
}

/// How many visitors the operations `ops` counted since the last flush.
pub open spec fn visits_since_flush(ops: Seq<QueueOp>) -> int
    decreases ops.len(),
{
    if ops.len() == 0 {
        0
    } else {
        match ops.last() {
            QueueOp::Visit => visits_since_flush(ops.drop_last()) + 1,
            QueueOp::Flush => 0,
            _ => visits_since_flush(ops.drop_last()),
        }
    }
}

/// How many sessions the operations `ops` expired since the last flush.
pub open spec fn expired_since_flush(ops: Seq<QueueOp>) -> int
    decreases ops.len(),
{
    if ops.len() == 0 {
        0
    } else {
        match ops.last() {
            QueueOp::Expire(_, _, order) => expired_since_flush(ops.drop_last()) + order.len(),
            QueueOp::Flush => 0,
            _ => expired_since_flush(ops.drop_last()),
        }
    }
}

/// The empty queue, as `new` and `flush` leave it.
pub open spec fn empty_queue() -> QueueModel {
    QueueModel {
        active: Map::empty(),
        waiting: Seq::empty(),
        total_active_duration_nanos: 0,
        completed_sessions: 0,
        total_admitted: 0,
        total_visitors: 0,
    }
}

/// The queue's counters over a whole history: starting from an empty
/// queue, after any sequence of operations the admitted, visitor and
/// finished-session counters are the numbers of sessions admitted, visitors
/// counted and sessions expired since the last flush, each held at
/// `u64::MAX`.
pub proof fn lemma_counters_count_history(ops: Seq<QueueOp>)
    ensures
        replay(empty_queue(), ops).total_admitted == sat_u64(0, admitted_since_flush(empty_queue(), ops)),
        replay(empty_queue(), ops).total_visitors == sat_u64(0, visits_since_flush(ops)),
        replay(empty_queue(), ops).completed_sessions == sat_u64(0, expired_since_flush(ops)),
    decreases ops.len(),
{
    if ops.len() > 0 {
        let prev = ops.drop_last();
        lemma_counters_count_history(prev);
        lemma_history_counts_nonneg(prev);
    }
}

proof fn lemma_history_counts_nonneg(ops: Seq<QueueOp>)
    ensures
        admitted_since_flush(empty_queue(), ops) >= 0,
        visits_since_flush(ops) >= 0,
        expired_since_flush(ops) >= 0,
    decreases ops.len(),
{
    if ops.len() > 0 {
        lemma_history_counts_nonneg(ops.drop_last());
    }
}

} // verus!

verus! {

/// What a waiting session is told is about its own place: it stands at the
/// reported place (its last place, if it is in line twice), the whole
/// line's length is reported, and the wait is estimated for that place:
/// the mean session length (the observed mean in whole milliseconds,
/// rounded down, once sessions have finished; five minutes before) times
/// the place, over the number of active sessions (at least one), rounded
/// down and held at `u128::MAX`.
pub proof fn lemma_reported_wait_is_for_own_place(m: QueueModel, id: u128)
    requires
        m.is_waiting(id),
        m.waiting.len() <= usize::MAX,
    ensures
        m.position_report(id) is Some,
        ({
            let p = m.position_report(id)->0;
            let mean: int = if m.completed_sessions > 0 {
                (m.total_active_duration_nanos / 1_000_000) as int / (m.completed_sessions as int)
            } else {
                300_000
            };
            let d: int = if m.active.len() > 1 { m.active.len() as int } else { 1 };
            &&& 1 <= p.position <= m.waiting.len()
            &&& m.waiting_ids()[p.position - 1] == id
            &&& forall|j: int| p.position <= j < m.waiting.len() ==> m.waiting_ids()[j] != id
            &&& p.total_waiting == m.waiting.len()
            &&& p.eta_millis == (if mean * p.position > u128::MAX { u128::MAX as int } else { (mean * p.position) / d })
        }),
{
    let ids = m.waiting_ids();
    let w = choose|i: int| 0 <= i < ids.len() && ids[i] == id;
    crate::backend::lemma_exists_last_index(ids, id, w);
    let l = last_index(ids, id);
    assert(is_last_index(ids, id, l));
}

/// The active time that expiry records for the sessions `ids` is the sum,
/// over them, of the time from each one's admission to `now` (0 for one
/// admitted later), whatever its last activity.
pub proof fn lemma_durations_are_since_admission(active: Map<u128, ActiveSession>, ids: Seq<u128>, now: u64)
    ensures
        durations_sum(active, ids, now) == ids.fold_left(
            0int,
            |acc: int, k: u128|
                acc + (if now >= active[k].admitted_at { now - active[k].admitted_at } else { 0int }),
        ),
    decreases ids.len(),
{
    if ids.len() > 0 {
        lemma_durations_are_since_admission(active, ids.drop_last(), now);
    }
}

/// Expiring the stale sessions, taken in the order `order`, adds to the
/// total active time, for each of them, the time since its admission (not
/// since its last activity), held at `u128::MAX`, and counts each as a
/// finished session.
pub proof fn lemma_expiry_records_time_since_admission(m: QueueModel, ttl_secs: u64, now: u64, order: Seq<u128>)
    ensures
        ({
            let added = order.fold_left(
                0int,
                |acc: int, k: u128|
                    acc + (if now >= m.active[k].admitted_at { now - m.active[k].admitted_at } else { 0int }),
            );
            let total = m.total_active_duration_nanos + added;
            let e = m.expired(ttl_secs, now, order);
            &&& e.total_active_duration_nanos == (if total > u128::MAX { u128::MAX as int } else { total })
            &&& e.completed_sessions == (if m.completed_sessions + order.len() > u64::MAX { u64::MAX as int } else { m.completed_sessions + order.len() })
        }),
{
    lemma_durations_are_since_admission(m.active, order, now);
    lemma_durations_sum_nonneg(m.active, order, now);
}

} // verus!
