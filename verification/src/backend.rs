use vstd::prelude::*;
use crate::queue::{
    QueueModel, QueuePosition, QueueStats, SessionId, WaitingQueue, fresh_session, is_last_index,
    last_index,
};

verus! {

/// What the entrance decided for a request.
#[derive(Debug, Clone, Copy, PartialEq, Eq, Structural)]
pub enum GateResult {
    /// The session was already let through; it was marked as seen.
    Active,
    /// The session already waits in line.
    Waiting { position: usize, total: usize },
    /// The session was let through just now.
    Admitted,
    /// The session joined the end of the line just now.
    Enqueued { position: usize, total: usize },
}

/// The entrance's decision for a request carrying session `id` (or none, in
/// which case `new_id` is used), and the state it leaves, at time `now`. A
/// session that enters the system (admitted or put in line) is counted as
/// a new visitor.
pub open spec fn gate_outcome(
    m: QueueModel,
    id: Option<SessionId>,
    new_id: SessionId,
    max_active: u32,
    now: u64,
) -> (QueueModel, GateResult) {
    if id is Some && m.is_active((id->0).0) {
        (m.touched((id->0).0, now), GateResult::Active)
    } else if id is Some && m.is_waiting((id->0).0) {
        (
            m,
            GateResult::Waiting {
                position: m.position_of((id->0).0)->0 as usize,
                total: m.waiting.len() as usize,
            },
        )
    } else {
        let used = if id is Some { (id->0).0 } else { new_id.0 };
        if m.active.len() < max_active {
            (m.visited().admitted(used, now), GateResult::Admitted)
        } else {
            let m2 = m.visited().enqueued(used, now);
            (
                m2,
                GateResult::Enqueued {
                    position: m2.waiting.len() as usize,
                    total: m2.waiting.len() as usize,
                },
            )
        }
    }
}

/// Free places under `max_active` when `active` sessions are let through.
pub open spec fn free_slots(max_active: u32, active: int) -> int {
    if max_active > active { max_active - active } else { 0 }
}

/// Whether `order` lists each session of `m` that is stale at `now` exactly once.
pub open spec fn is_expiry_order(m: QueueModel, ttl_secs: u64, now: u64, order: Seq<u128>) -> bool {
    &&& order.no_duplicates()
    &&& order.to_set() == m.stale_ids(ttl_secs, now)
}

/// The state a reaper cycle leaves at `now`, when the stale sessions are
/// taken in the order `order`: they are expired, then the free places are
/// filled from the front of the line.
pub open spec fn reaped(m: QueueModel, ttl_secs: u64, max_active: u32, now: u64, order: Seq<u128>) -> QueueModel {
    let m1 = m.expired(ttl_secs, now, order);
    m1.front_admitted(m1.admit_count(free_slots(max_active, m1.active.len() as int)), now)
}

/// The counts a reaper cycle reports: sessions expired and sessions let in.
pub open spec fn reaper_counts(m: QueueModel, ttl_secs: u64, max_active: u32, now: u64, order: Seq<u128>) -> (usize, usize) {
    let m1 = m.expired(ttl_secs, now, order);
    (
        m.stale_ids(ttl_secs, now).len() as usize,
        m1.admit_count(free_slots(max_active, m1.active.len() as int)) as usize,
    )
}


proof fn lemma_front_admitted_dom(m: QueueModel, k: int, now: u64)
    requires
        0 <= k <= m.waiting.len(),
        m.active.dom().finite(),
    ensures
        m.front_admitted(k, now).active.dom() == m.active.dom().union(m.waiting_ids().take(k).to_set()),
        m.front_admitted(k, now).active.dom().finite(),
        m.front_admitted(k, now).active.dom().len() <= m.active.dom().len() + k,
{
    let ids = m.waiting_ids().take(k);
    let fresh = Map::new(|id: u128| ids.contains(id), |id: u128| fresh_session(id, now));
    assert(fresh.dom() =~= ids.to_set());
    assert(m.front_admitted(k, now).active.dom() =~= m.active.dom().union(ids.to_set()));
    ids.lemma_cardinality_of_set();
    vstd::seq_lib::seq_to_set_is_finite(ids);
    vstd::set_lib::lemma_len_union(m.active.dom(), ids.to_set());
}

/// The entrance never lets a session through beyond `max_active`: from a valid
/// state with at most `max_active` active sessions, it leaves at most
/// `max_active` active sessions, and a valid state.
pub proof fn lemma_gate_keeps_capacity(
    m: QueueModel,
    id: Option<SessionId>,
    new_id: SessionId,
    max_active: u32,
    now: u64,
)
    requires
        m.valid(),
        m.active.len() <= max_active,
    ensures
        gate_outcome(m, id, new_id, max_active, now).0.valid(),
        gate_outcome(m, id, new_id, max_active, now).0.active.len() <= max_active,
{
    let used = if id is Some { (id->0).0 } else { new_id.0 };
    assert(m.active.insert(used, fresh_session(used, now)).dom() =~= m.active.dom().insert(used));
    if id is Some && m.is_active((id->0).0) {
        let i = (id->0).0;
        assert(m.touched(i, now).active.dom() =~= m.active.dom());
    }
}

/// A session the entrance has just let through passes the entrance as active on
/// its next request, whatever the capacity then.
pub proof fn lemma_gate_admitted_session_passes(
    m: QueueModel,
    id: Option<SessionId>,
    new_id: SessionId,
    max_active: u32,
    now: u64,
    next_new_id: SessionId,
    next_max_active: u32,
    later: u64,
)
    requires
        gate_outcome(m, id, new_id, max_active, now).1 == GateResult::Admitted,
    ensures
        ({
            let used = if id is Some { id->0 } else { new_id };
            let m2 = gate_outcome(m, id, new_id, max_active, now).0;
            gate_outcome(m2, Some(used), next_new_id, next_max_active, later).1 == GateResult::Active
        }),
{
}

/// A session the entrance has just put in line, and that was not let through
/// before, sees the same place in line on its next request, as long as the
/// line has not changed in between.
pub proof fn lemma_gate_enqueued_session_waits(
    m: QueueModel,
    id: Option<SessionId>,
    new_id: SessionId,
    max_active: u32,
    now: u64,
    next_new_id: SessionId,
    next_max_active: u32,
    later: u64,
)
    requires
        gate_outcome(m, id, new_id, max_active, now).1 is Enqueued,
        !m.is_active((if id is Some { id->0 } else { new_id }).0),
    ensures
        ({
            let used = if id is Some { id->0 } else { new_id };
            let (m2, r) = gate_outcome(m, id, new_id, max_active, now);
            gate_outcome(m2, Some(used), next_new_id, next_max_active, later).1 == (GateResult::Waiting {
                position: r->Enqueued_position,
                total: r->Enqueued_total,
            })
        }),
{
    let used = if id is Some { id->0 } else { new_id };
    let m2 = m.enqueued(used.0, now);
    let ids = m2.waiting_ids();
    assert(ids =~= m.waiting_ids().push(used.0));
    assert(is_last_index(ids, used.0, ids.len() - 1));
    crate::queue::lemma_last_index_unique(ids, used.0, ids.len() - 1);
    assert(ids.contains(used.0));
}

/// A reaper cycle never lets sessions in beyond `max_active`: afterwards at
/// most `max_active` sessions are active, or, when more than that were still
/// active after expiry, nobody was let in.
pub proof fn lemma_reaper_keeps_capacity(
    m: QueueModel,
    ttl_secs: u64,
    max_active: u32,
    now: u64,
    order: Seq<u128>,
)
    requires
        m.valid(),
        is_expiry_order(m, ttl_secs, now, order),
    ensures
        ({
            let m1 = m.expired(ttl_secs, now, order);
            let r = reaped(m, ttl_secs, max_active, now, order);
            &&& r.valid()
            &&& r.active.len() <= max_active || r.active == m1.active
            &&& m.active.len() <= max_active ==> r.active.len() <= max_active
        }),
{
    let m1 = m.expired(ttl_secs, now, order);
    let stale = m.stale_ids(ttl_secs, now);
    assert(m1.active.dom() =~= m.active.dom().difference(stale));
    vstd::set_lib::lemma_len_subset(m1.active.dom(), m.active.dom());
    let k = m1.admit_count(free_slots(max_active, m1.active.len() as int));
    lemma_front_admitted_dom(m1, k, now);
    if k == 0 {
        assert(m1.waiting_ids().take(0) =~= Seq::<u128>::empty());
        assert(m1.front_admitted(k, now).active =~= m1.active);
    }
}

/// When nobody in line is also active and nobody stands in line twice, a
/// reaper cycle fills every free place: it lets in exactly
/// `min(free places, line length)` sessions, and if anyone is left waiting,
/// `max_active` sessions are active.
pub proof fn lemma_reaper_fills_free_places(
    m: QueueModel,
    ttl_secs: u64,
    max_active: u32,
    now: u64,
    order: Seq<u128>,
)
    requires
        m.valid(),
        is_expiry_order(m, ttl_secs, now, order),
        m.waiting_ids().no_duplicates(),
        forall|i: int| 0 <= i < m.waiting.len() ==> !m.is_active(#[trigger] m.waiting_ids()[i]),
    ensures
        ({
            let m1 = m.expired(ttl_secs, now, order);
            let k = m1.admit_count(free_slots(max_active, m1.active.len() as int));
            let r = reaped(m, ttl_secs, max_active, now, order);
            &&& r.active.len() == m1.active.len() + k
            &&& (m1.active.len() <= max_active && r.waiting.len() > 0) ==> r.active.len() == max_active
        }),
{
    let m1 = m.expired(ttl_secs, now, order);
    let stale = m.stale_ids(ttl_secs, now);
    assert(m1.active.dom() =~= m.active.dom().difference(stale));
    let k = m1.admit_count(free_slots(max_active, m1.active.len() as int));
    lemma_front_admitted_dom(m1, k, now);
    let ids = m1.waiting_ids().take(k);
    assert(m1.waiting_ids() == m.waiting_ids());
    assert(ids.no_duplicates());
    ids.unique_seq_to_set();
    assert(m1.active.dom().disjoint(ids.to_set())) by {
        assert forall|x: u128| m1.active.dom().contains(x) implies !ids.to_set().contains(x) by {
            if ids.to_set().contains(x) {
                let j = choose|j: int| 0 <= j < ids.len() && ids[j] == x;
                assert(m.waiting_ids()[j] == x);
            }
        }
    }
    vstd::seq_lib::seq_to_set_is_finite(ids);
    vstd::set_lib::lemma_set_disjoint_lens(m1.active.dom(), ids.to_set());
}

/// Nobody stands in line twice, and nobody in line is also active.
pub open spec fn line_is_clean(m: QueueModel) -> bool {
    &&& m.waiting_ids().no_duplicates()
    &&& forall|i: int| 0 <= i < m.waiting.len() ==> !m.is_active(#[trigger] m.waiting_ids()[i])
}

/// The entrance keeps the line clean, as long as the id it would give a new
/// session is neither active nor in line.
pub proof fn lemma_gate_keeps_line_clean(
    m: QueueModel,
    id: Option<SessionId>,
    new_id: SessionId,
    max_active: u32,
    now: u64,
)
    requires
        line_is_clean(m),
        !m.is_active(new_id.0),
        !m.is_waiting(new_id.0),
    ensures
        line_is_clean(gate_outcome(m, id, new_id, max_active, now).0),
{
    let used = if id is Some { (id->0).0 } else { new_id.0 };
    let m2 = gate_outcome(m, id, new_id, max_active, now).0;
    if id is Some && m.is_active((id->0).0) {
        let i = (id->0).0;
        assert(m.touched(i, now).active.dom() =~= m.active.dom());
        assert(m2.waiting_ids() == m.waiting_ids());
        assert forall|j: int| 0 <= j < m2.waiting.len() implies !m2.is_active(#[trigger] m2.waiting_ids()[j]) by {
            assert(!m.is_active(m.waiting_ids()[j]));
        }
    } else if id is Some && m.is_waiting((id->0).0) {
    } else if m.active.len() < max_active {
        assert(m2.waiting_ids() == m.waiting_ids());
        assert forall|j: int| 0 <= j < m2.waiting.len() implies !m2.is_active(#[trigger] m2.waiting_ids()[j]) by {
            assert(!m.is_active(m.waiting_ids()[j]));
            if m.waiting_ids()[j] == used {
                assert(m.is_waiting(used));
            }
        }
    } else {
        let ids = m.waiting_ids();
        assert(m2.waiting_ids() =~= ids.push(used));
        assert(!ids.contains(used));
        assert forall|a: int, b: int| 0 <= a < b < m2.waiting.len() implies m2.waiting_ids()[a] != m2.waiting_ids()[b] by {
            if b == ids.len() {
                assert(ids[a] != used);
            }
        }
        assert forall|j: int| 0 <= j < m2.waiting.len() implies !m2.is_active(#[trigger] m2.waiting_ids()[j]) by {
            if j < ids.len() {
                assert(!m.is_active(ids[j]));
            }
        }
    }
}

/// A reaper cycle keeps the line clean.
pub proof fn lemma_reaper_keeps_line_clean(
    m: QueueModel,
    ttl_secs: u64,
    max_active: u32,
    now: u64,
    order: Seq<u128>,
)
    requires
        line_is_clean(m),
        is_expiry_order(m, ttl_secs, now, order),
    ensures
        line_is_clean(reaped(m, ttl_secs, max_active, now, order)),
{
    let m1 = m.expired(ttl_secs, now, order);
    let k = m1.admit_count(free_slots(max_active, m1.active.len() as int));
    let r = reaped(m, ttl_secs, max_active, now, order);
    let ids = m.waiting_ids();
    assert(m1.waiting_ids() == ids);
    assert(r.waiting_ids() =~= ids.skip(k));
    assert forall|a: int, b: int| 0 <= a < b < r.waiting.len() implies r.waiting_ids()[a] != r.waiting_ids()[b] by {
        assert(r.waiting_ids()[a] == ids[a + k]);
        assert(r.waiting_ids()[b] == ids[b + k]);
    }
    assert forall|j: int| 0 <= j < r.waiting.len() implies !r.is_active(#[trigger] r.waiting_ids()[j]) by {
        let x = ids[j + k];
        assert(r.waiting_ids()[j] == x);
        assert(!m.is_active(x));
        assert(!m1.active.contains_key(x));
        if ids.take(k).contains(x) {
            let a = choose|a: int| 0 <= a < k && ids.take(k)[a] == x;
            assert(ids[a] == x);
        }
    }
}

/// Letting the first `k` in line through, when nobody stands in line
/// twice: the rest of the line keeps its order at places `1..`, the active
/// sessions are the earlier ones and those `k`, and `k` more were admitted.
pub proof fn lemma_admit_from_front(m: QueueModel, k: int, now: u64)
    requires
        m.waiting_ids().no_duplicates(),
        0 <= k <= m.waiting.len(),
    ensures
        ({
            let ids = m.waiting_ids();
            let r = m.front_admitted(k, now);
            &&& r.waiting_ids() == ids.skip(k)
            &&& forall|j: int| 0 <= j < ids.len() - k ==> r.position_of(#[trigger] ids[k + j]) == Some(j + 1)
            &&& r.active.dom() == m.active.dom().union(ids.take(k).to_set())
            &&& r.total_admitted == crate::queue::sat_u64(m.total_admitted as int, k)
        }),
{
    let ids = m.waiting_ids();
    let r = m.front_admitted(k, now);
    let fresh = Map::new(|id: u128| ids.take(k).contains(id), |id: u128| fresh_session(id, now));
    assert(fresh.dom() =~= ids.take(k).to_set());
    assert(r.active.dom() =~= m.active.dom().union(ids.take(k).to_set()));
    assert(r.waiting_ids() =~= ids.skip(k));
    let rest = ids.skip(k);
    assert(rest.no_duplicates()) by {
        assert forall|a: int, b: int| 0 <= a < b < rest.len() implies rest[a] != rest[b] by {
            assert(rest[a] == ids[a + k]);
            assert(rest[b] == ids[b + k]);
        }
    }
    assert forall|j: int| 0 <= j < ids.len() - k implies r.position_of(#[trigger] ids[k + j]) == Some(j + 1) by {
        assert(rest[j] == ids[k + j]);
        crate::queue::lemma_positions_follow_the_line(r, j);
    }
}

/// No place stays empty while someone waits: when the line is clean, after
/// a reaper cycle at most `max(max_active, a0)` sessions are active, where
/// `a0` is the number still active after expiry, and if anyone is left in
/// line, at least `max_active` are active. The expired sessions are gone,
/// the first in line were let in, and the rest wait in order.
pub proof fn lemma_reaper_leaves_no_empty_place(
    m: QueueModel,
    ttl_secs: u64,
    max_active: u32,
    now: u64,
    order: Seq<u128>,
)
    requires
        m.valid(),
        is_expiry_order(m, ttl_secs, now, order),
        line_is_clean(m),
    ensures
        ({
            let m1 = m.expired(ttl_secs, now, order);
            let k = m1.admit_count(free_slots(max_active, m1.active.len() as int));
            let r = reaped(m, ttl_secs, max_active, now, order);
            &&& r.active.len() <= (if max_active > m1.active.len() { max_active as int } else { m1.active.len() as int })
            &&& r.waiting.len() > 0 ==> r.active.len() >= max_active
            &&& r.active.dom() == m.active.dom().difference(m.stale_ids(ttl_secs, now)).union(
                m.waiting_ids().take(k).to_set(),
            )
            &&& r.waiting_ids() == m.waiting_ids().skip(k)
        }),
{
    let m1 = m.expired(ttl_secs, now, order);
    let k = m1.admit_count(free_slots(max_active, m1.active.len() as int));
    let stale = m.stale_ids(ttl_secs, now);
    assert(m1.active.dom() =~= m.active.dom().difference(stale));
    lemma_reaper_keeps_capacity(m, ttl_secs, max_active, now, order);
    lemma_reaper_fills_free_places(m, ttl_secs, max_active, now, order);
    assert(m1.waiting_ids() == m.waiting_ids());
    lemma_admit_from_front(m1, k, now);
}

/// Letting the first `k` in line through moves everyone behind them `k`
/// places forward.
pub proof fn lemma_front_admitted_shifts_positions(m: QueueModel, k: int, now: u64, id: u128)
    requires
        0 <= k <= m.waiting.len(),
        m.position_of(id) is Some,
        m.position_of(id)->0 > k,
    ensures
        m.front_admitted(k, now).position_of(id) == Some(m.position_of(id)->0 - k),
{
    let ids = m.waiting_ids();
    let rest = m.front_admitted(k, now).waiting_ids();
    assert(rest =~= ids.skip(k));
    let l = last_index(ids, id);
    assert(ids.contains(id));
    let w = choose|i: int| 0 <= i < ids.len() && ids[i] == id;
    assert(exists|i: int| is_last_index(ids, id, i)) by {
        lemma_exists_last_index(ids, id, w);
    }
    assert(is_last_index(ids, id, l));
    assert(is_last_index(rest, id, l - k));
    crate::queue::lemma_last_index_unique(rest, id, l - k);
    assert(rest.contains(id)) by {
        assert(rest[l - k] == id);
    }
}

pub(crate) proof fn lemma_exists_last_index(ids: Seq<u128>, id: u128, w: int)
    requires
        0 <= w < ids.len(),
        ids[w] == id,
    ensures
        exists|i: int| is_last_index(ids, id, i),
    decreases ids.len() - w,
{
    if exists|j: int| w < j < ids.len() && ids[j] == id {
        let j = choose|j: int| w < j < ids.len() && ids[j] == id;
        lemma_exists_last_index(ids, id, j);
    } else {
        assert(is_last_index(ids, id, w));
    }
}

/// The in-memory queue backend.
pub struct MemoryBackend {
    queue: WaitingQueue,
}

impl View for MemoryBackend {
    type V = QueueModel;

    closed spec fn view(&self) -> QueueModel {
        self.queue@
    }
}

impl MemoryBackend {
    /// The backend's internal invariant.
    pub closed spec fn wf(&self) -> bool {
        self.queue.wf()
    }

    /// A well-formed backend has a valid abstract state.
    pub proof fn lemma_wf_valid(&self)
        requires
            self.wf(),
        ensures
            self@.valid(),
    {
        self.queue.lemma_wf_valid();
    }

    /// An empty backend.
    pub fn new() -> (b: Self)
        ensures
            b.wf(),
            b@.active == Map::<u128, crate::queue::ActiveSession>::empty(),
            b@.waiting == Seq::<crate::queue::QueueEntry>::empty(),
            b@.total_admitted == 0,
            b@.total_visitors == 0,
            b@.completed_sessions == 0,
            b@.total_active_duration_nanos == 0,
    {
        MemoryBackend { queue: WaitingQueue::new() }
    }

    /// The entrance's decision at `now` for a request carrying session `id`
    /// (`None` when it carried no valid session; `new_id` is then used).
    pub fn gate_check_at(&mut self, id: Option<SessionId>, new_id: SessionId, max_active: u32, now: u64) -> (r: GateResult)
        requires
            old(self).wf(),
        ensures
            final(self).wf(),
            (final(self)@, r) == gate_outcome(old(self)@, id, new_id, max_active, now),
    {
        let q = &mut self.queue;
        match id {
            Some(i) => {
                if q.is_active(&i) {
                    q.touch_at(&i, now);
                    return GateResult::Active;
                }
                if q.is_waiting(&i) {
                    let pos = q.get_position(&i);
                    match pos {
                        Some(p) => {
                            return GateResult::Waiting { position: p.position, total: p.total_waiting };
                        },
                        None => {},
                    }
                }
            },
            None => {},
        }
        let used = match id {
            Some(i) => i,
            None => new_id,
        };
        q.record_visitor();
        if q.active_count() < max_active as usize {
            q.admit_at(used, now);
            GateResult::Admitted
        } else {
            q.enqueue_at(used, now);
            let total = q.waiting_count();
            GateResult::Enqueued { position: total, total }
        }
    }

    /// The entrance's decision now for a request carrying session `id`.
    /// `ttl_secs` is not consulted: in memory, idle sessions are expired by
    /// the reaper.
    pub fn gate_check(&mut self, id: Option<SessionId>, new_id: SessionId, max_active: u32, ttl_secs: u64) -> (r: GateResult)
        requires
            old(self).wf(),
        ensures
            final(self).wf(),
            exists|now: u64| (final(self)@, r) == #[trigger] gate_outcome(old(self)@, id, new_id, max_active, now),
    {
        let now = self.queue.clock_nanos();
        self.gate_check_at(id, new_id, max_active, now)
    }

    /// Where `id` stands in line, if it waits.
    pub fn get_position(&self, id: &SessionId) -> (p: Option<QueuePosition>)
        requires
            self.wf(),
        ensures
            p == self@.position_report(id.0),
    {
        self.queue.get_position(id)
    }

    /// Whether `id` has been let through.
    pub fn is_active(&self, id: &SessionId) -> (b: bool)
        ensures
            b == self@.is_active(id.0),
    {
        self.queue.is_active(id)
    }

    /// The counters of the line.
    pub fn stats(&self) -> (s: QueueStats)
        ensures
            s == self@.stats_report(),
    {
        self.queue.stats()
    }

    /// Empties the line and the active set and resets the counters.
    pub fn flush(&mut self)
        requires
            old(self).wf(),
        ensures
            final(self).wf(),
            final(self)@ == old(self)@.flushed(),
    {
        self.queue.flush();
    }

    /// One reaper cycle at `now`: expires sessions idle for longer than
    /// `ttl_secs`, then lets in from the front of the line as many as fit
    /// under `max_active`. Returns (expired, let in).
    pub fn reaper_cycle_at(&mut self, ttl_secs: u64, max_active: u32, now: u64) -> (r: (usize, usize))
        requires
            old(self).wf(),
        ensures
            final(self).wf(),
            exists|order: Seq<u128>|
                {
                    &&& is_expiry_order(old(self)@, ttl_secs, now, order)
                    &&& final(self)@ == #[trigger] reaped(old(self)@, ttl_secs, max_active, now, order)
                    &&& r == reaper_counts(old(self)@, ttl_secs, max_active, now, order)
                },
    {
        let expired = self.queue.expire_stale_at(ttl_secs, now);
        let ghost mid = self.queue@;
        let slots = (max_active as usize).saturating_sub(self.queue.active_count());
        let admitted = self.queue.admit_from_queue_at(slots, now);
        proof {
            let order = choose|order: Seq<u128>|
                {
                    &&& order.no_duplicates()
                    &&& order.to_set() == old(self)@.stale_ids(ttl_secs, now)
                    &&& mid == #[trigger] old(self)@.expired(ttl_secs, now, order)
                };
            assert(is_expiry_order(old(self)@, ttl_secs, now, order));
            assert(final(self)@ == reaped(old(self)@, ttl_secs, max_active, now, order));
        }
        (expired, admitted.len())
    }

    /// One reaper cycle now. Returns (expired, let in).
    pub fn reaper_cycle(&mut self, ttl_secs: u64, max_active: u32) -> (r: (usize, usize))
        requires
            old(self).wf(),
        ensures
            final(self).wf(),
            exists|now: u64, order: Seq<u128>|
                {
                    &&& is_expiry_order(old(self)@, ttl_secs, now, order)
                    &&& final(self)@ == #[trigger] reaped(old(self)@, ttl_secs, max_active, now, order)
                    &&& r == reaper_counts(old(self)@, ttl_secs, max_active, now, order)
                },
    {
        let now = self.queue.clock_nanos();
        self.reaper_cycle_at(ttl_secs, max_active, now)
    }
}

} // verus!
