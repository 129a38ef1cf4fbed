use vstd::prelude::*;
use crate::clock::{epoch_reading_nanos, signed_epoch_nanos, unix_time_nanos};
use crate::ids::{random_uuid_value, uuid_prefix8, uuid_text};
use crate::text::{copy_opt_string, copy_string};

verus! {

/// The current time in nanoseconds since the Unix epoch, from the system
/// clock: 0 when the clock reads before the epoch (and held at `i128::MAX`).
pub fn utc_now_nanos() -> (t: i128)
    ensures
        exists|r: Option<u128>| t == #[trigger] epoch_reading_nanos(r),
{
    signed_epoch_nanos(unix_time_nanos())
}

/// Counters recorded for a schedule while it runs.
#[derive(Debug, Clone, Copy, PartialEq, Eq, Structural)]
pub struct ScheduleStats {
    pub peak_active_users: usize,
    pub peak_queue_length: usize,
    pub total_admitted: u64,
    pub total_visitors: u64,
}

impl Default for ScheduleStats {
    fn default() -> (s: Self)
        ensures
            s == (ScheduleStats { peak_active_users: 0, peak_queue_length: 0, total_admitted: 0, total_visitors: 0 }),
    {
        ScheduleStats { peak_active_users: 0, peak_queue_length: 0, total_admitted: 0, total_visitors: 0 }
    }
}

/// Where a schedule is in its life.
#[derive(Debug, Clone, Copy, PartialEq, Eq, Structural)]
pub enum SchedulePhase {
    /// Its start has not come yet.
    Pending,
    /// Started and not ended: the waiting room is on.
    Active,
    /// Its end has passed.
    Ended,
}

impl Default for SchedulePhase {
    fn default() -> (p: Self)
        ensures
            p == SchedulePhase::Pending,
    {
        SchedulePhase::Pending
    }
}

/// A timed event: the waiting room is on from `start_at` until `end_at`
/// (nanoseconds since the Unix epoch), with optional overrides of the
/// server settings.
#[derive(Debug)]
pub struct Schedule {
    pub id: String,
    pub name: String,
    pub start_at: i128,
    pub end_at: i128,
    pub max_active_users: Option<u32>,
    pub origin_url: Option<String>,
    pub session_ttl_secs: Option<u64>,
    pub phase: SchedulePhase,
    pub stats: ScheduleStats,
}

/// A request to create a schedule.
#[derive(Debug)]
pub struct CreateScheduleRequest {
    pub name: String,
    pub start_at: i128,
    pub end_at: i128,
    pub max_active_users: Option<u32>,
    pub origin_url: Option<String>,
    pub session_ttl_secs: Option<u64>,
}

/// A copy of `s`.
pub fn copy_schedule(s: &Schedule) -> (r: Schedule)
    ensures
        r == *s,
{
    Schedule {
        id: copy_string(&s.id),
        name: copy_string(&s.name),
        start_at: s.start_at,
        end_at: s.end_at,
        max_active_users: s.max_active_users,
        origin_url: copy_opt_string(&s.origin_url),
        session_ttl_secs: s.session_ttl_secs,
        phase: s.phase,
        stats: s.stats,
    }
}

impl Schedule {
    /// A new pending schedule for `req`, with a fresh id of eight
    /// hexadecimal digits and zeroed counters.
    pub fn new(req: CreateScheduleRequest) -> (s: Self)
        ensures
            exists|v: u128| s.id@ == #[trigger] uuid_text(v).take(8),
            s.name == req.name,
            s.start_at == req.start_at,
            s.end_at == req.end_at,
            s.max_active_users == req.max_active_users,
            s.origin_url == req.origin_url,
            s.session_ttl_secs == req.session_ttl_secs,
            s.phase == SchedulePhase::Pending,
            s.stats == (ScheduleStats { peak_active_users: 0, peak_queue_length: 0, total_admitted: 0, total_visitors: 0 }),
    {
        let v = random_uuid_value();
        Schedule {
            id: uuid_prefix8(v),
            name: req.name,
            start_at: req.start_at,
            end_at: req.end_at,
            max_active_users: req.max_active_users,
            origin_url: req.origin_url,
            session_ttl_secs: req.session_ttl_secs,
            phase: SchedulePhase::Pending,
            stats: ScheduleStats::default(),
        }
    }
}

/// What the schedules imply for the waiting room at one moment.
#[derive(Debug)]
pub struct ScheduleState {
    pub enabled: bool,
    pub max_active_override: Option<u32>,
    pub origin_url_override: Option<String>,
    pub session_ttl_override: Option<u64>,
    /// The name of the running schedule.
    pub active_schedule: Option<String>,
    pub active_schedule_id: Option<String>,
    /// A schedule became active in this evaluation.
    pub just_started: bool,
    /// A schedule went from active to ended in this evaluation.
    pub just_ended: bool,
    /// The ids of all schedules whose end has passed, in order.
    pub ended_schedule_ids: Vec<String>,
    /// The ids of the schedules that went from active to ended in this
    /// evaluation, in order.
    pub just_ended_ids: Vec<String>,
}

/// Whether `s` runs at `now`.
pub open spec fn is_live(s: Schedule, now: int) -> bool {
    s.start_at <= now && now < s.end_at
}

/// Whether `s` has ended at `now`.
pub open spec fn has_ended(s: Schedule, now: int) -> bool {
    now >= s.end_at
}

/// The index of the first schedule of `s` that runs at `now` (`s.len()` if none).
pub open spec fn first_live(s: Seq<Schedule>, now: int) -> int
    decreases s.len(),
{
    if s.len() == 0 {
        0
    } else if is_live(s[0], now) {
        0
    } else {
        1 + first_live(s.drop_first(), now)
    }
}

/// The ids of the schedules of `s` that have ended at `now`, in order.
pub open spec fn ended_ids(s: Seq<Schedule>, now: int) -> Seq<String>
    decreases s.len(),
{
    if s.len() == 0 {
        Seq::empty()
    } else if has_ended(s.last(), now) {
        ended_ids(s.drop_last(), now).push(s.last().id)
    } else {
        ended_ids(s.drop_last(), now)
    }
}

/// The ids of the schedules of `s` that were active and have ended at
/// `now`, in order.
pub open spec fn newly_ended_ids(s: Seq<Schedule>, now: int) -> Seq<String>
    decreases s.len(),
{
    if s.len() == 0 {
        Seq::empty()
    } else if has_ended(s.last(), now) && s.last().phase == SchedulePhase::Active {
        newly_ended_ids(s.drop_last(), now).push(s.last().id)
    } else {
        newly_ended_ids(s.drop_last(), now)
    }
}

/// The phase the `i`-th schedule gets when the first running one is the
/// `live`-th: every schedule whose end has passed is marked ended, the
/// running one is marked active, the others are left alone.
pub open spec fn evaluated_phase(s: Schedule, now: int, i: int, live: int) -> SchedulePhase {
    if has_ended(s, now) {
        SchedulePhase::Ended
    } else if i == live {
        SchedulePhase::Active
    } else {
        s.phase
    }
}

/// The schedules after evaluation at `now`.
pub open spec fn evaluated(s: Seq<Schedule>, now: int) -> Seq<Schedule> {
    Seq::new(s.len(), |i: int| Schedule { phase: evaluated_phase(s[i], now, i, first_live(s, now)), ..s[i] })
}

/// Whether `r` is what evaluating the schedules `s` at `now` reports.
pub open spec fn reports(s: Seq<Schedule>, now: int, r: ScheduleState) -> bool {
    let live = first_live(s, now);
    &&& r.enabled == (live < s.len())
    &&& live < s.len() ==> {
        &&& r.max_active_override == s[live].max_active_users
        &&& r.origin_url_override == s[live].origin_url
        &&& r.session_ttl_override == s[live].session_ttl_secs
        &&& r.active_schedule == Some(s[live].name)
        &&& r.active_schedule_id == Some(s[live].id)
        &&& r.just_started == (s[live].phase != SchedulePhase::Active)
    }
    &&& live >= s.len() ==> {
        &&& r.max_active_override is None
        &&& r.origin_url_override is None
        &&& r.session_ttl_override is None
        &&& r.active_schedule is None
        &&& r.active_schedule_id is None
        &&& !r.just_started
    }
    &&& r.just_ended == exists|i: int| 0 <= i < s.len() && #[trigger] has_ended(s[i], now) && s[i].phase == SchedulePhase::Active
    &&& r.ended_schedule_ids@ == ended_ids(s, now)
    &&& r.just_ended_ids@ == newly_ended_ids(s, now)
}

proof fn lemma_first_live_bounds(s: Seq<Schedule>, now: int)
    ensures
        0 <= first_live(s, now) <= s.len(),
        first_live(s, now) < s.len() ==> is_live(s[first_live(s, now)], now),
        forall|i: int| 0 <= i < first_live(s, now) ==> !is_live(#[trigger] s[i], now),
    decreases s.len(),
{
    if s.len() > 0 && !is_live(s[0], now) {
        lemma_first_live_bounds(s.drop_first(), now);
        assert forall|i: int| 0 <= i < first_live(s, now) implies !is_live(#[trigger] s[i], now) by {
            if i > 0 {
                assert(s[i] == s.drop_first()[i - 1]);
            }
        }
    }
}

/// Which schedule runs first at `now` depends only on the schedules' times.
pub(crate) proof fn lemma_first_live_by_times(s: Seq<Schedule>, t: Seq<Schedule>, now: int)
    requires
        s.len() == t.len(),
        forall|i: int| 0 <= i < s.len() ==> (#[trigger] s[i]).start_at == t[i].start_at && s[i].end_at == t[i].end_at,
    ensures
        first_live(s, now) == first_live(t, now),
{
    lemma_first_live_bounds(s, now);
    lemma_first_live_bounds(t, now);
    let a = first_live(s, now);
    let b = first_live(t, now);
    if a < b {
        assert(is_live(s[a], now));
        assert(!is_live(t[a], now));
    }
    if b < a {
        assert(is_live(t[b], now));
        assert(!is_live(s[b], now));
    }
}

/// Evaluates the schedules at `now` (nanoseconds since the Unix epoch):
/// every schedule whose end has passed is marked ended, and the first one
/// that runs at `now` is marked active and decides the overrides; the
/// others are left alone.
pub fn evaluate_schedules_at(schedules: &mut Vec<Schedule>, now: i128) -> (r: ScheduleState)
    ensures
        final(schedules)@ == evaluated(old(schedules)@, now as int),
        reports(old(schedules)@, now as int, r),
{
    let ghost s0 = old(schedules)@;
    let ghost live = first_live(s0, now as int);
    proof {
        lemma_first_live_bounds(s0, now as int);
    }
    let mut result = ScheduleState {
        enabled: false,
        max_active_override: None,
        origin_url_override: None,
        session_ttl_override: None,
        active_schedule: None,
        active_schedule_id: None,
        just_started: false,
        just_ended: false,
        ended_schedule_ids: Vec::new(),
        just_ended_ids: Vec::new(),
    };
    let mut found = false;
    let n = schedules.len();
    let mut i: usize = 0;
    while i < n
        invariant
            s0 == old(schedules)@,
            n == s0.len(),
            schedules@.len() == n,
            i <= n,
            live == first_live(s0, now as int),
            0 <= live <= s0.len(),
            live < s0.len() ==> is_live(s0[live], now as int),
            forall|j: int| 0 <= j < live ==> !is_live(#[trigger] s0[j], now as int),
            found == (live < i),
            forall|j: int| 0 <= j < i ==> #[trigger] schedules@[j] == evaluated(s0, now as int)[j],
            forall|j: int| i <= j < n ==> #[trigger] schedules@[j] == s0[j],
            result.enabled == found,
            !found ==> {
                &&& result.max_active_override is None
                &&& result.origin_url_override is None
                &&& result.session_ttl_override is None
                &&& result.active_schedule is None
                &&& result.active_schedule_id is None
                &&& !result.just_started
            },
            found ==> {
                &&& result.max_active_override == s0[live].max_active_users
                &&& result.origin_url_override == s0[live].origin_url
                &&& result.session_ttl_override == s0[live].session_ttl_secs
                &&& result.active_schedule == Some(s0[live].name)
                &&& result.active_schedule_id == Some(s0[live].id)
                &&& result.just_started == (s0[live].phase != SchedulePhase::Active)
            },
            result.just_ended == exists|j: int| 0 <= j < i && #[trigger] has_ended(s0[j], now as int) && s0[j].phase == SchedulePhase::Active,
            result.ended_schedule_ids@ == ended_ids(s0.take(i as int), now as int),
            result.just_ended_ids@ == newly_ended_ids(s0.take(i as int), now as int),
        decreases n - i,
    {
        let sch = copy_schedule(&schedules[i]);
        assert(sch == s0[i as int]);
        assert(s0.take(i + 1).drop_last() =~= s0.take(i as int));
        if now >= sch.end_at {
            let was_active = sch.phase == SchedulePhase::Active;
            if sch.phase != SchedulePhase::Ended {
                let mut updated = copy_schedule(&sch);
                updated.phase = SchedulePhase::Ended;
                schedules.set(i, updated);
            }
            result.ended_schedule_ids.push(copy_string(&sch.id));
            if was_active {
                result.just_ended = true;
                result.just_ended_ids.push(copy_string(&sch.id));
            }
            proof {
                assert(schedules@[i as int] == evaluated(s0, now as int)[i as int]);
                assert(result.ended_schedule_ids@ =~= ended_ids(s0.take(i + 1), now as int));
                assert(result.just_ended_ids@ =~= newly_ended_ids(s0.take(i + 1), now as int));
            }
        } else if now >= sch.start_at && !found {
            assert(i as int == live) by {
                assert(is_live(s0[i as int], now as int));
            }
            found = true;
            if sch.phase != SchedulePhase::Active {
                let mut updated = copy_schedule(&sch);
                updated.phase = SchedulePhase::Active;
                schedules.set(i, updated);
                result.just_started = true;
            } else {
                result.just_started = false;
            }
            result.enabled = true;
            result.max_active_override = sch.max_active_users;
            result.origin_url_override = copy_opt_string(&sch.origin_url);
            result.session_ttl_override = sch.session_ttl_secs;
            result.active_schedule = Some(copy_string(&sch.name));
            result.active_schedule_id = Some(copy_string(&sch.id));
            proof {
                assert(schedules@[i as int] == evaluated(s0, now as int)[i as int]);
                assert(result.ended_schedule_ids@ =~= ended_ids(s0.take(i + 1), now as int));
                assert(result.just_ended_ids@ =~= newly_ended_ids(s0.take(i + 1), now as int));
            }
        } else {
            proof {
                if !found {
                    assert(i as int != live) by {
                        if i as int == live {
                            assert(is_live(s0[i as int], now as int));
                        }
                    }
                }
                assert(schedules@[i as int] == evaluated(s0, now as int)[i as int]);
                assert(result.ended_schedule_ids@ =~= ended_ids(s0.take(i + 1), now as int));
                assert(result.just_ended_ids@ =~= newly_ended_ids(s0.take(i + 1), now as int));
            }
        }
        i = i + 1;
    }
    proof {
        assert(schedules@ =~= evaluated(s0, now as int));
        assert(s0.take(n as int) =~= s0);
    }
    result
}

/// Evaluates the schedules now.
pub fn evaluate_schedules(schedules: &mut Vec<Schedule>) -> (r: ScheduleState)
    ensures
        exists|now: i128|
            {
                &&& final(schedules)@ == #[trigger] evaluated(old(schedules)@, now as int)
                &&& reports(old(schedules)@, now as int, r)
            },
{
    let now = utc_now_nanos();
    evaluate_schedules_at(schedules, now)
}


/// Once running schedules exist, the waiting room is on exactly when some
/// schedule runs: evaluation reports it enabled if and only if a schedule's
/// start has come and its end has not.
pub proof fn lemma_enabled_iff_some_schedule_runs(s: Seq<Schedule>, now: int, r: ScheduleState)
    requires
        reports(s, now, r),
    ensures
        r.enabled <==> exists|i: int| 0 <= i < s.len() && is_live(#[trigger] s[i], now),
{
    lemma_first_live_bounds(s, now);
    let live = first_live(s, now);
    if live < s.len() {
        assert(is_live(s[live], now));
    }
}

/// A schedule whose end has passed is among the ended ids, wherever it
/// stands in the list.
proof fn lemma_ended_ids_contain(s: Seq<Schedule>, now: int, i: int)
    requires
        0 <= i < s.len(),
        has_ended(s[i], now),
    ensures
        ended_ids(s, now).contains(s[i].id),
    decreases s.len(),
{
    if i == s.len() - 1 {
        let e = ended_ids(s, now);
        assert(e[e.len() - 1] == s[i].id);
    } else {
        assert(s.drop_last()[i] == s[i]);
        lemma_ended_ids_contain(s.drop_last(), now, i);
        let e0 = ended_ids(s.drop_last(), now);
        let k = choose|k: int| 0 <= k < e0.len() && e0[k] == s[i].id;
        if has_ended(s.last(), now) {
            assert(ended_ids(s, now)[k] == s[i].id);
        }
    }
}

/// Once its end has passed, a schedule is marked ended by every evaluation
/// and reported among the ended ids, whether it stands before or after the
/// schedule that runs.
pub proof fn lemma_ended_schedules_are_marked(s: Seq<Schedule>, now: int, i: int, r: ScheduleState)
    requires
        0 <= i < s.len(),
        has_ended(s[i], now),
        reports(s, now, r),
    ensures
        evaluated(s, now)[i].phase == SchedulePhase::Ended,
        r.ended_schedule_ids@.contains(s[i].id),
{
    lemma_ended_ids_contain(s, now, i);
}

/// A change of a schedule's overrides; absent fields are left as they are.
#[derive(Debug)]
pub struct PatchScheduleRequest {
    pub max_active_users: Option<u32>,
    pub session_ttl_secs: Option<u64>,
    pub origin_url: Option<String>,
}

/// `s` with the overrides given in `p` replaced.
pub open spec fn patched(s: Schedule, p: PatchScheduleRequest) -> Schedule {
    Schedule {
        max_active_users: if p.max_active_users is Some { p.max_active_users } else { s.max_active_users },
        session_ttl_secs: if p.session_ttl_secs is Some { p.session_ttl_secs } else { s.session_ttl_secs },
        origin_url: if p.origin_url is Some { p.origin_url } else { s.origin_url },
        ..s
    }
}

/// Replaces the overrides of `s` given in `p`.
pub fn apply_schedule_patch(s: &mut Schedule, p: &PatchScheduleRequest)
    ensures
        *final(s) == patched(*old(s), *p),
{
    if p.max_active_users.is_some() {
        s.max_active_users = p.max_active_users;
    }
    if p.session_ttl_secs.is_some() {
        s.session_ttl_secs = p.session_ttl_secs;
    }
    if p.origin_url.is_some() {
        s.origin_url = copy_opt_string(&p.origin_url);
    }
}

/// The index of the first schedule of `s` whose id is `id` (`s.len()` if none).
pub open spec fn index_of_id(s: Seq<Schedule>, id: Seq<char>) -> int
    decreases s.len(),
{
    if s.len() == 0 {
        0
    } else if s[0].id@ == id {
        0
    } else {
        1 + index_of_id(s.drop_first(), id)
    }
}

/// The index of the first active schedule of `s` (`s.len()` if none).
pub open spec fn index_of_active(s: Seq<Schedule>) -> int
    decreases s.len(),
{
    if s.len() == 0 {
        0
    } else if s[0].phase == SchedulePhase::Active {
        0
    } else {
        1 + index_of_active(s.drop_first())
    }
}

proof fn lemma_index_of_id(s: Seq<Schedule>, id: Seq<char>)
    ensures
        0 <= index_of_id(s, id) <= s.len(),
        index_of_id(s, id) < s.len() ==> s[index_of_id(s, id)].id@ == id,
        forall|i: int| 0 <= i < index_of_id(s, id) ==> (#[trigger] s[i]).id@ != id,
    decreases s.len(),
{
    if s.len() > 0 && s[0].id@ != id {
        lemma_index_of_id(s.drop_first(), id);
        assert forall|i: int| 0 <= i < index_of_id(s, id) implies (#[trigger] s[i]).id@ != id by {
            if i > 0 {
                assert(s[i] == s.drop_first()[i - 1]);
            }
        }
    }
}

pub(crate) proof fn lemma_index_of_active(s: Seq<Schedule>)
    ensures
        0 <= index_of_active(s) <= s.len(),
        index_of_active(s) < s.len() ==> s[index_of_active(s)].phase == SchedulePhase::Active,
        forall|i: int| 0 <= i < index_of_active(s) ==> (#[trigger] s[i]).phase != SchedulePhase::Active,
    decreases s.len(),
{
    if s.len() > 0 && s[0].phase != SchedulePhase::Active {
        lemma_index_of_active(s.drop_first());
        assert forall|i: int| 0 <= i < index_of_active(s) implies (#[trigger] s[i]).phase != SchedulePhase::Active by {
            if i > 0 {
                assert(s[i] == s.drop_first()[i - 1]);
            }
        }
    }
}

/// The index of the first schedule whose id is `id` (the length if none).
pub fn find_schedule(schedules: &Vec<Schedule>, id: &str) -> (i: usize)
    ensures
        i == index_of_id(schedules@, id@),
{
    proof {
        lemma_index_of_id(schedules@, id@);
    }
    let mut i: usize = 0;
    while i < schedules.len()
        invariant
            i <= schedules@.len(),
            i <= index_of_id(schedules@, id@),
            0 <= index_of_id(schedules@, id@) <= schedules@.len(),
            index_of_id(schedules@, id@) < schedules@.len() ==> schedules@[index_of_id(schedules@, id@)].id@ == id@,
            forall|j: int| 0 <= j < index_of_id(schedules@, id@) ==> (#[trigger] schedules@[j]).id@ != id@,
        decreases schedules.len() - i,
    {
        if crate::text::same_text(schedules[i].id.as_str(), id) {
            return i;
        }
        i = i + 1;
    }
    i
}

/// Applies `p` to the first schedule with id `id` and returns a copy of it
/// after the change; `None`, with nothing changed, if there is none.
pub fn patch_schedule_by_id(schedules: &mut Vec<Schedule>, id: &str, p: &PatchScheduleRequest) -> (r: Option<Schedule>)
    ensures
        ({
            let k = index_of_id(old(schedules)@, id@);
            if k < old(schedules)@.len() {
                &&& final(schedules)@ == old(schedules)@.update(k, patched(old(schedules)@[k], *p))
                &&& r == Some(patched(old(schedules)@[k], *p))
            } else {
                &&& final(schedules)@ == old(schedules)@
                &&& r is None
            }
        }),
{
    let k = find_schedule(schedules, id);
    if k < schedules.len() {
        let mut s = copy_schedule(&schedules[k]);
        apply_schedule_patch(&mut s, p);
        let out = copy_schedule(&s);
        schedules.set(k, s);
        Some(out)
    } else {
        None
    }
}

/// Applies `p` to the first active schedule, if any.
pub fn patch_active_schedule(schedules: &mut Vec<Schedule>, p: &PatchScheduleRequest)
    ensures
        ({
            let k = index_of_active(old(schedules)@);
            if k < old(schedules)@.len() {
                final(schedules)@ == old(schedules)@.update(k, patched(old(schedules)@[k], *p))
            } else {
                final(schedules)@ == old(schedules)@
            }
        }),
{
    proof {
        lemma_index_of_active(schedules@);
    }
    let mut i: usize = 0;
    while i < schedules.len()
        invariant
            schedules@ == old(schedules)@,
            i <= schedules@.len(),
            i <= index_of_active(schedules@),
            0 <= index_of_active(schedules@) <= schedules@.len(),
            index_of_active(schedules@) < schedules@.len() ==> schedules@[index_of_active(schedules@)].phase == SchedulePhase::Active,
            forall|j: int| 0 <= j < index_of_active(schedules@) ==> (#[trigger] schedules@[j]).phase != SchedulePhase::Active,
        decreases schedules.len() - i,
    {
        if schedules[i].phase == SchedulePhase::Active {
            let mut s = copy_schedule(&schedules[i]);
            apply_schedule_patch(&mut s, p);
            schedules.set(i, s);
            return;
        }
        i = i + 1;
    }
}

/// What stopping a schedule did.
#[derive(Debug)]
pub enum StopOutcome {
    /// No schedule has that id.
    NotFound,
    /// The schedule had already ended; nothing changed.
    AlreadyEnded,
    /// The schedule's end was moved to the given time; a copy after the change.
    Stopped(Schedule),
}

/// Ends the first schedule with id `id` at `now` by moving its end there,
/// unless it has already ended.
pub fn stop_schedule_by_id(schedules: &mut Vec<Schedule>, id: &str, now: i128) -> (r: StopOutcome)
    ensures
        ({
            let k = index_of_id(old(schedules)@, id@);
            if k >= old(schedules)@.len() {
                &&& r is NotFound
                &&& final(schedules)@ == old(schedules)@
            } else if old(schedules)@[k].phase == SchedulePhase::Ended {
                &&& r is AlreadyEnded
                &&& final(schedules)@ == old(schedules)@
            } else {
                let stopped = Schedule { end_at: now, ..old(schedules)@[k] };
                &&& r == StopOutcome::Stopped(stopped)
                &&& final(schedules)@ == old(schedules)@.update(k, stopped)
            }
        }),
{
    let k = find_schedule(schedules, id);
    if k >= schedules.len() {
        return StopOutcome::NotFound;
    }
    if schedules[k].phase == SchedulePhase::Ended {
        return StopOutcome::AlreadyEnded;
    }
    let mut s = copy_schedule(&schedules[k]);
    s.end_at = now;
    let out = copy_schedule(&s);
    schedules.set(k, s);
    StopOutcome::Stopped(out)
}

/// `s` without the schedules whose id is `id`, in order.
pub open spec fn without_id(s: Seq<Schedule>, id: Seq<char>) -> Seq<Schedule>
    decreases s.len(),
{
    if s.len() == 0 {
        Seq::empty()
    } else if s.last().id@ == id {
        without_id(s.drop_last(), id)
    } else {
        without_id(s.drop_last(), id).push(s.last())
    }
}

proof fn lemma_without_id_len(s: Seq<Schedule>, id: Seq<char>)
    ensures
        without_id(s, id).len() <= s.len(),
        without_id(s, id).len() < s.len() <==> exists|i: int| 0 <= i < s.len() && (#[trigger] s[i]).id@ == id,
    decreases s.len(),
{
    if s.len() > 0 {
        let t = s.drop_last();
        lemma_without_id_len(t, id);
        if exists|i: int| 0 <= i < t.len() && (#[trigger] t[i]).id@ == id {
            let i = choose|i: int| 0 <= i < t.len() && (#[trigger] t[i]).id@ == id;
            assert(s[i] == t[i]);
        }
        if exists|i: int| 0 <= i < s.len() && (#[trigger] s[i]).id@ == id {
            let i = choose|i: int| 0 <= i < s.len() && (#[trigger] s[i]).id@ == id;
            if i < s.len() - 1 {
                assert(t[i] == s[i]);
            }
        }
    }
}

/// Removes every schedule whose id is `id`; returns whether one was removed.
pub fn remove_schedule_by_id(schedules: &mut Vec<Schedule>, id: &str) -> (removed: bool)
    ensures
        final(schedules)@ == without_id(old(schedules)@, id@),
        removed == exists|i: int| 0 <= i < old(schedules)@.len() && (#[trigger] old(schedules)@[i]).id@ == id@,
{
    let mut kept: Vec<Schedule> = Vec::new();
    let n = schedules.len();
    let mut i: usize = 0;
    while i < n
        invariant
            n == schedules@.len(),
            schedules@ == old(schedules)@,
            i <= n,
            kept@ == without_id(schedules@.take(i as int), id@),
        decreases n - i,
    {
        let ghost t = schedules@.take(i + 1);
        assert(t.drop_last() =~= schedules@.take(i as int));
        if !crate::text::same_text(schedules[i].id.as_str(), id) {
            kept.push(copy_schedule(&schedules[i]));
        }
        i = i + 1;
    }
    assert(schedules@.take(n as int) =~= schedules@);
    proof {
        lemma_without_id_len(schedules@, id@);
    }
    let removed = kept.len() < n;
    *schedules = kept;
    removed
}

/// Why a new schedule is refused.
#[derive(Debug)]
pub enum CreateScheduleError {
    /// Its start is not before its end.
    InvalidRange,
    /// It overlaps this schedule, which has not ended.
    Overlap { name: String, id: String },
}

/// Whether the time spans of `req` and `s` overlap.
pub open spec fn overlaps(req: CreateScheduleRequest, s: Schedule) -> bool {
    req.start_at < s.end_at && req.end_at > s.start_at
}

/// Whether `s` stands in the way of `req`: it has not ended and overlaps it.
pub open spec fn conflicts(req: CreateScheduleRequest, s: Schedule) -> bool {
    s.phase != SchedulePhase::Ended && overlaps(req, s)
}

/// The index of the first schedule of `s` that conflicts with `req` (`s.len()` if none).
pub open spec fn first_conflict(req: CreateScheduleRequest, s: Seq<Schedule>) -> int
    decreases s.len(),
{
    if s.len() == 0 {
        0
    } else if conflicts(req, s[0]) {
        0
    } else {
        1 + first_conflict(req, s.drop_first())
    }
}

proof fn lemma_first_conflict(req: CreateScheduleRequest, s: Seq<Schedule>)
    ensures
        0 <= first_conflict(req, s) <= s.len(),
        first_conflict(req, s) < s.len() ==> conflicts(req, s[first_conflict(req, s)]),
        forall|i: int| 0 <= i < first_conflict(req, s) ==> !conflicts(req, #[trigger] s[i]),
    decreases s.len(),
{
    if s.len() > 0 && !conflicts(req, s[0]) {
        lemma_first_conflict(req, s.drop_first());
        assert forall|i: int| 0 <= i < first_conflict(req, s) implies !conflicts(req, #[trigger] s[i]) by {
            if i > 0 {
                assert(s[i] == s.drop_first()[i - 1]);
            }
        }
    }
}

/// Checks a new schedule against the existing ones: its start must come
/// before its end, and it must not overlap a schedule that has not ended
/// (the first such one is named).
pub fn check_new_schedule(req: &CreateScheduleRequest, existing: &Vec<Schedule>) -> (r: Result<(), CreateScheduleError>)
    ensures
        req.start_at >= req.end_at ==> r matches Err(CreateScheduleError::InvalidRange),
        req.start_at < req.end_at ==> ({
            let k = first_conflict(*req, existing@);
            if k < existing@.len() {
                r == Err::<(), CreateScheduleError>(CreateScheduleError::Overlap { name: existing@[k].name, id: existing@[k].id })
            } else {
                r is Ok
            }
        }),
{
    if req.start_at >= req.end_at {
        return Err(CreateScheduleError::InvalidRange);
    }
    proof {
        lemma_first_conflict(*req, existing@);
    }
    let mut i: usize = 0;
    while i < existing.len()
        invariant
            req.start_at < req.end_at,
            i <= existing@.len(),
            i <= first_conflict(*req, existing@),
            0 <= first_conflict(*req, existing@) <= existing@.len(),
            first_conflict(*req, existing@) < existing@.len() ==> conflicts(*req, existing@[first_conflict(*req, existing@)]),
            forall|j: int| 0 <= j < first_conflict(*req, existing@) ==> !conflicts(*req, #[trigger] existing@[j]),
        decreases existing.len() - i,
    {
        let s = &existing[i];
        if s.phase != SchedulePhase::Ended && req.start_at < s.end_at && req.end_at > s.start_at {
            return Err(CreateScheduleError::Overlap { name: copy_string(&s.name), id: copy_string(&s.id) });
        }
        i = i + 1;
    }
    Ok(())
}

/// The phase a stored schedule has at `now`, from its times: ended once its
/// end has passed, active once its start has come; otherwise as stored.
pub open spec fn phase_at(s: Schedule, now: int) -> SchedulePhase {
    if now >= s.end_at {
        SchedulePhase::Ended
    } else if now >= s.start_at {
        SchedulePhase::Active
    } else {
        s.phase
    }
}

/// Sets the phase of `s` from its times at `now`.
pub fn recompute_phase(s: &mut Schedule, now: i128)
    ensures
        *final(s) == (Schedule { phase: phase_at(*old(s), now as int), ..*old(s) }),
{
    if now >= s.end_at {
        s.phase = SchedulePhase::Ended;
    } else if now >= s.start_at {
        s.phase = SchedulePhase::Active;
    }
}

/// Sets the phase of every schedule from its times at `now`.
pub fn recompute_phases(schedules: &mut Vec<Schedule>, now: i128)
    ensures
        final(schedules)@.len() == old(schedules)@.len(),
        forall|i: int| 0 <= i < old(schedules)@.len() ==> #[trigger] final(schedules)@[i] == (Schedule {
            phase: phase_at(old(schedules)@[i], now as int),
            ..old(schedules)@[i]
        }),
{
    let n = schedules.len();
    let mut i: usize = 0;
    while i < n
        invariant
            n == schedules@.len(),
            n == old(schedules)@.len(),
            i <= n,
            forall|j: int| 0 <= j < i ==> #[trigger] schedules@[j] == (Schedule {
                phase: phase_at(old(schedules)@[j], now as int),
                ..old(schedules)@[j]
            }),
            forall|j: int| i <= j < n ==> #[trigger] schedules@[j] == old(schedules)@[j],
        decreases n - i,
    {
        let mut s = copy_schedule(&schedules[i]);
        recompute_phase(&mut s, now);
        schedules.set(i, s);
        i = i + 1;
    }
}

/// The instant `retention_secs` seconds before `now`, held at `i128::MIN`.
pub fn retention_cutoff(now: i128, retention_secs: u64) -> (c: i128)
    ensures
        c == (if now - retention_secs as int * 1_000_000_000 < i128::MIN {
            i128::MIN as int
        } else {
            now - retention_secs as int * 1_000_000_000
        }),
{
    let span = (retention_secs as i128) * 1_000_000_000;
    match now.checked_sub(span) {
        Some(c) => c,
        None => i128::MIN,
    }
}

/// Whether `s` is due to be archived: it has ended, and its end lies before `cutoff`.
pub open spec fn due_for_archive(s: Schedule, cutoff: int) -> bool {
    s.phase == SchedulePhase::Ended && s.end_at < cutoff
}

/// The schedules of `s` due to be archived, in order.
pub open spec fn archive_due(s: Seq<Schedule>, cutoff: int) -> Seq<Schedule>
    decreases s.len(),
{
    if s.len() == 0 {
        Seq::empty()
    } else if due_for_archive(s.last(), cutoff) {
        archive_due(s.drop_last(), cutoff).push(s.last())
    } else {
        archive_due(s.drop_last(), cutoff)
    }
}

/// Copies of the schedules that have ended before `cutoff`, in order.
pub fn schedules_due_for_archive(schedules: &Vec<Schedule>, cutoff: i128) -> (due: Vec<Schedule>)
    ensures
        due@ == archive_due(schedules@, cutoff as int),
{
    let mut due: Vec<Schedule> = Vec::new();
    let n = schedules.len();
    let mut i: usize = 0;
    while i < n
        invariant
            n == schedules@.len(),
            i <= n,
            due@ == archive_due(schedules@.take(i as int), cutoff as int),
        decreases n - i,
    {
        assert(schedules@.take(i + 1).drop_last() =~= schedules@.take(i as int));
        let s = &schedules[i];
        if s.phase == SchedulePhase::Ended && s.end_at < cutoff {
            due.push(copy_schedule(s));
        }
        i = i + 1;
    }
    assert(schedules@.take(n as int) =~= schedules@);
    due
}

/// `s` with its peaks raised to the queue's current counts and its totals
/// set from the queue.
pub open spec fn with_queue_stats(s: Schedule, q: crate::queue::QueueStats) -> Schedule {
    Schedule {
        stats: ScheduleStats {
            peak_active_users: if q.active_count > s.stats.peak_active_users { q.active_count } else { s.stats.peak_active_users },
            peak_queue_length: if q.waiting_count > s.stats.peak_queue_length { q.waiting_count } else { s.stats.peak_queue_length },
            total_admitted: q.total_admitted,
            total_visitors: q.total_visitors,
        },
        ..s
    }
}

/// Records the queue's counts in the first schedule with id `id`, if any.
pub fn record_schedule_stats(schedules: &mut Vec<Schedule>, id: &str, q: &crate::queue::QueueStats)
    ensures
        ({
            let k = index_of_id(old(schedules)@, id@);
            if k < old(schedules)@.len() {
                final(schedules)@ == old(schedules)@.update(k, with_queue_stats(old(schedules)@[k], *q))
            } else {
                final(schedules)@ == old(schedules)@
            }
        }),
{
    let k = find_schedule(schedules, id);
    if k < schedules.len() {
        let mut s = copy_schedule(&schedules[k]);
        if q.active_count > s.stats.peak_active_users {
            s.stats.peak_active_users = q.active_count;
        }
        if q.waiting_count > s.stats.peak_queue_length {
            s.stats.peak_queue_length = q.waiting_count;
        }
        s.stats.total_admitted = q.total_admitted;
        s.stats.total_visitors = q.total_visitors;
        schedules.set(k, s);
    }
}

/// Whether `s` is ordered with the latest end first.
pub open spec fn newest_first(s: Seq<Schedule>) -> bool {
    forall|i: int, j: int| 0 <= i < j < s.len() ==> s[i].end_at >= s[j].end_at
}

/// The index of the first schedule of `s` that ends before `end` (`s.len()` if none).
pub open spec fn place_for(s: Seq<Schedule>, end: i128) -> int
    decreases s.len(),
{
    if s.len() == 0 {
        0
    } else if s[0].end_at < end {
        0
    } else {
        1 + place_for(s.drop_first(), end)
    }
}

/// `s` ordered with the latest end first, where schedules with the same end
/// keep their relative order: each schedule in turn goes after every earlier
/// one whose end is not before its own.
pub open spec fn sorted_newest_first(s: Seq<Schedule>) -> Seq<Schedule>
    decreases s.len(),
{
    if s.len() == 0 {
        Seq::empty()
    } else {
        let r = sorted_newest_first(s.drop_last());
        r.insert(place_for(r, s.last().end_at), s.last())
    }
}

proof fn lemma_place_for(s: Seq<Schedule>, end: i128, k: int)
    requires
        0 <= k <= s.len(),
        forall|j: int| 0 <= j < k ==> (#[trigger] s[j]).end_at >= end,
        k < s.len() ==> s[k].end_at < end,
    ensures
        place_for(s, end) == k,
    decreases s.len(),
{
    if s.len() > 0 && k > 0 {
        assert(s[0].end_at >= end);
        assert forall|j: int| 0 <= j < k - 1 implies (#[trigger] s.drop_first()[j]).end_at >= end by {
            assert(s.drop_first()[j] == s[j + 1]);
        }
        if k < s.len() {
            assert(s.drop_first()[k - 1] == s[k]);
        }
        lemma_place_for(s.drop_first(), end, k - 1);
    }
}

/// `v` ordered with the latest end first; schedules with the same end keep
/// their relative order.
pub fn sort_newest_first(v: Vec<Schedule>) -> (r: Vec<Schedule>)
    ensures
        r@ == sorted_newest_first(v@),
        newest_first(r@),
        r@.to_multiset() == v@.to_multiset(),
{
    broadcast use vstd::seq_lib::group_to_multiset_ensures;
    let mut r: Vec<Schedule> = Vec::new();
    let n = v.len();
    let mut i: usize = 0;
    while i < n
        invariant
            n == v@.len(),
            i <= n,
            newest_first(r@),
            r@ == sorted_newest_first(v@.take(i as int)),
            r@.to_multiset() == v@.take(i as int).to_multiset(),
        decreases n - i,
    {
        let x = copy_schedule(&v[i]);
        let mut k: usize = 0;
        while k < r.len() && r[k].end_at >= x.end_at
            invariant
                k <= r@.len(),
                forall|j: int| 0 <= j < k ==> (#[trigger] r@[j]).end_at >= x.end_at,
            decreases r@.len() - k,
        {
            k = k + 1;
        }
        let ghost before = r@;
        proof {
            lemma_place_for(before, x.end_at, k as int);
            assert(v@.take(i + 1).drop_last() =~= v@.take(i as int));
        }
        r.insert(k, x);
        proof {
            assert(r@ == before.insert(k as int, x));
            assert forall|a: int, b: int| 0 <= a < b < r@.len() implies r@[a].end_at >= r@[b].end_at by {
                if a < k && b == k {
                } else if a < k && b > k {
                    assert(r@[b] == before[b - 1]);
                } else if a == k && b > k {
                    assert(r@[b] == before[b - 1]);
                    if k < before.len() {
                        assert(before[k as int].end_at < x.end_at);
                    }
                } else if a > k {
                    assert(r@[a] == before[a - 1]);
                    assert(r@[b] == before[b - 1]);
                }
            }
            assert(r@.remove(k as int) =~= before);
            assert(v@.take(i + 1) =~= v@.take(i as int).push(v@[i as int]));
            r@.to_multiset_ensures();
            assert(r@[k as int] == x);
            assert(r@.remove(k as int).to_multiset() =~= r@.to_multiset().remove(x));
            assert(r@.contains(x));
            assert(r@.to_multiset().count(x) > 0);
            assert(r@.to_multiset() =~= before.to_multiset().insert(x));
            v@.take(i as int).to_multiset_ensures();
            assert(x == v@[i as int]);
            assert(v@.take(i + 1).to_multiset() =~= v@.take(i as int).to_multiset().insert(x));
        }
        i = i + 1;
    }
    assert(v@.take(n as int) =~= v@);
    r
}

/// The key that marks a one-time event `kind` (such as `flushed` or
/// `ended`) of schedule `id` as done: `wr:{kind}:{id}`.
pub fn claim_key(kind: &str, id: &str) -> (key: String)
    ensures
        key@ == seq!['w', 'r', ':'] + kind@ + seq![':'] + id@,
{
    let mut key = String::new();
    crate::text::push_char(&mut key, 'w');
    crate::text::push_char(&mut key, 'r');
    crate::text::push_char(&mut key, ':');
    key.append(kind);
    crate::text::push_char(&mut key, ':');
    key.append(id);
    assert(key@ =~= seq!['w', 'r', ':'] + kind@ + seq![':'] + id@);
    key
}

/// Whether the line is cleared for a fresh start this tick: a schedule
/// runs and, with a shared store, this server won the one-time claim
/// (`claimed`), or, in memory (`None`), the schedule has just started.
pub fn flush_on_start(st: &ScheduleState, claimed: Option<bool>) -> (r: bool)
    ensures
        r == (st.active_schedule_id is Some && match claimed {
            Some(c) => c,
            None => st.just_started,
        }),
{
    if st.active_schedule_id.is_none() {
        return false;
    }
    match claimed {
        Some(c) => c,
        None => st.just_started,
    }
}

/// Whether the ended schedule `id` is cleaned up this tick: no schedule
/// runs and, with a shared store, this server won the one-time claim for
/// it, or, in memory (`None`), it has just gone from active to ended.
pub open spec fn cleans_up(st: ScheduleState, id: Seq<char>, claimed: Option<bool>) -> bool {
    st.active_schedule is None && match claimed {
        Some(c) => c,
        None => exists|j: int| 0 <= j < st.just_ended_ids@.len() && (#[trigger] st.just_ended_ids@[j])@ == id,
    }
}

/// Whether the ended schedule `id` is cleaned up this tick.
pub fn cleanup_on_end(st: &ScheduleState, id: &str, claimed: Option<bool>) -> (r: bool)
    ensures
        r == cleans_up(*st, id@, claimed),
{
    if st.active_schedule.is_some() {
        return false;
    }
    match claimed {
        Some(c) => c,
        None => {
            let n = st.just_ended_ids.len();
            let mut j: usize = 0;
            while j < n
                invariant
                    n == st.just_ended_ids@.len(),
                    st.active_schedule is None,
                    claimed is None,
                    j <= n,
                    forall|k: int| 0 <= k < j ==> (#[trigger] st.just_ended_ids@[k])@ != id@,
                decreases n - j,
            {
                if crate::text::same_text(st.just_ended_ids[j].as_str(), id) {
                    assert((st.just_ended_ids@[j as int])@ == id@);
                    return true;
                }
                j = j + 1;
            }
            false
        },
    }
}

/// Which ended schedule gets the final counters and the cleanup this tick:
/// the first of `st.ended_schedule_ids`, among the first `claims.len()`,
/// that `cleans_up` with its claim (`claims[k]` is the claim asked for the
/// `k`-th); at most one per tick.
pub fn first_cleanup(st: &ScheduleState, claims: &Vec<Option<bool>>) -> (k: Option<usize>)
    ensures
        match k {
            Some(k) => {
                &&& k < claims@.len()
                &&& k < st.ended_schedule_ids@.len()
                &&& cleans_up(*st, st.ended_schedule_ids@[k as int]@, claims@[k as int])
                &&& forall|j: int| 0 <= j < k ==> !cleans_up(*st, (#[trigger] st.ended_schedule_ids@[j])@, claims@[j])
            },
            None => forall|j: int| 0 <= j < claims@.len() && j < st.ended_schedule_ids@.len()
                ==> !cleans_up(*st, (#[trigger] st.ended_schedule_ids@[j])@, claims@[j]),
        },
{
    let n = if claims.len() < st.ended_schedule_ids.len() { claims.len() } else { st.ended_schedule_ids.len() };
    let mut j: usize = 0;
    while j < n
        invariant
            n <= claims@.len(),
            n <= st.ended_schedule_ids@.len(),
            n == claims@.len() || n == st.ended_schedule_ids@.len(),
            j <= n,
            forall|i: int| 0 <= i < j ==> !cleans_up(*st, (#[trigger] st.ended_schedule_ids@[i])@, claims@[i]),
        decreases n - j,
    {
        if cleanup_on_end(st, st.ended_schedule_ids[j].as_str(), claims[j]) {
            return Some(j);
        }
        j = j + 1;
    }
    None
}

} // verus!

verus! {

/// Whether the schedules' counters are saved on tick `tick` of the
/// scheduler: every tenth tick while a schedule runs.
pub fn stats_save_due(st: &ScheduleState, tick: u64) -> (r: bool)
    ensures
        r == (st.active_schedule_id is Some && tick % 10 == 0),
{
    st.active_schedule_id.is_some() && tick % 10 == 0
}

/// Whether ended schedules are looked at for archiving on tick `tick` of
/// the scheduler: every sixtieth tick.
pub fn archive_sweep_due(tick: u64) -> (r: bool)
    ensures
        r == (tick % 60 == 0),
{
    tick % 60 == 0
}

} // verus!

verus! {

/// A new schedule is refused for every schedule that has not ended and
/// shares some time with it, however the two spans lie: the first
/// conflict reported comes no later than any such schedule, and the one
/// reported has not ended and shares time with the request (it starts
/// before the request ends, and the request starts before it ends).
pub proof fn lemma_overlapping_schedules_are_refused(req: CreateScheduleRequest, s: Seq<Schedule>)
    ensures
        0 <= first_conflict(req, s) <= s.len(),
        forall|i: int|
            0 <= i < s.len() && (#[trigger] s[i]).phase != SchedulePhase::Ended && req.start_at < s[i].end_at
                && s[i].start_at < req.end_at ==> first_conflict(req, s) <= i,
        first_conflict(req, s) < s.len() ==> {
            let t = s[first_conflict(req, s)];
            &&& t.phase != SchedulePhase::Ended
            &&& req.start_at < t.end_at
            &&& t.start_at < req.end_at
        },
{
    lemma_first_conflict(req, s);
    assert forall|i: int|
        0 <= i < s.len() && (#[trigger] s[i]).phase != SchedulePhase::Ended && req.start_at < s[i].end_at
            && s[i].start_at < req.end_at implies first_conflict(req, s) <= i by {
        assert(conflicts(req, s[i]));
    }
}

/// Recording the queue's counts keeps each peak at the larger of the
/// recorded peak and the current count (so a peak never goes down and is
/// never below the current count), copies the two totals, and leaves the
/// rest of the schedule alone.
pub proof fn lemma_recorded_peaks_never_drop(s: Schedule, q: crate::queue::QueueStats)
    ensures
        ({
            let t = with_queue_stats(s, q);
            &&& t.stats.peak_queue_length >= s.stats.peak_queue_length
            &&& t.stats.peak_queue_length >= q.waiting_count
            &&& (t.stats.peak_queue_length == s.stats.peak_queue_length || t.stats.peak_queue_length == q.waiting_count)
            &&& t.stats.peak_active_users >= s.stats.peak_active_users
            &&& t.stats.peak_active_users >= q.active_count
            &&& (t.stats.peak_active_users == s.stats.peak_active_users || t.stats.peak_active_users == q.active_count)
            &&& t.stats.total_admitted == q.total_admitted
            &&& t.stats.total_visitors == q.total_visitors
            &&& t.id == s.id && t.name == s.name && t.start_at == s.start_at && t.end_at == s.end_at
            &&& t.phase == s.phase
        }),
{
}

/// Over two recordings, each peak is the largest count seen: recording `q1`
/// then `q2` leaves the peaks at the maximum of the earlier peak and both
/// counts.
pub proof fn lemma_peaks_over_two_recordings(s: Schedule, q1: crate::queue::QueueStats, q2: crate::queue::QueueStats)
    ensures
        ({
            let t = with_queue_stats(with_queue_stats(s, q1), q2);
            &&& t.stats.peak_queue_length >= s.stats.peak_queue_length
            &&& t.stats.peak_queue_length >= q1.waiting_count
            &&& t.stats.peak_queue_length >= q2.waiting_count
            &&& (t.stats.peak_queue_length == s.stats.peak_queue_length || t.stats.peak_queue_length == q1.waiting_count
                || t.stats.peak_queue_length == q2.waiting_count)
            &&& t.stats.peak_active_users >= s.stats.peak_active_users
            &&& t.stats.peak_active_users >= q1.active_count
            &&& t.stats.peak_active_users >= q2.active_count
        }),
{
    lemma_recorded_peaks_never_drop(s, q1);
    lemma_recorded_peaks_never_drop(with_queue_stats(s, q1), q2);
}

} // verus!
