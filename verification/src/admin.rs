use vstd::prelude::*;
use crate::config::{Config, PatchConfigRequest, config_for_schedule, config_patched, schedule_patch_of};
use crate::scheduler::{
    CreateScheduleError, CreateScheduleRequest, Schedule, check_new_schedule, first_conflict,
    PatchScheduleRequest, ScheduleState, first_live, index_of_active, patch_active_schedule, patched,
    reports,
};
use crate::ids::uuid_text;

verus! {

/// Whether the key a request presents (none counts as empty) is the admin key.
pub fn api_key_matches(provided: Option<&str>, expected: &str) -> (ok: bool)
    ensures
        ok == (match provided {
            Some(p) => p@ == expected@,
            None => expected@.len() == 0,
        }),
{
    match provided {
        Some(p) => crate::text::same_text(p, expected),
        None => crate::text::chars_of(expected).len() == 0,
    }
}

/// Creates a schedule for `req` unless its start is not before its end or
/// it overlaps a schedule that has not ended.
pub fn create_schedule(req: CreateScheduleRequest, existing: &Vec<Schedule>) -> (r: Result<Schedule, CreateScheduleError>)
    ensures
        req.start_at >= req.end_at ==> r matches Err(CreateScheduleError::InvalidRange),
        req.start_at < req.end_at && first_conflict(req, existing@) < existing@.len() ==> r == Err::<Schedule, CreateScheduleError>(
            CreateScheduleError::Overlap {
                name: existing@[first_conflict(req, existing@)].name,
                id: existing@[first_conflict(req, existing@)].id,
            },
        ),
        req.start_at < req.end_at && first_conflict(req, existing@) >= existing@.len() ==> (r matches Ok(s) && {
            &&& exists|v: u128| s.id@ == #[trigger] uuid_text(v).take(8)
            &&& s.name == req.name
            &&& s.start_at == req.start_at
            &&& s.end_at == req.end_at
            &&& s.max_active_users == req.max_active_users
            &&& s.origin_url == req.origin_url
            &&& s.session_ttl_secs == req.session_ttl_secs
            &&& s.phase == crate::scheduler::SchedulePhase::Pending
        }),
{
    match check_new_schedule(&req, existing) {
        Ok(()) => Ok(Schedule::new(req)),
        Err(e) => Err(e),
    }
}

/// Changes the running settings, and the same overrides of the active
/// schedule so that the scheduler keeps them.
pub fn patch_config(config: &mut Config, schedules: &mut Vec<Schedule>, p: &PatchConfigRequest)
    ensures
        *final(config) == config_patched(*old(config), *p),
        ({
            let k = index_of_active(old(schedules)@);
            if k < old(schedules)@.len() {
                final(schedules)@ == old(schedules)@.update(k, patched(old(schedules)@[k], schedule_patch(*p)))
            } else {
                final(schedules)@ == old(schedules)@
            }
        }),
{
    config.apply_patch(p);
    let q = schedule_patch_of(p);
    patch_active_schedule(schedules, &q);
}

/// The schedule change that `patch_config` makes along with a change `p` of
/// the running settings.
pub open spec fn schedule_patch(p: PatchConfigRequest) -> PatchScheduleRequest {
    PatchScheduleRequest {
        max_active_users: p.max_active_users,
        session_ttl_secs: p.session_ttl_secs,
        origin_url: p.origin_url,
    }
}

/// A change of the running settings survives the scheduler's next tick:
/// when the schedule marked active is the one that runs at `now`, evaluating
/// the schedules as `patch_config` left them and applying what that reports
/// keeps every setting the change gave.
pub proof fn lemma_patch_survives_next_tick(
    c: Config,
    s: Seq<Schedule>,
    p: PatchConfigRequest,
    now: int,
    r: ScheduleState,
)
    requires
        index_of_active(s) < s.len(),
        index_of_active(s) == first_live(s, now),
        reports(s.update(index_of_active(s), patched(s[index_of_active(s)], schedule_patch(p))), now, r),
    ensures
        ({
            let c2 = config_for_schedule(config_patched(c, p), r);
            &&& p.max_active_users is Some ==> c2.max_active_users == p.max_active_users->0
            &&& p.session_ttl_secs is Some ==> c2.session_ttl_secs == p.session_ttl_secs->0
            &&& p.origin_url is Some ==> c2.origin_url == p.origin_url->0
        }),
{
    crate::scheduler::lemma_index_of_active(s);
    let k = index_of_active(s);
    let s2 = s.update(k, patched(s[k], schedule_patch(p)));
    assert forall|i: int| 0 <= i < s2.len() implies (#[trigger] s2[i]).start_at == s[i].start_at && s2[i].end_at == s[i].end_at by {
        if i == k {
        }
    }
    crate::scheduler::lemma_first_live_by_times(s2, s, now);
    assert(first_live(s2, now) == k);
}

} // verus!
