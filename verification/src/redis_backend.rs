use vstd::prelude::*;
use crate::backend::GateResult;
use crate::clock::{millis_of_epoch_nanos, unix_time_nanos};
use crate::decimal::{all_digits, digits_value, parse_unsigned, unsigned_reading};
use crate::ids::{uuid_string, uuid_text};
use crate::queue::{QueuePosition, QueueStats, SessionId, eta_millis_spec, estimate_wait_millis};
use crate::text::{chars_of, push_chars, same_text};

verus! {

/// The current wall-clock time in milliseconds since the Unix epoch.
pub fn now_ms() -> u64 {
    millis_of_epoch_nanos(unix_time_nanos())
}

/// The text under which a session is stored in Redis: its hyphenated UUID.
pub fn session_id_str(id: &SessionId) -> (s: String)
    ensures
        s@ == uuid_text(id.0),
{
    uuid_string(id.0)
}

/// How a count in a Redis reply reads: as an unsigned integer, 0 when it does not read.
pub open spec fn count_reading(s: Seq<char>) -> int {
    match unsigned_reading(s, usize::MAX as int) {
        Some(v) => v,
        None => 0,
    }
}

/// The entrance decision a reply of the admission script stands for: a tag and two
/// counts (place in line and line length); a short reply or an unknown tag
/// stands for a place at the end of a line of one.
pub open spec fn gate_reply_result(reply: Seq<String>) -> GateResult {
    if reply.len() < 3 {
        GateResult::Enqueued { position: 1, total: 1 }
    } else {
        let position = count_reading(reply[1]@) as usize;
        let total = count_reading(reply[2]@) as usize;
        if reply[0]@ == "active"@ {
            GateResult::Active
        } else if reply[0]@ == "waiting"@ {
            GateResult::Waiting { position, total }
        } else if reply[0]@ == "admitted"@ {
            GateResult::Admitted
        } else if reply[0]@ == "enqueued"@ {
            GateResult::Enqueued { position, total }
        } else {
            GateResult::Enqueued { position: 1, total: 1 }
        }
    }
}

/// A reply of the admission script that does not say `active` or
/// `admitted` (a short reply, the error stand-in, an unknown tag) lets
/// nobody through: the session is treated as waiting.
pub proof fn lemma_unreadable_reply_lets_nobody_in(reply: Seq<String>)
    requires
        reply.len() < 3 || (reply[0]@ != "active"@ && reply[0]@ != "admitted"@),
    ensures
        gate_reply_result(reply) is Waiting || gate_reply_result(reply) is Enqueued,
{
}

fn read_count(s: &String) -> (v: usize)
    ensures
        v as int == count_reading(s@),
{
    match parse_unsigned(s.as_str(), usize::MAX as u64) {
        Some(v) => v as usize,
        None => 0,
    }
}

/// The entrance decision in a reply of the admission script.
pub fn parse_gate_reply(reply: &Vec<String>) -> (r: GateResult)
    ensures
        r == gate_reply_result(reply@),
{
    if reply.len() < 3 {
        return GateResult::Enqueued { position: 1, total: 1 };
    }
    let position = read_count(&reply[1]);
    let total = read_count(&reply[2]);
    let tag = reply[0].as_str();
    if same_text(tag, "active") {
        GateResult::Active
    } else if same_text(tag, "waiting") {
        GateResult::Waiting { position, total }
    } else if same_text(tag, "admitted") {
        GateResult::Admitted
    } else if same_text(tag, "enqueued") {
        GateResult::Enqueued { position, total }
    } else {
        GateResult::Enqueued { position: 1, total: 1 }
    }
}

/// The index of the first `.` of `s` (`s.len()` if none).
pub open spec fn dot_index(s: Seq<char>) -> int
    decreases s.len(),
{
    if s.len() == 0 {
        0
    } else if s.last() == '.' && dot_index(s.drop_last()) == s.len() - 1 {
        s.len() - 1
    } else if dot_index(s.drop_last()) < s.len() - 1 {
        dot_index(s.drop_last())
    } else {
        s.len() as int
    }
}

/// How a stored decimal duration reads, rounded down to whole
/// milliseconds: an optional sign (`+` or `-`), digits, and optionally a
/// `.` and more digits, with at least one digit in all. A negative total
/// (servers whose clocks disagree can store one) is held at 0. `None`
/// otherwise, or when a non-negative whole part exceeds `u64::MAX`.
pub open spec fn duration_reading(s: Seq<char>) -> Option<int> {
    let neg = s.len() > 0 && s[0] == '-';
    let body = if s.len() > 0 && (s[0] == '+' || s[0] == '-') { s.drop_first() } else { s };
    let d = dot_index(body);
    let whole = body.take(d);
    let frac = if d < body.len() { body.skip(d + 1) } else { Seq::empty() };
    if all_digits(whole) && all_digits(frac) && whole.len() + frac.len() >= 1 && (neg || digits_value(whole) <= u64::MAX) {
        Some(if neg { 0 } else { digits_value(whole) })
    } else {
        None
    }
}

proof fn lemma_dot_index(s: Seq<char>)
    ensures
        0 <= dot_index(s) <= s.len(),
        dot_index(s) < s.len() ==> s[dot_index(s)] == '.',
        forall|i: int| 0 <= i < dot_index(s) ==> s[i] != '.',
    decreases s.len(),
{
    if s.len() > 0 {
        lemma_dot_index(s.drop_last());
        assert forall|i: int| 0 <= i < dot_index(s) implies s[i] != '.' by {
            if i < s.len() - 1 {
                assert(s[i] == s.drop_last()[i]);
            }
        }
    }
}

fn all_digit_range(cs: &Vec<char>, from: usize, to: usize) -> (r: bool)
    requires
        from <= to <= cs@.len(),
    ensures
        r == all_digits(cs@.subrange(from as int, to as int)),
{
    let mut i = from;
    while i < to
        invariant
            from <= i <= to <= cs@.len(),
            all_digits(cs@.subrange(from as int, i as int)),
        decreases to - i,
    {
        if !('0' <= cs[i] && cs[i] <= '9') {
            assert(!crate::text::is_digit(cs@.subrange(from as int, to as int)[i - from]));
            return false;
        }
        i = i + 1;
        assert(cs@.subrange(from as int, i as int).drop_last() =~= cs@.subrange(from as int, i - 1));
    }
    true
}

/// Reads a stored decimal duration, rounded down to whole milliseconds.
pub fn read_duration(s: &String) -> (v: Option<u64>)
    ensures
        match v {
            Some(x) => duration_reading(s@) == Some(x as int),
            None => duration_reading(s@) is None,
        },
{
    let cs = chars_of(s.as_str());
    let n = cs.len();
    let neg = n > 0 && cs[0] == '-';
    let start: usize = if n > 0 && (cs[0] == '+' || cs[0] == '-') { 1 } else { 0 };
    let ghost body = if s@.len() > 0 && (s@[0] == '+' || s@[0] == '-') { s@.drop_first() } else { s@ };
    assert(body =~= cs@.subrange(start as int, n as int));
    let mut d = start;
    while d < n && cs[d] != '.'
        invariant
            start <= d <= n,
            n == cs@.len(),
            forall|j: int| start <= j < d ==> cs@[j] != '.',
        decreases n - d,
    {
        d = d + 1;
    }
    proof {
        lemma_dot_index(body);
        let di = dot_index(body);
        if di < d - start {
            assert(cs@[start + di] == '.');
        }
        if d < n {
            assert(body[d - start] == '.');
        }
        assert(di == d - start);
    }
    let frac_from = if d < n { d + 1 } else { n };
    let whole_ok = all_digit_range(&cs, start, d);
    let frac_ok = all_digit_range(&cs, frac_from, n);
    if !whole_ok || !frac_ok || (d - start) + (n - frac_from) < 1 {
        proof {
            assert(body.take(d - start) =~= cs@.subrange(start as int, d as int));
            if d < n {
                assert(body.skip(d - start + 1) =~= cs@.subrange(frac_from as int, n as int));
            } else {
                assert(cs@.subrange(frac_from as int, n as int) =~= Seq::<char>::empty());
            }
        }
        return None;
    }
    let mut whole = String::new();
    push_chars(&mut whole, &cs, start, d);
    proof {
        assert(body.take(d - start) =~= cs@.subrange(start as int, d as int));
        if d < n {
            assert(body.skip(d - start + 1) =~= cs@.subrange(frac_from as int, n as int));
        } else {
            assert(cs@.subrange(frac_from as int, n as int) =~= Seq::<char>::empty());
        }
    }
    if neg {
        return Some(0);
    }
    if d == start {
        proof {
            assert(cs@.subrange(start as int, d as int) =~= Seq::<char>::empty());
        }
        return Some(0);
    }
    match parse_unsigned(whole.as_str(), u64::MAX) {
        Some(v) => {
            proof {
                assert(whole@ =~= cs@.subrange(start as int, d as int));
                assert(whole@.len() > 0 && whole@[0] != '+');
            }
            Some(v)
        },
        None => {
            proof {
                assert(whole@ =~= cs@.subrange(start as int, d as int));
                assert(whole@.len() > 0 && whole@[0] != '+');
            }
            None
        },
    }
}

/// The counters kept in the Redis stats hash.
#[derive(Debug, Clone, Copy, PartialEq, Eq, Structural)]
pub struct RedisStatsFields {
    pub total_active_duration_ms: u64,
    pub completed_sessions: u64,
    pub total_admitted: u64,
    pub total_visitors: u64,
}

/// `f` after the field `key` of the stats hash is read from `value`;
/// a value that does not read counts as 0, an unknown key changes nothing.
pub open spec fn with_stats_pair(f: RedisStatsFields, key: Seq<char>, value: Seq<char>) -> RedisStatsFields {
    if key == "total_active_duration_ms"@ {
        RedisStatsFields {
            total_active_duration_ms: match duration_reading(value) {
                Some(v) => v as u64,
                None => 0,
            },
            ..f
        }
    } else if key == "completed_sessions"@ {
        RedisStatsFields { completed_sessions: match unsigned_reading(value, u64::MAX as int) {
            Some(v) => v as u64,
            None => 0,
        }, ..f }
    } else if key == "total_admitted"@ {
        RedisStatsFields { total_admitted: match unsigned_reading(value, u64::MAX as int) {
            Some(v) => v as u64,
            None => 0,
        }, ..f }
    } else if key == "total_visitors"@ {
        RedisStatsFields { total_visitors: match unsigned_reading(value, u64::MAX as int) {
            Some(v) => v as u64,
            None => 0,
        }, ..f }
    } else {
        f
    }
}

/// The counters read from the first `pairs` key/value pairs of a flat
/// `HGETALL` reply; later pairs win.
pub open spec fn stats_from_pairs(raw: Seq<String>, pairs: int) -> RedisStatsFields
    decreases pairs,
{
    if pairs <= 0 {
        RedisStatsFields { total_active_duration_ms: 0, completed_sessions: 0, total_admitted: 0, total_visitors: 0 }
    } else {
        with_stats_pair(stats_from_pairs(raw, pairs - 1), raw[2 * pairs - 2]@, raw[2 * pairs - 1]@)
    }
}

fn read_u64_or_zero(s: &String) -> (v: u64)
    ensures
        v as int == (match unsigned_reading(s@, u64::MAX as int) {
            Some(x) => x,
            None => 0,
        }),
{
    match parse_unsigned(s.as_str(), u64::MAX) {
        Some(v) => v,
        None => 0,
    }
}

/// The counters in a flat `HGETALL` reply of the stats hash.
pub fn parse_stats_reply(raw: &Vec<String>) -> (f: RedisStatsFields)
    ensures
        f == stats_from_pairs(raw@, (raw@.len() / 2) as int),
{
    let mut f = RedisStatsFields { total_active_duration_ms: 0, completed_sessions: 0, total_admitted: 0, total_visitors: 0 };
    let n = raw.len();
    let mut p: usize = 0;
    while p < n / 2
        invariant
            n == raw@.len(),
            p <= n / 2,
            f == stats_from_pairs(raw@, p as int),
        decreases n / 2 - p,
    {
        let key = raw[2 * p].as_str();
        let value = &raw[2 * p + 1];
        if same_text(key, "total_active_duration_ms") {
            f.total_active_duration_ms = match read_duration(value) {
                Some(v) => v,
                None => 0,
            };
        } else if same_text(key, "completed_sessions") {
            f.completed_sessions = read_u64_or_zero(value);
        } else if same_text(key, "total_admitted") {
            f.total_admitted = read_u64_or_zero(value);
        } else if same_text(key, "total_visitors") {
            f.total_visitors = read_u64_or_zero(value);
        }
        p = p + 1;
    }
    f
}

/// Where a session stands in the Redis line, from its 0-based `rank` (if
/// it waits), the line's length, the stats hash and the number of active
/// sessions.
pub fn redis_position(rank: Option<usize>, total: usize, stats: &RedisStatsFields, active_count: usize) -> (p: Option<QueuePosition>)
    requires
        rank is Some ==> rank->0 < usize::MAX,
    ensures
        p == (match rank {
            Some(r) => Some(QueuePosition {
                position: (r + 1) as usize,
                total_waiting: total,
                eta_millis: eta_millis_spec(
                    r + 1,
                    active_count as int,
                    stats.total_active_duration_ms as int,
                    stats.completed_sessions as int,
                ) as u128,
            }),
            None => None,
        }),
{
    match rank {
        Some(r) => {
            let position = r + 1;
            let eta = estimate_wait_millis(position, active_count, stats.total_active_duration_ms as u128, stats.completed_sessions);
            Some(QueuePosition { position, total_waiting: total, eta_millis: eta })
        },
        None => None,
    }
}

/// The queue counters from the Redis active count, line length and stats
/// hash; the mean session length is in whole milliseconds, rounded down.
pub fn redis_queue_stats(active: usize, waiting: usize, stats: &RedisStatsFields) -> (s: QueueStats)
    ensures
        s == (QueueStats {
            active_count: active,
            waiting_count: waiting,
            avg_active_duration_millis: if stats.completed_sessions > 0 {
                (stats.total_active_duration_ms / stats.completed_sessions) as u128
            } else {
                0
            },
            total_admitted: stats.total_admitted,
            total_visitors: stats.total_visitors,
        }),
{
    QueueStats {
        active_count: active,
        waiting_count: waiting,
        avg_active_duration_millis: if stats.completed_sessions > 0 {
            (stats.total_active_duration_ms / stats.completed_sessions) as u128
        } else {
            0
        },
        total_admitted: stats.total_admitted,
        total_visitors: stats.total_visitors,
    }
}

/// The counts in a reply of the reaper script: sessions expired and
/// sessions let in, each 0 when missing; a count is taken as `usize` the
/// way Rust's `as` casts an `i64`.
pub fn parse_reaper_reply(reply: &Vec<i64>) -> (r: (usize, usize))
    ensures
        r.0 == (if reply@.len() > 0 { reply@[0] as usize } else { 0usize }),
        r.1 == (if reply@.len() > 1 { reply@[1] as usize } else { 0usize }),
{
    let expired: i64 = if reply.len() > 0 { reply[0] } else { 0 };
    let admitted: i64 = if reply.len() > 1 { reply[1] } else { 0 };
    (expired as usize, admitted as usize)
}

} // verus!
