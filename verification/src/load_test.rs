use vstd::prelude::*;
use crate::middleware::{find_part_end, part_end};
use crate::text::{chars_of, contains_text, find_text, has_prefix, push_chars, starts_with_text};

verus! {

/// Counters of the load test.
#[derive(Debug, Clone, Copy, PartialEq, Eq, Structural)]
pub struct Counters {
    pub get_count: u64,
    pub sse_count: u64,
    /// Users let through on their first request.
    pub admitted_direct: u64,
    /// Users let through by a live update.
    pub admitted_sse: u64,
    /// Users told the room closed.
    pub closed: u64,
    pub timeout: u64,
    pub error: u64,
}

impl Counters {
    /// All counters at zero.
    pub fn new() -> (c: Self)
        ensures
            c == (Counters { get_count: 0, sse_count: 0, admitted_direct: 0, admitted_sse: 0, closed: 0, timeout: 0, error: 0 }),
    {
        Counters { get_count: 0, sse_count: 0, admitted_direct: 0, admitted_sse: 0, closed: 0, timeout: 0, error: 0 }
    }

    /// The number of users whose run has finished, one way or another.
    pub fn total(&self) -> (t: u64)
        requires
            self.admitted_direct + self.admitted_sse + self.closed + self.timeout + self.error <= u64::MAX,
        ensures
            t == self.admitted_direct + self.admitted_sse + self.closed + self.timeout + self.error,
    {
        self.admitted_direct + self.admitted_sse + self.closed + self.timeout + self.error
    }
}

/// Something that happens to a simulated user, as the load test counts it.
#[derive(Debug, Clone, Copy, PartialEq, Eq, Structural)]
pub enum LoadEvent {
    /// It sent its first request.
    Get,
    /// It opened a live-update stream.
    Sse,
    /// It was let in on its first request.
    AdmittedDirect,
    /// A live update let it in.
    AdmittedSse,
    /// A live update said the room closed.
    Closed,
    /// Its wait ran out of time.
    Timeout,
    /// A request or stream failed.
    Error,
}

/// The counters after `e` is counted: its own counter grows by one
/// (wrapping, as an atomic counter does), the others stay.
pub open spec fn counted(c: Counters, e: LoadEvent) -> Counters {
    match e {
        LoadEvent::Get => Counters { get_count: c.get_count.wrapping_add(1), ..c },
        LoadEvent::Sse => Counters { sse_count: c.sse_count.wrapping_add(1), ..c },
        LoadEvent::AdmittedDirect => Counters { admitted_direct: c.admitted_direct.wrapping_add(1), ..c },
        LoadEvent::AdmittedSse => Counters { admitted_sse: c.admitted_sse.wrapping_add(1), ..c },
        LoadEvent::Closed => Counters { closed: c.closed.wrapping_add(1), ..c },
        LoadEvent::Timeout => Counters { timeout: c.timeout.wrapping_add(1), ..c },
        LoadEvent::Error => Counters { error: c.error.wrapping_add(1), ..c },
    }
}

impl Counters {
    /// Counts `e`.
    pub fn record(&mut self, e: LoadEvent)
        ensures
            *final(self) == counted(*old(self), e),
    {
        match e {
            LoadEvent::Get => {
                self.get_count = self.get_count.wrapping_add(1);
            },
            LoadEvent::Sse => {
                self.sse_count = self.sse_count.wrapping_add(1);
            },
            LoadEvent::AdmittedDirect => {
                self.admitted_direct = self.admitted_direct.wrapping_add(1);
            },
            LoadEvent::AdmittedSse => {
                self.admitted_sse = self.admitted_sse.wrapping_add(1);
            },
            LoadEvent::Closed => {
                self.closed = self.closed.wrapping_add(1);
            },
            LoadEvent::Timeout => {
                self.timeout = self.timeout.wrapping_add(1);
            },
            LoadEvent::Error => {
                self.error = self.error.wrapping_add(1);
            },
        }
    }
}

/// What a simulated user's first request told it.
#[derive(Debug, Clone, Copy, PartialEq, Eq, Structural)]
pub enum FirstStep {
    /// Redirected to the origin (302): let in at once.
    AdmittedDirect,
    /// Shown the waiting page (200).
    Waiting,
    /// Any other status.
    Failed,
}

/// How a simulated user reads the status of its first request.
pub fn first_step(status: u16) -> (s: FirstStep)
    ensures
        s == (if status == 302 {
            FirstStep::AdmittedDirect
        } else if status == 200 {
            FirstStep::Waiting
        } else {
            FirstStep::Failed
        }),
{
    if status == 302 {
        FirstStep::AdmittedDirect
    } else if status == 200 {
        FirstStep::Waiting
    } else {
        FirstStep::Failed
    }
}

/// The index of the first `Set-Cookie` value of `values` that begins with
/// `__wr_token=` (the length if none).
pub open spec fn first_token_cookie(values: Seq<String>) -> int
    decreases values.len(),
{
    if values.len() == 0 {
        0
    } else if has_prefix(values[0]@, "__wr_token="@) {
        0
    } else {
        1 + first_token_cookie(values.drop_first())
    }
}

/// The token in a `Set-Cookie` value that begins with `__wr_token=`: what
/// follows that prefix, up to the first `;` after it or the end.
pub open spec fn token_in(value: Seq<char>) -> Seq<char> {
    value.subrange("__wr_token="@.len() as int, part_end(value, "__wr_token="@.len() as int))
}

proof fn lemma_first_token_cookie(values: Seq<String>)
    ensures
        0 <= first_token_cookie(values) <= values.len(),
        first_token_cookie(values) < values.len() ==> has_prefix(values[first_token_cookie(values)]@, "__wr_token="@),
        forall|i: int| 0 <= i < first_token_cookie(values) ==> !has_prefix((#[trigger] values[i])@, "__wr_token="@),
    decreases values.len(),
{
    if values.len() > 0 && !has_prefix(values[0]@, "__wr_token="@) {
        lemma_first_token_cookie(values.drop_first());
        assert forall|i: int| 0 <= i < first_token_cookie(values) implies !has_prefix((#[trigger] values[i])@, "__wr_token="@) by {
            if i > 0 {
                assert(values[i] == values.drop_first()[i - 1]);
            }
        }
    }
}

/// The session token handed out in a response's `Set-Cookie` values: the
/// first value for the cookie `__wr_token` gives it.
pub fn token_from_set_cookies(values: &Vec<String>) -> (t: Option<String>)
    ensures
        match t {
            Some(x) => first_token_cookie(values@) < values@.len() && x@ == token_in(values@[first_token_cookie(values@)]@),
            None => first_token_cookie(values@) == values@.len(),
        },
{
    proof {
        lemma_first_token_cookie(values@);
        reveal_strlit("__wr_token=");
    }
    let mut i: usize = 0;
    while i < values.len()
        invariant
            i <= values@.len(),
            i <= first_token_cookie(values@),
            0 <= first_token_cookie(values@) <= values@.len(),
            first_token_cookie(values@) < values@.len() ==> has_prefix(values@[first_token_cookie(values@)]@, "__wr_token="@),
            forall|j: int| 0 <= j < first_token_cookie(values@) ==> !has_prefix((#[trigger] values@[j])@, "__wr_token="@),
            "__wr_token="@.len() == 11,
        decreases values.len() - i,
    {
        if starts_with_text(values[i].as_str(), "__wr_token=") {
            let cs = chars_of(values[i].as_str());
            let end = find_part_end(&cs, 11);
            let mut out = String::new();
            push_chars(&mut out, &cs, 11, end);
            assert(out@ =~= token_in(values@[i as int]@));
            return Some(out);
        }
        i = i + 1;
    }
    None
}

/// How a live-update stream ended for a simulated user.
#[derive(Debug, Clone, Copy, PartialEq, Eq, Structural)]
pub enum SseEnd {
    /// An update said `"admit"`.
    Admitted,
    /// An update said `"closed"`.
    Closed,
}

/// What the text received so far on a live-update stream tells a simulated
/// user: `"admit"` anywhere in it lets it in (checked first), `"closed"`
/// ends its wait; otherwise it keeps waiting.
pub fn sse_end(buf: &str) -> (e: Option<SseEnd>)
    ensures
        e == (if contains_text(buf@, "\"admit\""@) {
            Some(SseEnd::Admitted)
        } else if contains_text(buf@, "\"closed\""@) {
            Some(SseEnd::Closed)
        } else {
            None
        }),
{
    if find_text(buf, "\"admit\"") {
        Some(SseEnd::Admitted)
    } else if find_text(buf, "\"closed\"") {
        Some(SseEnd::Closed)
    } else {
        None
    }
}

} // verus!
