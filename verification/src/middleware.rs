use vstd::prelude::*;
use crate::backend::GateResult;
use crate::queue::SessionId;
use crate::session::{SessionManager, token_reading};
use crate::text::{chars_of, has_prefix, push_chars, starts_with_text};

verus! {

/// Whether `c` is white space as Rust's `char::is_whitespace` defines it
/// (the Unicode `White_Space` property).
pub open spec fn is_white(c: char) -> bool {
    let u = c as u32;
    (0x09 <= u && u <= 0x0D) || u == 0x20 || u == 0x85 || u == 0xA0 || u == 0x1680
        || (0x2000 <= u && u <= 0x200A) || u == 0x2028 || u == 0x2029 || u == 0x202F
        || u == 0x205F || u == 0x3000
}

fn white(c: char) -> (r: bool)
    ensures
        r == is_white(c),
{
    let u = c as u32;
    (0x09 <= u && u <= 0x0D) || u == 0x20 || u == 0x85 || u == 0xA0 || u == 0x1680
        || (0x2000 <= u && u <= 0x200A) || u == 0x2028 || u == 0x2029 || u == 0x202F
        || u == 0x205F || u == 0x3000
}

/// The first index in `a..b` of a character of `s` that is not white space (`b` if none).
pub open spec fn trim_from(s: Seq<char>, a: int, b: int) -> int
    decreases b - a,
{
    if a >= b {
        b
    } else if is_white(s[a]) {
        trim_from(s, a + 1, b)
    } else {
        a
    }
}

/// The end of `s[a..b]` without its trailing white space.
pub open spec fn trim_to(s: Seq<char>, a: int, b: int) -> int
    decreases b - a,
{
    if b <= a {
        a
    } else if is_white(s[b - 1]) {
        trim_to(s, a, b - 1)
    } else {
        b
    }
}

/// The index of the first `;` of `s` at or after `a` (`s.len()` if none).
pub open spec fn part_end(s: Seq<char>, a: int) -> int
    decreases s.len() - a,
{
    if a >= s.len() {
        s.len() as int
    } else if s[a] == ';' {
        a
    } else {
        part_end(s, a + 1)
    }
}

/// The value of the cookie `name` in the `;`-separated parts of `s` from
/// index `a` on: the first part that, trimmed, begins with `name=`, gives
/// the rest of it, trimmed again.
pub open spec fn cookie_from(s: Seq<char>, name: Seq<char>, a: int) -> Option<Seq<char>>
    decreases s.len() - a,
{
    if a < 0 || a > s.len() {
        None
    } else {
        let b = part_end(s, a);
        let x = trim_from(s, a, b);
        let y = trim_to(s, x, b);
        let k = name.len() + 1;
        if x + k <= y && s.subrange(x, x + k) == name.push('=') {
            let vx = trim_from(s, x + k, y);
            Some(s.subrange(vx, trim_to(s, vx, y)))
        } else if b >= s.len() {
            None
        } else {
            proof {
                lemma_part_end_bounds(s, a);
            }
            cookie_from(s, name, b + 1)
        }
    }
}

/// The value of the cookie `name` in a `Cookie` header value.
pub open spec fn cookie_value_spec(header: Seq<char>, name: Seq<char>) -> Option<Seq<char>> {
    cookie_from(header, name, 0)
}

/// The end of the part that starts at `a` lies between `a` and the end of `s`.
pub proof fn lemma_part_end_bounds(s: Seq<char>, a: int)
    requires
        0 <= a <= s.len(),
    ensures
        a <= part_end(s, a) <= s.len(),
    decreases s.len() - a,
{
    if a < s.len() && s[a] != ';' {
        lemma_part_end_bounds(s, a + 1);
    }
}

proof fn lemma_trim_from_bounds(s: Seq<char>, a: int, b: int)
    requires
        0 <= a <= b <= s.len(),
    ensures
        a <= trim_from(s, a, b) <= b,
    decreases b - a,
{
    if a < b && is_white(s[a]) {
        lemma_trim_from_bounds(s, a + 1, b);
    }
}

proof fn lemma_trim_to_bounds(s: Seq<char>, a: int, b: int)
    requires
        0 <= a <= b <= s.len(),
    ensures
        a <= trim_to(s, a, b) <= b,
    decreases b - a,
{
    if a < b && is_white(s[b - 1]) {
        lemma_trim_to_bounds(s, a, b - 1);
    }
}

fn find_trim_from(s: &Vec<char>, a: usize, b: usize) -> (x: usize)
    requires
        a <= b <= s@.len(),
    ensures
        x == trim_from(s@, a as int, b as int),
    decreases b - a,
{
    if a >= b {
        b
    } else if white(s[a]) {
        find_trim_from(s, a + 1, b)
    } else {
        a
    }
}

fn find_trim_to(s: &Vec<char>, a: usize, b: usize) -> (y: usize)
    requires
        a <= b <= s@.len(),
    ensures
        y == trim_to(s@, a as int, b as int),
    decreases b - a,
{
    if b <= a {
        a
    } else if white(s[b - 1]) {
        find_trim_to(s, a, b - 1)
    } else {
        b
    }
}

pub(crate) fn find_part_end(s: &Vec<char>, a: usize) -> (b: usize)
    requires
        a <= s@.len(),
    ensures
        b == part_end(s@, a as int),
        a <= b <= s@.len(),
    decreases s@.len() - a,
{
    if a >= s.len() {
        s.len()
    } else if s[a] == ';' {
        a
    } else {
        find_part_end(s, a + 1)
    }
}

fn matches_at(s: &Vec<char>, x: usize, name: &Vec<char>) -> (r: bool)
    requires
        x + name@.len() + 1 <= s@.len(),
    ensures
        r == (s@.subrange(x as int, x + name@.len() + 1) == name@.push('=')),
{
    let k = name.len();
    let n = s.len();
    let mut i: usize = 0;
    while i < k
        invariant
            n == s@.len(),
            k == name@.len(),
            x + k + 1 <= s@.len(),
            i <= k,
            forall|j: int| 0 <= j < i ==> s@[x + j] == name@[j],
        decreases k - i,
    {
        if s[x + i] != name[i] {
            assert(s@.subrange(x as int, x + k + 1)[i as int] != name@.push('=')[i as int]);
            return false;
        }
        i = i + 1;
    }
    if s[x + k] != '=' {
        assert(s@.subrange(x as int, x + k + 1)[k as int] != name@.push('=')[k as int]);
        return false;
    }
    assert(s@.subrange(x as int, x + k + 1) =~= name@.push('='));
    true
}

/// The value of the cookie `name` in the `Cookie` header value `header`: the
/// first `;`-separated part that, trimmed, begins with `name=` gives the
/// rest of it, trimmed.
pub fn cookie_value(header: &str, name: &str) -> (v: Option<String>)
    ensures
        match v {
            Some(t) => cookie_value_spec(header@, name@) == Some(t@),
            None => cookie_value_spec(header@, name@) is None,
        },
{
    let s = chars_of(header);
    let nm = chars_of(name);
    let n = s.len();
    let mut a: usize = 0;
    loop
        invariant
            s@ == header@,
            nm@ == name@,
            n == s@.len(),
            a <= n,
            cookie_value_spec(header@, name@) == cookie_from(s@, nm@, a as int),
        decreases n - a,
    {
        let b = find_part_end(&s, a);
        proof {
            lemma_trim_from_bounds(s@, a as int, b as int);
        }
        let x = find_trim_from(&s, a, b);
        proof {
            lemma_trim_to_bounds(s@, x as int, b as int);
        }
        let y = find_trim_to(&s, x, b);
        let k = nm.len();
        if k < y - x && matches_at(&s, x, &nm) {
            proof {
                lemma_trim_from_bounds(s@, x + k + 1, y as int);
            }
            let vx = find_trim_from(&s, x + k + 1, y);
            proof {
                lemma_trim_to_bounds(s@, vx as int, y as int);
            }
            let vy = find_trim_to(&s, vx, y);
            let mut out = String::new();
            push_chars(&mut out, &s, vx, vy);
            assert(out@ =~= s@.subrange(vx as int, vy as int));
            return Some(out);
        }
        if b >= n {
            return None;
        }
        a = b + 1;
    }
}

proof fn lemma_part_end_without_separator(s: Seq<char>, a: int)
    requires
        0 <= a <= s.len(),
        forall|j: int| a <= j < s.len() ==> s[j] != ';',
    ensures
        part_end(s, a) == s.len(),
    decreases s.len() - a,
{
    if a < s.len() {
        lemma_part_end_without_separator(s, a + 1);
    }
}

/// A cookie handed out as `name=value` (see `session_cookie`) is read back
/// as `value` from a `Cookie` header holding that pair, when neither part
/// holds a `;`, the name does not begin with white space and the value
/// neither begins nor ends with it.
pub proof fn lemma_cookie_read_back(name: Seq<char>, value: Seq<char>)
    requires
        forall|i: int| 0 <= i < name.len() ==> name[i] != ';',
        name.len() > 0 ==> !is_white(name[0]),
        forall|i: int| 0 <= i < value.len() ==> value[i] != ';',
        value.len() > 0 ==> !is_white(value[0]) && !is_white(value.last()),
    ensures
        cookie_value_spec(name + "="@ + value, name) == Some(value),
{
    reveal_strlit("=");
    let s = name + "="@ + value;
    let k: int = name.len() as int + 1;
    assert(s =~= name.push('=') + value);
    assert(s[name.len() as int] == '=');
    assert(forall|j: int| 0 <= j < s.len() ==> s[j] != ';') by {
        assert forall|j: int| 0 <= j < s.len() implies s[j] != ';' by {
            if j < name.len() {
                assert(s[j] == name[j]);
            } else if j > name.len() {
                assert(s[j] == value[j - k]);
            }
        }
    }
    lemma_part_end_without_separator(s, 0);
    assert(!is_white('='));
    assert(s[0] == if name.len() > 0 { name[0] } else { '=' });
    assert(trim_from(s, 0, s.len() as int) == 0);
    assert(s[s.len() - 1] == if value.len() > 0 { value.last() } else { '=' });
    assert(trim_to(s, 0, s.len() as int) == s.len());
    assert(s.subrange(0, k) =~= name.push('='));
    if value.len() > 0 {
        assert(s[k] == value[0]);
    }
    assert(trim_from(s, k, s.len() as int) == k);
    assert(trim_to(s, k, s.len() as int) == s.len());
    assert(s.subrange(k, s.len() as int) =~= value);
}

/// The session named by the cookie `cookie_name` in the `Cookie` header
/// value `header`, if that cookie holds a valid token.
pub fn extract_session(mgr: &SessionManager, header: &str, cookie_name: &str) -> (id: Option<SessionId>)
    ensures
        id == (match cookie_value_spec(header@, cookie_name@) {
            Some(t) => token_reading(mgr.key(), t),
            None => None,
        }),
{
    match cookie_value(header, cookie_name) {
        Some(v) => mgr.verify_token(v.as_str()),
        None => None,
    }
}

/// The `Set-Cookie` value that hands the session token out:
/// `{name}={value}; Path=/; HttpOnly; SameSite=Lax; Max-Age=86400`.
pub fn session_cookie(name: &str, value: &str) -> (c: String)
    ensures
        c@ == name@ + "="@ + value@ + "; Path=/; HttpOnly; SameSite=Lax; Max-Age=86400"@,
{
    let mut c = String::new();
    c.append(name);
    c.append("=");
    c.append(value);
    c.append("; Path=/; HttpOnly; SameSite=Lax; Max-Age=86400");
    c
}

/// What the entrance does with a request before it looks at the queue.
#[derive(Debug, Clone, Copy, PartialEq, Eq, Structural)]
pub enum GateEntry {
    /// The room is off: all traffic goes straight to the origin.
    Passthrough,
    /// The room is on: consult the queue.
    Check,
}

/// What the entrance does with a request before it looks at the queue:
/// while the room is off every request is forwarded to the origin as it
/// is; while it is on, the queue decides.
pub fn gate_entry(enabled: bool) -> (e: GateEntry)
    ensures
        e == (if enabled { GateEntry::Check } else { GateEntry::Passthrough }),
{
    if enabled {
        GateEntry::Check
    } else {
        GateEntry::Passthrough
    }
}

/// How the entrance answers once the queue has decided.
#[derive(Debug, Clone, Copy, PartialEq, Eq, Structural)]
pub enum GateResponse {
    /// Send the client to the origin itself.
    Redirect { set_cookie: bool },
    /// Forward the request to the origin.
    Proxy { set_cookie: bool },
    /// Show the waiting page.
    WaitingPage { set_cookie: bool },
}

/// How the entrance answers for the queue's decision `result`: sessions let
/// through are redirected or proxied, the others get the waiting page; a
/// session cookie is set when the session is new to the client.
pub fn gate_response(result: GateResult, had_session: bool, use_redirect: bool) -> (g: GateResponse)
    ensures
        g == (match result {
            GateResult::Active | GateResult::Admitted => if use_redirect {
                GateResponse::Redirect { set_cookie: !had_session }
            } else {
                GateResponse::Proxy { set_cookie: !had_session }
            },
            GateResult::Waiting { .. } => GateResponse::WaitingPage { set_cookie: false },
            GateResult::Enqueued { .. } => GateResponse::WaitingPage { set_cookie: true },
        }),
{
    match result {
        GateResult::Active | GateResult::Admitted => {
            if use_redirect {
                GateResponse::Redirect { set_cookie: !had_session }
            } else {
                GateResponse::Proxy { set_cookie: !had_session }
            }
        },
        GateResult::Waiting { .. } => GateResponse::WaitingPage { set_cookie: false },
        GateResult::Enqueued { .. } => GateResponse::WaitingPage { set_cookie: true },
    }
}

/// The origin address of a request: the origin URL followed by the request's
/// path and query.
pub fn origin_target(origin_url: &str, path_and_query: &str) -> (t: String)
    ensures
        t@ == origin_url@ + path_and_query@,
{
    let mut t = String::new();
    t.append(origin_url);
    t.append(path_and_query);
    t
}

/// The host part of an `https://` URL: what follows the scheme, up to the
/// first `/`.
pub open spec fn https_authority(url: Seq<char>) -> Seq<char> {
    let rest = url.skip(8);
    rest.take(part_end_slash(rest, 0))
}

/// The index of the first `/` of `s` at or after `a` (`s.len()` if none).
pub open spec fn part_end_slash(s: Seq<char>, a: int) -> int
    decreases s.len() - a,
{
    if a >= s.len() {
        s.len() as int
    } else if s[a] == '/' {
        a
    } else {
        part_end_slash(s, a + 1)
    }
}

fn find_slash(s: &Vec<char>, a: usize) -> (b: usize)
    requires
        a <= s@.len(),
    ensures
        b == part_end_slash(s@, a as int),
        a <= b <= s@.len(),
    decreases s@.len() - a,
{
    if a >= s.len() {
        s.len()
    } else if s[a] == '/' {
        a
    } else {
        find_slash(s, a + 1)
    }
}

/// Whether sessions let through are sent to the origin with a redirect
/// rather than proxied. The rule is this library's own choice: redirect
/// when the origin is an `https://` site (the plain-HTTP proxy client cannot
/// reach it) and the request was not addressed to that same host (which
/// would redirect it back to itself).
pub fn should_redirect(origin_url: &str, req_host: Option<&str>) -> (r: bool)
    ensures
        r == (has_prefix(origin_url@, "https://"@) && (req_host is None || req_host->0@ != https_authority(origin_url@))),
{
    if !starts_with_text(origin_url, "https://") {
        return false;
    }
    let u = chars_of(origin_url);
    proof {
        reveal_strlit("https://");
    }
    let mut rest: Vec<char> = Vec::new();
    let mut i: usize = 8;
    while i < u.len()
        invariant
            u@ == origin_url@,
            8 <= i <= u@.len(),
            rest@ == u@.subrange(8, i as int),
        decreases u.len() - i,
    {
        rest.push(u[i]);
        i = i + 1;
    }
    assert(rest@ =~= origin_url@.skip(8));
    let end = find_slash(&rest, 0);
    let mut host = String::new();
    push_chars(&mut host, &rest, 0, end);
    assert(host@ =~= https_authority(origin_url@));
    match req_host {
        Some(h) => !crate::text::same_text(h, host.as_str()),
        None => true,
    }
}

} // verus!
