use minijinja::{Environment, Value};
use vstd::prelude::*;
use crate::decimal::{decimal_text, push_decimal};
use crate::queue::QueuePosition;

verus! {

/// How long the waiting page says the wait is, for `secs` seconds: under a
/// minute, whole minutes rounded up, or hours and minutes rounded up.
pub open spec fn eta_text(secs: u64) -> Seq<char> {
    if secs < 60 {
        "1분 미만"@
    } else if secs < 3600 {
        "약 "@ + decimal_text(((secs + 59) / 60) as nat) + "분"@
    } else {
        "약 "@ + decimal_text((secs / 3600) as nat) + "시간 "@ + decimal_text(((secs % 3600 + 59) / 60) as nat) + "분"@
    }
}

/// The wait text for `secs` seconds.
pub fn format_eta(secs: u64) -> (s: String)
    ensures
        s@ == eta_text(secs),
{
    if secs < 60 {
        String::from_str("1분 미만")
    } else if secs < 3600 {
        let mut s = String::from_str("약 ");
        push_decimal(&mut s, (secs / 60) + if secs % 60 == 0 { 0 } else { 1 });
        assert((secs / 60) + (if secs % 60 == 0 { 0int } else { 1int }) == (secs + 59) / 60);
        s.append("분");
        s
    } else {
        let h = secs / 3600;
        let m = (secs % 3600 + 59) / 60;
        let mut s = String::from_str("약 ");
        push_decimal(&mut s, h);
        s.append("시간 ");
        push_decimal(&mut s, m);
        s.append("분");
        s
    }
}

/// Whole seconds of an estimate in milliseconds, held at `u64::MAX`.
pub fn eta_whole_secs(eta_millis: u128) -> (s: u64)
    ensures
        s == (if eta_millis / 1000 > u64::MAX { u64::MAX as int } else { (eta_millis / 1000) as int }),
{
    let secs = eta_millis / 1000;
    if secs > u64::MAX as u128 {
        u64::MAX
    } else {
        secs as u64
    }
}

/// What the live updates tell a waiting client.
#[derive(Debug, Clone, Copy, PartialEq, Eq, Structural)]
pub enum SseUpdate {
    /// The session has been let through: go to the origin.
    Admit,
    /// The session's place in line.
    Position(QueuePosition),
    /// The waiting room has closed.
    Closed,
}

/// What a live update tells a client, given whether its session is active,
/// its place in line and whether the room is on. The first message of a
/// connection never announces closing.
pub fn sse_update(is_active: bool, position: Option<QueuePosition>, enabled: bool, first: bool) -> (u: Option<SseUpdate>)
    ensures
        u == (if is_active {
            Some(SseUpdate::Admit)
        } else if position is Some {
            Some(SseUpdate::Position(position->0))
        } else if !first && !enabled {
            Some(SseUpdate::Closed)
        } else {
            None
        }),
{
    if is_active {
        Some(SseUpdate::Admit)
    } else {
        match position {
            Some(p) => Some(SseUpdate::Position(p)),
            None => {
                if !first && !enabled {
                    Some(SseUpdate::Closed)
                } else {
                    None
                }
            },
        }
    }
}

/// What rendering the waiting-page template `template` with minijinja
/// gives for these values: the page, or the text of the template error.
pub uninterp spec fn rendered_waiting_page(
    template: Seq<char>,
    page_title: Seq<char>,
    logo_url: Seq<char>,
    cookie_name: Seq<char>,
    position: usize,
    progress_pct: Seq<char>,
    eta_display: Seq<char>,
) -> Result<Seq<char>, Seq<char>>;

/// Renders `template` with minijinja (`Environment::template_from_str`,
/// then `Template::render`) on a context holding the six values under
/// their own names; an error comes back as its text. Claimed: the result is
/// the named rendering of these arguments.
#[verifier::external_body]
fn render_waiting_template(
    template: &str,
    page_title: &str,
    logo_url: &str,
    cookie_name: &str,
    position: usize,
    progress_pct: &str,
    eta_display: &str,
) -> (r: Result<String, String>)
    ensures
        match r {
            Ok(h) => rendered_waiting_page(template@, page_title@, logo_url@, cookie_name@, position, progress_pct@, eta_display@) == Ok::<Seq<char>, Seq<char>>(h@),
            Err(e) => rendered_waiting_page(template@, page_title@, logo_url@, cookie_name@, position, progress_pct@, eta_display@) == Err::<Seq<char>, Seq<char>>(e@),
        },
{
    let env = Environment::new();
    let ctx = Value::from_iter([
        ("page_title", Value::from(page_title)), ("logo_url", Value::from(logo_url)),
        ("cookie_name", Value::from(cookie_name)), ("position", Value::from(position)),
        ("progress_pct", Value::from(progress_pct)), ("eta_display", Value::from(eta_display)),
    ]);
    let t = match env.template_from_str(template) {
        Ok(t) => t,
        Err(e) => return Err(e.to_string()),
    };
    match t.render(ctx) {
        Ok(h) => Ok(h),
        Err(e) => Err(e.to_string()),
    }
}

/// The waiting page for a rendering result: the page, or
/// `Template error: ` followed by the error's text.
pub fn page_or_error(r: Result<String, String>) -> (page: String)
    ensures
        page@ == (match r {
            Ok(h) => h@,
            Err(e) => "Template error: "@ + e@,
        }),
{
    match r {
        Ok(h) => h,
        Err(e) => {
            let mut page = String::from_str("Template error: ");
            page.append(e.as_str());
            page
        },
    }
}

/// The waiting page rendered from `template` with these values.
pub fn waiting_page_html(
    template: &str,
    page_title: &str,
    logo_url: &str,
    cookie_name: &str,
    position: usize,
    progress_pct: &str,
    eta_display: &str,
) -> (page: String)
    ensures
        page@ == (match rendered_waiting_page(template@, page_title@, logo_url@, cookie_name@, position, progress_pct@, eta_display@) {
            Ok(h) => h,
            Err(e) => "Template error: "@ + e,
        }),
{
    let r = render_waiting_template(template, page_title, logo_url, cookie_name, position, progress_pct, eta_display);
    page_or_error(r)
}

} // verus!
