//! Short links: how they are followed to a dashboard without ever leaving Grafana.

use super::url::{
    grafana_path, join_url, joined_url, one_origin, parse_dashboard_url, parsed_url, path_below, read_url,
    reference_in, same_origin, DashboardRef, RefView, UrlParts, UrlView,
};
use crate::live::auth::{is_auth_err, refuses};
use crate::number::{decimal, nat_to_text};
use crate::text::{begins, contains_text, has_text, opt_str, opt_text, owned, push_text, starts_with, texts};
use vstd::prelude::*;

verus! {

/// How many requests are made at most to follow a link.
pub const MAX_REDIRECTS: usize = 8;

/// A request on the way to a dashboard: the URL to get, the URLs that were got with it, how many
/// requests may follow, and whether it is made again after a refresh of the session.
pub struct Hop {
    pub url: UrlParts,
    pub seen: Vec<String>,
    pub left: usize,
    pub retried: bool,
}

/// The model of a request on the way.
#[verifier::ext_equal]
pub struct HopView {
    pub url: UrlView,
    pub seen: Seq<Seq<char>>,
    pub left: int,
    pub retried: bool,
}

impl View for Hop {
    type V = HopView;

    open spec fn view(&self) -> HopView {
        HopView {
            url: self.url@,
            seen: texts(self.seen@),
            left: self.left as int,
            retried: self.retried,
        }
    }
}

/// What is done next on the way to a dashboard.
pub enum Step {
    /// get the URL of this hop, without following redirects
    Get(Hop),
    /// refresh the session, which was refused with this status
    Refresh { hop: Hop, status: String },
    /// the dashboard is found
    Done(DashboardRef),
}

/// The model of what is done next.
#[verifier::ext_equal]
pub enum StepView {
    Get(HopView),
    Refresh { hop: HopView, status: Seq<char> },
    Done(RefView),
}

impl View for Step {
    type V = StepView;

    open spec fn view(&self) -> StepView {
        match self {
            Step::Get(h) => StepView::Get(h@),
            Step::Refresh { hop, status } => StepView::Refresh { hop: hop@, status: status@ },
            Step::Done(d) => StepView::Done(d@),
        }
    }
}

/// The view of a step or of why there is none.
pub open spec fn step_outcome(r: Result<Step, String>) -> Result<StepView, Seq<char>> {
    match r {
        Ok(s) => Ok(s@),
        Err(e) => Err(e@),
    }
}

/// Whether a hop is in order: it stays at the origin of the base URL, the URL is the last of
/// those that were got, none of these stands twice among them, and no more than the allowed
/// number of requests is made.
pub open spec fn hop_wf(h: HopView, base: UrlView) -> bool {
    &&& one_origin(h.url, base)
    &&& h.seen.len() > 0 && h.seen.last() == h.url.text
    &&& h.seen.no_duplicates()
    &&& h.left >= 0
    &&& h.seen.len() + h.left == MAX_REDIRECTS
}

/// Whether a URL lies below a path of Grafana.
pub open spec fn leads_to(url: UrlView, base: UrlView, path: Seq<char>) -> bool {
    path_below(url, base) matches Some(p) && begins(p, path)
}

fn lies_below(url: &UrlParts, base: &UrlParts, path: &str) -> (r: bool)
    ensures
        r == leads_to(url@, base@, path@),
{
    match grafana_path(url, base) {
        Some(p) => starts_with(p.as_str(), path),
        None => false,
    }
}

/// The URL that a text stands for: its own, or the one that it resolves to at the base URL.
pub open spec fn first_url(raw: Seq<char>, base: UrlView) -> Result<UrlView, Seq<char>> {
    match parsed_url(raw) {
        Ok(u) => Ok(u),
        Err(_) => match joined_url(base.text, raw) {
            Ok(u) => Ok(u),
            Err(e) => Err("invalid dashboard URL: "@ + e),
        },
    }
}

/// The end of the way: what the URL names.
pub open spec fn arrived(url: UrlView, base: UrlView) -> Result<StepView, Seq<char>> {
    match reference_in(url, base) {
        Ok(r) => Ok(StepView::Done(r)),
        Err(e) => Err(e),
    }
}

fn arrive(url: &UrlParts, base: &UrlParts) -> (r: Result<Step, String>)
    ensures
        step_outcome(r) == arrived(url@, base@),
        r matches Ok(Step::Done(d)) ==> d.variables.wf(),
{
    match parse_dashboard_url(url, base) {
        Ok(d) => Ok(Step::Done(d)),
        Err(e) => Err(e),
    }
}

/// The first step from the URL that a text stands for.
pub open spec fn set_out(url: UrlView, base: UrlView) -> Result<StepView, Seq<char>> {
    if !one_origin(url, base) {
        Err("dashboard URL must use the configured Grafana origin"@)
    } else if leads_to(url, base, "/goto/"@) {
        Ok(
            StepView::Get(
                HopView { url, seen: seq![url.text], left: MAX_REDIRECTS - 1, retried: false },
            ),
        )
    } else {
        arrived(url, base)
    }
}

/// The first step toward the dashboard that a text stands for.
pub open spec fn started(raw: Seq<char>, base: UrlView) -> Result<StepView, Seq<char>> {
    match first_url(raw, base) {
        Ok(url) => set_out(url, base),
        Err(e) => Err(e),
    }
}

/// Takes the first step from a URL.
pub fn start_from(url: UrlParts, base: &UrlParts) -> (r: Result<Step, String>)
    ensures
        step_outcome(r) == set_out(url@, base@),
        r matches Ok(Step::Get(h)) ==> hop_wf(h@, base@),
        r matches Ok(Step::Done(d)) ==> d.variables.wf(),
        !(r matches Ok(Step::Refresh { .. })),
{
    if !same_origin(&url, base) {
        return Err(owned("dashboard URL must use the configured Grafana origin"));
    }
    if lies_below(&url, base, "/goto/") {
        let mut seen: Vec<String> = Vec::new();
        push_text(&mut seen, owned(url.text.as_str()));
        assert(texts(seen@) =~= seq![url.text@]);
        return Ok(Step::Get(Hop { url, seen, left: MAX_REDIRECTS - 1, retried: false }));
    }
    arrive(&url, base)
}

/// Takes the first step toward the dashboard that a text stands for.
pub fn resolve_reference(raw: &str, base: &UrlParts) -> (r: Result<Step, String>)
    ensures
        step_outcome(r) == started(raw@, base@),
        r matches Ok(Step::Get(h)) ==> hop_wf(h@, base@),
        r matches Ok(Step::Done(d)) ==> d.variables.wf(),
        !(r matches Ok(Step::Refresh { .. })),
{
    let url = match read_url(raw) {
        Ok(u) => u,
        Err(_) => match join_url(base.text.as_str(), raw) {
            Ok(u) => u,
            Err(e) => {
                let mut s = owned("invalid dashboard URL: ");
                s.append(e.as_str());
                return Err(s);
            },
        },
    };
    start_from(url, base)
}

/// Whether a status is a redirect.
pub open spec fn redirects(status: u16) -> bool {
    300 <= status < 400
}

/// That Grafana refused the credentials.
pub open spec fn refused_here(status: Seq<char>) -> Seq<char> {
    "Grafana authentication failed ("@ + status + ")"@
}

fn refuse(status: &str) -> (r: String)
    ensures
        r@ == refused_here(status@),
{
    let mut s = owned("Grafana authentication failed (");
    s.append(status);
    s.append(")");
    s
}

/// The step after a redirect to a URL.
pub open spec fn redirected(hop: HopView, base: UrlView, next: UrlView) -> Result<StepView, Seq<char>> {
    if !one_origin(next, base) {
        Err("refusing cross-origin Grafana redirect; credentials were not forwarded"@)
    } else if leads_to(next, base, "/d/"@) {
        arrived(next, base)
    } else if leads_to(next, base, "/login"@) {
        Err("Grafana redirect ended at /login; refresh credentials"@)
    } else if hop.left == 0 {
        arrived(next, base)
    } else if has_text(hop.seen, next.text) {
        Err("Grafana /goto redirect loop detected"@)
    } else {
        Ok(
            StepView::Get(
                HopView { url: next, seen: hop.seen.push(next.text), left: hop.left - 1, retried: false },
            ),
        )
    }
}

/// The step after a reply: a number and a text of its status, and where it points.
pub open spec fn answered(
    hop: HopView,
    base: UrlView,
    status: u16,
    status_text: Seq<char>,
    location: Option<Seq<char>>,
    no_rotate: bool,
) -> Result<StepView, Seq<char>> {
    if refuses(status) {
        if !no_rotate && !hop.retried {
            Ok(StepView::Refresh { hop, status: status_text })
        } else {
            Err(refused_here(status_text))
        }
    } else if !redirects(status) {
        Err("Grafana /goto returned HTTP "@ + status_text + " instead of a dashboard redirect"@)
    } else {
        match location {
            None => Err("Grafana redirect has no Location header"@),
            Some(l) => match joined_url(hop.url.text, l) {
                Err(e) => Err("invalid Grafana redirect: "@ + e),
                Ok(next) => redirected(hop, base, next),
            },
        }
    }
}

proof fn lemma_joins_once(seen: Seq<Seq<char>>, text: Seq<char>)
    requires
        seen.no_duplicates(),
        !has_text(seen, text),
    ensures
        seen.push(text).no_duplicates(),
{
}

/// Takes the step after a redirect to a URL.
pub fn on_redirect(hop: Hop, base: &UrlParts, next: UrlParts) -> (r: Result<Step, String>)
    requires
        hop_wf(hop@, base@),
    ensures
        step_outcome(r) == redirected(hop@, base@, next@),
        r matches Ok(Step::Get(h)) ==> hop_wf(h@, base@) && h.left < hop.left,
        r matches Ok(Step::Done(d)) ==> d.variables.wf(),
        !(r matches Ok(Step::Refresh { .. })),
{
    if !same_origin(&next, base) {
        return Err(owned("refusing cross-origin Grafana redirect; credentials were not forwarded"));
    }
    if lies_below(&next, base, "/d/") {
        return arrive(&next, base);
    }
    if lies_below(&next, base, "/login") {
        return Err(owned("Grafana redirect ended at /login; refresh credentials"));
    }
    if hop.left == 0 {
        return arrive(&next, base);
    }
    if contains_text(&hop.seen, next.text.as_str()) {
        return Err(owned("Grafana /goto redirect loop detected"));
    }
    let mut seen = hop.seen;
    proof {
        lemma_joins_once(texts(seen@), next.text@);
    }
    push_text(&mut seen, owned(next.text.as_str()));
    Ok(Step::Get(Hop { url: next, seen, left: hop.left - 1, retried: false }))
}

/// What a status is written as by `reqwest::StatusCode`: its number and its reason.
pub uninterp spec fn status_line(status: u16) -> Option<Seq<char>>;

/// Calls `reqwest::StatusCode::from_u16` and writes the status with its `Display`. The result
/// depends on the number alone; there is one for the numbers of three digits.
#[verifier::external_body]
pub(crate) fn write_status(status: u16) -> (r: Option<String>)
    ensures
        opt_text(r) == status_line(status),
        r is Some <==> 100 <= status <= 999,
{
    reqwest::StatusCode::from_u16(status).ok().map(|s| s.to_string())
}

/// A status as it is named in a complaint.
pub open spec fn status_named(status: u16) -> Seq<char> {
    match status_line(status) {
        Some(s) => s,
        None => decimal(status as nat),
    }
}

/// Takes the step after a reply.
pub fn on_response(
    hop: Hop,
    base: &UrlParts,
    status: u16,
    location: Option<&str>,
    no_rotate: bool,
) -> (r: Result<Step, String>)
    requires
        hop_wf(hop@, base@),
    ensures
        step_outcome(r) == answered(hop@, base@, status, status_named(status), opt_str(location), no_rotate),
        r matches Ok(Step::Get(h)) ==> hop_wf(h@, base@) && h.left < hop.left,
        r matches Ok(Step::Refresh { hop: h, status: s }) ==> h@ == hop@,
        r matches Ok(Step::Done(d)) ==> d.variables.wf(),
{
    let text = match write_status(status) {
        Some(s) => s,
        None => nat_to_text(status as u64),
    };
    on_answer(hop, base, status, text.as_str(), location, no_rotate)
}

/// Takes the step after a reply whose status is written so.
pub fn on_answer(
    hop: Hop,
    base: &UrlParts,
    status: u16,
    status_text: &str,
    location: Option<&str>,
    no_rotate: bool,
) -> (r: Result<Step, String>)
    requires
        hop_wf(hop@, base@),
    ensures
        step_outcome(r) == answered(hop@, base@, status, status_text@, opt_str(location), no_rotate),
        r matches Ok(Step::Get(h)) ==> hop_wf(h@, base@) && h.left < hop.left,
        r matches Ok(Step::Refresh { hop: h, status: s }) ==> h@ == hop@,
        r matches Ok(Step::Done(d)) ==> d.variables.wf(),
{
    if is_auth_err(status) {
        return if !no_rotate && !hop.retried {
            Ok(Step::Refresh { hop, status: owned(status_text) })
        } else {
            Err(refuse(status_text))
        };
    }
    if !(300 <= status && status < 400) {
        let mut s = owned("Grafana /goto returned HTTP ");
        s.append(status_text);
        s.append(" instead of a dashboard redirect");
        return Err(s);
    }
    let l = match location {
        Some(l) => l,
        None => {
            return Err(owned("Grafana redirect has no Location header"));
        },
    };
    match join_url(hop.url.text.as_str(), l) {
        Ok(next) => on_redirect(hop, base, next),
        Err(e) => {
            let mut s = owned("invalid Grafana redirect: ");
            s.append(e.as_str());
            Err(s)
        },
    }
}

/// The step after a refresh of the session: the request again where it worked, or else the end.
pub open spec fn refreshed(hop: HopView, status: Seq<char>, worked: bool) -> Result<StepView, Seq<char>> {
    if worked {
        Ok(StepView::Get(HopView { retried: true, ..hop }))
    } else {
        Err(refused_here(status))
    }
}

/// Takes the step after a refresh of the session.
pub fn on_refreshed(hop: Hop, status: &str, worked: bool) -> (r: Result<Step, String>)
    ensures
        step_outcome(r) == refreshed(hop@, status@, worked),
        r matches Ok(Step::Get(h)) ==> h@ == (HopView { retried: true, ..hop@ }),
        !(r matches Ok(Step::Refresh { .. })),
        !(r matches Ok(Step::Done(_))),
{
    if worked {
        Ok(Step::Get(Hop { url: hop.url, seen: hop.seen, left: hop.left, retried: true }))
    } else {
        Err(refuse(status))
    }
}

/// No request on the way to a dashboard leaves the origin of the base URL, and the number of
/// requests that may follow grows smaller with every redirect: credentials are never forwarded
/// elsewhere, and the way ends.
pub proof fn requests_stay_at_home(
    raw: Seq<char>,
    hop: HopView,
    base: UrlView,
    status: u16,
    status_text: Seq<char>,
    location: Option<Seq<char>>,
    no_rotate: bool,
    worked: bool,
)
    requires
        hop_wf(hop, base),
    ensures
        started(raw, base) matches Ok(StepView::Get(h)) ==> hop_wf(h, base),
        answered(hop, base, status, status_text, location, no_rotate) matches Ok(StepView::Get(h)) ==> hop_wf(
            h,
            base,
        ) && h.left < hop.left,
        answered(hop, base, status, status_text, location, no_rotate) matches Ok(
            StepView::Refresh { hop: h, .. },
        ) ==> h == hop && !hop.retried,
        refreshed(hop, status_text, worked) matches Ok(StepView::Get(h)) ==> hop_wf(h, base) && h.retried,
{
    if let Ok(StepView::Get(h)) = answered(hop, base, status, status_text, location, no_rotate) {
        lemma_joins_once(hop.seen, h.url.text);
    }
}

/// No URL is got twice on the way to a dashboard, except again after a refresh of the session: a
/// redirect leads to a URL that was not got before, and joins it to those that were.
pub proof fn no_url_is_got_twice(
    hop: HopView,
    base: UrlView,
    status: u16,
    status_text: Seq<char>,
    location: Option<Seq<char>>,
    no_rotate: bool,
    worked: bool,
)
    requires
        hop_wf(hop, base),
    ensures
        answered(hop, base, status, status_text, location, no_rotate) matches Ok(StepView::Get(h)) ==> !has_text(
            hop.seen,
            h.url.text,
        ) && h.seen == hop.seen.push(h.url.text) && h.seen.no_duplicates(),
        refreshed(hop, status_text, worked) matches Ok(StepView::Get(h)) ==> h.url == hop.url && h.seen == hop.seen,
{
    if let Ok(StepView::Get(h)) = answered(hop, base, status, status_text, location, no_rotate) {
        lemma_joins_once(hop.seen, h.url.text);
    }
}

/// With the rotation of sessions switched off nothing is ever refreshed on the way.
pub proof fn no_rotation_without_leave(
    hop: HopView,
    base: UrlView,
    status: u16,
    status_text: Seq<char>,
    location: Option<Seq<char>>,
)
    ensures
        !(answered(hop, base, status, status_text, location, true) matches Ok(StepView::Refresh { .. })),
{
}

} // verus!
