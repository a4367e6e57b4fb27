//! Laws of the way to a dashboard: which requests it takes, and where it ends.

use super::texts::a_whole_holds_its_middle;
use crate::dashboard::follow::{answered, refreshed, set_out, started, HopView, StepView};
use crate::dashboard::url::{joined_url, one_origin, parsed_url, path_below, reference_in, UrlView};
use crate::text::{begins, holds};
use vstd::prelude::*;

verus! {

/// A link is taken as it stands where it is a whole URL, and else from the base URL on.
pub proof fn a_link_is_taken_from_the_base_on(raw: Seq<char>, base: UrlView)
    ensures
        parsed_url(raw) matches Ok(u) ==> started(raw, base) == set_out(u, base),
        parsed_url(raw) is Err ==> (match joined_url(base.text, raw) {
            Ok(u) => started(raw, base) == set_out(u, base),
            Err(_) => started(raw, base) is Err,
        }),
{
}

/// At home a short link is asked where it leads, and any other link names its dashboard by itself;
/// elsewhere nothing is asked.
pub proof fn a_short_link_is_asked_where_it_leads(url: UrlView, base: UrlView)
    ensures
        !one_origin(url, base) ==> set_out(url, base) is Err,
        one_origin(url, base) && (path_below(url, base) matches Some(p) && begins(p, "/goto/"@)) ==> (set_out(
            url,
            base,
        ) matches Ok(StepView::Get(h)) && h.url == url && h.seen == seq![url.text] && !h.retried),
        one_origin(url, base) && !(path_below(url, base) matches Some(p) && begins(p, "/goto/"@)) ==> (match reference_in(
            url,
            base,
        ) {
            Ok(r) => set_out(url, base) == Ok::<StepView, Seq<char>>(StepView::Done(r)),
            Err(e) => set_out(url, base) == Err::<StepView, Seq<char>>(e),
        }),
{
}

/// A redirect is followed from the URL that it came from: to a dashboard, which ends the way, or
/// to another URL at home, which is got next; it is not followed to another origin, to the login,
/// or to a URL that was got before.
pub proof fn a_redirect_is_followed_from_where_it_came(
    hop: HopView,
    base: UrlView,
    status: u16,
    status_text: Seq<char>,
    location: Seq<char>,
    no_rotate: bool,
    next: UrlView,
    path: Seq<char>,
)
    requires
        300 <= status < 400,
        joined_url(hop.url.text, location) == Ok::<UrlView, Seq<char>>(next),
        path_below(next, base) == Some(path),
    ensures
        ({
            let step = answered(hop, base, status, status_text, Some(location), no_rotate);
            &&& !one_origin(next, base) ==> step is Err
            &&& one_origin(next, base) && begins(path, "/d/"@) ==> (match reference_in(next, base) {
                Ok(r) => step == Ok::<StepView, Seq<char>>(StepView::Done(r)),
                Err(e) => step == Err::<StepView, Seq<char>>(e),
            })
            &&& one_origin(next, base) && begins(path, "/login"@) && !begins(path, "/d/"@) ==> step is Err
            &&& one_origin(next, base) && !begins(path, "/d/"@) && !begins(path, "/login"@) && hop.left > 0 ==> (
            if hop.seen.contains(next.text) {
                step is Err
            } else {
                step matches Ok(StepView::Get(h)) && h.url == next && h.left == hop.left - 1 && h.seen == hop.seen.push(
                    next.text,
                ) && !h.retried
            })
        }),
{
}

/// A reply that refuses the credentials leads to a refresh of the session, once and where that is
/// allowed, and else is told with its status; a reply that is no redirect is told with its status,
/// and so ends a redirect to nowhere.
pub proof fn a_refused_request_is_told_with_its_status(
    hop: HopView,
    base: UrlView,
    status: u16,
    status_text: Seq<char>,
    location: Option<Seq<char>>,
    no_rotate: bool,
)
    ensures
        ({
            let step = answered(hop, base, status, status_text, location, no_rotate);
            &&& (status == 401 || status == 403) && !no_rotate && !hop.retried ==> step == Ok::<StepView, Seq<char>>(
                StepView::Refresh { hop, status: status_text },
            )
            &&& (status == 401 || status == 403) && (no_rotate || hop.retried) ==> (step matches Err(e) && holds(
                e,
                status_text,
            ))
            &&& status != 401 && status != 403 && !(300 <= status < 400) ==> (step matches Err(e) && holds(
                e,
                status_text,
            ))
            &&& 300 <= status < 400 && location is None ==> step is Err
        }),
        refreshed(hop, status_text, true) == Ok::<StepView, Seq<char>>(StepView::Get(HopView { retried: true, ..hop })),
        refreshed(hop, status_text, false) matches Err(e) && holds(e, status_text),
{
    a_whole_holds_its_middle("Grafana authentication failed ("@, status_text, ")"@);
    a_whole_holds_its_middle("Grafana /goto returned HTTP "@, status_text, " instead of a dashboard redirect"@);
}

} // verus!
