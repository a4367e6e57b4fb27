//! URLs of dashboards: what they name, and how short links are followed to them.

use super::table::{with_entry, Table};
use crate::live::auth::refuses;
use crate::live::scope::text_outcome;
use crate::live::window::outcome;
use crate::number::{decimal, int_value, nat_to_text, parse_int};
use crate::text::{
    ascii_lowered, begins, cut_back, cut_front, opt_text, owned, pairs, past_prefix, quote, quoted, split,
    split_at, starts_with, strip_prefix, texts, to_ascii_lower, trim_back, trim_front, CharSet,
};
use vstd::prelude::*;

verus! {

/// A URL taken apart: its text, its scheme, its host, the port that it names and the port that
/// it means, its path, and the pairs of its query.
pub struct UrlParts {
    pub text: String,
    pub scheme: String,
    pub host: Option<String>,
    pub port: Option<u16>,
    pub known_port: Option<u16>,
    pub path: String,
    pub pairs: Vec<(String, String)>,
}

/// The model of a URL taken apart.
#[verifier::ext_equal]
pub struct UrlView {
    pub text: Seq<char>,
    pub scheme: Seq<char>,
    pub host: Option<Seq<char>>,
    pub port: Option<u16>,
    pub known_port: Option<u16>,
    pub path: Seq<char>,
    pub pairs: Seq<(Seq<char>, Seq<char>)>,
}

impl View for UrlParts {
    type V = UrlView;

    open spec fn view(&self) -> UrlView {
        UrlView {
            text: self.text@,
            scheme: self.scheme@,
            host: opt_text(self.host),
            port: self.port,
            known_port: self.known_port,
            path: self.path@,
            pairs: pairs(self.pairs@),
        }
    }
}

/// The view of a URL or of why there is none.
pub open spec fn url_outcome(r: Result<UrlParts, String>) -> Result<UrlView, Seq<char>> {
    match r {
        Ok(u) => Ok(u@),
        Err(e) => Err(e@),
    }
}

/// What `reqwest::Url::parse` makes of a text: the parts of the URL, or the message of the error.
pub uninterp spec fn parsed_url(text: Seq<char>) -> Result<UrlView, Seq<char>>;

/// Reads a URL with `reqwest::Url::parse`, and takes it apart with the accessors of `Url`. The
/// parts and the message are what those return for the text; nothing more is claimed of them.
#[verifier::external_body]
pub(crate) fn read_url(text: &str) -> (r: Result<UrlParts, String>)
    ensures
        url_outcome(r) == parsed_url(text@),
{
    match reqwest::Url::parse(text) {
        Ok(u) => Ok(UrlParts {
            text: u.as_str().to_string(),
            scheme: u.scheme().to_string(),
            host: u.host_str().map(|h| h.to_string()),
            port: u.port(),
            known_port: u.port_or_known_default(),
            path: u.path().to_string(),
            pairs: u.query_pairs().map(|(k, v)| (k.into_owned(), v.into_owned())).collect(),
        }),
        Err(e) => Err(e.to_string()),
    }
}

/// What `reqwest::Url::join` makes of a reference at a base URL: the parts of the URL that it
/// resolves to, or the message of the error.
pub uninterp spec fn joined_url(base: Seq<char>, reference: Seq<char>) -> Result<UrlView, Seq<char>>;

/// Resolves a reference at a base URL with `reqwest::Url::join`, the base being read with
/// `Url::parse`, and takes the result apart with the accessors of `Url`. The parts and the
/// message are what those return for the two texts; nothing more is claimed of them.
#[verifier::external_body]
pub(crate) fn join_url(base: &str, reference: &str) -> (r: Result<UrlParts, String>)
    ensures
        url_outcome(r) == joined_url(base@, reference@),
{
    match reqwest::Url::parse(base).and_then(|b| b.join(reference)) {
        Ok(u) => Ok(UrlParts {
            text: u.as_str().to_string(),
            scheme: u.scheme().to_string(),
            host: u.host_str().map(|h| h.to_string()),
            port: u.port(),
            known_port: u.port_or_known_default(),
            path: u.path().to_string(),
            pairs: u.query_pairs().map(|(k, v)| (k.into_owned(), v.into_owned())).collect(),
        }),
        Err(e) => Err(e.to_string()),
    }
}

/// The base URL of Grafana taken apart, or what is wrong with it.
pub open spec fn base_parts(text: Seq<char>) -> Result<UrlView, Seq<char>> {
    match parsed_url(text) {
        Ok(u) => Ok(u),
        Err(e) => Err("invalid Grafana URL: "@ + e),
    }
}

/// Takes the base URL of Grafana apart.
pub fn parse_base(text: &str) -> (r: Result<UrlParts, String>)
    ensures
        url_outcome(r) == base_parts(text@),
{
    match read_url(text) {
        Ok(u) => Ok(u),
        Err(e) => {
            let mut s = owned("invalid Grafana URL: ");
            s.append(e.as_str());
            Err(s)
        },
    }
}

/// The URL of a path below the base URL.
pub open spec fn url_below(base: UrlView, path: Seq<char>) -> Result<UrlView, Seq<char>> {
    parsed_url(cut_back(base.text, CharSet::Only('/')) + path)
}

/// Makes the URL of a path below the base URL.
pub fn grafana_url(base: &UrlParts, path: &str) -> (r: Result<UrlParts, String>)
    ensures
        url_outcome(r) == url_below(base@, path@),
{
    let mut s = trim_back(base.text.as_str(), CharSet::Only('/'));
    s.append(path);
    read_url(s.as_str())
}

/// The path of a URL below the base URL, where it is below it.
pub open spec fn path_below(url: UrlView, base: UrlView) -> Option<Seq<char>> {
    let base_path = cut_back(base.path, CharSet::Only('/'));
    if base_path.len() == 0 {
        Some(url.path)
    } else {
        match past_prefix(url.path, base_path) {
            Some(rest) if rest.len() == 0 || begins(rest, "/"@) => Some(rest),
            _ => None,
        }
    }
}

/// Finds the path of a URL below the base URL.
pub fn grafana_path(url: &UrlParts, base: &UrlParts) -> (r: Option<String>)
    ensures
        opt_text(r) == path_below(url@, base@),
{
    let base_path = trim_back(base.path.as_str(), CharSet::Only('/'));
    if base_path.as_str().is_empty() {
        return Some(owned(url.path.as_str()));
    }
    match strip_prefix(url.path.as_str(), base_path.as_str()) {
        Some(rest) => if rest.as_str().is_empty() || starts_with(rest.as_str(), "/") {
            Some(rest)
        } else {
            None
        },
        None => None,
    }
}

/// The host of a URL, and its port where it names one.
pub open spec fn authority_of(url: UrlView) -> Seq<char> {
    let host = match url.host {
        Some(h) => h,
        None => ""@,
    };
    match url.port {
        Some(p) => host + ":"@ + decimal(p as nat),
        None => host,
    }
}

/// Writes the host of a URL, and its port where it names one.
pub fn authority(url: &UrlParts) -> (r: String)
    ensures
        r@ == authority_of(url@),
{
    let mut s = match &url.host {
        Some(h) => owned(h.as_str()),
        None => owned(""),
    };
    if let Some(p) = url.port {
        s.append(":");
        s.append(nat_to_text(p as u64).as_str());
    }
    s
}

/// A host in lower case, where there is one.
pub open spec fn lower_host(host: Option<Seq<char>>) -> Option<Seq<char>> {
    match host {
        Some(h) => Some(ascii_lowered(h)),
        None => None,
    }
}

/// Whether two URLs have one origin: scheme, host in any case, and the port that they mean.
pub open spec fn one_origin(a: UrlView, b: UrlView) -> bool {
    a.scheme == b.scheme && lower_host(a.host) == lower_host(b.host) && a.known_port == b.known_port
}

fn same_host(a: &Option<String>, b: &Option<String>) -> (r: bool)
    ensures
        r == (lower_host(opt_text(*a)) == lower_host(opt_text(*b))),
{
    match (a, b) {
        (Some(a), Some(b)) => *to_ascii_lower(a.as_str()).as_str() == *to_ascii_lower(b.as_str()).as_str(),
        (None, None) => true,
        _ => false,
    }
}

fn same_port(a: Option<u16>, b: Option<u16>) -> (r: bool)
    ensures
        r == (a == b),
{
    match (a, b) {
        (Some(a), Some(b)) => a == b,
        (None, None) => true,
        _ => false,
    }
}

/// Tells whether two URLs have one origin.
pub fn same_origin(a: &UrlParts, b: &UrlParts) -> (r: bool)
    ensures
        r == one_origin(a@, b@),
{
    *a.scheme.as_str() == *b.scheme.as_str() && same_host(&a.host, &b.host) && same_port(
        a.known_port,
        b.known_port,
    )
}

/// What a URL of a dashboard names: the dashboard, and how it is to be looked at.
pub struct DashboardRef {
    pub uid: String,
    pub slug: String,
    pub org_id: Option<String>,
    pub panel_id: Option<i64>,
    pub variables: Table,
    pub from: Option<String>,
    pub to: Option<String>,
}

/// The model of what a URL of a dashboard names.
#[verifier::ext_equal]
pub struct RefView {
    pub uid: Seq<char>,
    pub slug: Seq<char>,
    pub org_id: Option<Seq<char>>,
    pub panel_id: Option<i64>,
    pub variables: Seq<(Seq<char>, Seq<char>)>,
    pub from: Option<Seq<char>>,
    pub to: Option<Seq<char>>,
}

impl View for DashboardRef {
    type V = RefView;

    open spec fn view(&self) -> RefView {
        RefView {
            uid: self.uid@,
            slug: self.slug@,
            org_id: opt_text(self.org_id),
            panel_id: self.panel_id,
            variables: self.variables@,
            from: opt_text(self.from),
            to: opt_text(self.to),
        }
    }
}

/// The view of a reference or of why there is none.
pub open spec fn ref_outcome(r: Result<DashboardRef, String>) -> Result<RefView, Seq<char>> {
    match r {
        Ok(d) => Ok(d@),
        Err(e) => Err(e@),
    }
}

/// The number of a panel, with `panel-` in front or without.
pub open spec fn panel_number(raw: Seq<char>) -> Result<i64, Seq<char>> {
    let digits = match past_prefix(raw, "panel-"@) {
        Some(rest) => rest,
        None => raw,
    };
    match int_value(digits) {
        Some(n) => Ok(n),
        None => Err("invalid panel ID "@ + quoted(raw)),
    }
}

/// Reads the number of a panel.
pub fn parse_panel_id(raw: &str) -> (r: Result<i64, String>)
    ensures
        outcome(r) == panel_number(raw@),
{
    let n = match strip_prefix(raw, "panel-") {
        Some(rest) => parse_int(rest.as_str()),
        None => parse_int(raw),
    };
    match n {
        Some(n) => Ok(n),
        None => {
            let mut e = owned("invalid panel ID ");
            e.append(quote(raw).as_str());
            Err(e)
        },
    }
}

/// A reference after another pair of the query: what comes later wins.
pub open spec fn with_pair(r: RefView, key: Seq<char>, value: Seq<char>) -> Result<RefView, Seq<char>> {
    if key == "viewPanel"@ {
        match panel_number(value) {
            Ok(n) => Ok(RefView { panel_id: Some(n), ..r }),
            Err(e) => Err(e),
        }
    } else if key == "orgId"@ {
        Ok(RefView { org_id: Some(value), ..r })
    } else if let Some(name) = past_prefix(key, "var-"@) {
        if name.len() > 0 {
            Ok(RefView { variables: with_entry(r.variables, name, value), ..r })
        } else {
            Ok(r)
        }
    } else if key == "from"@ {
        Ok(RefView { from: Some(value), ..r })
    } else if key == "to"@ {
        Ok(RefView { to: Some(value), ..r })
    } else {
        Ok(r)
    }
}

/// A reference after the pairs of the query.
pub open spec fn with_pairs(r: RefView, query: Seq<(Seq<char>, Seq<char>)>) -> Result<RefView, Seq<char>>
    decreases query.len(),
{
    if query.len() == 0 {
        Ok(r)
    } else {
        match with_pairs(r, query.drop_last()) {
            Ok(before) => with_pair(before, query.last().0, query.last().1),
            Err(e) => Err(e),
        }
    }
}

proof fn lemma_pairs_stop(r: RefView, query: Seq<(Seq<char>, Seq<char>)>, n: int)
    requires
        0 <= n <= query.len(),
        with_pairs(r, query.take(n)) is Err,
    ensures
        with_pairs(r, query) == with_pairs(r, query.take(n)),
    decreases query.len() - n,
{
    if n < query.len() {
        assert(query.take(n + 1).drop_last() =~= query.take(n));
        lemma_pairs_stop(r, query, n + 1);
    } else {
        assert(query.take(n) =~= query);
    }
}

/// The reference with nothing but the dashboard in it.
pub open spec fn bare_ref(uid: Seq<char>, slug: Seq<char>) -> RefView {
    RefView {
        uid,
        slug,
        org_id: None,
        panel_id: None,
        variables: Seq::<(Seq<char>, Seq<char>)>::empty(),
        from: None,
        to: None,
    }
}

/// What the URL of a dashboard names, or why it names none: it must have the origin of the base
/// URL, lie below it, and have the path of a dashboard.
pub open spec fn reference_in(url: UrlView, base: UrlView) -> Result<RefView, Seq<char>> {
    if !one_origin(url, base) {
        Err("dashboard URL must use the configured Grafana origin"@)
    } else {
        match path_below(url, base) {
            None => Err("dashboard URL is outside the configured Grafana subpath"@),
            Some(path) => if begins(path, "/login"@) {
                Err("Grafana URL resolved to /login; refresh credentials"@)
            } else {
                let parts = split_at(cut_front(path, CharSet::Only('/')), '/');
                if parts.len() < 3 || parts[0] != "d"@ || parts[1].len() == 0 {
                    Err("URL did not resolve to /d/<uid>/<slug>"@)
                } else {
                    with_pairs(bare_ref(parts[1], parts[2]), url.pairs)
                }
            },
        }
    }
}

fn take_pair(r: &mut DashboardRef, key: &str, value: &str) -> (e: Option<String>)
    requires
        old(r).variables.wf(),
    ensures
        match e {
            None => with_pair(old(r)@, key@, value@) == Ok::<RefView, Seq<char>>(final(r)@)
                && final(r).variables.wf(),
            Some(e) => with_pair(old(r)@, key@, value@) == Err::<RefView, Seq<char>>(e@),
        },
{
    if *key == *"viewPanel" {
        match parse_panel_id(value) {
            Ok(n) => {
                r.panel_id = Some(n);
            },
            Err(e) => {
                return Some(e);
            },
        }
    } else if *key == *"orgId" {
        r.org_id = Some(owned(value));
    } else if let Some(name) = strip_prefix(key, "var-") {
        if !name.as_str().is_empty() {
            r.variables.insert(name.as_str(), value);
        }
    } else if *key == *"from" {
        r.from = Some(owned(value));
    } else if *key == *"to" {
        r.to = Some(owned(value));
    }
    None
}

/// Reads what the URL of a dashboard names.
pub fn parse_dashboard_url(url: &UrlParts, base: &UrlParts) -> (r: Result<DashboardRef, String>)
    ensures
        ref_outcome(r) == reference_in(url@, base@),
        r matches Ok(d) ==> d.variables.wf(),
{
    if !same_origin(url, base) {
        return Err(owned("dashboard URL must use the configured Grafana origin"));
    }
    let path = match grafana_path(url, base) {
        Some(p) => p,
        None => {
            return Err(owned("dashboard URL is outside the configured Grafana subpath"));
        },
    };
    if starts_with(path.as_str(), "/login") {
        return Err(owned("Grafana URL resolved to /login; refresh credentials"));
    }
    let parts = split(trim_front(path.as_str(), CharSet::Only('/')).as_str(), '/');
    let ghost views = texts(parts@);
    assert(views.len() == parts@.len());
    assert(views.len() > 0 ==> views[0] == parts@[0]@);
    assert(views.len() > 1 ==> views[1] == parts@[1]@);
    assert(views.len() > 2 ==> views[2] == parts@[2]@);
    if parts.len() < 3 || !(*parts[0].as_str() == *"d") || parts[1].as_str().is_empty() {
        return Err(owned("URL did not resolve to /d/<uid>/<slug>"));
    }
    let mut d = DashboardRef {
        uid: owned(parts[1].as_str()),
        slug: owned(parts[2].as_str()),
        org_id: None,
        panel_id: None,
        variables: Table::new(),
        from: None,
        to: None,
    };
    let ghost bare = bare_ref(views[1], views[2]);
    let ghost all = pairs(url.pairs@);
    assert(d@ =~= bare);
    for i in 0..url.pairs.len()
        invariant
            all == pairs(url.pairs@),
            all == url@.pairs,
            d.variables.wf(),
            reference_in(url@, base@) == with_pairs(bare, all),
            with_pairs(bare, all.take(i as int)) == Ok::<RefView, Seq<char>>(d@),
    {
        assert(all.take(i as int + 1).drop_last() =~= all.take(i as int));
        assert(all.take(i as int + 1).last() == (url.pairs@[i as int].0@, url.pairs@[i as int].1@));
        if let Some(e) = take_pair(&mut d, url.pairs[i].0.as_str(), url.pairs[i].1.as_str()) {
            proof {
                lemma_pairs_stop(bare, all, i as int + 1);
            }
            return Err(e);
        }
    }
    assert(all.take(url.pairs@.len() as int) =~= all);
    Ok(d)
}

/// A URL of another origin never names a dashboard.
pub proof fn other_origin_names_nothing(url: UrlView, base: UrlView)
    requires
        !one_origin(url, base),
    ensures
        reference_in(url, base) is Err,
{
}

} // verus!
