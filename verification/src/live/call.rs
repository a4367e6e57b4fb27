//! Calls: what is done with a reply, refreshing the session at most once, and which datasource
//! a query goes to.

use super::auth::{clip, is_auth_err, refuses, succeeds};
use super::reply::list_of;
use crate::json::{
    as_items, as_str, as_whole, fields, int_value, is_flat, items, json_compact, json_int, json_or_null, member,
    object, push_field, read_json, str_at, str_value, whole_of, write_compact, Json, JsonView,
};
use crate::number::{decimal, nat_to_text, size_to_text};
use crate::order::text_before;
use crate::text::{
    contains, first_chars, holds, join, joined, lowercase, opt_str, owned, push_text, quote, quoted, texts,
    to_lowercase,
};
use vstd::prelude::*;

verus! {

/// Where a call is: asked once, refreshing the session after a refusal, or asked again.
pub enum Stage {
    Asked,
    Refreshing { status: u16, body: String },
    AskedAgain,
}

/// The model of where a call is.
#[verifier::ext_equal]
pub enum StageView {
    Asked,
    Refreshing { status: u16, body: Seq<char> },
    AskedAgain,
}

impl View for Stage {
    type V = StageView;

    open spec fn view(&self) -> StageView {
        match self {
            Stage::Asked => StageView::Asked,
            Stage::Refreshing { status, body } => StageView::Refreshing { status: *status, body: body@ },
            Stage::AskedAgain => StageView::AskedAgain,
        }
    }
}

/// What happens next in a call.
pub enum Next {
    /// refresh the session, and go on at this stage
    Refresh(Stage),
    /// ask again, and go on at this stage
    Ask(Stage),
    /// store the cookies that came with the reply, and take its body
    Accept(Json),
    /// give up
    Fail(String),
}

/// The model of what happens next in a call.
#[verifier::ext_equal]
pub enum NextView {
    Refresh(StageView),
    Ask(StageView),
    Accept(JsonView),
    Fail(Seq<char>),
}

impl View for Next {
    type V = NextView;

    open spec fn view(&self) -> NextView {
        match self {
            Next::Refresh(s) => NextView::Refresh(s@),
            Next::Ask(s) => NextView::Ask(s@),
            Next::Accept(j) => NextView::Accept(j@),
            Next::Fail(e) => NextView::Fail(e@),
        }
    }
}

/// That the credentials were refused, and what to do about it.
pub open spec fn refusal(status: u16, body: Seq<char>, has_token: bool) -> Seq<char> {
    "auth failed ("@ + decimal(status as nat) + "). "@ + (if has_token {
        "token rejected — check/replace it:\n  gflog token --test"@
    } else {
        "session expired and the refresh attempt failed — re-copy the cookie:\n  gflog cookie\n(tip: a service-account Bearer token never rotates and avoids this — see `gflog token`)"@
    }) + "\n"@ + first_chars(body, 300)
}

fn refused(status: u16, body: &str, has_token: bool) -> (r: String)
    ensures
        r@ == refusal(status, body@, has_token),
{
    let mut s = owned("auth failed (");
    s.append(nat_to_text(status as u64).as_str());
    s.append("). ");
    if has_token {
        s.append("token rejected — check/replace it:\n  gflog token --test");
    } else {
        s.append(
            "session expired and the refresh attempt failed — re-copy the cookie:\n  gflog cookie\n(tip: a service-account Bearer token never rotates and avoids this — see `gflog token`)",
        );
    }
    s.append("\n");
    s.append(clip(body, 300));
    s
}

/// What a reply leads to. A success is taken. A first refusal leads to a refresh where there is
/// no token, which never rotates; any other failure ends the call.
pub open spec fn after_reply(
    stage: StageView,
    status: u16,
    body: Seq<char>,
    path: Seq<char>,
    has_token: bool,
) -> NextView {
    if succeeds(status) {
        NextView::Accept(json_or_null(body))
    } else if stage is AskedAgain {
        NextView::Fail(refusal(status, body, has_token))
    } else if refuses(status) {
        if has_token {
            NextView::Fail(refusal(status, body, has_token))
        } else {
            NextView::Refresh(StageView::Refreshing { status, body })
        }
    } else {
        NextView::Fail("HTTP "@ + decimal(status as nat) + " from "@ + path + "\n"@ + first_chars(body, 300))
    }
}

/// Decides what a reply leads to.
pub fn on_reply(stage: &Stage, status: u16, body: &str, path: &str, has_token: bool) -> (r: Next)
    requires
        !(stage is Refreshing),
    ensures
        r@ == after_reply(stage@, status, body@, path@, has_token),
{
    if 200 <= status && status < 300 {
        return Next::Accept(read_json(body));
    }
    if let Stage::AskedAgain = stage {
        return Next::Fail(refused(status, body, has_token));
    }
    if is_auth_err(status) {
        return if has_token {
            Next::Fail(refused(status, body, has_token))
        } else {
            Next::Refresh(Stage::Refreshing { status, body: owned(body) })
        };
    }
    let mut s = owned("HTTP ");
    s.append(nat_to_text(status as u64).as_str());
    s.append(" from ");
    s.append(path);
    s.append("\n");
    s.append(clip(body, 300));
    Next::Fail(s)
}

/// What a refresh leads to: a second request where it worked, or else the end.
pub open spec fn after_refresh(stage: StageView, worked: bool) -> NextView {
    match stage {
        StageView::Refreshing { status, body } => if worked {
            NextView::Ask(StageView::AskedAgain)
        } else {
            NextView::Fail(refusal(status, body, false))
        },
        _ => NextView::Fail(""@),
    }
}

/// Decides what a refresh leads to.
pub fn on_refresh(stage: &Stage, worked: bool) -> (r: Next)
    requires
        stage is Refreshing,
    ensures
        r@ == after_refresh(stage@, worked),
{
    match stage {
        Stage::Refreshing { status, body } => if worked {
            Next::Ask(Stage::AskedAgain)
        } else {
            Next::Fail(refused(*status, body.as_str(), false))
        },
        _ => Next::Fail(owned("")),
    }
}

/// How many stages may still follow a stage.
pub open spec fn stages_left(s: StageView) -> nat {
    match s {
        StageView::Asked => 2,
        StageView::Refreshing { .. } => 1,
        StageView::AskedAgain => 0,
    }
}

/// A call refreshes the session at most once, and asks at most twice: every stage leads to a
/// later one, only the first request leads to a refresh, and only a refresh that worked leads
/// to a second request.
pub proof fn one_refresh_and_one_retry(
    stage: StageView,
    status: u16,
    body: Seq<char>,
    path: Seq<char>,
    has_token: bool,
    worked: bool,
)
    ensures
        after_reply(stage, status, body, path, has_token) matches NextView::Refresh(next) ==> (!(stage is AskedAgain)
            && next is Refreshing && (stage is Asked ==> stages_left(next) < stages_left(stage))),
        !(after_reply(stage, status, body, path, has_token) is Ask),
        after_refresh(stage, worked) matches NextView::Ask(next) ==> worked && stage is Refreshing && next
            == StageView::AskedAgain && stages_left(next) < stages_left(stage),
        !(after_refresh(stage, worked) is Refresh),
{
}

/// With a token nothing is ever refreshed, and a refusal ends the call.
pub proof fn token_never_refreshes(stage: StageView, status: u16, body: Seq<char>, path: Seq<char>)
    ensures
        !(after_reply(stage, status, body, path, true) is Refresh),
        refuses(status) ==> after_reply(stage, status, body, path, true) == NextView::Fail(
            refusal(status, body, true),
        ),
{
}

/// A reply that is no success never gives a value: a refused call is never taken for an empty one.
pub proof fn failure_is_never_taken(
    stage: StageView,
    status: u16,
    body: Seq<char>,
    path: Seq<char>,
    has_token: bool,
)
    ensures
        after_reply(stage, status, body, path, has_token) is Accept <==> succeeds(status),
{
}

/// Whether a datasource is one of Loki that can be reached.
pub open spec fn is_loki(d: JsonView) -> bool {
    str_at(d, "type"@) == Some("loki"@) && (str_at(d, "url"@) matches Some(u) && u.len() > 0)
}

/// The datasources of Loki in a list: their numbers and names.
pub open spec fn loki_sources(a: Seq<JsonView>) -> Seq<(i64, Seq<char>)>
    decreases a.len(),
{
    if a.len() == 0 {
        Seq::<(i64, Seq<char>)>::empty()
    } else {
        let before = loki_sources(a.drop_last());
        match (whole_of(member(a.last(), "id"@)), str_at(a.last(), "name"@)) {
            (Some(id), Some(name)) if is_loki(a.last()) => before.push((id, name)),
            _ => before,
        }
    }
}

/// The views of datasources.
pub open spec fn sources(v: Seq<(i64, String)>) -> Seq<(i64, Seq<char>)> {
    v.map_values(|d: (i64, String)| (d.0, d.1@))
}

fn loki(d: &Json) -> (r: bool)
    ensures
        r == is_loki(d@),
{
    match (d.get_str("type"), d.get_str("url")) {
        (Some(t), Some(u)) => *t.as_str() == *"loki" && !u.as_str().is_empty(),
        _ => false,
    }
}

/// Finds the datasources of Loki in a list.
pub fn loki_list(v: &Json) -> (r: Vec<(i64, String)>)
    ensures
        sources(r@) == loki_sources(list_of(Some(v@))),
{
    let mut out: Vec<(i64, String)> = Vec::new();
    assert(sources(out@) =~= Seq::<(i64, Seq<char>)>::empty());
    let a = match as_items(Some(v)) {
        Some(a) => a,
        None => {
            return out;
        },
    };
    let ghost all = items(a@);
    assert(sources(out@) =~= loki_sources(all.take(0)));
    for i in 0..a.len()
        invariant
            all == items(a@),
            sources(out@) == loki_sources(all.take(i as int)),
    {
        let ghost so_far = sources(out@);
        assert(all.take(i as int + 1).drop_last() =~= all.take(i as int));
        assert(all.take(i as int + 1).last() == a@[i as int]@);
        let d = &a[i];
        if loki(d) {
            if let (Some(id), Some(name)) = (as_whole(d.get("id")), d.get_str("name")) {
                let ghost pair = (id, name@);
                out.push((id, name));
                assert(sources(out@) =~= so_far.push(pair));
            }
        }
    }
    assert(all.take(a@.len() as int) =~= all);
    out
}

/// The names of datasources.
pub open spec fn source_names(v: Seq<(i64, Seq<char>)>) -> Seq<Seq<char>> {
    v.map_values(|d: (i64, Seq<char>)| d.1)
}

fn names_of(v: &Vec<(i64, String)>) -> (r: Vec<String>)
    ensures
        texts(r@) == source_names(sources(v@)),
{
    let ghost whole = source_names(sources(v@));
    let mut out: Vec<String> = Vec::new();
    for i in 0..v.len()
        invariant
            whole == source_names(sources(v@)),
            texts(out@) == whole.take(i as int),
    {
        let ghost so_far = texts(out@);
        push_text(&mut out, owned(v[i].1.as_str()));
        assert(whole.take(i as int + 1) =~= so_far.push(whole[i as int]));
    }
    assert(whole.take(v@.len() as int) =~= whole);
    out
}

/// What kind of credentials are in force.
pub open spec fn auth_mode(has_token: bool) -> Seq<char> {
    if has_token {
        "Bearer token"@
    } else {
        "session cookie"@
    }
}

/// What is said of the credentials once they were tried on the list of datasources, which the
/// body reads as.
pub open spec fn auth_note(
    status: u16,
    body: Seq<char>,
    list: JsonView,
    base: Seq<char>,
    has_token: bool,
) -> Seq<char> {
    let mode = auth_mode(has_token);
    if succeeds(status) {
        let names = source_names(loki_sources(list_of(Some(list))));
        "auth OK via "@ + mode + " — "@ + decimal(names.len()) + " usable Loki datasource(s): "@ + (if names.len()
            == 0 {
            "(none with a URL)"@
        } else {
            joined(names, ", "@)
        })
    } else if refuses(status) {
        "auth FAILED ("@ + decimal(status as nat) + ") via "@ + mode + " — "@ + (if has_token {
            "token rejected/expired — set a fresh one with `gflog token`."@
        } else {
            "cookie expired/rotated. Copy a fresh grafana_session from the browser ("@ + base
                + ") and run `cookie` again."@
        })
    } else {
        "unexpected HTTP "@ + decimal(status as nat) + ": "@ + first_chars(body, 300)
    }
}

/// Says whether the credentials work, once they were tried on the list of datasources.
pub fn report_auth(status: u16, body: &str, base: &str, has_token: bool) -> (r: (bool, String))
    ensures
        r.0 == succeeds(status),
        r.1@ == auth_note(status, body@, json_or_null(body@), base@, has_token),
{
    report_auth_on(status, body, &read_json(body), base, has_token)
}

/// Says whether the credentials work, given the list of datasources that the body reads as.
pub fn report_auth_on(status: u16, body: &str, list: &Json, base: &str, has_token: bool) -> (r: (bool, String))
    ensures
        r.0 == succeeds(status),
        r.1@ == auth_note(status, body@, list@, base@, has_token),
{
    let mode: &str = if has_token {
        "Bearer token"
    } else {
        "session cookie"
    };
    if 200 <= status && status < 300 {
        let names = names_of(&loki_list(list));
        assert(texts(names@).len() == names@.len());
        let mut s = owned("auth OK via ");
        s.append(mode);
        s.append(" — ");
        s.append(size_to_text(names.len()).as_str());
        s.append(" usable Loki datasource(s): ");
        if names.len() == 0 {
            s.append("(none with a URL)");
        } else {
            s.append(join(&names, ", ").as_str());
        }
        return (true, s);
    }
    if is_auth_err(status) {
        let mut s = owned("auth FAILED (");
        s.append(nat_to_text(status as u64).as_str());
        s.append(") via ");
        s.append(mode);
        s.append(" — ");
        if has_token {
            s.append("token rejected/expired — set a fresh one with `gflog token`.");
        } else {
            let mut f = owned("cookie expired/rotated. Copy a fresh grafana_session from the browser (");
            f.append(base);
            f.append(") and run `cookie` again.");
            s.append(f.as_str());
        }
        return (false, s);
    }
    let mut s = owned("unexpected HTTP ");
    s.append(nat_to_text(status as u64).as_str());
    s.append(": ");
    s.append(clip(body, 300));
    (false, s)
}

/// The datasource in a cache that reads as one.
pub open spec fn source_in(j: JsonView) -> Option<(i64, Seq<char>)> {
    match (whole_of(member(j, "id"@)), str_at(j, "name"@)) {
        (Some(id), Some(name)) => Some((id, name)),
        _ => None,
    }
}

/// Reads the datasource in a cache that has been parsed.
pub fn read_source(j: &Json) -> (r: Option<(i64, String)>)
    ensures
        match r {
            Some(d) => source_in(j@) == Some((d.0, d.1@)),
            None => source_in(j@) is None,
        },
{
    match (as_whole(j.get("id")), j.get_str("name")) {
        (Some(id), Some(name)) => Some((id, name)),
        _ => None,
    }
}

/// The datasource of the cache, where it may be used: none is asked for by name, and it is not
/// to be looked up again.
pub open spec fn cached_source(want: Option<Seq<char>>, refresh: bool, cache: Option<Seq<char>>) -> Option<
    (i64, Seq<char>),
> {
    match cache {
        Some(t) if !refresh && want is None => source_in(json_or_null(t)),
        _ => None,
    }
}

/// Finds the datasource of the cache, where it may be used.
pub fn cached_datasource(want: Option<&str>, refresh: bool, cache: Option<&str>) -> (r: Option<(i64, String)>)
    ensures
        match r {
            Some(d) => cached_source(opt_str(want), refresh, opt_str(cache)) == Some((d.0, d.1@)),
            None => cached_source(opt_str(want), refresh, opt_str(cache)) is None,
        },
{
    if refresh || want.is_some() {
        return None;
    }
    match cache {
        Some(t) => read_source(&read_json(t)),
        None => None,
    }
}

/// The first datasource whose name contains a text in any case.
pub open spec fn first_named(ds: Seq<(i64, Seq<char>)>, want: Seq<char>) -> Option<(i64, Seq<char>)>
    decreases ds.len(),
{
    if ds.len() == 0 {
        None
    } else if holds(lowercase(ds[0].1), lowercase(want)) {
        Some(ds[0])
    } else {
        first_named(ds.skip(1), want)
    }
}

/// The datasource that a query goes to: the first one, or the first that is named so.
pub open spec fn chosen_source(ds: Seq<(i64, Seq<char>)>, want: Option<Seq<char>>) -> Result<
    (i64, Seq<char>),
    Seq<char>,
> {
    if ds.len() == 0 {
        Err("no usable Loki datasource found in this Grafana"@)
    } else {
        match want {
            Some(w) => match first_named(ds, w) {
                Some(d) => Ok(d),
                None => Err(
                    "no Loki datasource matching "@ + quoted(w) + ". available: "@ + joined(
                        source_names(ds),
                        ", "@,
                    ),
                ),
            },
            None => Ok(ds[0]),
        }
    }
}

/// Chooses the datasource that a query goes to.
pub fn loki_datasource(ds: &Vec<(i64, String)>, want: Option<&str>) -> (r: Result<(i64, String), String>)
    ensures
        match r {
            Ok(d) => chosen_source(sources(ds@), opt_str(want)) == Ok::<(i64, Seq<char>), Seq<char>>((d.0, d.1@)),
            Err(e) => chosen_source(sources(ds@), opt_str(want)) == Err::<(i64, Seq<char>), Seq<char>>(e@),
        },
{
    let ghost all = sources(ds@);
    assert(all.len() == ds@.len());
    if ds.len() == 0 {
        return Err(owned("no usable Loki datasource found in this Grafana"));
    }
    let w = match want {
        Some(w) => w,
        None => {
            assert(all[0] == (ds@[0].0, ds@[0].1@));
            return Ok((ds[0].0, owned(ds[0].1.as_str())));
        },
    };
    let low = to_lowercase(w);
    assert(all.skip(0) =~= all);
    for i in 0..ds.len()
        invariant
            all == sources(ds@),
            all.len() > 0,
            opt_str(want) == Some(w@),
            low@ == lowercase(w@),
            first_named(all, w@) == first_named(all.skip(i as int), w@),
    {
        assert(all.skip(i as int)[0] == (ds@[i as int].0, ds@[i as int].1@));
        assert(all.skip(i as int).skip(1) =~= all.skip(i as int + 1));
        if contains(to_lowercase(ds[i].1.as_str()).as_str(), low.as_str()) {
            return Ok((ds[i].0, owned(ds[i].1.as_str())));
        }
    }
    assert(all.skip(ds@.len() as int).len() == 0);
    let mut e = owned("no Loki datasource matching ");
    e.append(quote(w).as_str());
    e.append(". available: ");
    e.append(join(&names_of(ds), ", ").as_str());
    Err(e)
}

/// A datasource as it is kept in the cache.
pub open spec fn source_record(id: i64, name: Seq<char>) -> JsonView {
    JsonView::Object(seq![("id"@, json_int(id as int)), ("name"@, JsonView::Str(name))])
}

/// Makes a datasource ready for the cache.
pub fn pack_source(id: i64, name: &str) -> (r: Json)
    ensures
        r@ == source_record(id, name@),
{
    let mut o: Vec<(String, Json)> = Vec::new();
    push_field(&mut o, "id", int_value(id));
    push_field(&mut o, "name", str_value(name));
    assert(fields(o@) =~= source_record(id, name@)->Object_0);
    object(o)
}

/// Writes a datasource for the cache. What is written there is found there again.
pub fn source_text(id: i64, name: &str) -> (r: String)
    ensures
        r@ == json_compact(source_record(id, name@)),
        cached_source(None, false, Some(r@)) == Some((id, name@)),
{
    proof {
        reveal_strlit("id");
        reveal_strlit("name");
        cache_gives_back_what_it_was_given(id, name@);
        assert(text_before("id"@, "name"@));
        assert(is_flat(source_record(id, name@)));
    }
    write_compact(&pack_source(id, name))
}

/// A datasource that was put into the cache is the one that is found there.
pub proof fn cache_gives_back_what_it_was_given(id: i64, name: Seq<char>)
    ensures
        source_in(source_record(id, name)) == Some((id, name)),
{
    reveal_strlit("id");
    reveal_strlit("name");
    let o = source_record(id, name)->Object_0;
    assert(o[0].0 == "id"@ && "id"@.len() != "name"@.len());
    crate::json::first_field_counts(o, "id"@, 0);
    crate::json::first_field_counts(o, "name"@, 1);
}

} // verus!
