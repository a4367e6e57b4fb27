//! Laws of the address of Grafana, of credentials, and of the datasources that are reached.

use super::texts::{
    a_whole_holds_its_middle, cutting_stops_at_the_first_other, head_and_tail, joined_text_holds_its_parts,
    replacing_leaves_none, trimmed_text_stays, unsplit_text_is_one_part,
};
use crate::json::{json_or_null, member, str_at, whole_of, JsonView};
use crate::live::address::{authority_of, base_from, base_of, host_in, stored_url, tidy_url, unless_blank, url_shown};
use crate::live::auth::{
    asked_for, cookie_in, cookie_sent, credential_in, header_from, last_word, refuses, removal_note, rotated_token,
    rotation_note, session_in, session_of, stored_note, stored_tokens, succeeds, token_in, unquoted, without_marks,
    Credential, CredentialAction, Input, Place, Removal,
};
use crate::live::call::{
    after_reply, auth_mode, auth_note, cached_source, chosen_source, first_named, loki_sources, refusal,
    source_names, NextView, StageView,
};
use crate::number::decimal;
use crate::text::{
    begins, cut_back, cut_front, ends, first_chars, head_part, holds, is_space, last_chars, lowercase, quoted,
    trimmed, CharSet,
};
use vstd::prelude::*;

verus! {

proof fn lemma_tidy(u: Seq<char>)
    requires
        u.len() > 0,
        !is_space(u[0]),
        !is_space(u.last()),
        u.last() != '/',
    ensures
        tidy_url(u) == u,
{
    trimmed_text_stays(u);
    cutting_stops_at_the_first_other(u, CharSet::Only('/'));
}

/// An `https` URL with a host is a base URL as it stands.
pub proof fn a_secure_url_is_a_base(rest: Seq<char>)
    requires
        rest.len() > 0,
        rest[0] != '/',
        rest.last() != '/',
        !is_space(rest.last()),
    ensures
        base_of("https://"@ + rest) == Ok::<Seq<char>, Seq<char>>("https://"@ + rest),
{
    reveal_strlit("https://");
    let u = "https://"@ + rest;
    assert(u[0] == 'h' && u.last() == rest.last());
    lemma_tidy(u);
    assert(u.subrange(0, 8) =~= "https://"@);
    assert(u.skip(8) =~= rest);
    lemma_head_nonempty(rest, '/');
}

proof fn lemma_head_nonempty(s: Seq<char>, sep: char)
    requires
        s.len() > 0,
        s[0] != sep,
    ensures
        head_part(s, sep).len() > 0,
{
    if s.contains(sep) {
        crate::text::lemma_place_of(s, sep);
        let at = crate::text::place_of(s, sep);
        assert(at is Some) by {
            let i = choose|i: int| 0 <= i < s.len() && s[i] == sep;
        }
        let a = s.take(at->0);
        let b = s.skip(at->0 + 1);
        assert(s =~= a.push(sep) + b);
        assert(!a.contains(sep));
        head_and_tail(a, b, sep);
    } else {
        unsplit_text_is_one_part(s, sep);
    }
}

proof fn lemma_plain_authority(host: Seq<char>)
    requires
        !host.contains('/'),
        !host.contains('\\'),
        !host.contains('?'),
        !host.contains('#'),
        !host.contains('@'),
        !host.contains(':'),
    ensures
        authority_of(host) == host,
        host_in(host) == host,
        head_part(host, '/') == host,
{
    unsplit_text_is_one_part(host, '/');
    unsplit_text_is_one_part(host, '\\');
    unsplit_text_is_one_part(host, '?');
    unsplit_text_is_one_part(host, '#');
    unsplit_text_is_one_part(host, '@');
    unsplit_text_is_one_part(host, ':');
}

/// Over plain `http` a host is a base URL exactly where it is this machine.
pub proof fn a_plain_url_is_a_base_on_this_machine_alone(host: Seq<char>)
    requires
        host.len() > 0,
        !is_space(host.last()),
        !host.contains('/'),
        !host.contains('\\'),
        !host.contains('?'),
        !host.contains('#'),
        !host.contains('@'),
        !host.contains(':'),
    ensures
        base_of("http://"@ + host) is Ok <==> host == "localhost"@ || host == "127.0.0.1"@ || ends(
            host,
            ".localhost"@,
        ),
        base_of("http://"@ + host) matches Ok(u) ==> u == "http://"@ + host,
{
    reveal_strlit("http://");
    reveal_strlit("https://");
    reveal_strlit("::1");
    let u = "http://"@ + host;
    assert(u[0] == 'h' && u.last() == host.last());
    assert(host.last() != '/') by {
        assert(host.contains(host[host.len() - 1]));
    }
    lemma_tidy(u);
    assert(u.subrange(0, 7) =~= "http://"@);
    assert(u.skip(7) =~= host);
    assert(!begins(u, "https://"@)) by {
        if begins(u, "https://"@) {
            assert(u.subrange(0, 8)[4] == 's');
            assert(u[4] == ':');
        }
    }
    lemma_plain_authority(host);
    assert(host != "::1"@) by {
        if host == "::1"@ {
            assert(host[0] == ':');
            assert(host.contains(host[0]));
        }
    }
}

/// Slashes at the end and white space around a base URL make no difference.
pub proof fn slashes_at_the_end_make_no_difference(u: Seq<char>)
    requires
        u.len() > 0,
        !is_space(u[0]),
        !is_space(u.last()),
        u.last() != '/',
    ensures
        base_of(u + "/"@) == base_of(u),
{
    reveal_strlit("/");
    let v = u + "/"@;
    lemma_tidy(u);
    assert(v[0] == u[0] && v.last() == '/');
    assert(!is_space('/'));
    trimmed_text_stays(v);
    assert(v.drop_last() =~= u);
    cutting_stops_at_the_first_other(u, CharSet::Only('/'));
    assert(cut_back(v, CharSet::Only('/')) == cut_back(u, CharSet::Only('/')));
}

/// The session that is stored is the value of its cookie, with the name of the cookie in front of
/// it or without.
pub proof fn the_session_is_the_value_of_its_cookie(tok: Seq<char>)
    requires
        tok.len() > 0,
        !tok.contains('='),
        !is_space(tok[0]),
        !is_space(tok.last()),
    ensures
        session_of(Some(tok)) == tok,
        session_of(Some("grafana_session="@ + tok)) == tok,
        cookie_sent(tok) == "grafana_session="@ + tok,
        cookie_sent("grafana_session="@ + tok) == "grafana_session="@ + tok,
        session_of(Some(cookie_sent(tok))) == tok,
{
    reveal_strlit("grafana_session=");
    trimmed_text_stays(tok);
    unsplit_text_is_one_part(tok, '=');
    let c = "grafana_session="@ + tok;
    assert(c[0] == 'g' && c.last() == tok.last());
    trimmed_text_stays(c);
    let name = "grafana_session="@.drop_last();
    assert(c =~= name.push('=') + tok);
    head_and_tail(name, tok, '=');
    assert(c[15] == '=');
    assert(c.contains('='));
}

/// A header that brings a new session brings that session: everything between the name of the
/// cookie and the first semicolon.
pub proof fn a_header_brings_its_session(tok: Seq<char>, rest: Seq<char>, cookie: Option<Seq<char>>)
    requires
        tok.len() > 0,
        !tok.contains(';'),
        tok != "deleted"@,
        tok != session_of(cookie),
    ensures
        rotated_token("grafana_session="@ + tok + ";"@ + rest, cookie) == Some(tok),
        stored_tokens(seq!["grafana_session="@ + tok + ";"@ + rest], cookie) == seq![tok],
{
    reveal_strlit("grafana_session=");
    reveal_strlit(";");
    let h = "grafana_session="@ + tok + ";"@ + rest;
    assert(h[0] == 'g');
    assert(cut_front(h, CharSet::Space) == h);
    assert(h.subrange(0, 16) =~= "grafana_session="@);
    assert(h.skip(16) =~= tok.push(';') + rest);
    head_and_tail(tok, rest, ';');
    let s = seq![h];
    assert(s.drop_last() =~= Seq::<Seq<char>>::empty());
    assert(s.last() == h);
    let none = stored_tokens(Seq::<Seq<char>>::empty(), cookie);
    assert(none =~= Seq::<Seq<char>>::empty());
    assert(none.push(tok) =~= seq![tok]);
}

/// A header for another cookie brings no session.
pub proof fn another_cookie_brings_no_session(header: Seq<char>, cookie: Option<Seq<char>>)
    requires
        header.len() > 0,
        !is_space(header[0]),
        !begins(header, "grafana_session="@),
    ensures
        rotated_token(header, cookie) is None,
{
}

/// A token that is pasted is taken as it stands, and so is one with `Bearer` in front of it or
/// with quotes around it.
pub proof fn a_token_is_taken_as_it_stands(tok: Seq<char>)
    requires
        tok.len() > 0,
        !tok.contains('\u{feff}'),
        !tok.contains(' '),
        !is_space(tok[0]),
        !is_space(tok.last()),
        tok[0] != '"' && tok[0] != '\'',
        tok.last() != '"' && tok.last() != '\'',
    ensures
        token_in(tok) == tok,
        token_in("Bearer "@ + tok) == tok,
        token_in("bearer "@ + tok) == tok,
{
    reveal_strlit("Bearer ");
    reveal_strlit("bearer ");
    lemma_clean(tok);
    lemma_no_prefix(tok, "Bearer "@);
    lemma_no_prefix(tok, "bearer "@);
    let a = "Bearer "@ + tok;
    assert(a[0] == 'B' && a.last() == tok.last());
    assert(!a.contains('\u{feff}')) by {
        assert forall|i: int| 0 <= i < a.len() implies a[i] != '\u{feff}' by {
            if i >= 7 {
                assert(a[i] == tok[i - 7]);
                assert(tok.contains(tok[i - 7]));
            }
        }
    }
    lemma_clean(a);
    assert(a.subrange(0, 7) =~= "Bearer "@);
    assert(a.skip(7) =~= tok);
    let b = "bearer "@ + tok;
    assert(b[0] == 'b' && b.last() == tok.last());
    assert(!b.contains('\u{feff}')) by {
        assert forall|i: int| 0 <= i < b.len() implies b[i] != '\u{feff}' by {
            if i >= 7 {
                assert(b[i] == tok[i - 7]);
                assert(tok.contains(tok[i - 7]));
            }
        }
    }
    lemma_clean(b);
    assert(b.subrange(0, 7) =~= "bearer "@);
    assert(b.skip(7) =~= tok);
    assert(!begins(b, "Bearer "@)) by {
        if begins(b, "Bearer "@) {
            assert(b.subrange(0, 7)[0] == 'B');
        }
    }
    trimmed_text_stays(tok);
}

proof fn lemma_no_prefix(tok: Seq<char>, prefix: Seq<char>)
    requires
        !tok.contains(' '),
        prefix.len() == 7,
        prefix[6] == ' ',
    ensures
        !begins(tok, prefix),
{
    if begins(tok, prefix) {
        assert(tok.subrange(0, 7)[6] == ' ');
        assert(tok[6] == ' ');
        assert(tok.contains(tok[6]));
    }
}

proof fn lemma_clean(s: Seq<char>)
    requires
        s.len() > 0,
        !s.contains('\u{feff}'),
        !is_space(s[0]),
        !is_space(s.last()),
        s[0] != '"' && s[0] != '\'',
        s.last() != '"' && s.last() != '\'',
    ensures
        trimmed(unquoted(without_marks(s))) == s,
{
    replacing_leaves_none(s, '\u{feff}', ""@);
    trimmed_text_stays(s);
    cutting_stops_at_the_first_other(s, CharSet::Quote);
}

/// What is said of a credential that was stored gives away how long it is and its last six
/// characters, and nothing else of it.
pub proof fn a_note_gives_away_six_characters(path: Seq<char>, place: Place, a: Seq<char>, b: Seq<char>)
    requires
        a.len() == b.len(),
        a.len() >= 6,
        a.skip(a.len() - 6) == b.skip(b.len() - 6),
    ensures
        stored_note(path, place, a) == stored_note(path, place, b),
        holds(stored_note(path, place, a), decimal(a.len())),
        holds(stored_note(path, place, a), a.skip(a.len() - 6)),
{
    assert(last_chars(a, 6) == a.skip(a.len() - 6));
    assert(last_chars(b, 6) == b.skip(b.len() - 6));
    let note = stored_note(path, place, a);
    let front = "wrote "@ + path + " from "@ + crate::live::auth::place_name(place) + " (token …"@;
    let shown = a.skip(a.len() - 6);
    let n = decimal(a.len());
    a_whole_holds_its_middle(front + shown + ", "@, n, " chars)"@);
    assert(note =~= front + shown + ", "@ + n + " chars)"@);
    a_whole_holds_its_middle(front, shown, ", "@ + n + " chars)"@);
    assert(note =~= front + shown + (", "@ + n + " chars)"@));
}

/// What is said of a rotation tells a failure from a success, and a new session from the old one,
/// and gives away the last six characters of a new one alone.
pub proof fn a_rotation_is_told_as_it_went(status: u16, before: Seq<char>, a: Seq<char>, b: Seq<char>)
    requires
        a != before,
        b != before,
        last_chars(a, 6) == last_chars(b, 6),
    ensures
        rotation_note(status, before, a) == rotation_note(status, before, b),
        !succeeds(status) ==> begins(rotation_note(status, before, a), "rotate failed ("@ + decimal(status as nat)),
        succeeds(status) ==> rotation_note(status, before, before) == "session refreshed (unchanged)"@,
        succeeds(status) ==> holds(rotation_note(status, before, a), last_chars(a, 6)),
{
    if !succeeds(status) {
        let front = "rotate failed ("@ + decimal(status as nat);
        let rest = ") — session likely fully expired, re-copy the cookie"@;
        a_whole_holds_its_middle(front, rest, Seq::<char>::empty());
        assert(front + rest + Seq::<char>::empty() =~= front + rest);
    } else {
        a_whole_holds_its_middle("session refreshed (new token …"@, last_chars(a, 6), ")"@);
    }
}

proof fn lemma_source_comes(a: Seq<JsonView>, k: int)
    requires
        0 <= k < a.len(),
        str_at(a[k], "type"@) == Some("loki"@),
        str_at(a[k], "url"@) matches Some(u) && u.len() > 0,
        whole_of(member(a[k], "id"@)) is Some,
        str_at(a[k], "name"@) is Some,
    ensures
        loki_sources(a).contains((whole_of(member(a[k], "id"@))->0, str_at(a[k], "name"@)->0)),
    decreases a.len(),
{
    let front = a.drop_last();
    let d = (whole_of(member(a[k], "id"@))->0, str_at(a[k], "name"@)->0);
    let all = loki_sources(a);
    if k < front.len() {
        assert(front[k] == a[k]);
        lemma_source_comes(front, k);
        let before = loki_sources(front);
        let i = choose|i: int| 0 <= i < before.len() && before[i] == d;
        assert(all[i] == d);
    } else {
        assert(all[all.len() - 1] == d);
    }
}

/// Every datasource of Loki that can be reached is found.
pub proof fn every_source_that_can_be_reached_is_found(a: Seq<JsonView>, k: int, id: i64, name: Seq<char>)
    requires
        0 <= k < a.len(),
        str_at(a[k], "type"@) == Some("loki"@),
        str_at(a[k], "url"@) matches Some(u) && u.len() > 0,
        whole_of(member(a[k], "id"@)) == Some(id),
        str_at(a[k], "name"@) == Some(name),
    ensures
        loki_sources(a).contains((id, name)),
{
    lemma_source_comes(a, k);
}

/// Every datasource that is found is one of Loki that can be reached, by its number and its name.
pub proof fn every_source_that_is_found_can_be_reached(a: Seq<JsonView>, i: int)
    requires
        0 <= i < loki_sources(a).len(),
    ensures
        exists|k: int|
            0 <= k < a.len() && str_at(#[trigger] a[k], "type"@) == Some("loki"@) && (str_at(a[k], "url"@) matches Some(u)
                && u.len() > 0) && whole_of(member(a[k], "id"@)) == Some(loki_sources(a)[i].0) && str_at(a[k], "name"@)
                == Some(loki_sources(a)[i].1),
    decreases a.len(),
{
    let front = a.drop_last();
    let before = loki_sources(front);
    let d = loki_sources(a)[i];
    if i < before.len() {
        every_source_that_is_found_can_be_reached(front, i);
        assert(d == before[i]);
        let k = choose|k: int|
            0 <= k < front.len() && str_at(#[trigger] front[k], "type"@) == Some("loki"@) && (str_at(
                front[k],
                "url"@,
            ) matches Some(u) && u.len() > 0) && whole_of(member(front[k], "id"@)) == Some(before[i].0) && str_at(
                front[k],
                "name"@,
            ) == Some(before[i].1);
        assert(a[k] == front[k]);
    } else {
        let k = a.len() - 1;
        assert(a[k] == a.last());
        assert(str_at(a[k], "type"@) == Some("loki"@));
    }
}

proof fn lemma_first_named(ds: Seq<(i64, Seq<char>)>, want: Seq<char>)
    ensures
        match first_named(ds, want) {
            Some(d) => exists|i: int|
                0 <= i < ds.len() && #[trigger] ds[i] == d && holds(lowercase(d.1), lowercase(want)) && forall|j: int|
                    0 <= j < i ==> !holds(lowercase((#[trigger] ds[j]).1), lowercase(want)),
            None => forall|j: int| 0 <= j < ds.len() ==> !holds(lowercase((#[trigger] ds[j]).1), lowercase(want)),
        },
    decreases ds.len(),
{
    if ds.len() > 0 {
        if holds(lowercase(ds[0].1), lowercase(want)) {
            assert(ds[0] == first_named(ds, want)->0);
        } else {
            let rest = ds.skip(1);
            lemma_first_named(rest, want);
            match first_named(rest, want) {
                Some(d) => {
                    let i = choose|i: int|
                        0 <= i < rest.len() && #[trigger] rest[i] == d && holds(lowercase(d.1), lowercase(want))
                            && forall|j: int|
                            0 <= j < i ==> !holds(lowercase((#[trigger] rest[j]).1), lowercase(want));
                    assert(ds[i + 1] == d);
                    assert forall|j: int| 0 <= j < i + 1 implies !holds(
                        lowercase((#[trigger] ds[j]).1),
                        lowercase(want),
                    ) by {
                        if j > 0 {
                            assert(ds[j] == rest[j - 1]);
                        }
                    }
                },
                None => {
                    assert forall|j: int| 0 <= j < ds.len() implies !holds(
                        lowercase((#[trigger] ds[j]).1),
                        lowercase(want),
                    ) by {
                        if j > 0 {
                            assert(ds[j] == rest[j - 1]);
                        }
                    }
                },
            }
        }
    }
}

/// A query goes to the first datasource whose name holds what is asked for, in any case, or to the
/// first of all where nothing is asked for.
pub proof fn a_query_goes_to_the_first_source_of_a_name(ds: Seq<(i64, Seq<char>)>, want: Option<Seq<char>>)
    ensures
        match (chosen_source(ds, want), want) {
            (Ok(d), Some(w)) => exists|i: int|
                0 <= i < ds.len() && #[trigger] ds[i] == d && holds(lowercase(d.1), lowercase(w)) && forall|j: int|
                    0 <= j < i ==> !holds(lowercase((#[trigger] ds[j]).1), lowercase(w)),
            (Err(_), Some(w)) => forall|j: int|
                0 <= j < ds.len() ==> !holds(lowercase((#[trigger] ds[j]).1), lowercase(w)),
            (Ok(d), None) => ds.len() > 0 && d == ds[0],
            (Err(_), None) => ds.len() == 0,
        },
{
    if let Some(w) = want {
        lemma_first_named(ds, w);
    }
}

/// That no datasource of a name is found is said with the names of all that there are.
pub proof fn a_source_that_is_not_found_is_told_with_the_others(ds: Seq<(i64, Seq<char>)>, want: Seq<char>, i: int)
    requires
        0 <= i < ds.len(),
        chosen_source(ds, Some(want)) is Err,
    ensures
        chosen_source(ds, Some(want)) matches Err(e) && holds(e, ds[i].1) && holds(e, quoted(want)),
{
    let names = source_names(ds);
    let e = chosen_source(ds, Some(want))->Err_0;
    let front = "no Loki datasource matching "@;
    let mid = ". available: "@;
    let list = crate::text::joined(names, ", "@);
    assert(names[i] == ds[i].1);
    joined_text_holds_its_parts(names, ", "@, i);
    let none = Seq::<char>::empty();
    a_whole_holds_its_middle(front + quoted(want) + mid, list, none);
    assert(e =~= front + quoted(want) + mid + list + none);
    super::texts::holding_is_handed_on(e, list, ds[i].1);
    a_whole_holds_its_middle(front, quoted(want), mid + list);
    assert(e =~= front + quoted(want) + (mid + list));
}

/// A reply that fails a call is told with its status, and shows no more than the first three
/// hundred characters of its body.
pub proof fn a_failure_shows_the_front_of_the_body(
    stage: StageView,
    status: u16,
    a: Seq<char>,
    b: Seq<char>,
    path: Seq<char>,
    has_token: bool,
)
    requires
        first_chars(a, 300) == first_chars(b, 300),
    ensures
        after_reply(stage, status, a, path, has_token) matches NextView::Fail(e) ==> after_reply(
            stage,
            status,
            b,
            path,
            has_token,
        ) == NextView::Fail(e) && holds(e, decimal(status as nat)) && ends(e, first_chars(a, 300)),
{
    if let NextView::Fail(e) = after_reply(stage, status, a, path, has_token) {
        let body = first_chars(a, 300);
        let n = decimal(status as nat);
        let none = Seq::<char>::empty();
        if e == refusal(status, a, has_token) {
            let hint = if has_token {
                "token rejected — check/replace it:\n  gflog token --test"@
            } else {
                "session expired and the refresh attempt failed — re-copy the cookie:\n  gflog cookie\n(tip: a service-account Bearer token never rotates and avoids this — see `gflog token`)"@
            };
            let front = "auth failed ("@;
            let mid = "). "@ + hint + "\n"@;
            assert(e =~= front + n + mid + body);
            lemma_told(front, n, mid, body);
        } else {
            let front = "HTTP "@;
            let mid = " from "@ + path + "\n"@;
            assert(e =~= front + n + mid + body);
            lemma_told(front, n, mid, body);
        }
    }
}

proof fn lemma_told(a: Seq<char>, b: Seq<char>, c: Seq<char>, d: Seq<char>)
    ensures
        holds(a + b + c + d, b),
        ends(a + b + c + d, d),
{
    let whole = a + b + c + d;
    a_whole_holds_its_middle(a, b, c + d);
    assert(whole =~= a + b + (c + d));
    a_whole_holds_its_middle(a + b, c, d);
}

/// The base URL is what the environment says, or what the file says where the environment says
/// nothing, read as a base URL.
pub proof fn the_base_is_the_environments_or_the_files(env: Option<Seq<char>>, file: Option<Seq<char>>, path: Seq<char>)
    ensures
        env matches Some(s) ==> trimmed(s).len() > 0 ==> (match base_of(s) {
            Ok(u) => base_from(env, file, path) == Ok::<Seq<char>, Seq<char>>(u),
            Err(e) => base_from(env, file, path) matches Err(m) && ends(m, e),
        }),
        env is None ==> (file matches Some(s) ==> trimmed(s).len() > 0 ==> (match base_of(trimmed(s)) {
            Ok(u) => base_from(env, file, path) == Ok::<Seq<char>, Seq<char>>(u),
            Err(e) => base_from(env, file, path) matches Err(m) && ends(m, e),
        })),
        env is None && file is None ==> (base_from(env, file, path) matches Err(m) && ends(m, path + ")"@)),
{
    if let Err(m) = base_from(env, file, path) {
        match (unless_blank(env), unless_blank(file)) {
            (Some(s), _) => {
                lemma_ends("invalid Grafana URL ("@ + trimmed(s) + "): "@, base_of(s)->Err_0);
            },
            (None, Some(s)) => {
                lemma_ends("invalid Grafana URL ("@ + trimmed(trimmed(s)) + "): "@, base_of(trimmed(s))->Err_0);
            },
            (None, None) => {
                let front =
                    "no Grafana URL set. Set one:\n  gflog url https://grafana.example.com\nor export GRAFANA_URL (checked $GRAFANA_URL and "@;
                lemma_ends(front, path + ")"@);
                assert(m =~= front + (path + ")"@));
            },
        }
    }
}

proof fn lemma_ends(a: Seq<char>, b: Seq<char>)
    ensures
        ends(a + b, b),
{
    let s = a + b;
    assert(s.subrange(s.len() - b.len(), s.len() as int) =~= b);
}

/// The URL that is shown is the one in the file, without white space around it.
pub proof fn the_url_that_is_shown_is_the_files(u: Seq<char>)
    requires
        u.len() > 0,
        !is_space(u[0]),
        !is_space(u.last()),
    ensures
        url_shown(Some(u)) == u,
        url_shown(Some(seq![' '] + u + seq!['\n'])) == u,
        base_of(u) matches Ok(v) ==> stored_url(u) == Ok::<Seq<char>, Seq<char>>(v),
        base_of(u) matches Err(e) ==> (stored_url(u) matches Err(m) && ends(m, e)),
{
    trimmed_text_stays(u);
    let s = seq![' '] + u + seq!['\n'];
    assert(trimmed(s) == u) by {
        assert(s[0] == ' ' && s.skip(1) =~= u + seq!['\n']);
        assert(is_space(' ') && is_space('\n'));
        let t = u + seq!['\n'];
        assert(t[0] == u[0]);
        assert(cut_front(s, CharSet::Space) == cut_front(t, CharSet::Space));
        assert(cut_front(t, CharSet::Space) == t);
        assert(t.last() == '\n' && t.drop_last() =~= u);
        assert(cut_back(t, CharSet::Space) == cut_back(u, CharSet::Space));
        assert(cut_back(u, CharSet::Space) == u);
    }
    if let Err(e) = base_of(u) {
        lemma_ends("rejected URL: "@, e);
    }
}

/// A session that was found in what was pasted is taken, and else the last word of it.
pub proof fn a_session_is_found_or_is_the_last_word(found: Seq<char>, front: Seq<char>, word: Seq<char>)
    requires
        word.len() > 0,
        !word.contains(';'),
        forall|i: int| 0 <= i < word.len() ==> !is_space(#[trigger] word[i]),
        word[0] != '"' && word[0] != '\'',
        word.last() != '"' && word.last() != '\'',
        front.len() == 0 || is_space(front.last()),
    ensures
        session_in(Some(found), front + word) == found,
        session_in(None, front + word) == word,
{
    lemma_last_word(front, word);
    cutting_stops_at_the_first_other(word, CharSet::Quote);
    unsplit_text_is_one_part(word, ';');
}

proof fn lemma_last_word(front: Seq<char>, word: Seq<char>)
    requires
        forall|i: int| 0 <= i < word.len() ==> !is_space(#[trigger] word[i]),
        front.len() == 0 || is_space(front.last()),
    ensures
        last_word(front + word) == word,
    decreases word.len(),
{
    let s = front + word;
    if word.len() > 0 {
        assert(s.last() == word.last());
        assert(!is_space(word[word.len() - 1]));
        assert(s.drop_last() =~= front + word.drop_last());
        lemma_last_word(front, word.drop_last());
        assert(word.drop_last().push(word.last()) =~= word);
    } else {
        assert(s =~= front);
        assert(last_word(s) =~= word);
    }
}

/// A credential that is taken is the one in what was given, and it is never empty; what is refused
/// holds none, or is an empty clipboard.
pub proof fn a_credential_is_never_empty(kind: Credential, place: Place, raw: Seq<char>)
    ensures
        match credential_in(kind, place, raw) {
            Ok(tok) => tok.len() > 0 && tok == (match kind {
                Credential::Cookie => cookie_in(raw),
                Credential::Token => token_in(raw),
            }),
            Err(_) => (match kind {
                Credential::Cookie => cookie_in(raw),
                Credential::Token => token_in(raw),
            }).len() == 0 || (place == Place::Clipboard && trimmed(raw).len() == 0),
        },
{
}

/// Credentials are refused by two statuses, a request succeeds in the two hundreds, and the way to
/// a dashboard goes on in the three hundreds.
pub proof fn statuses_mean_what_they_mean(status: u16)
    ensures
        refuses(status) <==> status == 401 || status == 403,
        succeeds(status) <==> 200 <= status <= 299,
        crate::dashboard::follow::redirects(status) <==> 300 <= status <= 399,
{
}

/// That the credentials work is said with how many datasources can be reached and with the name of
/// each of them; that they do not, with the status.
pub proof fn working_credentials_are_told_with_their_sources(
    status: u16,
    body: Seq<char>,
    list: Seq<JsonView>,
    base: Seq<char>,
    has_token: bool,
    i: int,
)
    requires
        0 <= i < loki_sources(list).len(),
    ensures
        succeeds(status) ==> begins(auth_note(status, body, JsonView::Array(list), base, has_token), "auth OK via "@)
            && holds(auth_note(status, body, JsonView::Array(list), base, has_token), loki_sources(list)[i].1) && holds(
            auth_note(status, body, JsonView::Array(list), base, has_token),
            decimal(loki_sources(list).len()) + " usable Loki datasource(s)"@,
        ),
        status == 401 || status == 403 ==> begins(
            auth_note(status, body, JsonView::Array(list), base, has_token),
            "auth FAILED ("@ + decimal(status as nat) + ")"@,
        ),
{
    let note = auth_note(status, body, JsonView::Array(list), base, has_token);
    let mode = auth_mode(has_token);
    let none = Seq::<char>::empty();
    if succeeds(status) {
        let ds = loki_sources(list);
        let names = source_names(ds);
        let all = crate::text::joined(names, ", "@);
        let n = decimal(names.len());
        assert(names[i] == ds[i].1);
        joined_text_holds_its_parts(names, ", "@, i);
        reveal_strlit(" usable Loki datasource(s): ");
        reveal_strlit(" usable Loki datasource(s)");
        let usable = " usable Loki datasource(s)"@;
        let colon = " usable Loki datasource(s): "@.skip(26);
        assert(" usable Loki datasource(s): "@ =~= usable + colon);
        let front = "auth OK via "@ + mode + " — "@;
        a_whole_holds_its_middle("auth OK via "@, mode, " — "@ + n + (usable + colon) + all);
        assert(note =~= "auth OK via "@ + mode + (" — "@ + n + (usable + colon) + all));
        lemma_begins("auth OK via "@, mode, " — "@ + n + (usable + colon) + all);
        a_whole_holds_its_middle(front, n + usable, colon + all);
        assert(note =~= front + (n + usable) + (colon + all));
        a_whole_holds_its_middle(front + n + (usable + colon), all, none);
        assert(note =~= front + n + (usable + colon) + all + none);
        super::texts::holding_is_handed_on(note, all, ds[i].1);
    }
    if status == 401 || status == 403 {
        reveal_strlit(") via ");
        reveal_strlit(")");
        let head = "auth FAILED ("@ + decimal(status as nat) + ")"@;
        let via = ") via "@.skip(1);
        assert(") via "@ =~= ")"@ + via);
        assert(note.subrange(0, head.len() as int) =~= head);
    }
}

proof fn lemma_begins(a: Seq<char>, b: Seq<char>, c: Seq<char>)
    ensures
        begins(a + b + c, a),
{
    let s = a + b + c;
    assert(s.subrange(0, a.len() as int) =~= a);
}

/// The cache is used for nothing that is asked for by name and for nothing that is to be looked up
/// again, and a datasource in it is taken by its number and name.
pub proof fn the_cache_is_used_where_nothing_is_asked_for(want: Option<Seq<char>>, refresh: bool, text: Seq<char>)
    ensures
        want is Some || refresh ==> cached_source(want, refresh, Some(text)) is None,
        cached_source(want, refresh, None) is None,
        want is None && !refresh ==> (cached_source(want, refresh, Some(text)) matches Some(d) ==> whole_of(
            member(json_or_null(text), "id"@),
        ) == Some(d.0) && str_at(json_or_null(text), "name"@) == Some(d.1)),
{
}

/// The header of a rotation is the cookie that is stored, as it is sent; without one there is none.
pub proof fn a_rotation_sends_the_stored_cookie(raw: Seq<char>, path: Seq<char>)
    ensures
        header_from(Some(raw), path) == Ok::<Seq<char>, Seq<char>>(cookie_sent(raw)),
        header_from(None, path) matches Err(e) && holds(e, path),
{
    let rest = "\n  set it: gflog cookie   (copies the grafana_session value from your clipboard)"@;
    a_whole_holds_its_middle("no cookie at "@, path, rest);
}

/// Removing the token comes before checking it, and checking before storing; an argument comes
/// before the standard input, and the standard input before the clipboard.
pub proof fn options_decide_in_one_order(
    action: CredentialAction,
    value: Option<Seq<char>>,
    stdin: bool,
    test: bool,
    clear: bool,
)
    requires
        asked_for(action, value, stdin, test, clear),
    ensures
        action is Clear <==> clear,
        action is Test <==> !clear && test,
        action matches CredentialAction::Store(input) ==> (input is Argument <==> value is Some) && (input is Stdin
            <==> value is None && stdin) && (input is Clipboard <==> value is None && !stdin),
        action matches CredentialAction::Store(Input::Argument(s)) ==> value == Some(s@),
{
}

/// What is said of removing the token names the file that was removed or could not be.
pub proof fn a_removal_names_its_file(path: Seq<char>, why: String)
    ensures
        removal_note(path, Removal::Removed) matches Ok(m) && holds(m, path),
        removal_note(path, Removal::Missing) is Ok,
        removal_note(path, Removal::Failed(why)) matches Err(m) && holds(m, path) && ends(m, why@),
{
    a_whole_holds_its_middle("removed "@, path, " — reverted to cookie auth"@);
    a_whole_holds_its_middle("cannot remove "@, path, ": "@ + why@);
    let m = removal_note(path, Removal::Failed(why))->Err_0;
    assert(m =~= "cannot remove "@ + path + (": "@ + why@));
    a_whole_holds_its_middle("cannot remove "@ + path, ": "@, why@);
}

/// A status that neither succeeds nor refuses is told with its number and the front of the body;
/// a refusal says how to set the kind of credentials that were refused.
pub proof fn a_refusal_says_what_to_set(
    status: u16,
    body: Seq<char>,
    list: JsonView,
    base: Seq<char>,
    has_token: bool,
)
    ensures
        !(200 <= status <= 299) && status != 401 && status != 403 ==> begins(
            auth_note(status, body, list, base, has_token),
            "unexpected HTTP "@ + decimal(status as nat),
        ) && ends(auth_note(status, body, list, base, has_token), first_chars(body, 300)),
        holds(refusal(status, body, true), "gflog token --test"@),
        holds(refusal(status, body, false), "gflog cookie\n"@),
{
    let front = "unexpected HTTP "@ + decimal(status as nat);
    lemma_begins(front, ": "@, first_chars(body, 300));
    lemma_told("unexpected HTTP "@, decimal(status as nat), ": "@, first_chars(body, 300));
    reveal_strlit("token rejected — check/replace it:\n  gflog token --test");
    reveal_strlit("gflog token --test");
    let hint = "token rejected — check/replace it:\n  gflog token --test"@;
    let lead = "auth failed ("@ + decimal(status as nat) + "). "@;
    let rest = "\n"@ + first_chars(body, 300);
    let at = hint.len() - "gflog token --test"@.len();
    assert(hint.skip(at) =~= "gflog token --test"@);
    assert(hint =~= hint.take(at) + "gflog token --test"@);
    a_whole_holds_its_middle(lead + hint.take(at), "gflog token --test"@, rest);
    assert(refusal(status, body, true) =~= lead + hint.take(at) + "gflog token --test"@ + rest);
    reveal_strlit(
        "session expired and the refresh attempt failed — re-copy the cookie:\n  gflog cookie\n(tip: a service-account Bearer token never rotates and avoids this — see `gflog token`)",
    );
    reveal_strlit("gflog cookie\n");
    let other =
        "session expired and the refresh attempt failed — re-copy the cookie:\n  gflog cookie\n(tip: a service-account Bearer token never rotates and avoids this — see `gflog token`)"@;
    assert(other.subrange(71, 84) =~= "gflog cookie\n"@);
    a_whole_holds_its_middle(lead + other.take(71), "gflog cookie\n"@, other.skip(84) + rest);
    assert(refusal(status, body, false) =~= lead + other.take(71) + "gflog cookie\n"@ + (other.skip(84) + rest));
}

} // verus!
