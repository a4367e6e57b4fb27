//! Credentials: tokens, session cookies, and how both are read and kept.

use super::address::unless_blank;
use super::scope::text_outcome;
use crate::patterns::{find_group, first_group, SESSION_COOKIE};
use crate::number::{decimal, nat_to_text, size_to_text};
use crate::text::{
    char_count, chars_of, contains_char, cut_back, cut_front, first_chars, head_of, head_part, is_space,
    last_chars, opt_str, opt_text, owned, past_prefix, push_text, replace_char, space, strip_prefix, tail_of, tail_part,
    take_last_chars, text_between, texts, trim, trim_both, trim_front, trimmed, with_replaced, CharSet,
};
use vstd::prelude::*;

verus! {

/// A text without white space around it, where it is not blank.
pub open spec fn trimmed_unless_blank(o: Option<Seq<char>>) -> Option<Seq<char>> {
    match unless_blank(o) {
        Some(s) => Some(trimmed(s)),
        None => None,
    }
}

fn tidy(o: Option<&str>) -> (r: Option<String>)
    ensures
        opt_text(r) == trimmed_unless_blank(opt_str(o)),
{
    match o {
        Some(s) => {
            let t = trim(s);
            if t.as_str().is_empty() {
                None
            } else {
                Some(t)
            }
        },
        None => None,
    }
}

/// The token in force: what the environment says, or what the file holds.
pub open spec fn token_from(env: Option<Seq<char>>, file: Option<Seq<char>>) -> Option<Seq<char>> {
    match trimmed_unless_blank(env) {
        Some(t) => Some(t),
        None => trimmed_unless_blank(file),
    }
}

/// Finds the token in force.
pub fn token_value(env: Option<&str>, file: Option<&str>) -> (r: Option<String>)
    ensures
        opt_text(r) == token_from(opt_str(env), opt_str(file)),
{
    match tidy(env) {
        Some(t) => Some(t),
        None => tidy(file),
    }
}

/// How a request proves who sends it.
pub enum Auth {
    Bearer(String),
    Cookie(String),
}

/// The model of how a request proves who sends it.
#[verifier::ext_equal]
pub enum AuthView {
    Bearer(Seq<char>),
    Cookie(Seq<char>),
}

impl View for Auth {
    type V = AuthView;

    open spec fn view(&self) -> AuthView {
        match self {
            Auth::Bearer(t) => AuthView::Bearer(t@),
            Auth::Cookie(c) => AuthView::Cookie(c@),
        }
    }
}

/// A cookie as it is sent: what is stored, with the name of the session cookie in front where
/// there is no name.
pub open spec fn cookie_sent(raw: Seq<char>) -> Seq<char> {
    if trimmed(raw).contains('=') {
        trimmed(raw)
    } else {
        "grafana_session="@ + trimmed(raw)
    }
}

fn send_cookie(raw: &str) -> (r: String)
    ensures
        r@ == cookie_sent(raw@),
{
    let t = trim(raw);
    if contains_char(t.as_str(), '=') {
        t
    } else {
        let mut s = owned("grafana_session=");
        s.append(t.as_str());
        s
    }
}

/// The credentials in force: the token, or the cookie that is stored, or where they were looked
/// for.
pub open spec fn auth_from(
    token: Option<Seq<char>>,
    cookie: Option<Seq<char>>,
    token_path: Seq<char>,
    cookie_path: Seq<char>,
) -> Result<AuthView, Seq<char>> {
    match (token, cookie) {
        (Some(t), _) => Ok(AuthView::Bearer(t)),
        (None, Some(raw)) => Ok(AuthView::Cookie(cookie_sent(raw))),
        (None, None) => Err(
            "no credentials. Set one:\n  gflog token    (service-account Bearer token — preferred, no browser collision)\n  gflog cookie   (copies the grafana_session value from your clipboard)\nlooked in $GRAFANA_TOKEN, "@
                + token_path + ", "@ + cookie_path,
        ),
    }
}

/// Finds the credentials in force.
pub fn resolve_auth(token: Option<&str>, cookie: Option<&str>, token_path: &str, cookie_path: &str) -> (r: Result<
    Auth,
    String,
>)
    ensures
        match r {
            Ok(a) => auth_from(opt_str(token), opt_str(cookie), token_path@, cookie_path@) == Ok::<
                AuthView,
                Seq<char>,
            >(a@),
            Err(e) => auth_from(opt_str(token), opt_str(cookie), token_path@, cookie_path@) == Err::<
                AuthView,
                Seq<char>,
            >(e@),
        },
{
    if let Some(t) = token {
        return Ok(Auth::Bearer(owned(t)));
    }
    match cookie {
        Some(raw) => Ok(Auth::Cookie(send_cookie(raw))),
        None => {
            let mut e = owned(
                "no credentials. Set one:\n  gflog token    (service-account Bearer token — preferred, no browser collision)\n  gflog cookie   (copies the grafana_session value from your clipboard)\nlooked in $GRAFANA_TOKEN, ",
            );
            e.append(token_path);
            e.append(", ");
            e.append(cookie_path);
            Err(e)
        },
    }
}

/// Credentials are resolved in one order: the token of the environment, the token that is
/// stored, the cookie that is stored.
pub proof fn token_comes_before_cookie(
    env: Option<Seq<char>>,
    file: Option<Seq<char>>,
    cookie: Option<Seq<char>>,
    token_path: Seq<char>,
    cookie_path: Seq<char>,
)
    ensures
        unless_blank(env) matches Some(t) ==> auth_from(
            token_from(env, file),
            cookie,
            token_path,
            cookie_path,
        ) == Ok::<AuthView, Seq<char>>(AuthView::Bearer(trimmed(t))),
        unless_blank(env) is None ==> (unless_blank(file) matches Some(t) ==> auth_from(
            token_from(env, file),
            cookie,
            token_path,
            cookie_path,
        ) == Ok::<AuthView, Seq<char>>(AuthView::Bearer(trimmed(t)))),
        unless_blank(env) is None && unless_blank(file) is None ==> (cookie matches Some(c) ==> auth_from(
            token_from(env, file),
            cookie,
            token_path,
            cookie_path,
        ) == Ok::<AuthView, Seq<char>>(AuthView::Cookie(cookie_sent(c)))),
{
}

/// The header of a rotation: the cookie that is stored, or that there is none.
pub open spec fn header_from(cookie: Option<Seq<char>>, path: Seq<char>) -> Result<Seq<char>, Seq<char>> {
    match cookie {
        Some(raw) => Ok(cookie_sent(raw)),
        None => Err(
            "no cookie at "@ + path
                + "\n  set it: gflog cookie   (copies the grafana_session value from your clipboard)"@,
        ),
    }
}

/// Makes the header of a rotation.
pub fn cookie_header(cookie: Option<&str>, path: &str) -> (r: Result<String, String>)
    ensures
        text_outcome(r) == header_from(opt_str(cookie), path@),
{
    match cookie {
        Some(raw) => Ok(send_cookie(raw)),
        None => {
            let mut e = owned("no cookie at ");
            e.append(path);
            e.append("\n  set it: gflog cookie   (copies the grafana_session value from your clipboard)");
            Err(e)
        },
    }
}

/// The first characters of a text.
pub fn clip<'a>(s: &'a str, n: usize) -> (r: &'a str)
    ensures
        r@ == first_chars(s@, n as int),
{
    let len: usize = char_count(s);
    let to: usize = if n < len {
        n
    } else {
        len
    };
    let r = s.substring_char(0, to);
    assert(r@ =~= first_chars(s@, n as int));
    r
}

/// The value of the session cookie that is stored, or the empty text where none is.
pub open spec fn session_of(cookie: Option<Seq<char>>) -> Seq<char> {
    match cookie {
        Some(raw) => tail_part(trimmed(raw), '='),
        None => ""@,
    }
}

/// Reads the value of the session cookie that is stored.
pub fn session_value(cookie: Option<&str>) -> (r: String)
    ensures
        r@ == session_of(opt_str(cookie)),
{
    match cookie {
        Some(raw) => tail_of(trim(raw).as_str(), '='),
        None => owned(""),
    }
}

/// The session token that a `Set-Cookie` header brings, where it is to be stored: it is one,
/// and not the one that is stored.
pub open spec fn rotated_token(header: Seq<char>, cookie: Option<Seq<char>>) -> Option<Seq<char>> {
    match past_prefix(cut_front(header, CharSet::Space), "grafana_session="@) {
        Some(rest) => {
            let tok = head_part(rest, ';');
            if tok.len() == 0 || tok == "deleted"@ || tok == session_of(cookie) {
                None
            } else {
                Some(tok)
            }
        },
        None => None,
    }
}

fn find_rotated(header: &str, cookie: Option<&str>) -> (r: Option<String>)
    ensures
        opt_text(r) == rotated_token(header@, opt_str(cookie)),
{
    match strip_prefix(trim_front(header, CharSet::Space).as_str(), "grafana_session=") {
        Some(rest) => {
            let tok = head_of(rest.as_str(), ';');
            let cur = session_value(cookie);
            if tok.as_str().is_empty() || *tok.as_str() == *"deleted" || *tok.as_str() == *cur.as_str() {
                None
            } else {
                Some(tok)
            }
        },
        None => None,
    }
}

/// The cookie that is stored once tokens were stored in its place, one after the other.
pub open spec fn cookie_now(tokens: Seq<Seq<char>>, cookie: Option<Seq<char>>) -> Option<Seq<char>> {
    if tokens.len() > 0 {
        Some(tokens.last())
    } else {
        cookie
    }
}

/// The session tokens that the `Set-Cookie` headers of a reply bring, in the order in which they
/// are stored: each is held against the cookie that is stored by then.
pub open spec fn stored_tokens(headers: Seq<Seq<char>>, cookie: Option<Seq<char>>) -> Seq<Seq<char>>
    decreases headers.len(),
{
    if headers.len() == 0 {
        Seq::<Seq<char>>::empty()
    } else {
        let before = stored_tokens(headers.drop_last(), cookie);
        match rotated_token(headers.last(), cookie_now(before, cookie)) {
            Some(t) => before.push(t),
            None => before,
        }
    }
}

/// Finds the session tokens that the `Set-Cookie` headers of a reply bring, in the order in which
/// they are to be stored.
pub fn save_rotated(headers: &Vec<String>, cookie: Option<&str>) -> (r: Vec<String>)
    ensures
        texts(r@) == stored_tokens(texts(headers@), opt_str(cookie)),
{
    let ghost all = texts(headers@);
    let mut out: Vec<String> = Vec::new();
    assert(texts(out@) =~= Seq::<Seq<char>>::empty());
    for i in 0..headers.len()
        invariant
            all == texts(headers@),
            texts(out@) == stored_tokens(all.take(i as int), opt_str(cookie)),
    {
        assert(all.take(i as int + 1).drop_last() =~= all.take(i as int));
        assert(all.take(i as int + 1).last() == headers@[i as int]@);
        let n: usize = out.len();
        assert(texts(out@).len() == n);
        let now: Option<&str> = if n > 0 {
            assert(texts(out@).last() == out@[n - 1]@);
            Some(out[n - 1].as_str())
        } else {
            cookie
        };
        if let Some(t) = find_rotated(headers[i].as_str(), now) {
            push_text(&mut out, t);
        }
    }
    assert(all.take(headers@.len() as int) =~= all);
    out
}

/// The headers of a reply never store an empty token, a deletion, or the value of the session
/// that is stored by then.
pub proof fn rotation_never_stores_a_deletion(headers: Seq<Seq<char>>, cookie: Option<Seq<char>>)
    ensures
        ({
            let tokens = stored_tokens(headers, cookie);
            forall|i: int|
                0 <= i < tokens.len() ==> (#[trigger] tokens[i]).len() > 0 && tokens[i] != "deleted"@ && tokens[i]
                    != session_of(cookie_now(tokens.take(i), cookie))
        }),
    decreases headers.len(),
{
    if headers.len() > 0 {
        rotation_never_stores_a_deletion(headers.drop_last(), cookie);
        let before = stored_tokens(headers.drop_last(), cookie);
        let tokens = stored_tokens(headers, cookie);
        assert forall|i: int| 0 <= i < tokens.len() implies (#[trigger] tokens[i]).len() > 0 && tokens[i]
            != "deleted"@ && tokens[i] != session_of(cookie_now(tokens.take(i), cookie)) by {
            if i < before.len() {
                assert(tokens[i] == before[i]);
                assert(tokens.take(i) =~= before.take(i));
            } else {
                assert(tokens.take(i) =~= before);
            }
        }
    }
}

/// Whether a status refuses the credentials.
pub open spec fn refuses(status: u16) -> bool {
    status == 401 || status == 403
}

/// Tells whether a status refuses the credentials.
pub fn is_auth_err(status: u16) -> (r: bool)
    ensures
        r == refuses(status),
{
    status == 401 || status == 403
}

/// Whether a status is a success.
pub open spec fn succeeds(status: u16) -> bool {
    200 <= status < 300
}

/// Tells whether the cookies that the reply to a rotation brings are stored: those of a refused
/// one are not.
pub fn keeps_rotated(status: u16) -> (r: bool)
    ensures
        r == succeeds(status),
{
    200 <= status && status < 300
}

/// The last word of a text that does not end in white space.
pub open spec fn last_word(s: Seq<char>) -> Seq<char>
    decreases s.len(),
{
    if s.len() == 0 || is_space(s.last()) {
        Seq::<char>::empty()
    } else {
        last_word(s.drop_last()).push(s.last())
    }
}

proof fn lemma_last_word(s: Seq<char>, from: int)
    requires
        0 <= from <= s.len(),
        forall|i: int| from <= i < s.len() ==> !is_space(#[trigger] s[i]),
        from > 0 ==> is_space(s[from - 1]),
    ensures
        last_word(s) == s.skip(from),
    decreases s.len() - from,
{
    if from < s.len() {
        assert(!is_space(s[s.len() - 1]));
        assert forall|i: int| from <= i < s.drop_last().len() implies !is_space(#[trigger] s.drop_last()[i]) by {
            assert(s.drop_last()[i] == s[i]);
        }
        lemma_last_word(s.drop_last(), from);
        assert(s.drop_last().skip(from).push(s.last()) =~= s.skip(from));
    } else {
        assert(last_word(s) =~= s.skip(from));
    }
}

fn find_last_word(s: &str) -> (r: String)
    ensures
        r@ == last_word(s@),
{
    let v = chars_of(s);
    let mut from: usize = v.len();
    while from > 0 && !space(v[from - 1])
        invariant
            v@ == s@,
            from <= v@.len(),
            forall|i: int| from <= i < v@.len() ==> !is_space(#[trigger] v@[i]),
        decreases from,
    {
        from = from - 1;
    }
    proof {
        lemma_last_word(s@, from as int);
        assert(s@.subrange(from as int, s@.len() as int) =~= s@.skip(from as int));
    }
    text_between(&v, from, v.len())
}

/// A text without byte-order marks and without white space around it.
pub open spec fn without_marks(raw: Seq<char>) -> Seq<char> {
    trimmed(with_replaced(raw, '\u{feff}', ""@))
}

fn drop_marks(raw: &str) -> (r: String)
    ensures
        r@ == without_marks(raw@),
{
    trim(replace_char(raw, '\u{feff}', "").as_str())
}

/// A text without quotes around it.
pub open spec fn unquoted(s: Seq<char>) -> Seq<char> {
    cut_back(cut_front(s, CharSet::Quote), CharSet::Quote)
}

/// The session token in a text: the value of the session cookie where one was found in it, or
/// else the last word, without quotes and up to a semicolon.
pub open spec fn session_in(found: Option<Seq<char>>, t: Seq<char>) -> Seq<char> {
    match found {
        Some(v) => v,
        None => head_part(unquoted(last_word(t)), ';'),
    }
}

/// Takes the session token in a text, given the value of the session cookie that was found in it.
pub fn take_session(found: Option<String>, t: &str) -> (r: String)
    ensures
        r@ == session_in(opt_text(found), t@),
{
    match found {
        Some(v) => v,
        None => head_of(trim_both(find_last_word(t).as_str(), CharSet::Quote).as_str(), ';'),
    }
}

/// The session token in what was pasted.
pub open spec fn cookie_in(raw: Seq<char>) -> Seq<char> {
    session_in(first_group(SESSION_COOKIE@, without_marks(raw), 1), without_marks(raw))
}

/// Reads the session token in what was pasted.
pub fn sanitize_cookie(raw: &str) -> (r: String)
    ensures
        r@ == cookie_in(raw@),
{
    let t = drop_marks(raw);
    take_session(find_group(SESSION_COOKIE, t.as_str(), 1), t.as_str())
}

/// The token in what was pasted: without quotes around it, and without `Bearer` in front.
pub open spec fn token_in(raw: Seq<char>) -> Seq<char> {
    let t = trimmed(unquoted(without_marks(raw)));
    trimmed(
        match past_prefix(t, "Bearer "@) {
            Some(rest) => rest,
            None => match past_prefix(t, "bearer "@) {
                Some(rest) => rest,
                None => t,
            },
        },
    )
}

/// Reads the token in what was pasted.
pub fn sanitize_token(raw: &str) -> (r: String)
    ensures
        r@ == token_in(raw@),
{
    let t = trim(trim_both(drop_marks(raw).as_str(), CharSet::Quote).as_str());
    match strip_prefix(t.as_str(), "Bearer ") {
        Some(rest) => trim(rest.as_str()),
        None => match strip_prefix(t.as_str(), "bearer ") {
            Some(rest) => trim(rest.as_str()),
            None => trim(t.as_str()),
        },
    }
}

/// Where a credential comes from.
pub enum Input {
    Argument(String),
    Stdin,
    Clipboard,
}

/// The place that a credential comes from.
#[derive(Clone, Copy, PartialEq, Eq, Structural)]
pub enum Place {
    Argument,
    Stdin,
    Clipboard,
}

/// The name of a place.
pub open spec fn place_name(p: Place) -> Seq<char> {
    match p {
        Place::Argument => "argument"@,
        Place::Stdin => "stdin"@,
        Place::Clipboard => "clipboard"@,
    }
}

fn name_place(p: Place) -> (r: &'static str)
    ensures
        r@ == place_name(p),
{
    match p {
        Place::Argument => "argument",
        Place::Stdin => "stdin",
        Place::Clipboard => "clipboard",
    }
}

/// Which credential is meant.
#[derive(Clone, Copy, PartialEq, Eq, Structural)]
pub enum Credential {
    Cookie,
    Token,
}

/// What a command on a credential does: check it, remove it, or store a new one.
pub enum CredentialAction {
    Test,
    Clear,
    Store(Input),
}

/// Whether an action is the one that the options ask for: removing comes before checking, and
/// an argument before the standard input before the clipboard.
pub open spec fn asked_for(
    action: CredentialAction,
    value: Option<Seq<char>>,
    stdin: bool,
    test: bool,
    clear: bool,
) -> bool {
    match action {
        CredentialAction::Clear => clear,
        CredentialAction::Test => !clear && test,
        CredentialAction::Store(input) => !clear && !test && match input {
            Input::Argument(s) => value == Some(s@),
            Input::Stdin => value is None && stdin,
            Input::Clipboard => value is None && !stdin,
        },
    }
}

fn action_for(value: Option<String>, stdin: bool, test: bool, clear: bool) -> (r: CredentialAction)
    ensures
        asked_for(r, opt_text(value), stdin, test, clear),
{
    if clear {
        CredentialAction::Clear
    } else if test {
        CredentialAction::Test
    } else {
        match value {
            Some(v) => CredentialAction::Store(Input::Argument(v)),
            None => if stdin {
                CredentialAction::Store(Input::Stdin)
            } else {
                CredentialAction::Store(Input::Clipboard)
            },
        }
    }
}

/// Decides what the command on the cookie does.
pub fn cmd_cookie(value: Option<String>, stdin: bool, test: bool) -> (r: CredentialAction)
    ensures
        asked_for(r, opt_text(value), stdin, test, false),
{
    action_for(value, stdin, test, false)
}

/// Decides what the command on the token does.
pub fn cmd_token(value: Option<String>, stdin: bool, test: bool, clear: bool) -> (r: CredentialAction)
    ensures
        asked_for(r, opt_text(value), stdin, test, clear),
{
    action_for(value, stdin, test, clear)
}

/// The credential in what was given, or why there is none.
pub open spec fn credential_in(kind: Credential, place: Place, raw: Seq<char>) -> Result<Seq<char>, Seq<char>> {
    let tok = match kind {
        Credential::Cookie => cookie_in(raw),
        Credential::Token => token_in(raw),
    };
    if place == Place::Clipboard && trimmed(raw).len() == 0 {
        Err(
            match kind {
                Credential::Cookie =>
                    "clipboard empty — pass the value as an argument or pipe it with --stdin"@,
                Credential::Token =>
                    "clipboard empty — pass the token as an argument or pipe it with --stdin"@,
            },
        )
    } else if tok.len() == 0 {
        Err(
            match kind {
                Credential::Cookie => "could not parse a cookie token from "@,
                Credential::Token => "could not parse a token from "@,
            } + place_name(place),
        )
    } else {
        Ok(tok)
    }
}

/// Reads the credential in what was given.
pub fn accept_credential(kind: Credential, place: Place, raw: &str) -> (r: Result<String, String>)
    ensures
        text_outcome(r) == credential_in(kind, place, raw@),
{
    if matches!(place, Place::Clipboard) && trim(raw).as_str().is_empty() {
        return Err(
            match kind {
                Credential::Cookie => owned(
                    "clipboard empty — pass the value as an argument or pipe it with --stdin",
                ),
                Credential::Token => owned(
                    "clipboard empty — pass the token as an argument or pipe it with --stdin",
                ),
            },
        );
    }
    let tok = match kind {
        Credential::Cookie => sanitize_cookie(raw),
        Credential::Token => sanitize_token(raw),
    };
    if tok.as_str().is_empty() {
        let mut e = match kind {
            Credential::Cookie => owned("could not parse a cookie token from "),
            Credential::Token => owned("could not parse a token from "),
        };
        e.append(name_place(place));
        return Err(e);
    }
    Ok(tok)
}

/// That a credential was stored: where, from where, and how it ends.
pub open spec fn stored_note(path: Seq<char>, place: Place, tok: Seq<char>) -> Seq<char> {
    "wrote "@ + path + " from "@ + place_name(place) + " (token …"@ + last_chars(tok, 6) + ", "@ + decimal(
        tok.len(),
    ) + " chars)"@
}

/// Says that a credential was stored.
pub fn note_stored(path: &str, place: Place, tok: &str) -> (r: String)
    ensures
        r@ == stored_note(path@, place, tok@),
{
    let mut s = owned("wrote ");
    s.append(path);
    s.append(" from ");
    s.append(name_place(place));
    s.append(" (token …");
    s.append(take_last_chars(tok, 6).as_str());
    s.append(", ");
    s.append(size_to_text(char_count(tok)).as_str());
    s.append(" chars)");
    s
}

/// What came of removing a file.
pub enum Removal {
    Removed,
    Missing,
    Failed(String),
}

/// What is said of removing the token.
pub open spec fn removal_note(path: Seq<char>, removal: Removal) -> Result<Seq<char>, Seq<char>> {
    match removal {
        Removal::Removed => Ok("removed "@ + path + " — reverted to cookie auth"@),
        Removal::Missing => Ok("no token file to remove"@),
        Removal::Failed(e) => Err("cannot remove "@ + path + ": "@ + e@),
    }
}

/// Says what came of removing the token.
pub fn note_removal(path: &str, removal: &Removal) -> (r: Result<String, String>)
    ensures
        text_outcome(r) == removal_note(path@, *removal),
{
    match removal {
        Removal::Removed => {
            let mut s = owned("removed ");
            s.append(path);
            s.append(" — reverted to cookie auth");
            Ok(s)
        },
        Removal::Missing => Ok(owned("no token file to remove")),
        Removal::Failed(e) => {
            let mut s = owned("cannot remove ");
            s.append(path);
            s.append(": ");
            s.append(e.as_str());
            Err(s)
        },
    }
}

/// How the rotation of a session begins.
pub enum RotationStart {
    /// there is a token, which never rotates
    NotNeeded,
    /// there is no cookie to rotate
    Impossible,
    /// post this body to this path with this cookie; the session had this value before
    Post { path: String, body: String, cookie: String, before: String },
}

/// Begins the rotation of a session.
pub fn start_rotation(has_token: bool, cookie: Option<&str>) -> (r: RotationStart)
    ensures
        match r {
            RotationStart::NotNeeded => has_token,
            RotationStart::Impossible => !has_token && cookie is None,
            RotationStart::Post { path, body, cookie: c, before } => !has_token && (opt_str(cookie) matches Some(
                raw,
            ) && path@ == "/api/user/auth-tokens/rotate"@ && body@ == "{}"@ && c@ == cookie_sent(raw) && before@
                == session_of(Some(raw))),
        },
{
    if has_token {
        return RotationStart::NotNeeded;
    }
    match cookie {
        Some(raw) => RotationStart::Post {
            path: owned("/api/user/auth-tokens/rotate"),
            body: owned("{}"),
            cookie: send_cookie(raw),
            before: session_value(Some(raw)),
        },
        None => RotationStart::Impossible,
    }
}

/// What is said where a session need not be rotated.
pub fn rotation_not_needed() -> (r: String)
    ensures
        r@ == "using a Bearer token — session rotation not applicable"@,
{
    owned("using a Bearer token — session rotation not applicable")
}

/// What is said of a rotation, once the reply is there and the cookie that it brought is stored.
pub open spec fn rotation_note(status: u16, before: Seq<char>, after: Seq<char>) -> Seq<char> {
    if !succeeds(status) {
        "rotate failed ("@ + decimal(status as nat)
            + ") — session likely fully expired, re-copy the cookie"@
    } else if after != before {
        "session refreshed (new token …"@ + last_chars(after, 6) + ")"@
    } else {
        "session refreshed (unchanged)"@
    }
}

/// Ends the rotation of a session: whether it worked, and what is said of it.
pub fn rotate(status: u16, before: &str, cookie: Option<&str>) -> (r: (bool, String))
    ensures
        r.0 == succeeds(status),
        r.1@ == rotation_note(status, before@, session_of(opt_str(cookie))),
{
    if !keeps_rotated(status) {
        let mut s = owned("rotate failed (");
        s.append(nat_to_text(status as u64).as_str());
        s.append(") — session likely fully expired, re-copy the cookie");
        return (false, s);
    }
    let after = session_value(cookie);
    if *after.as_str() == *before {
        return (true, owned("session refreshed (unchanged)"));
    }
    let mut s = owned("session refreshed (new token …");
    s.append(take_last_chars(after.as_str(), 6).as_str());
    s.append(")");
    (true, s)
}

} // verus!
