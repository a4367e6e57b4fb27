//! Where Grafana is: the base URL, which must not leak credentials in cleartext.

use super::scope::text_outcome;
use crate::text::{
    begins, cut_back, ends, ends_with, head_of, head_part, opt_str, owned, past_prefix, quote, quoted,
    strip_prefix, tail_of, tail_part, trim, trim_back, trimmed, CharSet,
};
use vstd::prelude::*;

verus! {

/// The host in the authority of a URL: what follows the credentials, without the port.
pub open spec fn host_in(authority: Seq<char>) -> Seq<char> {
    head_part(tail_part(authority, '@'), ':')
}

/// Whether the host in the authority of a URL is this machine.
pub open spec fn is_local(authority: Seq<char>) -> bool {
    let bare = host_in(authority);
    bare == "localhost"@ || bare == "127.0.0.1"@ || bare == "::1"@ || ends(bare, ".localhost"@)
}

/// Tells whether the host in the authority of a URL is this machine.
pub fn is_local_host(host: &str) -> (r: bool)
    ensures
        r == is_local(host@),
{
    let bare = head_of(tail_of(host, '@').as_str(), ':');
    let bare = bare.as_str();
    *bare == *"localhost" || *bare == *"127.0.0.1" || *bare == *"::1" || ends_with(bare, ".localhost")
}

/// A URL without white space around it and without slashes at its end.
pub open spec fn tidy_url(raw: Seq<char>) -> Seq<char> {
    cut_back(trimmed(raw), CharSet::Only('/'))
}

/// The authority at the front of what follows the scheme of a URL. It ends at a slash of either
/// kind, at a query or at a fragment.
pub open spec fn authority_of(rest: Seq<char>) -> Seq<char> {
    head_part(head_part(head_part(head_part(rest, '/'), '\\'), '?'), '#')
}

fn find_authority(rest: &str) -> (r: String)
    ensures
        r@ == authority_of(rest@),
{
    let r = head_of(rest, '/');
    let r = head_of(r.as_str(), '\\');
    let r = head_of(r.as_str(), '?');
    head_of(r.as_str(), '#')
}

/// The base URL that a text stands for: `https`, or `http` to this machine.
pub open spec fn base_of(raw: Seq<char>) -> Result<Seq<char>, Seq<char>> {
    let u = tidy_url(raw);
    if u.len() == 0 {
        Err("empty URL"@)
    } else {
        match past_prefix(u, "https://"@) {
            Some(h) => if head_part(h, '/').len() == 0 {
                Err("URL has no host"@)
            } else {
                Ok(u)
            },
            None => match past_prefix(u, "http://"@) {
                Some(h) => if is_local(authority_of(h)) {
                    Ok(u)
                } else {
                    Err(
                        "refusing http:// for non-local host "@ + quoted(head_part(h, '/'))
                            + " — your token/cookie would be sent in cleartext. Use https://"@,
                    )
                },
                None => Err("URL must start with https:// (got "@ + quoted(u) + ")"@),
            },
        }
    }
}

/// Reads a base URL.
pub fn normalize_url(raw: &str) -> (r: Result<String, String>)
    ensures
        text_outcome(r) == base_of(raw@),
{
    let u = trim_back(trim(raw).as_str(), CharSet::Only('/'));
    if u.as_str().is_empty() {
        return Err(owned("empty URL"));
    }
    if let Some(h) = strip_prefix(u.as_str(), "https://") {
        let host = head_of(h.as_str(), '/');
        return if host.as_str().is_empty() {
            Err(owned("URL has no host"))
        } else {
            Ok(u)
        };
    }
    if let Some(h) = strip_prefix(u.as_str(), "http://") {
        let host = head_of(h.as_str(), '/');
        if is_local_host(find_authority(h.as_str()).as_str()) {
            return Ok(u);
        }
        let mut e = owned("refusing http:// for non-local host ");
        e.append(quote(host.as_str()).as_str());
        e.append(" — your token/cookie would be sent in cleartext. Use https://");
        return Err(e);
    }
    let mut e = owned("URL must start with https:// (got ");
    e.append(quote(u.as_str()).as_str());
    e.append(")");
    Err(e)
}

/// A base URL never sends credentials in cleartext to another machine: it is `https`, or the
/// host in its authority is this machine.
pub proof fn base_is_never_cleartext(raw: Seq<char>)
    ensures
        base_of(raw) matches Ok(u) ==> u == tidy_url(raw) && (begins(u, "https://"@) || (past_prefix(
            u,
            "http://"@,
        ) matches Some(h) && is_local(authority_of(h)))),
{
}

/// The text of a file or of a variable, where it is not blank.
pub open spec fn unless_blank(o: Option<Seq<char>>) -> Option<Seq<char>> {
    match o {
        Some(s) if trimmed(s).len() > 0 => Some(s),
        _ => None,
    }
}

/// The base URL: what the environment says, or what the file holds; `path` is where the file is.
pub open spec fn base_from(env: Option<Seq<char>>, file: Option<Seq<char>>, path: Seq<char>) -> Result<
    Seq<char>,
    Seq<char>,
> {
    let raw = match unless_blank(env) {
        Some(s) => Some(s),
        None => match unless_blank(file) {
            Some(s) => Some(trimmed(s)),
            None => None,
        },
    };
    match raw {
        Some(u) => match base_of(u) {
            Ok(v) => Ok(v),
            Err(e) => Err("invalid Grafana URL ("@ + trimmed(u) + "): "@ + e),
        },
        None => Err(
            "no Grafana URL set. Set one:\n  gflog url https://grafana.example.com\nor export GRAFANA_URL (checked $GRAFANA_URL and "@
                + path + ")"@,
        ),
    }
}

fn bad_base(u: &str, e: &str) -> (r: String)
    ensures
        r@ == "invalid Grafana URL ("@ + trimmed(u@) + "): "@ + e@,
{
    let mut s = owned("invalid Grafana URL (");
    s.append(trim(u).as_str());
    s.append("): ");
    s.append(e);
    s
}

/// Finds the base URL.
pub fn base(env: Option<&str>, file: Option<&str>, path: &str) -> (r: Result<String, String>)
    ensures
        text_outcome(r) == base_from(opt_str(env), opt_str(file), path@),
{
    if let Some(u) = env {
        if !trim(u).as_str().is_empty() {
            return match normalize_url(u) {
                Ok(v) => Ok(v),
                Err(e) => Err(bad_base(u, e.as_str())),
            };
        }
    }
    if let Some(f) = file {
        let u = trim(f);
        if !u.as_str().is_empty() {
            return match normalize_url(u.as_str()) {
                Ok(v) => Ok(v),
                Err(e) => Err(bad_base(u.as_str(), e.as_str())),
            };
        }
    }
    let mut e = owned(
        "no Grafana URL set. Set one:\n  gflog url https://grafana.example.com\nor export GRAFANA_URL (checked $GRAFANA_URL and ",
    );
    e.append(path);
    e.append(")");
    Err(e)
}

/// The environment decides on the base URL wherever it says anything.
pub proof fn environment_comes_first(
    env: Seq<char>,
    file: Option<Seq<char>>,
    other: Option<Seq<char>>,
    path: Seq<char>,
)
    requires
        trimmed(env).len() > 0,
    ensures
        base_from(Some(env), file, path) == base_from(Some(env), other, path),
{
}

/// What is done with a URL that is given: it is stored, or the reason why not.
pub open spec fn stored_url(value: Seq<char>) -> Result<Seq<char>, Seq<char>> {
    match base_of(value) {
        Ok(v) => Ok(v),
        Err(e) => Err("rejected URL: "@ + e),
    }
}

/// Reads a URL that is to be stored.
pub fn url_to_store(value: &str) -> (r: Result<String, String>)
    ensures
        text_outcome(r) == stored_url(value@),
{
    match normalize_url(value) {
        Ok(v) => Ok(v),
        Err(e) => {
            let mut s = owned("rejected URL: ");
            s.append(e.as_str());
            Err(s)
        },
    }
}

/// Says that a URL was stored.
pub fn url_stored(path: &str, value: &str) -> (r: String)
    ensures
        r@ == "wrote "@ + path@ + " = "@ + value@,
{
    let mut s = owned("wrote ");
    s.append(path);
    s.append(" = ");
    s.append(value);
    s
}

/// The URL in force, or that there is none.
pub open spec fn url_shown(file: Option<Seq<char>>) -> Seq<char> {
    match unless_blank(file) {
        Some(s) => trimmed(s),
        None => "no URL set — run `gflog url <https://...>` or export GRAFANA_URL"@,
    }
}

/// Shows the URL that the file holds.
pub fn show_url(file: Option<&str>) -> (r: String)
    ensures
        r@ == url_shown(opt_str(file)),
{
    if let Some(f) = file {
        let u = trim(f);
        if !u.as_str().is_empty() {
            return u;
        }
    }
    owned("no URL set — run `gflog url <https://...>` or export GRAFANA_URL")
}

} // verus!
