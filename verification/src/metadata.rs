//! Routing hints that a request carries in its metadata: the Codex session it belongs to and an
//! auth it pins.
use vstd::prelude::*;
use vstd::string::*;
use vstd::utf8::encode_utf8;
use crate::json::{as_str, get, parse_json, spec_json_parse, Json, JsonV};
use crate::text::{chars_of, trim, trim_bounds, trim_str};

verus! {

/// A text trimmed, or nothing when it is absent or blank.
pub open spec fn opt_trimmed(v: Option<Seq<char>>) -> Option<Seq<char>> {
    match v {
        Some(s) => if trim(s).len() == 0 {
            None
        } else {
            Some(trim(s))
        },
        None => None,
    }
}

/// The session key of a Codex session id.
pub open spec fn codex_session(id: Seq<char>) -> Seq<char> {
    "codex:"@ + id
}

pub open spec fn opt_codex_session(id: Option<Seq<char>>) -> Option<Seq<char>> {
    match id {
        Some(s) => Some(codex_session(s)),
        None => None,
    }
}

/// Whether the first character after leading whitespace is `{`.
pub open spec fn brace_first(s: Seq<char>) -> bool {
    trim(s).len() > 0 && trim(s)[0] == '{'
}

pub open spec fn opt_str_view(o: Option<&str>) -> Option<Seq<char>> {
    match o {
        Some(s) => Some(s@),
        None => None,
    }
}

pub open spec fn opt_json_view(o: Option<&Json>) -> Option<JsonV> {
    match o {
        Some(j) => Some(j.jv()),
        None => None,
    }
}

pub open spec fn opt_string_view(o: Option<String>) -> Option<Seq<char>> {
    match o {
        Some(s) => Some(s@),
        None => None,
    }
}

/// The session read from a parsed `user_id` object, if it names one as a string; otherwise the
/// metadata's own `session_id`. Either way the session is trimmed, dropped when blank, and
/// prefixed with `codex:`.
pub open spec fn session_after_user_id(parsed: Option<JsonV>, metadata: JsonV) -> Option<Seq<char>> {
    let inner = match parsed {
        Some(p) => as_str(get(p, "session_id"@)),
        None => None,
    };
    match inner {
        Some(sid) => opt_codex_session(opt_trimmed(Some(sid))),
        None => opt_codex_session(opt_trimmed(as_str(get(metadata, "session_id"@)))),
    }
}

/// The Codex session of a request's metadata: `user_id`, when it is a string holding a JSON
/// object, is parsed and its `session_id` taken; else the metadata's `session_id`.
pub open spec fn spec_codex_session_id(metadata: Option<JsonV>) -> Option<Seq<char>> {
    match metadata {
        None => None,
        Some(m) => {
            let parsed = match as_str(get(m, "user_id"@)) {
                Some(v) => if brace_first(v) {
                    spec_json_parse(encode_utf8(v))
                } else {
                    None
                },
                None => None,
            };
            session_after_user_id(parsed, m)
        },
    }
}

/// The auth a request's metadata pins, trimmed; nothing when absent or blank.
pub open spec fn spec_pinned_auth_id(metadata: Option<JsonV>) -> Option<Seq<char>> {
    match metadata {
        Some(m) => opt_trimmed(as_str(get(m, "pinned_auth_id"@))),
        None => None,
    }
}

/// A text trimmed, or nothing when it is absent or blank.
pub fn trim_to_owned(value: Option<&str>) -> (r: Option<String>)
    ensures
        opt_string_view(r) == opt_trimmed(opt_str_view(value)),
{
    match value {
        Some(v) => {
            let t = trim_str(v);
            if t.as_str().unicode_len() == 0 {
                None
            } else {
                Some(t)
            }
        },
        None => None,
    }
}

fn codex_session_string(id: String) -> (r: String)
    ensures
        r@ == codex_session(id@),
{
    let mut out = String::from_str("codex:");
    out.append(id.as_str());
    out
}

fn opt_codex_session_string(id: Option<String>) -> (r: Option<String>)
    ensures
        opt_string_view(r) == opt_codex_session(opt_string_view(id)),
{
    match id {
        Some(s) => Some(codex_session_string(s)),
        None => None,
    }
}

/// What follows parsing `user_id`: the session that the parsed value names, else the metadata's
/// `session_id`.
pub fn session_after_parsed_user_id(parsed: Option<&Json>, metadata: &Json) -> (r: Option<String>)
    ensures
        opt_string_view(r) == session_after_user_id(opt_json_view(parsed), metadata.jv()),
{
    let inner = match parsed {
        Some(p) => match p.get("session_id") {
            Some(x) => x.as_str(),
            None => None,
        },
        None => None,
    };
    proof {
        reveal_strlit("session_id");
    }
    match inner {
        Some(sid) => opt_codex_session_string(trim_to_owned(Some(sid))),
        None => {
            let own = match metadata.get("session_id") {
                Some(x) => x.as_str(),
                None => None,
            };
            opt_codex_session_string(trim_to_owned(own))
        },
    }
}

fn starts_with_brace(s: &str) -> (r: bool)
    ensures
        r == brace_first(s@),
{
    let v = chars_of(s);
    let (a, b) = trim_bounds(v.as_slice());
    proof {
        if a < b {
            assert(trim(v@)[0] == v@[a as int]);
        }
    }
    a < b && v[a] == '{'
}

/// The Codex session a request's metadata names, as `codex:<id>`.
pub fn extract_codex_session_id(metadata: Option<&Json>) -> (r: Option<String>)
    ensures
        opt_string_view(r) == spec_codex_session_id(opt_json_view(metadata)),
{
    let m = match metadata {
        Some(m) => m,
        None => return None,
    };
    let user_id = match m.get("user_id") {
        Some(x) => x.as_str(),
        None => None,
    };
    let parsed = match user_id {
        Some(v) => if starts_with_brace(v) {
            parse_json(v.as_bytes())
        } else {
            None
        },
        None => None,
    };
    let r = match &parsed {
        Some(p) => session_after_parsed_user_id(Some(p), m),
        None => session_after_parsed_user_id(None, m),
    };
    r
}

/// The auth a request's metadata pins, trimmed.
pub fn extract_pinned_auth_id(metadata: Option<&Json>) -> (r: Option<String>)
    ensures
        opt_string_view(r) == spec_pinned_auth_id(opt_json_view(metadata)),
{
    match metadata {
        Some(m) => {
            let id = match m.get("pinned_auth_id") {
                Some(x) => x.as_str(),
                None => None,
            };
            trim_to_owned(id)
        },
        None => None,
    }
}

} // verus!
