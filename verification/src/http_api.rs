//! The rules of the HTTP surface: error bodies, the caller's API key, the usage-queue pop count
//! and the checks on a snapshot notification.
use vstd::prelude::*;
use vstd::string::*;
use crate::json::{lemma_jv_object, lemma_members_len, members, Json, JsonV};
use crate::metadata::{opt_str_view, opt_string_view, opt_trimmed, trim_to_owned};
use crate::text::{
    chars_of, eq_ignore_ascii_case, is_blank, blank, lower, slice_chars, string_of, trim,
    trim_bounds,
};

verus! {

/// An error answer: HTTP status, message, error type and code.
#[derive(Debug, Clone)]
pub struct HttpError {
    pub status: u16,
    pub message: String,
    pub kind: String,
    pub code: String,
}

/// The error body `{"error":{"message":..,"type":..,"code":..}}`.
pub open spec fn spec_error_envelope(message: Seq<char>, kind: Seq<char>, code: Seq<char>) -> JsonV {
    JsonV::Object(
        seq![
            (
                "error"@,
                JsonV::Object(
                    seq![
                        ("message"@, JsonV::Str(message)),
                        ("type"@, JsonV::Str(kind)),
                        ("code"@, JsonV::Str(code)),
                    ],
                ),
            ),
        ],
    )
}

/// The error body `{"error":{"message":..,"type":..,"code":..}}`.
pub fn error_envelope(message: &str, kind: &str, code: &str) -> (r: Json)
    ensures
        r.jv() == spec_error_envelope(message@, kind@, code@),
{
    let mut inner: Vec<(String, Json)> = Vec::new();
    inner.push((String::from_str("message"), Json::Str(String::from_str(message))));
    inner.push((String::from_str("type"), Json::Str(String::from_str(kind))));
    inner.push((String::from_str("code"), Json::Str(String::from_str(code))));
    proof {
        lemma_members_len(inner@);
        assert(members(inner@) =~= seq![
            ("message"@, JsonV::Str(message@)),
            ("type"@, JsonV::Str(kind@)),
            ("code"@, JsonV::Str(code@)),
        ]);
        lemma_jv_object(inner);
    }
    let inner_json = Json::Object(inner);
    let mut outer: Vec<(String, Json)> = Vec::new();
    outer.push((String::from_str("error"), inner_json));
    proof {
        lemma_members_len(outer@);
        assert(members(outer@) =~= seq![("error"@, spec_error_envelope(message@, kind@, code@)->Object_0[0].1)]);
        lemma_jv_object(outer);
    }
    Json::Object(outer)
}

impl HttpError {
    /// An error with the given status, message, type and code.
    pub fn new(status: u16, message: &str, kind: &str, code: &str) -> (r: Self)
        ensures
            r.status == status,
            r.message@ == message@,
            r.kind@ == kind@,
            r.code@ == code@,
    {
        HttpError {
            status,
            message: String::from_str(message),
            kind: String::from_str(kind),
            code: String::from_str(code),
        }
    }

    /// The JSON body of the error.
    pub fn body(&self) -> (r: Json)
        ensures
            r.jv() == spec_error_envelope(self.message@, self.kind@, self.code@),
    {
        error_envelope(self.message.as_str(), self.kind.as_str(), self.code.as_str())
    }
}

/// The body `{"error": message}` of a plain error.
pub fn plain_error_body(message: &str) -> (r: Json)
    ensures
        r.jv() == JsonV::Object(seq![("error"@, JsonV::Str(message@))]),
{
    let mut m: Vec<(String, Json)> = Vec::new();
    m.push((String::from_str("error"), Json::Str(String::from_str(message))));
    proof {
        lemma_members_len(m@);
        assert(members(m@) =~= seq![("error"@, JsonV::Str(message@))]);
        lemma_jv_object(m);
    }
    Json::Object(m)
}

/// Position of the first occurrence of `c` in `s`.
pub open spec fn first_index_of(s: Seq<char>, c: char) -> Option<int>
    decreases s.len(),
{
    if s.len() == 0 {
        None
    } else {
        match first_index_of(s.drop_last(), c) {
            Some(i) => Some(i),
            None => if s.last() == c {
                Some(s.len() - 1)
            } else {
                None
            },
        }
    }
}

/// The bearer token of an `Authorization` value: the trimmed text is split at its first space,
/// the scheme must be `bearer` in any case, and the trimmed rest must not be empty.
pub open spec fn bearer_token(authorization: Option<Seq<char>>) -> Option<Seq<char>> {
    match opt_trimmed(authorization) {
        Some(v) => match first_index_of(v, ' ') {
            Some(i) => {
                let token = trim(v.skip(i + 1));
                if lower(v.take(i)) == "bearer"@ && token.len() > 0 {
                    Some(token)
                } else {
                    None
                }
            },
            None => None,
        },
        None => None,
    }
}

/// The caller's API key: a bearer token from `Authorization`, else `X-Api-Key`, else
/// `X-Goog-Api-Key`, each trimmed and skipped when blank.
pub open spec fn spec_downstream_api_key(
    authorization: Option<Seq<char>>,
    x_api_key: Option<Seq<char>>,
    x_goog_api_key: Option<Seq<char>>,
) -> Option<Seq<char>> {
    match bearer_token(authorization) {
        Some(t) => Some(t),
        None => match opt_trimmed(x_api_key) {
            Some(k) => Some(k),
            None => opt_trimmed(x_goog_api_key),
        },
    }
}

fn first_space(v: &[char]) -> (r: Option<usize>)
    ensures
        r matches Some(i) ==> i < v@.len() && first_index_of(v@, ' ') == Some(i as int),
        r is None <==> first_index_of(v@, ' ') is None,
{
    let mut i: usize = 0;
    while i < v.len()
        invariant
            i <= v@.len(),
            first_index_of(v@.take(i as int), ' ') is None,
        decreases v@.len() - i,
    {
        proof {
            assert(v@.take(i + 1).drop_last() =~= v@.take(i as int));
        }
        if v[i] == ' ' {
            proof {
                lemma_first_index_prefix(v@, (i + 1) as int);
            }
            return Some(i);
        }
        i = i + 1;
    }
    assert(v@.take(i as int) =~= v@);
    None
}

proof fn lemma_first_index_prefix(s: Seq<char>, n: int)
    requires
        0 < n <= s.len(),
        first_index_of(s.take(n - 1), ' ') is None,
        s[n - 1] == ' ',
    ensures
        first_index_of(s, ' ') == Some(n - 1),
    decreases s.len() - n,
{
    assert(s.take(n).drop_last() =~= s.take(n - 1));
    if n < s.len() {
        lemma_first_index_extend(s, n);
    } else {
        assert(s.take(n) =~= s);
    }
}

proof fn lemma_first_index_extend(s: Seq<char>, n: int)
    requires
        0 < n <= s.len(),
        first_index_of(s.take(n), ' ') is Some,
    ensures
        first_index_of(s, ' ') == first_index_of(s.take(n), ' '),
    decreases s.len() - n,
{
    if n < s.len() {
        assert(s.take(n + 1).drop_last() =~= s.take(n));
        lemma_first_index_extend(s, n + 1);
    } else {
        assert(s.take(n) =~= s);
    }
}

fn bearer_of(authorization: Option<&str>) -> (r: Option<String>)
    ensures
        opt_string_view(r) == bearer_token(opt_str_view(authorization)),
{
    let v = match trim_to_owned(authorization) {
        Some(v) => v,
        None => return None,
    };
    let c = chars_of(v.as_str());
    let cs = c.as_slice();
    let i = match first_space(cs) {
        Some(i) => i,
        None => return None,
    };
    let n = cs.len();
    assert(i < n);
    let scheme = slice_chars(cs, 0, i);
    let rest = slice_chars(cs, i + 1, n);
    let (a, b) = trim_bounds(rest.as_slice());
    let token = slice_chars(rest.as_slice(), a, b);
    let bearer = chars_of("bearer");
    proof {
        reveal_strlit("bearer");
        assert(lower("bearer"@) =~= "bearer"@);
        assert(scheme@ =~= v@.take(i as int));
        assert(rest@ =~= v@.skip(i + 1));
    }
    if eq_ignore_ascii_case(scheme.as_slice(), bearer.as_slice()) && token.len() > 0 {
        Some(string_of(token.as_slice()))
    } else {
        None
    }
}

/// The caller's API key from the `Authorization`, `X-Api-Key` and `X-Goog-Api-Key` headers
/// (each given when present and readable as text).
pub fn downstream_api_key(
    authorization: Option<&str>,
    x_api_key: Option<&str>,
    x_goog_api_key: Option<&str>,
) -> (r: Option<String>)
    ensures
        opt_string_view(r) == spec_downstream_api_key(
            opt_str_view(authorization),
            opt_str_view(x_api_key),
            opt_str_view(x_goog_api_key),
        ),
{
    match bearer_of(authorization) {
        Some(t) => Some(t),
        None => match trim_to_owned(x_api_key) {
            Some(k) => Some(k),
            None => trim_to_owned(x_goog_api_key),
        },
    }
}

pub open spec fn count_message() -> Seq<char> {
    "count must be a positive integer"@
}

/// How many usage records a pop takes: one when no count is given; a count of zero is refused.
pub fn usage_pop_count(count: Option<usize>) -> (r: Result<usize, String>)
    ensures
        match count {
            None => r == Ok::<usize, String>(1),
            Some(n) => if n == 0 {
                r matches Err(e) && e@ == count_message()
            } else {
                r == Ok::<usize, String>(n)
            },
        },
{
    match count {
        None => Ok(1),
        Some(0) => Err(String::from_str("count must be a positive integer")),
        Some(n) => Ok(n),
    }
}

pub open spec fn notify_fields_message() -> Seq<char> {
    "snapshot notify payload requires version, generated_at, and reason"@
}

pub open spec fn notify_unavailable_message() -> Seq<char> {
    "snapshot notify unavailable without runtime config client"@
}

/// Whether a snapshot notification is taken: all three fields must be non-blank, and a runtime
/// config client must be there to fetch the snapshot it announces.
pub fn check_snapshot_notify(
    version: &str,
    generated_at: &str,
    reason: &str,
    has_client: bool,
) -> (r: Result<(), HttpError>)
    ensures
        (blank(version@) || blank(generated_at@) || blank(reason@)) ==> (r matches Err(e) && e.status
            == 400 && e.message@ == notify_fields_message() && e.kind@ == "invalid_request_error"@
            && e.code@ == "invalid_request"@),
        !(blank(version@) || blank(generated_at@) || blank(reason@)) && !has_client ==> (r matches Err(
            e,
        ) && e.status == 503 && e.message@ == notify_unavailable_message() && e.kind@
            == "server_error"@ && e.code@ == "snapshot_notify_unavailable"@),
        !(blank(version@) || blank(generated_at@) || blank(reason@)) && has_client ==> r is Ok,
{
    if is_blank(version) || is_blank(generated_at) || is_blank(reason) {
        return Err(
            HttpError::new(
                400,
                "snapshot notify payload requires version, generated_at, and reason",
                "invalid_request_error",
                "invalid_request",
            ),
        );
    }
    if !has_client {
        return Err(
            HttpError::new(
                503,
                "snapshot notify unavailable without runtime config client",
                "server_error",
                "snapshot_notify_unavailable",
            ),
        );
    }
    Ok(())
}

/// The answer when the notification body is not the expected JSON.
pub fn invalid_notify_payload() -> (r: HttpError)
    ensures
        r.status == 400,
        r.message@ == "invalid snapshot notify payload"@,
        r.kind@ == "invalid_request_error"@,
        r.code@ == "invalid_json"@,
{
    HttpError::new(400, "invalid snapshot notify payload", "invalid_request_error", "invalid_json")
}

/// The answer to a request whose JSON body could not be read, with the reader's message.
pub fn invalid_json(message: &str) -> (r: HttpError)
    ensures
        r.status == 400,
        r.message@ == message@,
        r.kind@ == "invalid_request_error"@,
        r.code@ == "invalid_json"@,
{
    HttpError::new(400, message, "invalid_request_error", "invalid_json")
}

/// The answer when no runtime snapshot has been loaded yet.
pub fn snapshot_unavailable() -> (r: HttpError)
    ensures
        r.status == 503,
        r.message@ == "runtime snapshot is not loaded"@,
        r.kind@ == "server_error"@,
        r.code@ == "runtime_snapshot_unavailable"@,
{
    HttpError::new(503, "runtime snapshot is not loaded", "server_error", "runtime_snapshot_unavailable")
}

} // verus!
