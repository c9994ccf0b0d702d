//! The upstream runtime: which provider serves a model, whether an auth carries what its
//! provider needs, and the HTTP call (URL, headers, body) that a responses request becomes.
//! Sending the call and reading the reply is left to the caller.
use vstd::prelude::*;
use vstd::utf8::encode_utf8;
use crate::failure::{provider_name, spec_provider_name};
use crate::text::{
    blank, chars_of, contains, digit_chars, digits_of, is_blank, lossy_text, lower, lower_vec,
    str_contains, string_of, trim, trim_str, utf8_lossy,
};
use crate::types::{AuthRecord, CodexExecution, ProviderKind};

verus! {

/// The OpenAI upstream.
#[derive(Debug, Clone)]
pub struct OpenAiConfig {
    pub base_url: String,
    pub api_key: String,
}

/// The global Codex upstream, used for requests without an auth of their own and as the
/// fallback of Codex auths.
#[derive(Debug, Clone)]
pub struct CodexConfig {
    pub base_url: String,
    pub token: String,
    pub user_agent: String,
    pub openai_beta: Option<String>,
}

/// The configured upstreams.
#[derive(Debug, Clone, Default)]
pub struct UpstreamRuntimeConfig {
    pub openai: Option<OpenAiConfig>,
    pub codex: Option<CodexConfig>,
}

/// A responses request ready for an upstream: the model, the JSON body, and whether the reply
/// streams.
#[derive(Debug, Clone)]
pub struct UpstreamRequest {
    pub model: String,
    pub body: Vec<u8>,
    pub stream: bool,
}

/// The HTTP call to make: a POST of the body to the URL with the headers (lower-case names,
/// each once).
#[derive(Debug, Clone)]
pub struct HttpCall {
    pub provider: ProviderKind,
    pub url: String,
    pub headers: Vec<(String, String)>,
    pub body: Vec<u8>,
    pub stream: bool,
}

/// The call as values.
pub struct CallModel {
    pub provider: ProviderKind,
    pub url: Seq<char>,
    pub headers: Seq<(Seq<char>, Seq<char>)>,
    pub body: Seq<u8>,
    pub stream: bool,
}

pub open spec fn call_model(c: HttpCall) -> CallModel {
    CallModel {
        provider: c.provider,
        url: c.url@,
        headers: c.headers@.map_values(|h: (String, String)| (h.0@, h.1@)),
        body: c.body@,
        stream: c.stream,
    }
}

pub open spec fn outcome_model(r: Result<HttpCall, String>) -> Result<CallModel, Seq<char>> {
    match r {
        Ok(c) => Ok(call_model(c)),
        Err(e) => Err(e@),
    }
}

/// What `HeaderValue::from_str` accepts: every byte a tab, or 32 and up but not 127.
pub open spec fn spec_header_value_ok(v: Seq<char>) -> bool {
    let b = encode_utf8(v);
    forall|i: int| 0 <= i < b.len() ==> (b[i] == 9 || (32 <= b[i] && b[i] != 127))
}

/// `reqwest::header::HeaderValue::from_str`, which accepts exactly the text whose bytes are tabs
/// or at least 32 and not 127.
#[verifier::external_body]
pub(crate) fn header_value_ok(value: &str) -> (r: bool)
    ensures
        r == spec_header_value_ok(value@),
{
    reqwest::header::HeaderValue::from_str(value).is_ok()
}

/// Nanoseconds since the Unix epoch from `std::time::SystemTime::now`, 0 when the clock is before
/// the epoch; nothing is claimed of the value.
#[verifier::external_body]
fn system_time_nanos() -> u128 {
    std::time::SystemTime::now().duration_since(std::time::UNIX_EPOCH).map(|d| d.as_nanos()).unwrap_or_default()
}

/// The text trimmed, when it is not blank.
pub open spec fn non_empty(s: Seq<char>) -> Option<Seq<char>> {
    if blank(s) {
        None
    } else {
        Some(trim(s))
    }
}

/// `s` without its trailing `/` characters.
pub open spec fn trim_end_slash(s: Seq<char>) -> Seq<char>
    decreases s.len(),
{
    if s.len() > 0 && s.last() == '/' {
        trim_end_slash(s.drop_last())
    } else {
        s
    }
}

pub open spec fn responses_url(base: Seq<char>) -> Seq<char> {
    trim_end_slash(base) + "/responses"@
}

pub open spec fn bearer(token: Seq<char>) -> Seq<char> {
    "Bearer "@ + token
}

pub open spec fn accept_value(stream: bool) -> Seq<char> {
    if stream {
        "text/event-stream"@
    } else {
        "application/json"@
    }
}

pub open spec fn session_header(nanos: u128) -> Seq<char> {
    "rs-session-"@ + digits_of(nanos as nat)
}

/// The user agent of a Codex auth: its own, else the global one, else the default.
pub open spec fn spec_codex_user_agent(e: CodexExecution, fallback: Option<CodexConfig>) -> Seq<char> {
    match non_empty(e.user_agent@) {
        Some(u) => u,
        None => match fallback {
            Some(c) if non_empty(c.user_agent@) is Some => non_empty(c.user_agent@)->0,
            _ => "cliproxy-data-plane/0.1.0"@,
        },
    }
}

/// The OpenAI-Beta value of a Codex auth: its own, else the global one.
pub open spec fn spec_codex_openai_beta(e: CodexExecution, fallback: Option<CodexConfig>) -> Option<
    Seq<char>,
> {
    match non_empty(e.openai_beta@) {
        Some(b) => Some(b),
        None => match fallback {
            Some(c) => match c.openai_beta {
                Some(b) => Some(b@),
                None => None,
            },
            None => None,
        },
    }
}

/// The base URL of a Codex auth: its own, else the global one.
pub open spec fn spec_codex_base_url(e: CodexExecution, fallback: Option<CodexConfig>) -> Option<
    Seq<char>,
> {
    match non_empty(e.base_url@) {
        Some(b) => Some(b),
        None => match fallback {
            Some(c) => non_empty(c.base_url@),
            None => None,
        },
    }
}

/// The headers that every call carries after its credentials.
pub open spec fn transport_headers(stream: bool) -> Seq<(Seq<char>, Seq<char>)> {
    seq![("accept"@, accept_value(stream)), ("connection"@, "Keep-Alive"@)]
}

/// The headers that Codex calls add: the originator, and a session id where `with_session`.
/// Calls with an auth's own credential always carry a session id; calls with the global Codex
/// token carry one for Mac clients.
pub open spec fn codex_extra_headers(with_session: bool, nanos: u128) -> Seq<(Seq<char>, Seq<char>)> {
    if with_session {
        seq![("originator"@, "codex-tui"@), ("session_id"@, session_header(nanos))]
    } else {
        seq![("originator"@, "codex-tui"@)]
    }
}

pub open spec fn opt_header(name: Seq<char>, v: Option<Seq<char>>) -> Seq<(Seq<char>, Seq<char>)> {
    match v {
        Some(x) => seq![(name, x)],
        None => Seq::empty(),
    }
}

/// The call to the OpenAI upstream.
pub open spec fn spec_openai_call(cfg: UpstreamRuntimeConfig, req: UpstreamRequest) -> Result<
    CallModel,
    Seq<char>,
> {
    match cfg.openai {
        None => Err("openai upstream is not configured"@),
        Some(c) => if !spec_header_value_ok(bearer(c.api_key@)) {
            Err("invalid openai api key header value"@)
        } else {
            Ok(
                CallModel {
                    provider: ProviderKind::OpenAi,
                    url: responses_url(c.base_url@),
                    headers: seq![
                        ("authorization"@, bearer(c.api_key@)),
                        ("content-type"@, "application/json"@),
                    ] + transport_headers(req.stream),
                    body: req.body@,
                    stream: req.stream,
                },
            )
        },
    }
}

/// The call to the global Codex upstream.
pub open spec fn spec_codex_call(cfg: UpstreamRuntimeConfig, req: UpstreamRequest, nanos: u128) -> Result<
    CallModel,
    Seq<char>,
> {
    match cfg.codex {
        None => Err("codex upstream is not configured"@),
        Some(c) => if !spec_header_value_ok(bearer(c.token@)) {
            Err("invalid codex token header value"@)
        } else if !spec_header_value_ok(c.user_agent@) {
            Err("invalid codex user agent value"@)
        } else if c.openai_beta is Some && !spec_header_value_ok(c.openai_beta->0@) {
            Err("invalid codex openai-beta header value"@)
        } else {
            Ok(
                CallModel {
                    provider: ProviderKind::Codex,
                    url: responses_url(c.base_url@),
                    headers: seq![
                        ("authorization"@, bearer(c.token@)),
                        ("content-type"@, "application/json"@),
                        ("user-agent"@, c.user_agent@),
                    ] + opt_header(
                        "openai-beta"@,
                        match c.openai_beta {
                            Some(b) => Some(b@),
                            None => None,
                        },
                    ) + transport_headers(req.stream) + codex_extra_headers(
                        contains(c.user_agent@, "Mac OS"@),
                        nanos,
                    ),
                    body: req.body@,
                    stream: req.stream,
                },
            )
        },
    }
}

/// The call made with a Codex auth's own credential.
pub open spec fn spec_codex_auth_call(
    cfg: UpstreamRuntimeConfig,
    auth: AuthRecord,
    req: UpstreamRequest,
    nanos: u128,
) -> Result<CallModel, Seq<char>> {
    match auth.execution.codex {
        None => Err("codex auth "@ + auth.id@ + " missing execution.codex"@),
        Some(e) => match spec_codex_base_url(e, cfg.codex) {
            None => Err("codex base_url is not configured"@),
            Some(base) => {
                let ua = spec_codex_user_agent(e, cfg.codex);
                let account = non_empty(e.account_id@);
                let beta = spec_codex_openai_beta(e, cfg.codex);
                if !spec_header_value_ok(bearer(e.access_token@)) {
                    Err("invalid codex auth access token header value"@)
                } else if !spec_header_value_ok(ua) {
                    Err("invalid codex auth user agent value"@)
                } else if account is Some && !spec_header_value_ok(account->0) {
                    Err("invalid codex account id header value"@)
                } else if beta is Some && !spec_header_value_ok(beta->0) {
                    Err("invalid codex openai-beta header value"@)
                } else {
                    Ok(
                        CallModel {
                            provider: ProviderKind::Codex,
                            url: responses_url(base),
                            headers: seq![
                                ("authorization"@, bearer(e.access_token@)),
                                ("content-type"@, "application/json"@),
                                ("user-agent"@, ua),
                            ] + opt_header("chatgpt-account-id"@, account) + opt_header(
                                "openai-beta"@,
                                beta,
                            ) + transport_headers(req.stream) + codex_extra_headers(true, nanos),
                            body: req.body@,
                            stream: req.stream,
                        },
                    )
                }
            },
        },
    }
}

/// Which provider serves a model: Codex for Codex models when configured, else OpenAI, else
/// Codex.
pub open spec fn spec_provider_for_model(cfg: UpstreamRuntimeConfig, model: Seq<char>) -> Option<
    ProviderKind,
> {
    if contains(lower(trim(model)), "codex"@) && cfg.codex is Some {
        Some(ProviderKind::Codex)
    } else if cfg.openai is Some {
        Some(ProviderKind::OpenAi)
    } else if cfg.codex is Some {
        Some(ProviderKind::Codex)
    } else {
        None
    }
}

/// Whether an auth carries what its provider needs: a Codex auth with an access token, and a
/// base URL of its own or a global Codex upstream.
pub open spec fn spec_can_execute_for_auth(cfg: UpstreamRuntimeConfig, auth: AuthRecord) -> bool {
    lower(trim(auth.provider@)) == "codex"@ && match auth.execution.codex {
        Some(e) => !blank(e.access_token@) && (!blank(e.base_url@) || cfg.codex is Some),
        None => false,
    }
}

/// The call for a request without an auth of its own.
pub open spec fn spec_responses_call(cfg: UpstreamRuntimeConfig, req: UpstreamRequest, nanos: u128) -> Result<
    CallModel,
    Seq<char>,
> {
    match spec_provider_for_model(cfg, req.model@) {
        None => Err("no upstream provider configured for model "@ + req.model@),
        Some(ProviderKind::OpenAi) => spec_openai_call(cfg, req),
        Some(ProviderKind::Codex) => spec_codex_call(cfg, req, nanos),
        Some(ProviderKind::Mock) => Err("mock provider is not handled by upstream runtime"@),
    }
}

/// The call for a request bound to an auth.
pub open spec fn spec_responses_call_for_auth(
    cfg: UpstreamRuntimeConfig,
    auth: AuthRecord,
    req: UpstreamRequest,
    nanos: u128,
) -> Result<CallModel, Seq<char>> {
    let p = lower(trim(auth.provider@));
    if p == "codex"@ {
        spec_codex_auth_call(cfg, auth, req, nanos)
    } else if p == "openai"@ || p == "openai-compatibility"@ {
        spec_openai_call(cfg, req)
    } else {
        Err("unsupported auth provider for upstream execution: "@ + p)
    }
}

/// The message of an upstream reply whose status is not a success.
pub open spec fn spec_status_error(provider: ProviderKind, status: u16, body: Seq<u8>) -> Seq<char> {
    "upstream "@ + spec_provider_name(provider) + " error "@ + digits_of(status as nat) + ": "@
        + lossy_text(body)
}

fn concat3(a: &str, b: &str, c: &str) -> (r: String)
    ensures
        r@ == a@ + b@ + c@,
{
    let mut s = String::from_str(a);
    s.append(b);
    s.append(c);
    s
}

fn concat2(a: &str, b: &str) -> (r: String)
    ensures
        r@ == a@ + b@,
{
    let mut s = String::from_str(a);
    s.append(b);
    s
}

fn pair(name: &str, value: &str) -> (r: (String, String))
    ensures
        r.0@ == name@,
        r.1@ == value@,
{
    (String::from_str(name), String::from_str(value))
}

fn push_header(headers: &mut Vec<(String, String)>, name: &str, value: &str)
    ensures
        final(headers)@.map_values(|h: (String, String)| (h.0@, h.1@)) == old(headers)@.map_values(
            |h: (String, String)| (h.0@, h.1@),
        ).push((name@, value@)),
{
    let ghost before = headers@;
    headers.push(pair(name, value));
    assert(headers@.map_values(|h: (String, String)| (h.0@, h.1@)) =~= before.map_values(
        |h: (String, String)| (h.0@, h.1@),
    ).push((name@, value@)));
}

/// The trimmed text, when it is not blank.
fn non_empty_text(s: &str) -> (r: Option<String>)
    ensures
        match non_empty(s@) {
            Some(t) => r matches Some(u) && u@ == t,
            None => r is None,
        },
{
    if is_blank(s) {
        None
    } else {
        Some(trim_str(s))
    }
}

fn trim_end_slash_str(s: &str) -> (r: String)
    ensures
        r@ == trim_end_slash(s@),
{
    let v = chars_of(s);
    let mut end = v.len();
    assert(v@.take(v@.len() as int) =~= v@);
    while end > 0 && v[end - 1] == '/'
        invariant
            end <= v@.len(),
            trim_end_slash(v@.take(end as int)) == trim_end_slash(v@),
        decreases end,
    {
        assert(v@.take(end as int).drop_last() =~= v@.take(end - 1));
        end = end - 1;
    }
    let w = vstd::slice::slice_subrange(v.as_slice(), 0, end);
    assert(w@ =~= v@.take(end as int));
    string_of(w)
}

fn responses_url_of(base: &str) -> (r: String)
    ensures
        r@ == responses_url(base@),
{
    let mut s = trim_end_slash_str(base);
    s.append("/responses");
    s
}

fn push_transport_headers(headers: &mut Vec<(String, String)>, stream: bool)
    ensures
        final(headers)@.map_values(|h: (String, String)| (h.0@, h.1@)) == old(headers)@.map_values(
            |h: (String, String)| (h.0@, h.1@),
        ) + transport_headers(stream),
{
    if stream {
        push_header(headers, "accept", "text/event-stream");
    } else {
        push_header(headers, "accept", "application/json");
    }
    push_header(headers, "connection", "Keep-Alive");
    assert(headers@.map_values(|h: (String, String)| (h.0@, h.1@)) =~= old(headers)@.map_values(
        |h: (String, String)| (h.0@, h.1@),
    ) + transport_headers(stream));
}

fn push_codex_extra_headers(headers: &mut Vec<(String, String)>, with_session: bool, nanos: u128)
    ensures
        final(headers)@.map_values(|h: (String, String)| (h.0@, h.1@)) == old(headers)@.map_values(
            |h: (String, String)| (h.0@, h.1@),
        ) + codex_extra_headers(with_session, nanos),
{
    push_header(headers, "originator", "codex-tui");
    if with_session {
        let digits = digit_chars(nanos);
        let mut id = String::from_str("rs-session-");
        let d = string_of(digits.as_slice());
        id.append(d.as_str());
        push_header(headers, "session_id", id.as_str());
    }
    assert(headers@.map_values(|h: (String, String)| (h.0@, h.1@)) =~= old(headers)@.map_values(
        |h: (String, String)| (h.0@, h.1@),
    ) + codex_extra_headers(with_session, nanos));
}

/// The user agent of a Codex auth.
pub fn codex_user_agent(execution: &CodexExecution, fallback: &Option<CodexConfig>) -> (r: String)
    ensures
        r@ == spec_codex_user_agent(*execution, *fallback),
{
    match non_empty_text(execution.user_agent.as_str()) {
        Some(u) => u,
        None => {
            if let Some(c) = fallback {
                if let Some(u) = non_empty_text(c.user_agent.as_str()) {
                    return u;
                }
            }
            String::from_str("cliproxy-data-plane/0.1.0")
        },
    }
}

/// The OpenAI-Beta value of a Codex auth.
pub fn codex_openai_beta(execution: &CodexExecution, fallback: &Option<CodexConfig>) -> (r: Option<
    String,
>)
    ensures
        match spec_codex_openai_beta(*execution, *fallback) {
            Some(b) => r matches Some(s) && s@ == b,
            None => r is None,
        },
{
    match non_empty_text(execution.openai_beta.as_str()) {
        Some(b) => Some(b),
        None => match fallback {
            Some(c) => match &c.openai_beta {
                Some(b) => Some(b.clone()),
                None => None,
            },
            None => None,
        },
    }
}

/// The base URL of a Codex auth; an error when neither the auth nor the global upstream has one.
pub fn codex_base_url(execution: &CodexExecution, fallback: &Option<CodexConfig>) -> (r: Result<
    String,
    String,
>)
    ensures
        match spec_codex_base_url(*execution, *fallback) {
            Some(b) => r matches Ok(s) && s@ == b,
            None => r matches Err(e) && e@ == "codex base_url is not configured"@,
        },
{
    if let Some(b) = non_empty_text(execution.base_url.as_str()) {
        return Ok(b);
    }
    if let Some(c) = fallback {
        if let Some(b) = non_empty_text(c.base_url.as_str()) {
            return Ok(b);
        }
    }
    Err(String::from_str("codex base_url is not configured"))
}

/// The text of an upstream reply whose status is not a success.
pub fn upstream_status_error(provider: ProviderKind, status: u16, body: &[u8]) -> (r: String)
    ensures
        r@ == spec_status_error(provider, status, body@),
{
    let mut s = String::from_str("upstream ");
    s.append(provider_name(provider));
    s.append(" error ");
    let digits = digit_chars(status as u128);
    let d = string_of(digits.as_slice());
    s.append(d.as_str());
    s.append(": ");
    let text = utf8_lossy(body);
    s.append(text.as_str());
    s
}

/// Whether an HTTP status is a success (2xx).
pub fn status_is_success(status: u16) -> (r: bool)
    ensures
        r == (200 <= status <= 299),
{
    200 <= status && status <= 299
}

/// The upstreams, without the HTTP client that sends the calls.
#[derive(Debug, Clone)]
pub struct UpstreamRuntime {
    config: UpstreamRuntimeConfig,
}

impl UpstreamRuntime {
    pub closed spec fn spec_config(&self) -> UpstreamRuntimeConfig {
        self.config
    }

    pub fn new(config: UpstreamRuntimeConfig) -> (r: Self)
        ensures
            r.spec_config() == config,
    {
        UpstreamRuntime { config }
    }

    pub fn config(&self) -> (r: &UpstreamRuntimeConfig)
        ensures
            *r == self.spec_config(),
    {
        &self.config
    }

    /// Whether any upstream is configured.
    pub fn is_enabled(&self) -> (r: bool)
        ensures
            r == (self.spec_config().openai is Some || self.spec_config().codex is Some),
    {
        self.config.openai.is_some() || self.config.codex.is_some()
    }

    /// Which provider serves `model`.
    pub fn provider_for_model(&self, model: &str) -> (r: Option<ProviderKind>)
        ensures
            r == spec_provider_for_model(self.spec_config(), model@),
    {
        let t = trim_str(model);
        let l = lower_vec(chars_of(t.as_str()).as_slice());
        let c = chars_of("codex");
        if crate::text::contains_chars(l.as_slice(), c.as_slice()) && self.config.codex.is_some() {
            return Some(ProviderKind::Codex);
        }
        if self.config.openai.is_some() {
            return Some(ProviderKind::OpenAi);
        }
        if self.config.codex.is_some() {
            return Some(ProviderKind::Codex);
        }
        None
    }

    /// Whether the auth carries what its provider needs.
    pub fn can_execute_for_auth(&self, auth: &AuthRecord) -> (r: bool)
        ensures
            r == spec_can_execute_for_auth(self.spec_config(), *auth),
    {
        let p = lower_vec(chars_of(trim_str(auth.provider.as_str()).as_str()).as_slice());
        let codex = chars_of("codex");
        if !crate::text::chars_eq(p.as_slice(), codex.as_slice()) {
            return false;
        }
        match &auth.execution.codex {
            Some(e) => !is_blank(e.access_token.as_str()) && (!is_blank(e.base_url.as_str())
                || self.config.codex.is_some()),
            None => false,
        }
    }

    fn openai_call(&self, request: UpstreamRequest) -> (r: Result<HttpCall, String>)
        ensures
            outcome_model(r) == spec_openai_call(self.spec_config(), request),
    {
        let c = match &self.config.openai {
            Some(c) => c,
            None => {
                return Err(String::from_str("openai upstream is not configured"));
            },
        };
        let auth = concat2("Bearer ", c.api_key.as_str());
        if !header_value_ok(auth.as_str()) {
            return Err(String::from_str("invalid openai api key header value"));
        }
        let mut headers: Vec<(String, String)> = Vec::new();
        push_header(&mut headers, "authorization", auth.as_str());
        push_header(&mut headers, "content-type", "application/json");
        push_transport_headers(&mut headers, request.stream);
        let ghost hs = headers@.map_values(|h: (String, String)| (h.0@, h.1@));
        assert(hs =~= seq![
            ("authorization"@, bearer(c.api_key@)),
            ("content-type"@, "application/json"@),
        ] + transport_headers(request.stream));
        Ok(
            HttpCall {
                provider: ProviderKind::OpenAi,
                url: responses_url_of(c.base_url.as_str()),
                headers,
                body: request.body,
                stream: request.stream,
            },
        )
    }

    fn codex_call(&self, request: UpstreamRequest, nanos: u128) -> (r: Result<HttpCall, String>)
        ensures
            outcome_model(r) == spec_codex_call(self.spec_config(), request, nanos),
    {
        let c = match &self.config.codex {
            Some(c) => c,
            None => {
                return Err(String::from_str("codex upstream is not configured"));
            },
        };
        let auth = concat2("Bearer ", c.token.as_str());
        if !header_value_ok(auth.as_str()) {
            return Err(String::from_str("invalid codex token header value"));
        }
        if !header_value_ok(c.user_agent.as_str()) {
            return Err(String::from_str("invalid codex user agent value"));
        }
        if let Some(b) = &c.openai_beta {
            if !header_value_ok(b.as_str()) {
                return Err(String::from_str("invalid codex openai-beta header value"));
            }
        }
        let mut headers: Vec<(String, String)> = Vec::new();
        push_header(&mut headers, "authorization", auth.as_str());
        push_header(&mut headers, "content-type", "application/json");
        push_header(&mut headers, "user-agent", c.user_agent.as_str());
        let ghost h1 = headers@.map_values(|h: (String, String)| (h.0@, h.1@));
        if let Some(b) = &c.openai_beta {
            push_header(&mut headers, "openai-beta", b.as_str());
        }
        let ghost h2 = headers@.map_values(|h: (String, String)| (h.0@, h.1@));
        assert(h2 =~= h1 + opt_header(
            "openai-beta"@,
            match c.openai_beta {
                Some(b) => Some(b@),
                None => None,
            },
        ));
        assert(h1 =~= seq![
            ("authorization"@, bearer(c.token@)),
            ("content-type"@, "application/json"@),
            ("user-agent"@, c.user_agent@),
        ]);
        push_transport_headers(&mut headers, request.stream);
        let mac = str_contains(c.user_agent.as_str(), "Mac OS");
        push_codex_extra_headers(&mut headers, mac, nanos);
        assert(headers@.map_values(|h: (String, String)| (h.0@, h.1@)) =~= h2 + transport_headers(
            request.stream,
        ) + codex_extra_headers(contains(c.user_agent@, "Mac OS"@), nanos));
        Ok(
            HttpCall {
                provider: ProviderKind::Codex,
                url: responses_url_of(c.base_url.as_str()),
                headers,
                body: request.body,
                stream: request.stream,
            },
        )
    }

    fn codex_auth_call(&self, auth: &AuthRecord, request: UpstreamRequest, nanos: u128) -> (r: Result<
        HttpCall,
        String,
    >)
        ensures
            outcome_model(r) == spec_codex_auth_call(self.spec_config(), *auth, request, nanos),
    {
        let e = match &auth.execution.codex {
            Some(e) => e,
            None => {
                return Err(concat3("codex auth ", auth.id.as_str(), " missing execution.codex"));
            },
        };
        let base = match codex_base_url(e, &self.config.codex) {
            Ok(b) => b,
            Err(m) => {
                return Err(m);
            },
        };
        let ua = codex_user_agent(e, &self.config.codex);
        let account = non_empty_text(e.account_id.as_str());
        let beta = codex_openai_beta(e, &self.config.codex);
        let token = concat2("Bearer ", e.access_token.as_str());
        if !header_value_ok(token.as_str()) {
            return Err(String::from_str("invalid codex auth access token header value"));
        }
        if !header_value_ok(ua.as_str()) {
            return Err(String::from_str("invalid codex auth user agent value"));
        }
        if let Some(a) = &account {
            if !header_value_ok(a.as_str()) {
                return Err(String::from_str("invalid codex account id header value"));
            }
        }
        if let Some(b) = &beta {
            if !header_value_ok(b.as_str()) {
                return Err(String::from_str("invalid codex openai-beta header value"));
            }
        }
        let mut headers: Vec<(String, String)> = Vec::new();
        push_header(&mut headers, "authorization", token.as_str());
        push_header(&mut headers, "content-type", "application/json");
        push_header(&mut headers, "user-agent", ua.as_str());
        let ghost h1 = headers@.map_values(|h: (String, String)| (h.0@, h.1@));
        if let Some(a) = &account {
            push_header(&mut headers, "chatgpt-account-id", a.as_str());
        }
        let ghost h2 = headers@.map_values(|h: (String, String)| (h.0@, h.1@));
        assert(h2 =~= h1 + opt_header("chatgpt-account-id"@, non_empty(e.account_id@)));
        if let Some(b) = &beta {
            push_header(&mut headers, "openai-beta", b.as_str());
        }
        let ghost h3 = headers@.map_values(|h: (String, String)| (h.0@, h.1@));
        assert(h3 =~= h2 + opt_header("openai-beta"@, spec_codex_openai_beta(*e, self.config.codex)));
        assert(h1 =~= seq![
            ("authorization"@, bearer(e.access_token@)),
            ("content-type"@, "application/json"@),
            ("user-agent"@, ua@),
        ]);
        push_transport_headers(&mut headers, request.stream);
        push_codex_extra_headers(&mut headers, true, nanos);
        assert(headers@.map_values(|h: (String, String)| (h.0@, h.1@)) =~= h3 + transport_headers(
            request.stream,
        ) + codex_extra_headers(true, nanos));
        Ok(
            HttpCall {
                provider: ProviderKind::Codex,
                url: responses_url_of(base.as_str()),
                headers,
                body: request.body,
                stream: request.stream,
            },
        )
    }

    /// The call for a request without an auth of its own, given the session clock reading.
    pub fn responses_call_at(&self, request: UpstreamRequest, nanos: u128) -> (r: Result<
        HttpCall,
        String,
    >)
        ensures
            outcome_model(r) == spec_responses_call(self.spec_config(), request, nanos),
    {
        match self.provider_for_model(request.model.as_str()) {
            None => Err(concat2("no upstream provider configured for model ", request.model.as_str())),
            Some(ProviderKind::OpenAi) => self.openai_call(request),
            Some(ProviderKind::Codex) => self.codex_call(request, nanos),
            Some(ProviderKind::Mock) => Err(
                String::from_str("mock provider is not handled by upstream runtime"),
            ),
        }
    }

    /// The call for a request without an auth of its own, now.
    pub fn prepare_responses(&self, request: UpstreamRequest) -> (r: Result<HttpCall, String>)
        ensures
            exists|nanos: u128| outcome_model(r) == spec_responses_call(self.spec_config(), request, nanos),
    {
        let nanos = system_time_nanos();
        self.responses_call_at(request, nanos)
    }

    /// The call for a request bound to `auth`, given the session clock reading.
    pub fn responses_call_for_auth_at(&self, auth: &AuthRecord, request: UpstreamRequest, nanos: u128) -> (r: Result<
        HttpCall,
        String,
    >)
        ensures
            outcome_model(r) == spec_responses_call_for_auth(self.spec_config(), *auth, request, nanos),
    {
        let p = lower_vec(chars_of(trim_str(auth.provider.as_str()).as_str()).as_slice());
        if crate::text::chars_eq(p.as_slice(), chars_of("codex").as_slice()) {
            self.codex_auth_call(auth, request, nanos)
        } else if crate::text::chars_eq(p.as_slice(), chars_of("openai").as_slice())
            || crate::text::chars_eq(p.as_slice(), chars_of("openai-compatibility").as_slice()) {
            self.openai_call(request)
        } else {
            let other = string_of(p.as_slice());
            Err(concat2("unsupported auth provider for upstream execution: ", other.as_str()))
        }
    }

    /// The call for a request bound to `auth`, now.
    pub fn prepare_responses_for_auth(&self, auth: &AuthRecord, request: UpstreamRequest) -> (r: Result<
        HttpCall,
        String,
    >)
        ensures
            exists|nanos: u128|
                outcome_model(r) == spec_responses_call_for_auth(
                    self.spec_config(),
                    *auth,
                    request,
                    nanos,
                ),
    {
        let nanos = system_time_nanos();
        self.responses_call_for_auth_at(auth, request, nanos)
    }
}

} // verus!
