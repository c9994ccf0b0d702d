//! Classification of upstream failures: which status an error message reports, what kind of
//! failure it is, which error code and retry hint it carries, how long the auth or model cools
//! down, and whether the request may move on to the next candidate auth before any byte has gone
//! downstream.
use vstd::prelude::*;
use crate::clock::{in_range, NANOS_PER_MILLI, NANOS_PER_SECOND};
use crate::error_events::ErrorScope;
use crate::text::{
    chars_of, contains, contains_chars, digit_char, digits_of, find, lower, lower_vec, occurs_at,
};
use crate::types::ProviderKind;

verus! {

/// Whether an auth-bound error may switch to the next candidate auth before the downstream
/// response is committed.
#[derive(Debug, Clone, Copy, PartialEq, Eq)]
pub enum PrecommitRetryClassification {
    Retryable(UpstreamFailureKind),
    NonRetryable(UpstreamFailureKind),
}

/// The upstream failure kinds the responses path reacts to.
#[derive(Debug, Clone, Copy, PartialEq, Eq)]
pub enum UpstreamFailureKind {
    Auth401,
    Auth403,
    NotFound,
    UsageLimitReached,
    ModelNotSupported,
    TransientUpstream,
    Auth429,
    Other,
}

/// A failure message together with what was read from it.
#[derive(Debug, Clone)]
pub struct ClassifiedUpstreamFailure {
    pub kind: UpstreamFailureKind,
    pub status_code: u16,
    pub error_code: String,
    pub message: String,
    pub retry_after_ms: u64,
}

pub const COOLDOWN_AUTH_NANOS: i128 = 1_800_000_000_000;

pub const COOLDOWN_MODEL_GONE_NANOS: i128 = 43_200_000_000_000;

pub const COOLDOWN_TRANSIENT_NANOS: i128 = 60_000_000_000;

/// Reading of a retry hint in milliseconds as `Duration::milliseconds(ms as i64)`.
pub open spec fn retry_hint_nanos(ms: u64) -> int {
    if ms <= i64::MAX as u64 {
        ms as int * NANOS_PER_MILLI
    } else {
        (ms as int - 0x1_0000_0000_0000_0000) * NANOS_PER_MILLI
    }
}

impl PrecommitRetryClassification {
    pub open spec fn spec_should_retry(self) -> bool {
        self is Retryable
    }

    pub fn should_retry(self) -> (r: bool)
        ensures
            r == self.spec_should_retry(),
    {
        match self {
            PrecommitRetryClassification::Retryable(_) => true,
            PrecommitRetryClassification::NonRetryable(_) => false,
        }
    }

    pub open spec fn kind(self) -> UpstreamFailureKind {
        match self {
            PrecommitRetryClassification::Retryable(k) => k,
            PrecommitRetryClassification::NonRetryable(k) => k,
        }
    }

    pub fn reason(self) -> (r: &'static str)
        ensures
            r@ == self.kind().spec_reason(),
    {
        match self {
            PrecommitRetryClassification::Retryable(kind) => kind.reason(),
            PrecommitRetryClassification::NonRetryable(kind) => kind.reason(),
        }
    }
}

impl UpstreamFailureKind {
    pub open spec fn spec_reason(self) -> Seq<char> {
        match self {
            UpstreamFailureKind::Auth401 => "auth_401"@,
            UpstreamFailureKind::Auth403 => "auth_403"@,
            UpstreamFailureKind::NotFound => "not_found"@,
            UpstreamFailureKind::UsageLimitReached => "usage_limit_reached"@,
            UpstreamFailureKind::ModelNotSupported => "model_not_supported"@,
            UpstreamFailureKind::TransientUpstream => "transient_upstream"@,
            UpstreamFailureKind::Auth429 => "auth_429"@,
            UpstreamFailureKind::Other => "other"@,
        }
    }

    pub fn reason(self) -> (r: &'static str)
        ensures
            r@ == self.spec_reason(),
    {
        match self {
            UpstreamFailureKind::Auth401 => "auth_401",
            UpstreamFailureKind::Auth403 => "auth_403",
            UpstreamFailureKind::NotFound => "not_found",
            UpstreamFailureKind::UsageLimitReached => "usage_limit_reached",
            UpstreamFailureKind::ModelNotSupported => "model_not_supported",
            UpstreamFailureKind::TransientUpstream => "transient_upstream",
            UpstreamFailureKind::Auth429 => "auth_429",
            UpstreamFailureKind::Other => "other",
        }
    }

    /// Failures of the credential itself block the whole auth; every other kind blocks the
    /// auth for one model.
    pub open spec fn spec_scope(self) -> ErrorScope {
        match self {
            UpstreamFailureKind::Auth401 | UpstreamFailureKind::Auth403 => ErrorScope::Auth,
            _ => ErrorScope::Model,
        }
    }

    pub fn scope(self) -> (r: ErrorScope)
        ensures
            r == self.spec_scope(),
    {
        match self {
            UpstreamFailureKind::Auth401 | UpstreamFailureKind::Auth403 => ErrorScope::Auth,
            UpstreamFailureKind::NotFound
            | UpstreamFailureKind::UsageLimitReached
            | UpstreamFailureKind::ModelNotSupported
            | UpstreamFailureKind::TransientUpstream
            | UpstreamFailureKind::Auth429
            | UpstreamFailureKind::Other => ErrorScope::Model,
        }
    }

    pub fn quota_exceeded(self) -> (r: bool)
        ensures
            r == (self == UpstreamFailureKind::UsageLimitReached),
    {
        match self {
            UpstreamFailureKind::UsageLimitReached => true,
            _ => false,
        }
    }

    /// When the cooldown that this failure causes ends, seen at `now`.
    pub open spec fn spec_cooldown_until(self, now: int, retry_after_ms: u64) -> Option<int> {
        match self {
            UpstreamFailureKind::Auth401 | UpstreamFailureKind::Auth403 => Some(
                now + COOLDOWN_AUTH_NANOS,
            ),
            UpstreamFailureKind::NotFound | UpstreamFailureKind::ModelNotSupported => Some(
                now + COOLDOWN_MODEL_GONE_NANOS,
            ),
            UpstreamFailureKind::UsageLimitReached => if retry_after_ms > 0 {
                Some(now + retry_hint_nanos(retry_after_ms))
            } else {
                Some(now + NANOS_PER_SECOND)
            },
            UpstreamFailureKind::TransientUpstream => Some(now + COOLDOWN_TRANSIENT_NANOS),
            UpstreamFailureKind::Auth429 | UpstreamFailureKind::Other => None,
        }
    }

    pub fn cooldown_until(self, now: i128, retry_after_ms: u64) -> (r: Option<i128>)
        requires
            in_range(now as int),
        ensures
            r matches Some(t) ==> self.spec_cooldown_until(now as int, retry_after_ms) == Some(
                t as int,
            ),
            r is None ==> self.spec_cooldown_until(now as int, retry_after_ms) is None,
    {
        match self {
            UpstreamFailureKind::Auth401 | UpstreamFailureKind::Auth403 => Some(
                now + COOLDOWN_AUTH_NANOS,
            ),
            UpstreamFailureKind::NotFound | UpstreamFailureKind::ModelNotSupported => Some(
                now + COOLDOWN_MODEL_GONE_NANOS,
            ),
            UpstreamFailureKind::UsageLimitReached => {
                if retry_after_ms > 0 {
                    let ms: i128 = if retry_after_ms <= i64::MAX as u64 {
                        retry_after_ms as i128
                    } else {
                        retry_after_ms as i128 - 0x1_0000_0000_0000_0000i128
                    };
                    Some(now + ms * NANOS_PER_MILLI)
                } else {
                    Some(now + NANOS_PER_SECOND)
                }
            },
            UpstreamFailureKind::TransientUpstream => Some(now + COOLDOWN_TRANSIENT_NANOS),
            UpstreamFailureKind::Auth429 | UpstreamFailureKind::Other => None,
        }
    }

    /// Credential failures and quota exhaustion may move on to the next candidate; the rest
    /// end the request.
    pub open spec fn spec_precommit_retry(self) -> PrecommitRetryClassification {
        match self {
            UpstreamFailureKind::Auth401
            | UpstreamFailureKind::Auth403
            | UpstreamFailureKind::UsageLimitReached
            | UpstreamFailureKind::NotFound
            | UpstreamFailureKind::ModelNotSupported
            | UpstreamFailureKind::TransientUpstream => PrecommitRetryClassification::Retryable(
                self,
            ),
            _ => PrecommitRetryClassification::NonRetryable(self),
        }
    }

    pub fn precommit_retry(self) -> (r: PrecommitRetryClassification)
        ensures
            r == self.spec_precommit_retry(),
    {
        match self {
            UpstreamFailureKind::Auth401
            | UpstreamFailureKind::Auth403
            | UpstreamFailureKind::UsageLimitReached
            | UpstreamFailureKind::NotFound
            | UpstreamFailureKind::ModelNotSupported
            | UpstreamFailureKind::TransientUpstream => PrecommitRetryClassification::Retryable(
                self,
            ),
            UpstreamFailureKind::Auth429
            | UpstreamFailureKind::Other => PrecommitRetryClassification::NonRetryable(self),
        }
    }
}

/// The status code that a failure message of the Codex upstream reports, or 0.
pub open spec fn spec_status_code(message: Seq<char>) -> u16 {
    let l = lower(message);
    if contains(l, "upstream codex error 400"@) {
        400
    } else if contains(l, "upstream codex error 401"@) {
        401
    } else if contains(l, "upstream codex error 402"@) {
        402
    } else if contains(l, "upstream codex error 403"@) {
        403
    } else if contains(l, "upstream codex error 404"@) {
        404
    } else if contains(l, "upstream codex error 408"@) {
        408
    } else if contains(l, "upstream codex error 422"@) {
        422
    } else if contains(l, "upstream codex error 429"@) {
        429
    } else if contains(l, "upstream codex error 500"@) {
        500
    } else if contains(l, "upstream codex error 502"@) {
        502
    } else if contains(l, "upstream codex error 503"@) {
        503
    } else if contains(l, "upstream codex error 504"@) {
        504
    } else {
        0
    }
}

fn lower_chars(message: &str) -> (r: Vec<char>)
    ensures
        r@ == lower(message@),
{
    let v = chars_of(message);
    lower_vec(v.as_slice())
}

fn has(l: &[char], needle: &str) -> (r: bool)
    ensures
        r == contains(l@, needle@),
{
    let n = chars_of(needle);
    contains_chars(l, n.as_slice())
}

pub fn classify_status_code(message: &str) -> (r: u16)
    ensures
        r == spec_status_code(message@),
{
    let l = lower_chars(message);
    let l = l.as_slice();
    if has(l, "upstream codex error 400") {
        400
    } else if has(l, "upstream codex error 401") {
        401
    } else if has(l, "upstream codex error 402") {
        402
    } else if has(l, "upstream codex error 403") {
        403
    } else if has(l, "upstream codex error 404") {
        404
    } else if has(l, "upstream codex error 408") {
        408
    } else if has(l, "upstream codex error 422") {
        422
    } else if has(l, "upstream codex error 429") {
        429
    } else if has(l, "upstream codex error 500") {
        500
    } else if has(l, "upstream codex error 502") {
        502
    } else if has(l, "upstream codex error 503") {
        503
    } else if has(l, "upstream codex error 504") {
        504
    } else {
        0
    }
}

/// Whether a message says that the requested model is not offered.
pub open spec fn spec_model_support_error(message: Seq<char>) -> bool {
    let l = lower(message);
    ||| contains(l, "model_not_supported"@)
    ||| contains(l, "requested model is not supported"@)
    ||| contains(l, "unsupported model"@)
    ||| contains(l, "not available for your plan"@)
    ||| contains(l, "not available for your account"@)
}

pub fn is_model_support_error_message(message: &str) -> (r: bool)
    ensures
        r == spec_model_support_error(message@),
{
    let l = lower_chars(message);
    let l = l.as_slice();
    has(l, "model_not_supported") || has(l, "requested model is not supported") || has(
        l,
        "unsupported model",
    ) || has(l, "not available for your plan") || has(l, "not available for your account")
}

/// Whether an already lower-cased message reports Codex quota exhaustion.
pub open spec fn spec_quota_exhaustion(lowered: Seq<char>) -> bool {
    contains(lowered, "upstream codex error 429"@) && (contains(lowered, "usage_limit_reached"@)
        || contains(lowered, "the usage limit has been reached"@))
}

pub fn is_codex_quota_exhaustion_error(lowered: &str) -> (r: bool)
    ensures
        r == spec_quota_exhaustion(lowered@),
{
    let l = chars_of(lowered);
    let l = l.as_slice();
    has(l, "upstream codex error 429") && (has(l, "usage_limit_reached") || has(
        l,
        "the usage limit has been reached",
    ))
}

/// Whether an already lower-cased message reports an explicit authentication error: an invalid
/// API key, an invalid or expired token, or a reused refresh token.
pub open spec fn spec_auth_error_message(lowered: Seq<char>) -> bool {
    contains(lowered, "invalid_api_key"@) || contains(lowered, "invalid or expired token"@)
        || contains(lowered, "refresh_token_reused"@)
}

fn is_auth_error_message(l: &[char]) -> (r: bool)
    ensures
        r == spec_auth_error_message(l@),
{
    has(l, "invalid_api_key") || has(l, "invalid or expired token") || has(l, "refresh_token_reused")
}

/// The failure kind of a message with its status code: the status decides, except that an
/// explicit authentication error is auth-level whatever the status.
pub open spec fn spec_failure_kind(message: Seq<char>, status: u16) -> UpstreamFailureKind {
    if status == 401 {
        UpstreamFailureKind::Auth401
    } else if status == 402 || status == 403 {
        UpstreamFailureKind::Auth403
    } else if spec_auth_error_message(lower(message)) {
        UpstreamFailureKind::Auth401
    } else if status == 404 {
        UpstreamFailureKind::NotFound
    } else if status == 429 && spec_quota_exhaustion(lower(message)) {
        UpstreamFailureKind::UsageLimitReached
    } else if (status == 400 || status == 422) && spec_model_support_error(message) {
        UpstreamFailureKind::ModelNotSupported
    } else if status == 408 || status == 500 || status == 502 || status == 503 || status == 504 {
        UpstreamFailureKind::TransientUpstream
    } else if status == 429 {
        UpstreamFailureKind::Auth429
    } else {
        UpstreamFailureKind::Other
    }
}

pub fn classify_failure_kind(message: &str, status_code: u16) -> (r: UpstreamFailureKind)
    ensures
        r == spec_failure_kind(message@, status_code),
{
    if status_code == 401 {
        UpstreamFailureKind::Auth401
    } else if status_code == 402 || status_code == 403 {
        UpstreamFailureKind::Auth403
    } else if {
        let l = lower_chars(message);
        is_auth_error_message(l.as_slice())
    } {
        UpstreamFailureKind::Auth401
    } else if status_code == 404 {
        UpstreamFailureKind::NotFound
    } else if status_code == 429 && {
        let l = lower_chars(message);
        let s = crate::text::string_of(l.as_slice());
        is_codex_quota_exhaustion_error(s.as_str())
    } {
        UpstreamFailureKind::UsageLimitReached
    } else if (status_code == 400 || status_code == 422) && is_model_support_error_message(
        message,
    ) {
        UpstreamFailureKind::ModelNotSupported
    } else if status_code == 408 || status_code == 500 || status_code == 502 || status_code == 503
        || status_code == 504 {
        UpstreamFailureKind::TransientUpstream
    } else if status_code == 429 {
        UpstreamFailureKind::Auth429
    } else {
        UpstreamFailureKind::Other
    }
}

/// The error code reported for a message with its status code.
pub open spec fn spec_error_code(message: Seq<char>, status: u16) -> Seq<char> {
    let l = lower(message);
    if spec_auth_error_message(l) {
        "authentication_error"@
    } else if contains(l, "usage_limit_reached"@) {
        "usage_limit_reached"@
    } else if spec_model_support_error(message) {
        "model_not_supported"@
    } else if status == 404 {
        "not_found"@
    } else if status == 408 || status == 500 || status == 502 || status == 503 || status == 504 {
        "transient_upstream"@
    } else {
        "upstream_error"@
    }
}

pub fn classify_error_code(message: &str, status_code: u16) -> (r: String)
    ensures
        r@ == spec_error_code(message@, status_code),
{
    let l = lower_chars(message);
    let l = l.as_slice();
    if is_auth_error_message(l) {
        "authentication_error".to_owned()
    } else if has(l, "usage_limit_reached") {
        "usage_limit_reached".to_owned()
    } else if is_model_support_error_message(message) {
        "model_not_supported".to_owned()
    } else if status_code == 404 {
        "not_found".to_owned()
    } else if status_code == 408 || status_code == 500 || status_code == 502 || status_code == 503
        || status_code == 504 {
        "transient_upstream".to_owned()
    } else {
        "upstream_error".to_owned()
    }
}

pub open spec fn is_digit(c: char) -> bool {
    '0' <= c <= '9'
}

/// Index of the first digit of `s` at or after `i`, or the length of `s`.
pub open spec fn first_digit_from(s: Seq<char>, i: int) -> int
    decreases s.len() - i,
{
    if i >= s.len() || i < 0 {
        s.len() as int
    } else if is_digit(s[i]) {
        i
    } else {
        first_digit_from(s, i + 1)
    }
}

/// Index of the first non-digit of `s` at or after `i`, or the length of `s`.
pub open spec fn first_non_digit_from(s: Seq<char>, i: int) -> int
    decreases s.len() - i,
{
    if i >= s.len() || i < 0 {
        s.len() as int
    } else if !is_digit(s[i]) {
        i
    } else {
        first_non_digit_from(s, i + 1)
    }
}

/// The number that a run of decimal digits spells.
pub open spec fn digits_value(d: Seq<char>) -> nat
    decreases d.len(),
{
    if d.len() == 0 {
        0
    } else {
        digits_value(d.drop_last()) * 10 + ((d.last() as u32) - ('0' as u32)) as nat
    }
}

/// The first run of digits after the first `"key":` in `message`, read as a `u64`; 0 where
/// there is no such key, no digit, or the number does not fit.
pub open spec fn spec_json_number(message: Seq<char>, key: Seq<char>) -> u64 {
    let needle = seq!['"'] + key + seq!['"', ':'];
    if contains(message, needle) {
        let i = choose|i: int|
            occurs_at(message, needle, i) && forall|j: int|
                0 <= j < i ==> !occurs_at(message, needle, j);
        let p = first_digit_from(message, i + needle.len());
        let q = first_non_digit_from(message, p);
        let v = digits_value(message.subrange(p, q));
        if p < q && v <= u64::MAX {
            v as u64
        } else {
            0
        }
    } else {
        0
    }
}

proof fn lemma_digits_push(d: Seq<char>, c: char)
    ensures
        digits_value(d.push(c)) == digits_value(d) * 10 + ((c as u32) - ('0' as u32)) as nat,
{
    assert(d.push(c).drop_last() =~= d);
}

proof fn lemma_first_digit_step(s: Seq<char>, a: int, i: int)
    requires
        0 <= a <= i < s.len(),
        first_digit_from(s, a) == first_digit_from(s, i),
        !is_digit(s[i]),
    ensures
        first_digit_from(s, a) == first_digit_from(s, i + 1),
{
}

proof fn lemma_first_non_digit_step(s: Seq<char>, a: int, i: int)
    requires
        0 <= a <= i < s.len(),
        first_non_digit_from(s, a) == first_non_digit_from(s, i),
        is_digit(s[i]),
    ensures
        first_non_digit_from(s, a) == first_non_digit_from(s, i + 1),
{
}

fn char_digit(c: char) -> (r: Option<u64>)
    ensures
        r is Some <==> is_digit(c),
        r matches Some(d) ==> d == (c as u32) - ('0' as u32) && d <= 9,
{
    if '0' <= c && c <= '9' {
        Some(((c as u32) - ('0' as u32)) as u64)
    } else {
        None
    }
}

/// Reads the number that follows `"key":` in a message.
pub fn extract_json_number(message: &str, key: &str) -> (r: u64)
    ensures
        r == spec_json_number(message@, key@),
{
    let m = chars_of(message);
    let mut needle: Vec<char> = Vec::new();
    needle.push('"');
    let k = chars_of(key);
    let mut t: usize = 0;
    while t < k.len()
        invariant
            t <= k@.len(),
            needle@ == seq!['"'] + k@.take(t as int),
        decreases k@.len() - t,
    {
        needle.push(k[t]);
        t = t + 1;
        assert(needle@ =~= seq!['"'] + k@.take(t as int));
    }
    needle.push('"');
    needle.push(':');
    assert(needle@ =~= seq!['"'] + key@ + seq!['"', ':']);
    let start = match find(m.as_slice(), needle.as_slice()) {
        Some(s) => s,
        None => {
            return 0;
        },
    };
    let ghost i0 = start as int;
    proof {
        let needle_s = seq!['"'] + key@ + seq!['"', ':'];
        let c = choose|i: int|
            occurs_at(message@, needle_s, i) && forall|j: int|
                0 <= j < i ==> !occurs_at(message@, needle_s, j);
        if c < i0 {
        } else if c > i0 {
        }
        assert(c == i0);
    }
    let n = m.len();
    let from = start + needle.len();
    let mut i = from;
    while i < n && char_digit(m[i]).is_none()
        invariant
            n == m@.len(),
            m@ == message@,
            from <= i <= n,
            first_digit_from(m@, from as int) == first_digit_from(m@, i as int),
        decreases n - i,
    {
        proof {
            lemma_first_digit_step(m@, from as int, i as int);
        }
        i = i + 1;
    }
    let p = i;
    let mut value: u64 = 0;
    let mut overflow = false;
    while i < n && char_digit(m[i]).is_some()
        invariant
            n == m@.len(),
            p <= i <= n,
            first_digit_from(m@, from as int) == p,
            first_non_digit_from(m@, p as int) == first_non_digit_from(m@, i as int),
            forall|j: int| p <= j < i ==> is_digit(#[trigger] m@[j]),
            !overflow ==> value as nat == digits_value(m@.subrange(p as int, i as int)),
            overflow ==> digits_value(m@.subrange(p as int, i as int)) > u64::MAX,
        decreases n - i,
    {
        let d = char_digit(m[i]).unwrap();
        proof {
            lemma_first_non_digit_step(m@, p as int, i as int);
            assert(m@.subrange(p as int, i + 1) =~= m@.subrange(p as int, i as int).push(m@[i as int]));
            lemma_digits_push(m@.subrange(p as int, i as int), m@[i as int]);
        }
        if !overflow {
            if value <= (u64::MAX - d) / 10 {
                assert(value * 10 + d <= u64::MAX) by (nonlinear_arith)
                    requires
                        value <= (u64::MAX - d) / 10,
                        d <= 9,
                ;
                value = value * 10 + d;
            } else {
                assert(value * 10 + d > u64::MAX) by (nonlinear_arith)
                    requires
                        value > (u64::MAX - d) / 10,
                        d <= 9,
                ;
                overflow = true;
            }
        } else {
            assert(digits_value(m@.subrange(p as int, i as int)) * 10 >= digits_value(
                m@.subrange(p as int, i as int),
            )) by (nonlinear_arith);
        }
        i = i + 1;
    }
    proof {
        if i < n {
            assert(!is_digit(m@[i as int]));
        }
    }
    if p < i && !overflow {
        value
    } else {
        0
    }
}

/// The retry hint of a message, in milliseconds.
pub open spec fn spec_retry_after_ms(message: Seq<char>) -> u64 {
    let s = spec_json_number(message, "resets_in_seconds"@);
    if s as int * 1000 > u64::MAX {
        u64::MAX
    } else {
        (s * 1000) as u64
    }
}

pub fn extract_retry_after_ms(message: &str) -> (r: u64)
    ensures
        r == spec_retry_after_ms(message@),
{
    let s = extract_json_number(message, "resets_in_seconds");
    if s > u64::MAX / 1000 {
        u64::MAX
    } else {
        s * 1000
    }
}

/// `c` is what the failure message says: its status, kind, error code and retry hint.
pub open spec fn classified(c: ClassifiedUpstreamFailure, message: Seq<char>) -> bool {
    &&& c.status_code == spec_status_code(message)
    &&& c.kind == spec_failure_kind(message, c.status_code)
    &&& c.error_code@ == spec_error_code(message, c.status_code)
    &&& c.message@ == message
    &&& c.retry_after_ms == spec_retry_after_ms(message)
}

/// Reads status, kind, error code and retry hint off a failure message.
pub fn classify_upstream_failure(message: &str) -> (r: ClassifiedUpstreamFailure)
    ensures
        classified(r, message@),
{
    let status_code = classify_status_code(message);
    let kind = classify_failure_kind(message, status_code);
    let error_code = classify_error_code(message, status_code);
    let retry_after_ms = extract_retry_after_ms(message);
    ClassifiedUpstreamFailure {
        kind,
        status_code,
        error_code,
        message: message.to_owned(),
        retry_after_ms,
    }
}

/// The retry decision for a failure message.
pub open spec fn spec_precommit_classification(message: Seq<char>) -> PrecommitRetryClassification {
    spec_failure_kind(message, spec_status_code(message)).spec_precommit_retry()
}

pub fn classify_precommit_retry(message: &str) -> (r: PrecommitRetryClassification)
    ensures
        r == spec_precommit_classification(message@),
{
    let status_code = classify_status_code(message);
    classify_failure_kind(message, status_code).precommit_retry()
}

pub fn should_retry_auth_bound_error(message: &str) -> (r: bool)
    ensures
        r == spec_precommit_classification(message@).spec_should_retry(),
{
    classify_precommit_retry(message).should_retry()
}

/// The reason recorded for an auth failure in request telemetry.
pub open spec fn spec_auth_failure_reason(message: Seq<char>) -> Seq<char> {
    let l = lower(message);
    if contains(l, "upstream codex error 401"@) || contains(l, "invalid_api_key"@) {
        "auth_401"@
    } else if contains(l, "upstream codex error 403"@) || contains(l, "account_deactivated"@) {
        "auth_403"@
    } else if contains(l, "usage_limit_reached"@) || contains(
        l,
        "the usage limit has been reached"@,
    ) {
        "usage_limit_reached"@
    } else if contains(l, "upstream codex error 429"@) {
        "auth_429"@
    } else {
        "other"@
    }
}

pub fn classify_auth_failure_reason(message: &str) -> (r: &'static str)
    ensures
        r@ == spec_auth_failure_reason(message@),
{
    let l = lower_chars(message);
    let l = l.as_slice();
    if has(l, "upstream codex error 401") || has(l, "invalid_api_key") {
        "auth_401"
    } else if has(l, "upstream codex error 403") || has(l, "account_deactivated") {
        "auth_403"
    } else if has(l, "usage_limit_reached") || has(l, "the usage limit has been reached") {
        "usage_limit_reached"
    } else if has(l, "upstream codex error 429") {
        "auth_429"
    } else {
        "other"
    }
}

pub open spec fn spec_provider_name(provider: ProviderKind) -> Seq<char> {
    match provider {
        ProviderKind::OpenAi => "openai"@,
        ProviderKind::Codex => "codex"@,
        ProviderKind::Mock => "mock"@,
    }
}

pub fn provider_name(provider: ProviderKind) -> (r: &'static str)
    ensures
        r@ == spec_provider_name(provider),
{
    match provider {
        ProviderKind::OpenAi => "openai",
        ProviderKind::Codex => "codex",
        ProviderKind::Mock => "mock",
    }
}

/// The decimal text of a number is a non-empty run of digits that spells it.
proof fn lemma_digits_of(n: nat)
    ensures
        digits_of(n).len() > 0,
        forall|i: int| 0 <= i < digits_of(n).len() ==> is_digit(#[trigger] digits_of(n)[i]),
        digits_value(digits_of(n)) == n,
    decreases n,
{
    if n < 10 {
        assert(digit_char(n) as u32 == '0' as u32 + n);
        assert(digits_of(n) =~= seq![digit_char(n)]);
        assert(digits_of(n).drop_last() =~= Seq::<char>::empty());
        assert(digits_value(Seq::<char>::empty()) == 0);
        assert(digits_of(n).last() == digit_char(n));
        assert(digits_value(digits_of(n)) == digits_value(digits_of(n).drop_last()) * 10 + ((
        digits_of(n).last() as u32) - ('0' as u32)) as nat);
    } else {
        lemma_digits_of(n / 10);
        let d = digits_of(n / 10);
        let c = digit_char(n % 10);
        assert(c as u32 == '0' as u32 + n % 10);
        assert(digits_of(n) == d.push(c));
        lemma_digits_push(d, c);
        assert forall|i: int| 0 <= i < d.push(c).len() implies is_digit(#[trigger] d.push(c)[i]) by {
            if i < d.len() {
                assert(d.push(c)[i] == d[i]);
            }
        }
        assert(n == (n / 10) * 10 + n % 10);
        assert(digits_value(d.push(c)) == (n / 10) * 10 + n % 10);
    }
}

proof fn lemma_first_non_digit_run(s: Seq<char>, a: int, b: int)
    requires
        0 <= a <= b <= s.len(),
        forall|i: int| a <= i < b ==> is_digit(#[trigger] s[i]),
        b == s.len() || !is_digit(s[b]),
    ensures
        first_non_digit_from(s, a) == b,
    decreases b - a,
{
    if a < b {
        lemma_first_non_digit_run(s, a + 1, b);
    }
}

/// A number written right after `"key":` is what is read for the key: for a message that opens
/// with `"key":` followed by the decimal digits of `n` (and then anything but another digit),
/// the number read is `n`.
pub proof fn law_json_number_reads_the_digits(key: Seq<char>, n: u64, rest: Seq<char>)
    requires
        rest.len() == 0 || !is_digit(rest[0]),
    ensures
        spec_json_number(seq!['"'] + key + seq!['"', ':'] + digits_of(n as nat) + rest, key) == n,
{
    let needle = seq!['"'] + key + seq!['"', ':'];
    let d = digits_of(n as nat);
    let m = needle + d + rest;
    lemma_digits_of(n as nat);
    let l = needle.len() as int;
    assert(m.subrange(0, l) =~= needle);
    assert(occurs_at(m, needle, 0));
    let i = choose|i: int|
        occurs_at(m, needle, i) && forall|j: int| 0 <= j < i ==> !occurs_at(m, needle, j);
    assert(occurs_at(m, needle, 0) && forall|j: int| 0 <= j < 0 ==> !occurs_at(m, needle, j));
    assert(i == 0);
    assert(m[l] == d[0]);
    assert(first_digit_from(m, l) == l);
    assert forall|k: int| l <= k < l + d.len() implies is_digit(#[trigger] m[k]) by {
        assert(m[k] == d[k - l]);
    }
    if rest.len() > 0 {
        assert(m[l + d.len()] == rest[0]);
    }
    lemma_first_non_digit_run(m, l, l + d.len());
    assert(m.subrange(l, l + d.len()) =~= d);
}

/// The retry hint is the reset time in milliseconds: 1000 times the number read for
/// `resets_in_seconds`, or the largest `u64` where that does not fit.
pub proof fn law_retry_hint_is_in_milliseconds(message: Seq<char>)
    ensures
        spec_json_number(message, "resets_in_seconds"@) as int * 1000 <= u64::MAX ==> spec_retry_after_ms(
            message,
        ) as int == spec_json_number(message, "resets_in_seconds"@) as int * 1000,
        spec_json_number(message, "resets_in_seconds"@) as int * 1000 > u64::MAX
            ==> spec_retry_after_ms(message) == u64::MAX,
        spec_retry_after_ms(message) >= spec_json_number(message, "resets_in_seconds"@),
{
}

/// A quota message that says it resets in `s` seconds gives a retry hint of `s` seconds in
/// milliseconds (saturating).
#[verifier::spinoff_prover]
pub proof fn law_reset_seconds_become_milliseconds(s: u64, rest: Seq<char>)
    requires
        rest.len() == 0 || !is_digit(rest[0]),
    ensures
        ({
            let m = seq!['"'] + "resets_in_seconds"@ + seq!['"', ':'] + digits_of(s as nat) + rest;
            &&& s as int * 1000 <= u64::MAX ==> spec_retry_after_ms(m) as int == s as int * 1000
            &&& s as int * 1000 > u64::MAX ==> spec_retry_after_ms(m) == u64::MAX
        }),
{
    let m = seq!['"'] + "resets_in_seconds"@ + seq!['"', ':'] + digits_of(s as nat) + rest;
    law_json_number_reads_the_digits("resets_in_seconds"@, s, rest);
    assert(spec_json_number(m, "resets_in_seconds"@) == s);
    law_retry_hint_is_in_milliseconds(m);
}

/// How long a failure cools its auth or model down, from `now` (in nanoseconds): an auth
/// failure 30 minutes, a model that is gone or not offered 12 hours, a transient failure 60
/// seconds, a usage limit the retry hint in milliseconds (1 second without one), and a plain
/// 429 or other failure not at all.
pub proof fn law_cooldown_durations(now: int, ms: u64)
    ensures
        UpstreamFailureKind::Auth401.spec_cooldown_until(now, ms) == Some(now + 30 * 60 * 1_000_000_000),
        UpstreamFailureKind::Auth403.spec_cooldown_until(now, ms) == Some(now + 30 * 60 * 1_000_000_000),
        UpstreamFailureKind::NotFound.spec_cooldown_until(now, ms) == Some(now + 12 * 3600 * 1_000_000_000),
        UpstreamFailureKind::ModelNotSupported.spec_cooldown_until(now, ms) == Some(
            now + 12 * 3600 * 1_000_000_000,
        ),
        UpstreamFailureKind::TransientUpstream.spec_cooldown_until(now, ms) == Some(now + 60 * 1_000_000_000),
        0 < ms <= i64::MAX ==> UpstreamFailureKind::UsageLimitReached.spec_cooldown_until(now, ms)
            == Some(now + ms * 1_000_000),
        ms == 0 ==> UpstreamFailureKind::UsageLimitReached.spec_cooldown_until(now, ms) == Some(
            now + 1_000_000_000,
        ),
        UpstreamFailureKind::Auth429.spec_cooldown_until(now, ms) is None,
        UpstreamFailureKind::Other.spec_cooldown_until(now, ms) is None,
{
}

} // verus!
