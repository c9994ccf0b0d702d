//! Where the runtime snapshot comes from, how often it is polled, how a fetched snapshot is
//! checked, and when it counts as a change.
use vstd::prelude::*;
use vstd::string::*;
use crate::text::{blank, chars_of, eq_ignore_ascii_case, is_blank, lower, trim, trim_bounds};
use crate::types::{has_key, AuthRecord, ProviderConfig, RuntimeSnapshot};

verus! {

/// Where the snapshot is read from.
#[derive(Debug, Clone, PartialEq, Eq)]
pub enum SnapshotSource {
    File { path: String },
    Http { url: String, bearer_token: Option<String> },
}

/// The snapshot source and its polling period.
#[derive(Debug, Clone, PartialEq, Eq)]
pub struct RuntimeConfigClientConfig {
    pub source: SnapshotSource,
    pub poll_interval_seconds: u64,
}

/// The polling period used when none is configured.
pub const DEFAULT_POLL_INTERVAL_SECONDS: u64 = 30;

impl RuntimeConfigClientConfig {
    /// A configuration polling `source` every thirty seconds.
    pub fn new(source: SnapshotSource) -> (r: Self)
        ensures
            r.source == source,
            r.poll_interval_seconds == DEFAULT_POLL_INTERVAL_SECONDS,
    {
        RuntimeConfigClientConfig { source, poll_interval_seconds: DEFAULT_POLL_INTERVAL_SECONDS }
    }

    /// The polling period in seconds, at least one.
    pub fn poll_interval(&self) -> (r: u64)
        ensures
            r == if self.poll_interval_seconds == 0 {
                1
            } else {
                self.poll_interval_seconds
            },
    {
        if self.poll_interval_seconds == 0 {
            1
        } else {
            self.poll_interval_seconds
        }
    }
}

/// A fetched snapshot and whether its version differs from the one in use.
#[derive(Debug, Clone, PartialEq, Eq)]
pub struct SnapshotUpdate {
    pub snapshot: RuntimeSnapshot,
    pub changed: bool,
}

/// Whether a snapshot of version `next` replaces the one of version `current`.
pub open spec fn spec_snapshot_changed(current: Option<Seq<char>>, next: Seq<char>) -> bool {
    match current {
        Some(c) => trim(c) != trim(next),
        None => true,
    }
}

/// A version compared with itself is no change, and any version is a change when none was in
/// use; the comparison ignores surrounding whitespace.
pub proof fn law_snapshot_change_by_version(current: Seq<char>, next: Seq<char>)
    ensures
        !spec_snapshot_changed(Some(next), next),
        spec_snapshot_changed(None, next),
        spec_snapshot_changed(Some(current), next) <==> trim(current) != trim(next),
{
}

pub fn snapshot_changed(current_version: Option<&str>, next_version: &str) -> (r: bool)
    ensures
        r == spec_snapshot_changed(
            match current_version {
                Some(c) => Some(c@),
                None => None,
            },
            next_version@,
        ),
{
    match current_version {
        Some(current) => {
            let a = chars_of(current);
            let b = chars_of(next_version);
            let (a0, a1) = trim_bounds(a.as_slice());
            let (b0, b1) = trim_bounds(b.as_slice());
            let x = crate::text::slice_chars(a.as_slice(), a0, a1);
            let y = crate::text::slice_chars(b.as_slice(), b0, b1);
            !crate::text::chars_eq(x.as_slice(), y.as_slice())
        },
        None => true,
    }
}

/// The update made of a fetched snapshot, seen against the version in use.
pub fn make_update(current_version: Option<&str>, snapshot: RuntimeSnapshot) -> (r: SnapshotUpdate)
    ensures
        r.snapshot == snapshot,
        r.changed == spec_snapshot_changed(
            match current_version {
                Some(c) => Some(c@),
                None => None,
            },
            snapshot.version@,
        ),
{
    let changed = snapshot_changed(current_version, snapshot.version.as_str());
    SnapshotUpdate { snapshot, changed }
}

/// The defects a snapshot can have; `S` is the text type (strings at run time, character
/// sequences in contracts).
#[derive(Debug, Clone, PartialEq, Eq)]
pub enum SnapshotFault<S> {
    EmptyVersion,
    EmptyGeneratedAt,
    EmptySourceInstanceId,
    EmptyPublicHttp,
    EmptyProviderKey,
    ProviderMissingModels(S),
    EmptyAliasProviderKey,
    EmptyAlias(S),
    EmptyAliasTarget(S),
    EmptyAuthId,
    EmptyAuthProvider(S),
    CodexOauthMissingExecution(S),
    CodexOauthMissingAccessToken(S),
}

/// A snapshot defect as it is reported.
pub type SnapshotError = SnapshotFault<String>;

pub open spec fn fault_view(e: SnapshotError) -> SnapshotFault<Seq<char>> {
    match e {
        SnapshotFault::EmptyVersion => SnapshotFault::EmptyVersion,
        SnapshotFault::EmptyGeneratedAt => SnapshotFault::EmptyGeneratedAt,
        SnapshotFault::EmptySourceInstanceId => SnapshotFault::EmptySourceInstanceId,
        SnapshotFault::EmptyPublicHttp => SnapshotFault::EmptyPublicHttp,
        SnapshotFault::EmptyProviderKey => SnapshotFault::EmptyProviderKey,
        SnapshotFault::ProviderMissingModels(p) => SnapshotFault::ProviderMissingModels(p@),
        SnapshotFault::EmptyAliasProviderKey => SnapshotFault::EmptyAliasProviderKey,
        SnapshotFault::EmptyAlias(p) => SnapshotFault::EmptyAlias(p@),
        SnapshotFault::EmptyAliasTarget(p) => SnapshotFault::EmptyAliasTarget(p@),
        SnapshotFault::EmptyAuthId => SnapshotFault::EmptyAuthId,
        SnapshotFault::EmptyAuthProvider(a) => SnapshotFault::EmptyAuthProvider(a@),
        SnapshotFault::CodexOauthMissingExecution(a) => SnapshotFault::CodexOauthMissingExecution(
            a@,
        ),
        SnapshotFault::CodexOauthMissingAccessToken(a) => SnapshotFault::CodexOauthMissingAccessToken(
            a@,
        ),
    }
}

/// The first defect among the provider entries, in order.
pub open spec fn providers_fault(
    ps: Seq<(String, ProviderConfig)>,
    models: Seq<(String, Vec<String>)>,
) -> Option<SnapshotFault<Seq<char>>>
    decreases ps.len(),
{
    if ps.len() == 0 {
        None
    } else if blank(ps[0].0@) {
        Some(SnapshotFault::EmptyProviderKey)
    } else if ps[0].1.enabled && !has_key(models, ps[0].0@) {
        Some(SnapshotFault::ProviderMissingModels(ps[0].0@))
    } else {
        providers_fault(ps.drop_first(), models)
    }
}

/// The first defect among the aliases of one provider.
pub open spec fn aliases_fault(provider: Seq<char>, al: Seq<(String, String)>) -> Option<
    SnapshotFault<Seq<char>>,
>
    decreases al.len(),
{
    if al.len() == 0 {
        None
    } else if blank(al[0].0@) {
        Some(SnapshotFault::EmptyAlias(provider))
    } else if blank(al[0].1@) {
        Some(SnapshotFault::EmptyAliasTarget(provider))
    } else {
        aliases_fault(provider, al.drop_first())
    }
}

/// The first defect among the alias tables, in order.
pub open spec fn alias_tables_fault(t: Seq<(String, Vec<(String, String)>)>) -> Option<
    SnapshotFault<Seq<char>>,
>
    decreases t.len(),
{
    if t.len() == 0 {
        None
    } else if blank(t[0].0@) {
        Some(SnapshotFault::EmptyAliasProviderKey)
    } else if aliases_fault(t[0].0@, t[0].1@) is Some {
        aliases_fault(t[0].0@, t[0].1@)
    } else {
        alias_tables_fault(t.drop_first())
    }
}

/// Whether an auth is a Codex OAuth credential.
pub open spec fn is_codex_oauth(a: AuthRecord) -> bool {
    lower(trim(a.provider@)) == "codex"@ && lower(trim(a.auth_kind@)) == "oauth"@
}

/// The defect of one auth, if any.
pub open spec fn auth_fault(a: AuthRecord) -> Option<SnapshotFault<Seq<char>>> {
    if blank(a.id@) {
        Some(SnapshotFault::EmptyAuthId)
    } else if blank(a.provider@) {
        Some(SnapshotFault::EmptyAuthProvider(a.id@))
    } else if is_codex_oauth(a) && a.execution.codex is None {
        Some(SnapshotFault::CodexOauthMissingExecution(a.id@))
    } else if is_codex_oauth(a) && blank(a.execution.codex->0.access_token@) {
        Some(SnapshotFault::CodexOauthMissingAccessToken(a.id@))
    } else {
        None
    }
}

/// The first defective auth of the pool, in order.
pub open spec fn pool_fault(pool: Seq<AuthRecord>) -> Option<SnapshotFault<Seq<char>>>
    decreases pool.len(),
{
    if pool.len() == 0 {
        None
    } else if auth_fault(pool[0]) is Some {
        auth_fault(pool[0])
    } else {
        pool_fault(pool.drop_first())
    }
}

/// The first defect of a snapshot, checked in the order: identity fields, listener, providers,
/// aliases, auth pool.
pub open spec fn spec_snapshot_fault(s: RuntimeSnapshot) -> Option<SnapshotFault<Seq<char>>> {
    if blank(s.version@) {
        Some(SnapshotFault::EmptyVersion)
    } else if blank(s.generated_at@) {
        Some(SnapshotFault::EmptyGeneratedAt)
    } else if blank(s.source_instance_id@) {
        Some(SnapshotFault::EmptySourceInstanceId)
    } else if blank(s.listeners.public_http@) {
        Some(SnapshotFault::EmptyPublicHttp)
    } else if providers_fault(s.providers@, s.models@) is Some {
        providers_fault(s.providers@, s.models@)
    } else if alias_tables_fault(s.model_aliases@) is Some {
        alias_tables_fault(s.model_aliases@)
    } else {
        pool_fault(s.auth_pool@)
    }
}

fn providers_check(ps: &Vec<(String, ProviderConfig)>, models: &Vec<(String, Vec<String>)>) -> (r:
    Option<SnapshotError>)
    ensures
        r matches Some(e) ==> providers_fault(ps@, models@) == Some(fault_view(e)),
        r is None ==> providers_fault(ps@, models@) is None,
{
    let mut i: usize = 0;
    assert(ps@.skip(0) =~= ps@);
    while i < ps.len()
        invariant
            i <= ps@.len(),
            providers_fault(ps@, models@) == providers_fault(ps@.skip(i as int), models@),
        decreases ps@.len() - i,
    {
        assert(ps@.skip(i as int).drop_first() =~= ps@.skip(i + 1));
        assert(ps@.skip(i as int)[0] == ps@[i as int]);
        if is_blank(ps[i].0.as_str()) {
            return Some(SnapshotFault::EmptyProviderKey);
        }
        if ps[i].1.enabled {
            let k = chars_of(ps[i].0.as_str());
            if crate::types::find_key(models, k.as_slice()).is_none() {
                return Some(SnapshotFault::ProviderMissingModels(ps[i].0.clone()));
            }
        }
        i = i + 1;
    }
    None
}

fn aliases_check(provider: &String, al: &Vec<(String, String)>) -> (r: Option<SnapshotError>)
    ensures
        r matches Some(e) ==> aliases_fault(provider@, al@) == Some(fault_view(e)),
        r is None ==> aliases_fault(provider@, al@) is None,
{
    let mut i: usize = 0;
    assert(al@.skip(0) =~= al@);
    while i < al.len()
        invariant
            i <= al@.len(),
            aliases_fault(provider@, al@) == aliases_fault(provider@, al@.skip(i as int)),
        decreases al@.len() - i,
    {
        assert(al@.skip(i as int).drop_first() =~= al@.skip(i + 1));
        assert(al@.skip(i as int)[0] == al@[i as int]);
        if is_blank(al[i].0.as_str()) {
            return Some(SnapshotFault::EmptyAlias(provider.clone()));
        }
        if is_blank(al[i].1.as_str()) {
            return Some(SnapshotFault::EmptyAliasTarget(provider.clone()));
        }
        i = i + 1;
    }
    None
}

fn alias_tables_check(t: &Vec<(String, Vec<(String, String)>)>) -> (r: Option<SnapshotError>)
    ensures
        r matches Some(e) ==> alias_tables_fault(t@) == Some(fault_view(e)),
        r is None ==> alias_tables_fault(t@) is None,
{
    let mut i: usize = 0;
    assert(t@.skip(0) =~= t@);
    while i < t.len()
        invariant
            i <= t@.len(),
            alias_tables_fault(t@) == alias_tables_fault(t@.skip(i as int)),
        decreases t@.len() - i,
    {
        assert(t@.skip(i as int).drop_first() =~= t@.skip(i + 1));
        assert(t@.skip(i as int)[0] == t@[i as int]);
        if is_blank(t[i].0.as_str()) {
            return Some(SnapshotFault::EmptyAliasProviderKey);
        }
        let found = aliases_check(&t[i].0, &t[i].1);
        if found.is_some() {
            return found;
        }
        i = i + 1;
    }
    None
}

fn is_codex_oauth_exec(a: &AuthRecord) -> (r: bool)
    ensures
        r == is_codex_oauth(*a),
{
    let p = chars_of(crate::text::trim_str(a.provider.as_str()).as_str());
    let k = chars_of(crate::text::trim_str(a.auth_kind.as_str()).as_str());
    let codex = chars_of("codex");
    let oauth = chars_of("oauth");
    proof {
        reveal_strlit("codex");
        reveal_strlit("oauth");
        assert(lower("codex"@) =~= "codex"@);
        assert(lower("oauth"@) =~= "oauth"@);
    }
    eq_ignore_ascii_case(p.as_slice(), codex.as_slice()) && eq_ignore_ascii_case(
        k.as_slice(),
        oauth.as_slice(),
    )
}

fn auth_check(a: &AuthRecord) -> (r: Option<SnapshotError>)
    ensures
        r matches Some(e) ==> auth_fault(*a) == Some(fault_view(e)),
        r is None ==> auth_fault(*a) is None,
{
    if is_blank(a.id.as_str()) {
        return Some(SnapshotFault::EmptyAuthId);
    }
    if is_blank(a.provider.as_str()) {
        return Some(SnapshotFault::EmptyAuthProvider(a.id.clone()));
    }
    if is_codex_oauth_exec(a) {
        match &a.execution.codex {
            None => {
                return Some(SnapshotFault::CodexOauthMissingExecution(a.id.clone()));
            },
            Some(e) => {
                if is_blank(e.access_token.as_str()) {
                    return Some(SnapshotFault::CodexOauthMissingAccessToken(a.id.clone()));
                }
            },
        }
    }
    None
}

/// Checks a snapshot; `Err` carries the first defect found.
pub fn validate_snapshot(snapshot: &RuntimeSnapshot) -> (r: Result<(), SnapshotError>)
    ensures
        r is Ok <==> spec_snapshot_fault(*snapshot) is None,
        r matches Err(e) ==> spec_snapshot_fault(*snapshot) == Some(fault_view(e)),
{
    if is_blank(snapshot.version.as_str()) {
        return Err(SnapshotFault::EmptyVersion);
    }
    if is_blank(snapshot.generated_at.as_str()) {
        return Err(SnapshotFault::EmptyGeneratedAt);
    }
    if is_blank(snapshot.source_instance_id.as_str()) {
        return Err(SnapshotFault::EmptySourceInstanceId);
    }
    if is_blank(snapshot.listeners.public_http.as_str()) {
        return Err(SnapshotFault::EmptyPublicHttp);
    }
    if let Some(e) = providers_check(&snapshot.providers, &snapshot.models) {
        return Err(e);
    }
    if let Some(e) = alias_tables_check(&snapshot.model_aliases) {
        return Err(e);
    }
    let pool = &snapshot.auth_pool;
    let mut i: usize = 0;
    assert(pool@.skip(0) =~= pool@);
    let ghost before_pool = spec_snapshot_fault(*snapshot) == pool_fault(pool@);
    assert(before_pool);
    while i < pool.len()
        invariant
            i <= pool@.len(),
            pool@ == snapshot.auth_pool@,
            spec_snapshot_fault(*snapshot) == pool_fault(pool@),
            pool_fault(pool@) == pool_fault(pool@.skip(i as int)),
        decreases pool@.len() - i,
    {
        assert(pool@.skip(i as int).drop_first() =~= pool@.skip(i + 1));
        assert(pool@.skip(i as int)[0] == pool@[i as int]);
        if let Some(e) = auth_check(&pool[i]) {
            return Err(e);
        }
        i = i + 1;
    }
    assert(pool@.skip(pool@.len() as int) =~= Seq::<AuthRecord>::empty());
    Ok(())
}

impl SnapshotFault<String> {
    pub open spec fn spec_message(self) -> Seq<char> {
        match self {
            SnapshotFault::EmptyVersion => "snapshot.version must not be empty"@,
            SnapshotFault::EmptyGeneratedAt => "snapshot.generated_at must not be empty"@,
            SnapshotFault::EmptySourceInstanceId => "snapshot.source_instance_id must not be empty"@,
            SnapshotFault::EmptyPublicHttp => "snapshot.listeners.public_http must not be empty"@,
            SnapshotFault::EmptyProviderKey => "snapshot.providers contains an empty provider key"@,
            SnapshotFault::ProviderMissingModels(p) => "enabled provider "@ + p@
                + " is missing snapshot.models entry"@,
            SnapshotFault::EmptyAliasProviderKey =>
                "snapshot.model_aliases contains an empty provider key"@,
            SnapshotFault::EmptyAlias(p) =>
                "snapshot.model_aliases contains an empty alias for provider "@ + p@,
            SnapshotFault::EmptyAliasTarget(p) =>
                "snapshot.model_aliases contains an empty upstream model for provider "@ + p@,
            SnapshotFault::EmptyAuthId => "snapshot.auth_pool contains auth with empty id"@,
            SnapshotFault::EmptyAuthProvider(a) => "snapshot.auth_pool contains auth "@ + a@
                + " with empty provider"@,
            SnapshotFault::CodexOauthMissingExecution(a) =>
                "snapshot.auth_pool contains codex oauth auth "@ + a@ + " without execution.codex"@,
            SnapshotFault::CodexOauthMissingAccessToken(a) =>
                "snapshot.auth_pool contains codex oauth auth "@ + a@
                + " without execution.codex.access_token"@,
        }
    }

    /// The text of the defect.
    pub fn message(&self) -> (r: String)
        ensures
            r@ == self.spec_message(),
    {
        match self {
            SnapshotFault::EmptyVersion => String::from_str("snapshot.version must not be empty"),
            SnapshotFault::EmptyGeneratedAt => String::from_str(
                "snapshot.generated_at must not be empty",
            ),
            SnapshotFault::EmptySourceInstanceId => String::from_str(
                "snapshot.source_instance_id must not be empty",
            ),
            SnapshotFault::EmptyPublicHttp => String::from_str(
                "snapshot.listeners.public_http must not be empty",
            ),
            SnapshotFault::EmptyProviderKey => String::from_str(
                "snapshot.providers contains an empty provider key",
            ),
            SnapshotFault::ProviderMissingModels(p) => {
                let mut out = String::from_str("enabled provider ");
                out.append(p.as_str());
                out.append(" is missing snapshot.models entry");
                out
            },
            SnapshotFault::EmptyAliasProviderKey => String::from_str(
                "snapshot.model_aliases contains an empty provider key",
            ),
            SnapshotFault::EmptyAlias(p) => {
                let mut out = String::from_str(
                    "snapshot.model_aliases contains an empty alias for provider ",
                );
                out.append(p.as_str());
                out
            },
            SnapshotFault::EmptyAliasTarget(p) => {
                let mut out = String::from_str(
                    "snapshot.model_aliases contains an empty upstream model for provider ",
                );
                out.append(p.as_str());
                out
            },
            SnapshotFault::EmptyAuthId => String::from_str(
                "snapshot.auth_pool contains auth with empty id",
            ),
            SnapshotFault::EmptyAuthProvider(a) => {
                let mut out = String::from_str("snapshot.auth_pool contains auth ");
                out.append(a.as_str());
                out.append(" with empty provider");
                out
            },
            SnapshotFault::CodexOauthMissingExecution(a) => {
                let mut out = String::from_str("snapshot.auth_pool contains codex oauth auth ");
                out.append(a.as_str());
                out.append(" without execution.codex");
                out
            },
            SnapshotFault::CodexOauthMissingAccessToken(a) => {
                let mut out = String::from_str("snapshot.auth_pool contains codex oauth auth ");
                out.append(a.as_str());
                out.append(" without execution.codex.access_token");
                out
            },
        }
    }
}

} // verus!

verus! {

pub open spec fn bearer_header_error() -> Seq<char> {
    "invalid snapshot bearer token header value"@
}

/// The `Authorization` value sent to a snapshot endpoint: `Bearer <token>` when a non-blank token
/// is configured (trimmed), refused when HTTP does not accept it as a header value.
pub open spec fn spec_snapshot_authorization(token: Option<Seq<char>>) -> Result<
    Option<Seq<char>>,
    Seq<char>,
> {
    match crate::metadata::opt_trimmed(token) {
        None => Ok(None),
        Some(t) => if crate::upstream_runtime::spec_header_value_ok("Bearer "@ + t) {
            Ok(Some("Bearer "@ + t))
        } else {
            Err(bearer_header_error())
        },
    }
}

/// The `Authorization` value sent to a snapshot endpoint, if any.
pub fn snapshot_authorization(bearer_token: Option<&str>) -> (r: Result<Option<String>, String>)
    ensures
        match spec_snapshot_authorization(crate::metadata::opt_str_view(bearer_token)) {
            Ok(h) => r matches Ok(v) && crate::metadata::opt_string_view(v) == h,
            Err(e) => r matches Err(m) && m@ == e,
        },
{
    match crate::metadata::trim_to_owned(bearer_token) {
        None => Ok(None),
        Some(t) => {
            let mut h = String::from_str("Bearer ");
            h.append(t.as_str());
            if crate::upstream_runtime::header_value_ok(h.as_str()) {
                Ok(Some(h))
            } else {
                Err(String::from_str("invalid snapshot bearer token header value"))
            }
        },
    }
}

} // verus!
