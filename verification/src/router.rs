//! The router: turns a request into an execution plan against the runtime snapshot.
//!
//! It resolves the model (alias first, then the provider's model list), keeps the enabled auths
//! of the provider that support the model and are not cooling down, orders them by priority
//! (highest first) and id, and picks one: a pinned auth when the request names one, the auth a
//! session was bound to while that binding lives, or else by strategy within the highest
//! priority layer (first, or round robin). The other available auths become the retry chain.
use vstd::prelude::*;
use vstd::string::*;
use crate::clock::{
    elapsed_nanos, in_range, instant_now, parse_rfc3339, spec_rfc3339_instant, INSTANT_LIMIT,
    NANOS_PER_SECOND,
};
use crate::keymap::KeyMap;
use crate::text::{
    chars_eq, chars_lt, chars_of, decimal, decimal_chars, seq_lt, string_of, trim, trim_str,
};
use crate::types::{
    find_key, lookup, AuthRecord, ExecutionPlan, ProviderKind, RoutingStrategy, RuntimeSnapshot,
    StickinessSource,
};

verus! {

/// What a request asks of the router.
#[derive(Debug, Clone, PartialEq, Eq)]
pub struct PlanRequest {
    pub requested_model: String,
    pub session_id: Option<String>,
    pub pinned_auth_id: Option<String>,
}

/// Why no plan could be made.
#[derive(Debug, Clone, PartialEq, Eq)]
pub enum PlanError {
    RouteDisabled,
    ProviderDisabled,
    EmptyModel,
    ModelNotRoutable(String),
    NoAvailableAuth(String),
    PinnedAuthUnavailable(String),
}

/// A session binding: the auth it points to and when it lapses.
#[derive(Debug)]
struct AffinityEntry {
    auth_id: String,
    expires_at: i128,
}

/// The router with its session bindings and round-robin cursors. Session bindings lapse on
/// the monotonic clock: nanoseconds since the router was made, never read back smaller.
#[derive(Debug)]
pub struct RouterCore {
    affinity: KeyMap<String, AffinityEntry>,
    round_robin_offsets: KeyMap<String, usize>,
    had_expired_or_invalid_affinity: bool,
    origin: std::time::Instant,
    last_instant: i128,
}

/// The router's state: session bindings (auth id, expiry), round-robin cursors, and whether a
/// binding was found stale since the last session decision.
pub struct RouterModel {
    pub affinity: Map<Seq<char>, (Seq<char>, i128)>,
    pub offsets: Map<Seq<char>, usize>,
    pub rebound: bool,
}

/// A plan as values.
pub struct PlanModel {
    pub provider: ProviderKind,
    pub model: Seq<char>,
    pub auth_id: Seq<char>,
    pub retries: Seq<Seq<char>>,
    pub source: StickinessSource,
}

/// A planning error as values.
pub enum PlanErrorModel {
    RouteDisabled,
    ProviderDisabled,
    EmptyModel,
    ModelNotRoutable(Seq<char>),
    NoAvailableAuth(Seq<char>),
    PinnedAuthUnavailable(Seq<char>),
}

impl PlanError {
    pub open spec fn spec_message(self) -> Seq<char> {
        match self {
            PlanError::RouteDisabled => "responses route is disabled by runtime snapshot"@,
            PlanError::ProviderDisabled => "provider codex is disabled"@,
            PlanError::EmptyModel => "requested model must not be empty"@,
            PlanError::ModelNotRoutable(m) => "requested model "@ + m@
                + " is not routable for provider codex"@,
            PlanError::NoAvailableAuth(m) => "no available auth for provider codex and model "@
                + m@,
            PlanError::PinnedAuthUnavailable(a) => "pinned auth "@ + a@ + " is unavailable"@,
        }
    }

    /// The text of the error.
    pub fn message(&self) -> (r: String)
        ensures
            r@ == self.spec_message(),
    {
        match self {
            PlanError::RouteDisabled => String::from_str(
                "responses route is disabled by runtime snapshot",
            ),
            PlanError::ProviderDisabled => String::from_str("provider codex is disabled"),
            PlanError::EmptyModel => String::from_str("requested model must not be empty"),
            PlanError::ModelNotRoutable(m) => {
                let mut out = String::from_str("requested model ");
                out.append(m.as_str());
                out.append(" is not routable for provider codex");
                out
            },
            PlanError::NoAvailableAuth(m) => {
                let mut out = String::from_str("no available auth for provider codex and model ");
                out.append(m.as_str());
                out
            },
            PlanError::PinnedAuthUnavailable(a) => {
                let mut out = String::from_str("pinned auth ");
                out.append(a.as_str());
                out.append(" is unavailable");
                out
            },
        }
    }
}

pub open spec fn strs(v: Seq<String>) -> Seq<Seq<char>> {
    v.map_values(|s: String| s@)
}

pub open spec fn error_model(e: PlanError) -> PlanErrorModel {
    match e {
        PlanError::RouteDisabled => PlanErrorModel::RouteDisabled,
        PlanError::ProviderDisabled => PlanErrorModel::ProviderDisabled,
        PlanError::EmptyModel => PlanErrorModel::EmptyModel,
        PlanError::ModelNotRoutable(m) => PlanErrorModel::ModelNotRoutable(m@),
        PlanError::NoAvailableAuth(m) => PlanErrorModel::NoAvailableAuth(m@),
        PlanError::PinnedAuthUnavailable(a) => PlanErrorModel::PinnedAuthUnavailable(a@),
    }
}

pub open spec fn plan_model(p: ExecutionPlan) -> PlanModel {
    PlanModel {
        provider: p.provider,
        model: p.model@,
        auth_id: p.auth_id@,
        retries: strs(p.retry_candidates@),
        source: p.stickiness_source,
    }
}

pub open spec fn outcome_model(r: Result<ExecutionPlan, PlanError>) -> Result<
    PlanModel,
    PlanErrorModel,
> {
    match r {
        Ok(p) => Ok(plan_model(p)),
        Err(e) => Err(error_model(e)),
    }
}

/// Whether the Codex provider is switched on in the snapshot.
pub open spec fn spec_provider_enabled(snap: RuntimeSnapshot) -> bool {
    match lookup(snap.providers@, "codex"@) {
        Some(c) => c.enabled,
        None => false,
    }
}

/// Whether the provider's model list names `m`.
pub open spec fn listed_model(snap: RuntimeSnapshot, m: Seq<char>) -> bool {
    match lookup(snap.models@, "codex"@) {
        Some(ms) => exists|i: int| 0 <= i < ms@.len() && #[trigger] ms@[i]@ == m,
        None => false,
    }
}

/// The alias target of `m` for the provider, if any.
pub open spec fn alias_of(snap: RuntimeSnapshot, m: Seq<char>) -> Option<Seq<char>> {
    match lookup(snap.model_aliases@, "codex"@) {
        Some(a) => match lookup(a@, m) {
            Some(t) => Some(t@),
            None => None,
        },
        None => None,
    }
}

/// The model that a requested model resolves to: its alias target, or itself when listed.
pub open spec fn spec_resolve_model(snap: RuntimeSnapshot, requested: Seq<char>) -> Option<
    Seq<char>,
> {
    let r = trim(requested);
    if r.len() == 0 {
        None
    } else if alias_of(snap, r) is Some {
        alias_of(snap, r)
    } else if listed_model(snap, r) {
        Some(r)
    } else {
        None
    }
}

/// Whether a snapshot cooldown is still running at `now`.
pub open spec fn spec_cooldown_active(c: Option<String>, now: i128) -> bool {
    match c {
        Some(s) => match spec_rfc3339_instant(s@) {
            Some(t) => t > now,
            None => false,
        },
        None => false,
    }
}

pub open spec fn supports(a: AuthRecord, model: Seq<char>) -> bool {
    exists|j: int| 0 <= j < a.supports_models@.len() && #[trigger] a.supports_models@[j]@ == model
}

/// Whether an auth may serve `model` at `now`.
pub open spec fn eligible(a: AuthRecord, model: Seq<char>, now: i128) -> bool {
    a.enabled && a.provider@ == "codex"@ && supports(a, model) && !spec_cooldown_active(
        a.cooldown_until,
        now,
    )
}

/// Order of the pool: higher priority first, then by id, then by position.
pub open spec fn precedes(pool: Seq<AuthRecord>, i: int, j: int) -> bool {
    ||| pool[i].priority > pool[j].priority
    ||| pool[i].priority == pool[j].priority && seq_lt(pool[i].id@, pool[j].id@)
    ||| pool[i].priority == pool[j].priority && pool[i].id@ == pool[j].id@ && i < j
}

/// `x` placed before the first element of `s` that it precedes.
pub open spec fn insert_ordered(pool: Seq<AuthRecord>, s: Seq<usize>, x: usize) -> Seq<usize>
    decreases s.len(),
{
    if s.len() == 0 {
        seq![x]
    } else if precedes(pool, x as int, s[0] as int) {
        seq![x] + s
    } else {
        seq![s[0]] + insert_ordered(pool, s.drop_first(), x)
    }
}

/// The eligible auths among the first `n` of the pool, in pool order.
pub open spec fn available_prefix(pool: Seq<AuthRecord>, model: Seq<char>, now: i128, n: nat) -> Seq<
    usize,
>
    decreases n,
{
    if n == 0 {
        seq![]
    } else {
        let prev = available_prefix(pool, model, now, (n - 1) as nat);
        if eligible(pool[n - 1], model, now) {
            insert_ordered(pool, prev, (n - 1) as usize)
        } else {
            prev
        }
    }
}

/// The positions of the available auths, in pool order.
pub open spec fn spec_available(pool: Seq<AuthRecord>, model: Seq<char>, now: i128) -> Seq<usize> {
    available_prefix(pool, model, now, pool.len())
}

/// The elements of `s` whose auth has priority `p`.
pub open spec fn keep_priority(pool: Seq<AuthRecord>, s: Seq<usize>, p: i32) -> Seq<usize>
    decreases s.len(),
{
    if s.len() == 0 {
        s
    } else {
        let r = keep_priority(pool, s.drop_last(), p);
        if pool[s.last() as int].priority == p {
            r.push(s.last())
        } else {
            r
        }
    }
}

pub open spec fn ids_of(pool: Seq<AuthRecord>, s: Seq<usize>) -> Seq<Seq<char>> {
    s.map_values(|i: usize| pool[i as int].id@)
}

/// `ids` without `x`.
pub open spec fn without(ids: Seq<Seq<char>>, x: Seq<char>) -> Seq<Seq<char>>
    decreases ids.len(),
{
    if ids.len() == 0 {
        ids
    } else {
        let r = without(ids.drop_last(), x);
        if ids.last() != x {
            r.push(ids.last())
        } else {
            r
        }
    }
}

/// `acc` followed by those of `ids` that are not `x` and not yet present.
pub open spec fn add_unique(acc: Seq<Seq<char>>, ids: Seq<Seq<char>>, x: Seq<char>) -> Seq<
    Seq<char>,
>
    decreases ids.len(),
{
    if ids.len() == 0 {
        acc
    } else {
        let a = add_unique(acc, ids.drop_last(), x);
        let y = ids.last();
        if y != x && !a.contains(y) {
            a.push(y)
        } else {
            a
        }
    }
}

/// The retry chain: the highest layer without the chosen auth, then every other available auth
/// not already in it.
pub open spec fn spec_retries(
    available: Seq<Seq<char>>,
    chosen: Seq<char>,
    highest: Option<Seq<Seq<char>>>,
) -> Seq<Seq<char>> {
    let start = match highest {
        Some(h) => without(h, chosen),
        None => seq![],
    };
    add_unique(start, available, chosen)
}

/// The round-robin cursor key of a priority layer.
pub open spec fn rr_key(model: Seq<char>, priority: i32) -> Seq<char> {
    "codex::"@ + model + "::"@ + decimal(priority as int)
}

/// The session binding key.
pub open spec fn session_key(session: Seq<char>, model: Seq<char>) -> Seq<char> {
    "codex::"@ + session + "::"@ + model
}

/// Advances the round-robin cursor `key` over a layer of `len` auths.
pub open spec fn spec_next_offset(offsets: Map<Seq<char>, usize>, key: Seq<char>, len: nat) -> (
    usize,
    Map<Seq<char>, usize>,
) {
    if len <= 1 {
        (0, offsets)
    } else {
        let cur: usize = if offsets.contains_key(key) {
            offsets[key]
        } else {
            0
        };
        let next: usize = if cur == usize::MAX {
            cur
        } else {
            (cur + 1) as usize
        };
        (((cur as int) % (len as int)) as usize, offsets.insert(key, next))
    }
}

/// The auth chosen by strategy within the highest layer, and the cursors after it.
pub open spec fn spec_select(
    offsets: Map<Seq<char>, usize>,
    strategy: RoutingStrategy,
    pool: Seq<AuthRecord>,
    model: Seq<char>,
    highest: Seq<usize>,
) -> (usize, Map<Seq<char>, usize>) {
    match strategy {
        RoutingStrategy::FillFirst => (highest[0], offsets),
        RoutingStrategy::RoundRobin => {
            let (o, m) = spec_next_offset(
                offsets,
                rr_key(model, pool[highest[0] as int].priority),
                highest.len(),
            );
            (highest[o as int], m)
        },
    }
}

/// A trimmed optional string, absent when blank.
pub open spec fn opt_trim(s: Option<String>) -> Option<Seq<char>> {
    match s {
        Some(v) => if trim(v@).len() == 0 {
            None
        } else {
            Some(trim(v@))
        },
        None => None,
    }
}

/// Binding lifetime for a TTL in seconds (at least one second).
pub open spec fn ttl_nanos(ttl: u64) -> int {
    (if ttl == 0 {
        1
    } else {
        ttl as int
    }) * NANOS_PER_SECOND
}

pub open spec fn planned(
    model: Seq<char>,
    auth: Seq<char>,
    retries: Seq<Seq<char>>,
    source: StickinessSource,
) -> Result<PlanModel, PlanErrorModel> {
    Ok(PlanModel { provider: ProviderKind::Codex, model, auth_id: auth, retries, source })
}

/// What planning does, from the router state, snapshot, request, the wall-clock instant `now`
/// (snapshot cooldowns) and the monotonic instant `mono` (session bindings).
pub open spec fn spec_plan(
    st: RouterModel,
    snap: RuntimeSnapshot,
    req: PlanRequest,
    now: i128,
    mono: i128,
) -> (
    Result<PlanModel, PlanErrorModel>,
    RouterModel,
) {
    let requested = trim(req.requested_model@);
    if !snap.routes.responses {
        (Err(PlanErrorModel::RouteDisabled), st)
    } else if !spec_provider_enabled(snap) {
        (Err(PlanErrorModel::ProviderDisabled), st)
    } else if requested.len() == 0 {
        (Err(PlanErrorModel::EmptyModel), st)
    } else if spec_resolve_model(snap, req.requested_model@) is None {
        (Err(PlanErrorModel::ModelNotRoutable(requested)), st)
    } else {
        let model = spec_resolve_model(snap, req.requested_model@)->0;
        let pool = snap.auth_pool@;
        let avail = spec_available(pool, model, now);
        let aids = ids_of(pool, avail);
        if avail.len() == 0 {
            (Err(PlanErrorModel::NoAvailableAuth(model)), st)
        } else if opt_trim(req.pinned_auth_id) is Some {
            let pinned = opt_trim(req.pinned_auth_id)->0;
            if aids.contains(pinned) {
                (
                    planned(
                        model,
                        pinned,
                        spec_retries(aids, pinned, None),
                        StickinessSource::PinnedAuth,
                    ),
                    st,
                )
            } else {
                (Err(PlanErrorModel::PinnedAuthUnavailable(pinned)), st)
            }
        } else {
            let highest = keep_priority(pool, avail, pool[avail[0] as int].priority);
            let hids = ids_of(pool, highest);
            let session = if snap.routing.session_affinity {
                opt_trim(req.session_id)
            } else {
                None
            };
            if session is Some {
                session_branch(
                    st,
                    snap,
                    model,
                    aids,
                    highest,
                    hids,
                    session_key(session->0, model),
                    mono,
                )
            } else {
                strategy_branch(st, snap, model, aids, highest, hids)
            }
        }
    }
}

/// Planning for a request that carries a session: reuse the live binding when its auth is
/// available, else choose by strategy and bind the session to the choice.
pub open spec fn session_branch(
    st: RouterModel,
    snap: RuntimeSnapshot,
    model: Seq<char>,
    aids: Seq<Seq<char>>,
    highest: Seq<usize>,
    hids: Seq<Seq<char>>,
    key: Seq<char>,
    now: i128,
) -> (Result<PlanModel, PlanErrorModel>, RouterModel) {
    let pool = snap.auth_pool@;
    let bound = st.affinity.contains_key(key);
    let live = bound && st.affinity[key].1 > now;
    if live && aids.contains(st.affinity[key].0) {
        let a = st.affinity[key].0;
        (
            planned(model, a, spec_retries(aids, a, Some(hids)), StickinessSource::SessionAffinity),
            st,
        )
    } else {
        let aff1 = if bound && !live {
            st.affinity.remove(key)
        } else {
            st.affinity
        };
        let rebound = st.rebound || bound;
        let (idx, offs) = spec_select(st.offsets, snap.routing.strategy, pool, model, highest);
        let chosen = pool[idx as int].id@;
        let source = if rebound {
            StickinessSource::ReboundSessionAffinity
        } else {
            StickinessSource::Strategy
        };
        (
            planned(model, chosen, spec_retries(aids, chosen, Some(hids)), source),
            RouterModel {
                affinity: aff1.insert(
                    key,
                    (chosen, (now + ttl_nanos(snap.routing.session_ttl_seconds)) as i128),
                ),
                offsets: offs,
                rebound: false,
            },
        )
    }
}

/// Planning by strategy alone.
pub open spec fn strategy_branch(
    st: RouterModel,
    snap: RuntimeSnapshot,
    model: Seq<char>,
    aids: Seq<Seq<char>>,
    highest: Seq<usize>,
    hids: Seq<Seq<char>>,
) -> (Result<PlanModel, PlanErrorModel>, RouterModel) {
    let pool = snap.auth_pool@;
    let (idx, offs) = spec_select(st.offsets, snap.routing.strategy, pool, model, highest);
    let chosen = pool[idx as int].id@;
    (
        planned(model, chosen, spec_retries(aids, chosen, Some(hids)), StickinessSource::Strategy),
        RouterModel { affinity: st.affinity, offsets: offs, rebound: st.rebound },
    )
}

} // verus!

verus! {

fn codex_chars() -> (r: Vec<char>)
    ensures
        r@ == "codex"@,
{
    chars_of("codex")
}

/// Whether the Codex provider is switched on.
pub fn provider_enabled(snap: &RuntimeSnapshot) -> (r: bool)
    ensures
        r == spec_provider_enabled(*snap),
{
    let k = codex_chars();
    match find_key(&snap.providers, k.as_slice()) {
        Some(i) => snap.providers[i].1.enabled,
        None => false,
    }
}

/// Resolves a requested model; `None` when it is blank or not routable.
pub fn resolve_model(snap: &RuntimeSnapshot, requested: &str) -> (r: Option<String>)
    ensures
        r matches Some(m) ==> spec_resolve_model(*snap, requested@) == Some(m@),
        r is None ==> spec_resolve_model(*snap, requested@) is None,
{
    let r = trim_str(requested);
    let rc = chars_of(r.as_str());
    if rc.len() == 0 {
        return None;
    }
    let k = codex_chars();
    if let Some(i) = find_key(&snap.model_aliases, k.as_slice()) {
        let aliases = &snap.model_aliases[i].1;
        if let Some(j) = find_key(aliases, rc.as_slice()) {
            return Some(aliases[j].1.clone());
        }
    }
    assert(alias_of(*snap, rc@) is None);
    if let Some(i) = find_key(&snap.models, k.as_slice()) {
        let list = &snap.models[i].1;
        assert(lookup(snap.models@, "codex"@) == Some(*list));
        let mut t: usize = 0;
        while t < list.len()
            invariant
                t <= list@.len(),
                lookup(snap.models@, "codex"@) == Some(*list),
                alias_of(*snap, rc@) is None,
                rc@ == trim(requested@),
                r@ == rc@,
                rc@.len() != 0,
                forall|u: int| 0 <= u < t ==> list@[u]@ != rc@,
            decreases list@.len() - t,
        {
            let c = chars_of(list[t].as_str());
            if chars_eq(c.as_slice(), rc.as_slice()) {
                proof {
                    assert(list@[t as int]@ == rc@);
                    let ms = lookup(snap.models@, "codex"@)->0;
                    assert(ms@[t as int]@ == rc@);
                    assert(exists|u: int| 0 <= u < ms@.len() && #[trigger] ms@[u]@ == rc@);
                    assert(listed_model(*snap, rc@));
                    assert(alias_of(*snap, rc@) is None);
                }
                return Some(r);
            }
            t = t + 1;
        }
    }
    None
}

/// Whether a snapshot cooldown is still running.
pub fn cooldown_active(c: &Option<String>, now: i128) -> (r: bool)
    ensures
        r == spec_cooldown_active(*c, now),
{
    match c {
        Some(s) => match parse_rfc3339(s.as_str()) {
            Some(t) => t > now,
            None => false,
        },
        None => false,
    }
}

fn supports_model(a: &AuthRecord, model: &[char]) -> (r: bool)
    ensures
        r == supports(*a, model@),
{
    let mut j: usize = 0;
    while j < a.supports_models.len()
        invariant
            j <= a.supports_models@.len(),
            forall|u: int| 0 <= u < j ==> a.supports_models@[u]@ != model@,
        decreases a.supports_models@.len() - j,
    {
        let c = chars_of(a.supports_models[j].as_str());
        if chars_eq(c.as_slice(), model) {
            return true;
        }
        j = j + 1;
    }
    false
}

fn is_eligible(a: &AuthRecord, model: &[char], now: i128) -> (r: bool)
    ensures
        r == eligible(*a, model@, now),
{
    if !a.enabled {
        return false;
    }
    let p = chars_of(a.provider.as_str());
    let k = codex_chars();
    if !chars_eq(p.as_slice(), k.as_slice()) {
        return false;
    }
    supports_model(a, model) && !cooldown_active(&a.cooldown_until, now)
}

fn precedes_exec(pool: &Vec<AuthRecord>, i: usize, j: usize) -> (r: bool)
    requires
        i < pool@.len(),
        j < pool@.len(),
    ensures
        r == precedes(pool@, i as int, j as int),
{
    let a = &pool[i];
    let b = &pool[j];
    if a.priority > b.priority {
        return true;
    }
    if a.priority < b.priority {
        return false;
    }
    let x = chars_of(a.id.as_str());
    let y = chars_of(b.id.as_str());
    if chars_lt(x.as_slice(), y.as_slice()) {
        return true;
    }
    chars_eq(x.as_slice(), y.as_slice()) && i < j
}

proof fn lemma_insert_ordered(pool: Seq<AuthRecord>, s: Seq<usize>, x: usize, k: int)
    requires
        0 <= k <= s.len(),
        forall|m: int| 0 <= m < k ==> !precedes(pool, x as int, #[trigger] s[m] as int),
        k == s.len() || precedes(pool, x as int, s[k] as int),
    ensures
        insert_ordered(pool, s, x) == s.take(k) + seq![x] + s.skip(k),
    decreases s.len(),
{
    if s.len() == 0 {
        assert(s.take(k) + seq![x] + s.skip(k) =~= seq![x]);
    } else if k == 0 {
        assert(s.take(k) + seq![x] + s.skip(k) =~= seq![x] + s);
    } else {
        let t = s.drop_first();
        assert forall|m: int| 0 <= m < k - 1 implies !precedes(pool, x as int, #[trigger] t[m] as int) by {
            assert(t[m] == s[m + 1]);
        }
        if k < s.len() {
            assert(t[k - 1] == s[k]);
        }
        assert(!precedes(pool, x as int, s[0] as int));
        lemma_insert_ordered(pool, t, x, k - 1);
        assert(s.take(k) + seq![x] + s.skip(k) =~= seq![s[0]] + (t.take(k - 1) + seq![x] + t.skip(
            k - 1,
        )));
    }
}

/// The positions of the available auths for `model` at `now`, in pool order.
pub fn available_auths(pool: &Vec<AuthRecord>, model: &[char], now: i128) -> (r: Vec<usize>)
    ensures
        r@ == spec_available(pool@, model@, now),
        forall|m: int| 0 <= m < r@.len() ==> r@[m] < pool@.len(),
{
    let mut v: Vec<usize> = Vec::new();
    let mut i: usize = 0;
    while i < pool.len()
        invariant
            i <= pool@.len(),
            v@ == available_prefix(pool@, model@, now, i as nat),
            forall|m: int| 0 <= m < v@.len() ==> v@[m] < i,
        decreases pool@.len() - i,
    {
        if is_eligible(&pool[i], model, now) {
            let mut k: usize = 0;
            while k < v.len() && !precedes_exec(pool, i, v[k])
                invariant
                    k <= v@.len(),
                    i < pool@.len(),
                    forall|m: int| 0 <= m < v@.len() ==> v@[m] < i,
                    forall|m: int| 0 <= m < k ==> !precedes(pool@, i as int, #[trigger] v@[m] as int),
                decreases v@.len() - k,
            {
                k = k + 1;
            }
            proof {
                lemma_insert_ordered(pool@, v@, i, k as int);
            }
            let ghost before = v@;
            v.insert(k, i);
            proof {
                assert(v@ =~= before.take(k as int) + seq![i] + before.skip(k as int));
                assert forall|m: int| 0 <= m < v@.len() implies v@[m] < i + 1 by {
                    if m < k {
                        assert(v@[m] == before[m]);
                    } else if m > k {
                        assert(v@[m] == before[m - 1]);
                    }
                }
            }
        }
        i = i + 1;
    }
    v
}

/// The ids of the auths at positions `s`.
fn ids(pool: &Vec<AuthRecord>, s: &Vec<usize>) -> (r: Vec<String>)
    requires
        forall|m: int| 0 <= m < s@.len() ==> s@[m] < pool@.len(),
    ensures
        strs(r@) == ids_of(pool@, s@),
{
    let mut out: Vec<String> = Vec::new();
    let mut i: usize = 0;
    while i < s.len()
        invariant
            i <= s@.len(),
            forall|m: int| 0 <= m < s@.len() ==> s@[m] < pool@.len(),
            strs(out@) == ids_of(pool@, s@.take(i as int)),
        decreases s@.len() - i,
    {
        let ghost before = out@;
        let id = pool[s[i]].id.clone();
        out.push(id);
        proof {
            assert(out@ == before.push(id));
            assert(strs(out@) =~= strs(before).push(id@));
            assert(ids_of(pool@, s@.take(i + 1)) =~= ids_of(pool@, s@.take(i as int)).push(
                pool@[s@[i as int] as int].id@,
            ));
        }
        i = i + 1;
    }
    assert(s@.take(s@.len() as int) =~= s@);
    out
}

/// The positions of `s` whose auth has priority `p`.
fn keep_priority_exec(pool: &Vec<AuthRecord>, s: &Vec<usize>, p: i32) -> (r: Vec<usize>)
    requires
        forall|m: int| 0 <= m < s@.len() ==> s@[m] < pool@.len(),
    ensures
        r@ == keep_priority(pool@, s@, p),
        forall|m: int| 0 <= m < r@.len() ==> r@[m] < pool@.len(),
{
    let mut out: Vec<usize> = Vec::new();
    let mut i: usize = 0;
    while i < s.len()
        invariant
            i <= s@.len(),
            forall|m: int| 0 <= m < s@.len() ==> s@[m] < pool@.len(),
            out@ == keep_priority(pool@, s@.take(i as int), p),
            forall|m: int| 0 <= m < out@.len() ==> out@[m] < pool@.len(),
        decreases s@.len() - i,
    {
        assert(s@.take(i + 1).drop_last() =~= s@.take(i as int));
        if pool[s[i]].priority == p {
            out.push(s[i]);
        }
        i = i + 1;
    }
    assert(s@.take(s@.len() as int) =~= s@);
    out
}

fn contains_str(v: &Vec<String>, x: &[char]) -> (r: bool)
    ensures
        r == strs(v@).contains(x@),
{
    let mut i: usize = 0;
    while i < v.len()
        invariant
            i <= v@.len(),
            forall|m: int| 0 <= m < i ==> v@[m]@ != x@,
        decreases v@.len() - i,
    {
        let c = chars_of(v[i].as_str());
        if chars_eq(c.as_slice(), x) {
            assert(strs(v@)[i as int] == x@);
            return true;
        }
        i = i + 1;
    }
    proof {
        if strs(v@).contains(x@) {
            let m = choose|m: int| 0 <= m < strs(v@).len() && strs(v@)[m] == x@;
            assert(v@[m]@ == x@);
        }
    }
    false
}

/// `ids` without `x`.
fn without_exec(ids: &Vec<String>, x: &[char]) -> (r: Vec<String>)
    ensures
        strs(r@) == without(strs(ids@), x@),
{
    let mut out: Vec<String> = Vec::new();
    let mut i: usize = 0;
    while i < ids.len()
        invariant
            i <= ids@.len(),
            strs(out@) == without(strs(ids@.take(i as int)), x@),
        decreases ids@.len() - i,
    {
        assert(strs(ids@.take(i + 1)).drop_last() =~= strs(ids@.take(i as int)));
        let c = chars_of(ids[i].as_str());
        if !chars_eq(c.as_slice(), x) {
            out.push(ids[i].clone());
            assert(strs(out@) =~= without(strs(ids@.take(i as int)), x@).push(ids@[i as int]@));
        }
        i = i + 1;
    }
    assert(ids@.take(ids@.len() as int) =~= ids@);
    out
}

/// `acc` followed by the elements of `ids` that are not `x` and not yet present.
fn add_unique_exec(acc: Vec<String>, ids: &Vec<String>, x: &[char]) -> (r: Vec<String>)
    ensures
        strs(r@) == add_unique(strs(acc@), strs(ids@), x@),
{
    let mut out = acc;
    let ghost a0 = strs(out@);
    let mut i: usize = 0;
    while i < ids.len()
        invariant
            i <= ids@.len(),
            strs(out@) == add_unique(a0, strs(ids@.take(i as int)), x@),
        decreases ids@.len() - i,
    {
        assert(strs(ids@.take(i + 1)).drop_last() =~= strs(ids@.take(i as int)));
        let c = chars_of(ids[i].as_str());
        if !chars_eq(c.as_slice(), x) && !contains_str(&out, c.as_slice()) {
            let ghost before = strs(out@);
            out.push(ids[i].clone());
            assert(strs(out@) =~= before.push(ids@[i as int]@));
        }
        i = i + 1;
    }
    assert(ids@.take(ids@.len() as int) =~= ids@);
    out
}

/// The retry chain for the chosen auth.
pub fn retries_for_available(
    available: &Vec<String>,
    chosen: &[char],
    highest: Option<&Vec<String>>,
) -> (r: Vec<String>)
    ensures
        strs(r@) == spec_retries(
            strs(available@),
            chosen@,
            match highest {
                Some(h) => Some(strs(h@)),
                None => None,
            },
        ),
{
    let start = match highest {
        Some(h) => without_exec(h, chosen),
        None => {
            let v: Vec<String> = Vec::new();
            assert(strs(v@) =~= seq![]);
            v
        },
    };
    add_unique_exec(start, available, chosen)
}

fn trim_opt(s: &Option<String>) -> (r: Option<String>)
    ensures
        r matches Some(v) ==> opt_trim(*s) == Some(v@),
        r is None ==> opt_trim(*s) is None,
{
    match s {
        Some(v) => {
            let t = trim_str(v.as_str());
            if chars_of(t.as_str()).len() == 0 {
                None
            } else {
                Some(t)
            }
        },
        None => None,
    }
}

fn join3(a: &[char], b: &[char], c: &[char], d: &[char]) -> (r: String)
    ensures
        r@ == a@ + b@ + c@ + d@,
{
    let mut out: Vec<char> = Vec::new();
    push_all(&mut out, a);
    push_all(&mut out, b);
    push_all(&mut out, c);
    push_all(&mut out, d);
    string_of(out.as_slice())
}

fn push_all(out: &mut Vec<char>, p: &[char])
    ensures
        final(out)@ == old(out)@ + p@,
{
    let mut j: usize = 0;
    while j < p.len()
        invariant
            j <= p@.len(),
            out@ == old(out)@ + p@.take(j as int),
        decreases p@.len() - j,
    {
        out.push(p[j]);
        j = j + 1;
        assert(out@ =~= old(out)@ + p@.take(j as int));
    }
    assert(p@.take(p@.len() as int) =~= p@);
}

impl RouterCore {
    pub closed spec fn model(&self) -> RouterModel {
        RouterModel {
            affinity: self.affinity.view().map_values(
                |e: AffinityEntry| (e.auth_id@, e.expires_at),
            ),
            offsets: self.round_robin_offsets.view(),
            rebound: self.had_expired_or_invalid_affinity,
        }
    }

    pub closed spec fn wf(&self) -> bool {
        self.affinity.wf() && self.round_robin_offsets.wf() && 0 <= self.last_instant
            < INSTANT_LIMIT
    }

    /// The latest monotonic instant the router has read.
    pub closed spec fn last_instant(&self) -> i128 {
        self.last_instant
    }

    /// A router with no bindings and fresh cursors.
    pub fn new() -> (r: Self)
        ensures
            r.wf(),
            r.model().affinity == Map::<Seq<char>, (Seq<char>, i128)>::empty(),
            r.model().offsets == Map::<Seq<char>, usize>::empty(),
            !r.model().rebound,
            r.last_instant() == 0,
    {
        let r = RouterCore {
            affinity: KeyMap::new(),
            round_robin_offsets: KeyMap::new(),
            had_expired_or_invalid_affinity: false,
            origin: instant_now(),
            last_instant: 0,
        };
        assert(r.model().affinity =~= Map::<Seq<char>, (Seq<char>, i128)>::empty());
        r
    }

    fn next_round_robin_offset(&mut self, key: String, len: usize) -> (r: usize)
        requires
            old(self).wf(),
        ensures
            final(self).last_instant() == old(self).last_instant(),
            final(self).wf(),
            (r, final(self).model().offsets) == spec_next_offset(
                old(self).model().offsets,
                key@,
                len as nat,
            ),
            final(self).model().affinity == old(self).model().affinity,
            final(self).model().rebound == old(self).model().rebound,
    {
        if len <= 1 {
            return 0;
        }
        let cur: usize = match self.round_robin_offsets.get(&key) {
            Some(v) => *v,
            None => 0,
        };
        let next: usize = if cur == usize::MAX {
            cur
        } else {
            cur + 1
        };
        self.round_robin_offsets.insert(key, next);
        cur % len
    }

    fn select_by_strategy(
        &mut self,
        strategy: RoutingStrategy,
        pool: &Vec<AuthRecord>,
        model: &[char],
        highest: &Vec<usize>,
    ) -> (r: usize)
        requires
            old(self).wf(),
            highest@.len() > 0,
            forall|m: int| 0 <= m < highest@.len() ==> highest@[m] < pool@.len(),
        ensures
            final(self).last_instant() == old(self).last_instant(),
            final(self).wf(),
            (r, final(self).model().offsets) == spec_select(
                old(self).model().offsets,
                strategy,
                pool@,
                model@,
                highest@,
            ),
            final(self).model().affinity == old(self).model().affinity,
            final(self).model().rebound == old(self).model().rebound,
            r < pool@.len(),
    {
        match strategy {
            RoutingStrategy::FillFirst => highest[0],
            RoutingStrategy::RoundRobin => {
                let prio = decimal_chars(pool[highest[0]].priority);
                let pre = chars_of("codex::");
                let sep = chars_of("::");
                let key = join3(pre.as_slice(), model, sep.as_slice(), prio.as_slice());
                let offset = self.next_round_robin_offset(key, highest.len());
                highest[offset]
            },
        }
    }

    /// Reads the monotonic clock: nanoseconds since the router was made, never less than an
    /// earlier reading.
    pub fn monotonic_now(&mut self) -> (r: i128)
        requires
            old(self).wf(),
        ensures
            final(self).wf(),
            final(self).model() == old(self).model(),
            old(self).last_instant() <= r,
            final(self).last_instant() == r,
            in_range(r as int),
    {
        let reading = elapsed_nanos(&self.origin);
        let r: i128 = if reading < 1_000_000_000_000_000_000_000u128 {
            reading as i128
        } else {
            INSTANT_LIMIT - 1
        };
        let m = if r < self.last_instant {
            self.last_instant
        } else {
            r
        };
        self.last_instant = m;
        m
    }

    /// Plans a request against the snapshot now: snapshot cooldowns are judged on the wall
    /// clock, session bindings on the monotonic clock, whose reading never goes back.
    pub fn plan(&mut self, snapshot: &RuntimeSnapshot, request: PlanRequest) -> (r: Result<
        ExecutionPlan,
        PlanError,
    >)
        requires
            old(self).wf(),
        ensures
            final(self).wf(),
            old(self).last_instant() <= final(self).last_instant(),
            exists|now: i128|
                in_range(now as int) && (outcome_model(r), final(self).model()) == spec_plan(
                    old(self).model(),
                    *snapshot,
                    request,
                    now,
                    final(self).last_instant(),
                ),
    {
        let now = crate::clock::now();
        let mono = self.monotonic_now();
        self.plan_at(snapshot, &request, now, mono)
    }

    /// Plans a request with the wall-clock instant `now` (for snapshot cooldowns) and the
    /// monotonic instant `mono` (for session bindings).
    pub fn plan_at(&mut self, snapshot: &RuntimeSnapshot, request: &PlanRequest, now: i128, mono: i128) -> (r:
        Result<ExecutionPlan, PlanError>)
        requires
            old(self).wf(),
            in_range(now as int),
            in_range(mono as int),
        ensures
            final(self).wf(),
            final(self).last_instant() == old(self).last_instant(),
            (outcome_model(r), final(self).model()) == spec_plan(
                old(self).model(),
                *snapshot,
                *request,
                now,
                mono,
            ),
    {
        if !snapshot.routes.responses {
            return Err(PlanError::RouteDisabled);
        }
        if !provider_enabled(snapshot) {
            return Err(PlanError::ProviderDisabled);
        }
        let requested = trim_str(request.requested_model.as_str());
        if chars_of(requested.as_str()).len() == 0 {
            return Err(PlanError::EmptyModel);
        }
        let model = match resolve_model(snapshot, request.requested_model.as_str()) {
            Some(m) => m,
            None => {
                return Err(PlanError::ModelNotRoutable(requested));
            },
        };
        let mc = chars_of(model.as_str());
        let pool = &snapshot.auth_pool;
        let available = available_auths(pool, mc.as_slice(), now);
        if available.len() == 0 {
            return Err(PlanError::NoAvailableAuth(model));
        }
        let available_ids = ids(pool, &available);
        if let Some(pinned) = trim_opt(&request.pinned_auth_id) {
            let pc = chars_of(pinned.as_str());
            if contains_str(&available_ids, pc.as_slice()) {
                let retries = retries_for_available(&available_ids, pc.as_slice(), None);
                return Ok(
                    ExecutionPlan {
                        provider: ProviderKind::Codex,
                        model,
                        auth_id: pinned,
                        retry_candidates: retries,
                        stickiness_source: StickinessSource::PinnedAuth,
                    },
                );
            } else {
                return Err(PlanError::PinnedAuthUnavailable(pinned));
            }
        }
        let highest = keep_priority_exec(pool, &available, pool[available[0]].priority);
        proof {
            lemma_keep_priority_nonempty(pool@, available@);
        }
        let highest_ids = ids(pool, &highest);
        let session = if snapshot.routing.session_affinity {
            trim_opt(&request.session_id)
        } else {
            None
        };
        match session {
            Some(sid) => {
                let pre = chars_of("codex::");
                let sep = chars_of("::");
                let sc = chars_of(sid.as_str());
                let key = join3(pre.as_slice(), sc.as_slice(), sep.as_slice(), mc.as_slice());
                self.plan_with_session(
                    snapshot,
                    model,
                    &available_ids,
                    &highest,
                    &highest_ids,
                    key,
                    mono,
                )
            },
            None => self.plan_with_strategy(snapshot, model, &available_ids, &highest, &highest_ids),
        }
    }

    #[verifier::rlimit(40)]
    fn plan_with_session(
        &mut self,
        snapshot: &RuntimeSnapshot,
        model: String,
        available_ids: &Vec<String>,
        highest: &Vec<usize>,
        highest_ids: &Vec<String>,
        key: String,
        now: i128,
    ) -> (r: Result<ExecutionPlan, PlanError>)
        requires
            old(self).wf(),
            in_range(now as int),
            highest@.len() > 0,
            forall|m: int| 0 <= m < highest@.len() ==> highest@[m] < snapshot.auth_pool@.len(),
        ensures
            final(self).last_instant() == old(self).last_instant(),
            final(self).wf(),
            (outcome_model(r), final(self).model()) == session_branch(
                old(self).model(),
                *snapshot,
                model@,
                strs(available_ids@),
                highest@,
                strs(highest_ids@),
                key@,
                now,
            ),
    {
        let pool = &snapshot.auth_pool;
        let ghost st = self.model();
        let hit = self.get_affinity(&key, now);
        if let Some(auth_id) = hit {
            let ac = chars_of(auth_id.as_str());
            if contains_str(available_ids, ac.as_slice()) {
                let retries = retries_for_available(available_ids, ac.as_slice(), Some(highest_ids));
                return Ok(
                    ExecutionPlan {
                        provider: ProviderKind::Codex,
                        model,
                        auth_id,
                        retry_candidates: retries,
                        stickiness_source: StickinessSource::SessionAffinity,
                    },
                );
            }
            self.had_expired_or_invalid_affinity = true;
        }
        let mc = chars_of(model.as_str());
        let idx = self.select_by_strategy(snapshot.routing.strategy, pool, mc.as_slice(), highest);
        let chosen = pool[idx].id.clone();
        let ttl = if snapshot.routing.session_ttl_seconds == 0 {
            1u64
        } else {
            snapshot.routing.session_ttl_seconds
        };
        let expires_at = now + (ttl as i128) * NANOS_PER_SECOND;
        let ghost key_v = key@;
        self.set_affinity(key, chosen.clone(), expires_at);
        let source = if self.had_expired_or_invalid_affinity {
            StickinessSource::ReboundSessionAffinity
        } else {
            StickinessSource::Strategy
        };
        self.had_expired_or_invalid_affinity = false;
        let cc = chars_of(chosen.as_str());
        let retries = retries_for_available(available_ids, cc.as_slice(), Some(highest_ids));
        proof {
            assert(self.model().affinity =~= (if st.affinity.contains_key(key_v) && !(
            st.affinity[key_v].1 > now) {
                st.affinity.remove(key_v)
            } else {
                st.affinity
            }).insert(key_v, (chosen@, expires_at)));
        }
        Ok(
            ExecutionPlan {
                provider: ProviderKind::Codex,
                model,
                auth_id: chosen,
                retry_candidates: retries,
                stickiness_source: source,
            },
        )
    }

    fn plan_with_strategy(
        &mut self,
        snapshot: &RuntimeSnapshot,
        model: String,
        available_ids: &Vec<String>,
        highest: &Vec<usize>,
        highest_ids: &Vec<String>,
    ) -> (r: Result<ExecutionPlan, PlanError>)
        requires
            old(self).wf(),
            highest@.len() > 0,
            forall|m: int| 0 <= m < highest@.len() ==> highest@[m] < snapshot.auth_pool@.len(),
        ensures
            final(self).last_instant() == old(self).last_instant(),
            final(self).wf(),
            (outcome_model(r), final(self).model()) == strategy_branch(
                old(self).model(),
                *snapshot,
                model@,
                strs(available_ids@),
                highest@,
                strs(highest_ids@),
            ),
    {
        let pool = &snapshot.auth_pool;
        let mc = chars_of(model.as_str());
        let idx = self.select_by_strategy(snapshot.routing.strategy, pool, mc.as_slice(), highest);
        let chosen = pool[idx].id.clone();
        let cc = chars_of(chosen.as_str());
        let retries = retries_for_available(available_ids, cc.as_slice(), Some(highest_ids));
        Ok(
            ExecutionPlan {
                provider: ProviderKind::Codex,
                model,
                auth_id: chosen,
                retry_candidates: retries,
                stickiness_source: StickinessSource::Strategy,
            },
        )
    }

    /// The live binding of a session, dropping it (and noting so) when it has lapsed.
    fn get_affinity(&mut self, key: &String, now: i128) -> (r: Option<String>)
        requires
            old(self).wf(),
        ensures
            final(self).last_instant() == old(self).last_instant(),
            final(self).wf(),
            final(self).model().offsets == old(self).model().offsets,
            ({
                let a = old(self).model().affinity;
                let bound = a.contains_key(key@);
                let live = bound && a[key@].1 > now;
                &&& live ==> (r matches Some(id) && id@ == a[key@].0)
                &&& live ==> final(self).model().affinity == a && final(self).model().rebound
                    == old(self).model().rebound
                &&& !live ==> r is None
                &&& bound && !live ==> final(self).model().affinity == a.remove(key@)
                    && final(self).model().rebound
                &&& !bound ==> final(self).model().affinity == a && final(self).model().rebound
                    == old(self).model().rebound
            }),
    {
        let found = match self.affinity.get(key) {
            Some(e) => Some((e.auth_id.clone(), e.expires_at)),
            None => None,
        };
        match found {
            Some((id, exp)) => {
                if exp > now {
                    Some(id)
                } else {
                    let ghost before = self.affinity.view();
                    self.affinity.remove(key);
                    self.had_expired_or_invalid_affinity = true;
                    proof {
                        assert(self.model().affinity =~= old(self).model().affinity.remove(key@));
                    }
                    None
                }
            },
            None => None,
        }
    }

    fn set_affinity(&mut self, key: String, auth_id: String, expires_at: i128)
        requires
            old(self).wf(),
        ensures
            final(self).last_instant() == old(self).last_instant(),
            final(self).wf(),
            final(self).model().affinity == old(self).model().affinity.insert(
                key@,
                (auth_id@, expires_at),
            ),
            final(self).model().offsets == old(self).model().offsets,
            final(self).model().rebound == old(self).model().rebound,
    {
        let ghost k = key@;
        let ghost a = auth_id@;
        self.affinity.insert(key, AffinityEntry { auth_id, expires_at });
        assert(self.model().affinity =~= old(self).model().affinity.insert(k, (a, expires_at)));
    }
}

proof fn lemma_keep_priority_nonempty(pool: Seq<AuthRecord>, s: Seq<usize>)
    requires
        s.len() > 0,
    ensures
        keep_priority(pool, s, pool[s[0] as int].priority).len() > 0,
{
    lemma_keep_priority_has_first(pool, s, pool[s[0] as int].priority);
}

proof fn lemma_keep_priority_has_first(pool: Seq<AuthRecord>, s: Seq<usize>, p: i32)
    requires
        s.len() > 0,
        pool[s[0] as int].priority == p,
    ensures
        keep_priority(pool, s, p).len() > 0,
    decreases s.len(),
{
    if s.len() > 1 {
        lemma_keep_priority_has_first(pool, s.drop_last(), p);
    }
}

} // verus!
