//! The in-process health overlay: cooldowns that observed upstream failures put on an auth as a
//! whole, or on one model of an auth. It never changes the snapshot and lives only as long as
//! the process. An absent entry means healthy.
use vstd::prelude::*;
use crate::clock::format_rfc3339;
use crate::keymap::{Expiring, KeyMap, MapKey};
use crate::text::{blank, chars_eq, chars_of, lemma_trim_idempotent, trim, trim_str};
use crate::types::AuthRecord;

verus! {

/// The overlay key of an auth: its trimmed, non-empty `auth_index`, else its trimmed id.
#[derive(Debug, Clone, PartialEq, Eq)]
pub struct AuthKey(String);

impl View for AuthKey {
    type V = Seq<char>;

    closed spec fn view(&self) -> Seq<char> {
        self.0@
    }
}

impl MapKey for AuthKey {
    type KeyView = Seq<char>;

    open spec fn kview(&self) -> Seq<char> {
        self@
    }

    fn key_eq(&self, other: &Self) -> (r: bool) {
        let a = chars_of(self.0.as_str());
        let b = chars_of(other.0.as_str());
        chars_eq(a.as_slice(), b.as_slice())
    }
}

/// The key a raw text makes, if it is not blank.
pub open spec fn spec_auth_key(raw: Seq<char>) -> Option<Seq<char>> {
    if blank(raw) {
        None
    } else {
        Some(trim(raw))
    }
}

/// The key of an auth record, if it has one.
pub open spec fn spec_record_key(auth: AuthRecord) -> Option<Seq<char>> {
    if !blank(auth.auth_index@) {
        Some(trim(auth.auth_index@))
    } else if !blank(auth.id@) {
        Some(trim(auth.id@))
    } else {
        None
    }
}

impl AuthKey {
    /// The key of `raw`, trimmed; `None` when blank.
    pub fn new(raw: &str) -> (r: Option<Self>)
        ensures
            r matches Some(k) ==> spec_auth_key(raw@) == Some(k@),
            r is None ==> spec_auth_key(raw@) is None,
    {
        let t = trim_str(raw);
        if chars_of(t.as_str()).len() == 0 {
            None
        } else {
            Some(AuthKey(t))
        }
    }

    /// The key of an auth record; `None` when both its index and id are blank.
    pub fn try_from_auth_record(auth: &AuthRecord) -> (r: Option<Self>)
        ensures
            r matches Some(k) ==> spec_record_key(*auth) == Some(k@),
            r is None ==> spec_record_key(*auth) is None,
    {
        proof {
            lemma_trim_idempotent(auth.auth_index@);
            lemma_trim_idempotent(auth.id@);
        }
        let index = trim_str(auth.auth_index.as_str());
        match Self::new(index.as_str()) {
            Some(k) => Some(k),
            None => {
                let id = trim_str(auth.id.as_str());
                Self::new(id.as_str())
            },
        }
    }

    /// The key of an auth record that has a non-blank index or id.
    pub fn from_auth_record(auth: &AuthRecord) -> (r: Self)
        requires
            !blank(auth.auth_index@) || !blank(auth.id@),
        ensures
            spec_record_key(*auth) == Some(r@),
    {
        Self::try_from_auth_record(auth).unwrap()
    }

    pub fn as_str(&self) -> (r: &str)
        ensures
            r@ == self@,
    {
        self.0.as_str()
    }

    pub(crate) fn duplicate(&self) -> (r: Self)
        ensures
            r@ == self@,
    {
        AuthKey(self.0.clone())
    }
}

/// The overlay key of one model of an auth.
#[derive(Debug, Clone, PartialEq, Eq)]
pub struct ModelKey {
    auth: AuthKey,
    model: String,
}

impl View for ModelKey {
    type V = (Seq<char>, Seq<char>);

    closed spec fn view(&self) -> (Seq<char>, Seq<char>) {
        (self.auth@, self.model@)
    }
}

impl MapKey for ModelKey {
    type KeyView = (Seq<char>, Seq<char>);

    open spec fn kview(&self) -> (Seq<char>, Seq<char>) {
        self@
    }

    fn key_eq(&self, other: &Self) -> (r: bool) {
        let a = chars_of(self.model.as_str());
        let b = chars_of(other.model.as_str());
        self.auth.key_eq(&other.auth) && chars_eq(a.as_slice(), b.as_slice())
    }
}

impl ModelKey {
    /// The key of `model` under `auth`, trimmed; `None` when the model is blank.
    pub fn new(auth: AuthKey, model: &str) -> (r: Option<Self>)
        ensures
            r matches Some(k) ==> !blank(model@) && k@ == (auth@, trim(model@)),
            r is None ==> blank(model@),
    {
        let t = trim_str(model);
        if chars_of(t.as_str()).len() == 0 {
            None
        } else {
            Some(ModelKey { auth, model: t })
        }
    }

    pub fn auth(&self) -> (r: &AuthKey)
        ensures
            r@ == self@.0,
    {
        &self.auth
    }

    pub fn model(&self) -> (r: &str)
        ensures
            r@ == self@.1,
    {
        self.model.as_str()
    }

    pub(crate) fn duplicate(&self) -> (r: Self)
        ensures
            r@ == self@,
    {
        ModelKey { auth: self.auth.duplicate(), model: self.model.clone() }
    }
}

/// What is known of a cooling-down auth or model.
#[derive(Debug, Clone, Default)]
pub struct RuntimeCooldown {
    pub unavailable: bool,
    pub status_message: String,
    pub last_error_code: String,
    pub last_error_message: String,
    pub next_retry_after: Option<i128>,
    pub quota_exceeded: bool,
    pub quota_reason: String,
    pub updated_at: Option<i128>,
}

/// The blocking state of an overlay entry.
#[derive(Debug, Clone)]
pub enum RuntimeBlockState {
    CoolingDown(RuntimeCooldown),
}

impl RuntimeBlockState {
    pub open spec fn cooldown(self) -> RuntimeCooldown {
        match self {
            RuntimeBlockState::CoolingDown(c) => c,
        }
    }

    /// In force: marked unavailable with a retry deadline still ahead of `now`.
    pub open spec fn spec_active_at(self, now: i128) -> bool {
        self.cooldown().unavailable && match self.cooldown().next_retry_after {
            Some(d) => d > now,
            None => false,
        }
    }

    pub fn cooling_down(cooldown: RuntimeCooldown) -> (r: Self)
        ensures
            r.cooldown() == cooldown,
    {
        RuntimeBlockState::CoolingDown(cooldown)
    }

    pub fn is_active_at(&self, now: i128) -> (r: bool)
        ensures
            r == self.spec_active_at(now),
    {
        match self {
            RuntimeBlockState::CoolingDown(c) => c.unavailable && match c.next_retry_after {
                Some(d) => d > now,
                None => false,
            },
        }
    }

    /// The retry deadline as RFC 3339 text, empty when there is none or it cannot be written.
    pub fn cooldown_until_rfc3339(&self) -> (r: String)
        ensures
            self.cooldown().next_retry_after is None ==> r@ == Seq::<char>::empty(),
            self.cooldown().next_retry_after matches Some(t) ==> (match
                crate::clock::spec_rfc3339_text(t) {
                Some(text) => r@ == text,
                None => r@ == Seq::<char>::empty(),
            }),
    {
        match self {
            RuntimeBlockState::CoolingDown(c) => match c.next_retry_after {
                Some(t) => match format_rfc3339(t) {
                    Some(text) => text,
                    None => String::new(),
                },
                None => String::new(),
            },
        }
    }

    pub fn next_retry_after(&self) -> (r: Option<i128>)
        ensures
            r == self.cooldown().next_retry_after,
    {
        match self {
            RuntimeBlockState::CoolingDown(c) => c.next_retry_after,
        }
    }
}

impl Expiring for RuntimeBlockState {
    open spec fn active_at(&self, now: i128) -> bool {
        self.spec_active_at(now)
    }

    fn is_active_at(&self, now: i128) -> (r: bool) {
        RuntimeBlockState::is_active_at(self, now)
    }
}

/// The overlay: blocks on whole auths and on models of auths.
#[derive(Debug)]
pub struct AuthStateOverlay {
    auth: KeyMap<AuthKey, RuntimeBlockState>,
    model: KeyMap<ModelKey, RuntimeBlockState>,
}

/// The overlay as maps.
pub struct OverlayModel {
    pub auth: Map<Seq<char>, RuntimeBlockState>,
    pub model: Map<(Seq<char>, Seq<char>), RuntimeBlockState>,
}

/// The entries of `m` still in force at `now`.
pub open spec fn active_part<K>(m: Map<K, RuntimeBlockState>, now: i128) -> Map<
    K,
    RuntimeBlockState,
> {
    m.restrict(m.dom().filter(|k: K| m[k].spec_active_at(now)))
}

/// The overlay without its lapsed entries.
pub open spec fn pruned(o: OverlayModel, now: i128) -> OverlayModel {
    OverlayModel { auth: active_part(o.auth, now), model: active_part(o.model, now) }
}

/// The deadline of an entry that is in force at `now`.
pub open spec fn blocked_until<K>(m: Map<K, RuntimeBlockState>, k: K, now: i128) -> Option<i128> {
    if m.contains_key(k) && m[k].spec_active_at(now) {
        m[k].cooldown().next_retry_after
    } else {
        None
    }
}

/// Pruning twice drops nothing more than pruning once.
pub proof fn lemma_prune_idempotent(o: OverlayModel, now: i128)
    ensures
        pruned(pruned(o, now), now) == pruned(o, now),
{
    lemma_active_part_idempotent(o.auth, now);
    lemma_active_part_idempotent(o.model, now);
}

/// Pruning is invisible to every lookup made at the same instant: an entry still in force stays,
/// with its deadline.
pub proof fn lemma_prune_keeps_blocks<K>(m: Map<K, RuntimeBlockState>, k: K, now: i128)
    ensures
        blocked_until(active_part(m, now), k, now) == blocked_until(m, k, now),
{
}

pub proof fn lemma_active_part_idempotent<K>(m: Map<K, RuntimeBlockState>, now: i128)
    ensures
        active_part(active_part(m, now), now) == active_part(m, now),
{
    assert(active_part(active_part(m, now), now) =~= active_part(m, now));
}

/// A recorded failure blocks: once a block in force at `now` is set for a key (as
/// `set_auth_failure` and `set_model_failure` do), a lookup at `now` reports its deadline.
pub proof fn law_recorded_block_holds<K>(m: Map<K, RuntimeBlockState>, k: K, state: RuntimeBlockState, now: i128)
    requires
        state.spec_active_at(now),
    ensures
        blocked_until(m.insert(k, state), k, now) == state.cooldown().next_retry_after,
        blocked_until(m.insert(k, state), k, now) is Some,
{
}

/// A success lifts the blocks it clears: after `clear_success` removes the auth's entry and the
/// entry of that model of it, neither lookup reports a block, at any instant.
pub proof fn law_success_clears_blocks(o: OverlayModel, key: (Seq<char>, Seq<char>), now: i128)
    ensures
        blocked_until(o.auth.remove(key.0), key.0, now) is None,
        blocked_until(o.model.remove(key), key, now) is None,
{
}

/// A block lapses: once its deadline is reached, a lookup no longer reports it.
pub proof fn law_block_lapses<K>(m: Map<K, RuntimeBlockState>, k: K, now: i128)
    requires
        m.contains_key(k),
        m[k].cooldown().next_retry_after matches Some(d) && d <= now,
    ensures
        blocked_until(m, k, now) is None,
{
}

/// A change to the overlay: `set_auth_failure`, `set_model_failure`, `clear_success`, or the
/// dropping of lapsed entries at an instant that `prune_expired` and both lookups make.
pub enum OverlayOp {
    SetAuth(Seq<char>, RuntimeBlockState),
    SetModel((Seq<char>, Seq<char>), RuntimeBlockState),
    Clear((Seq<char>, Seq<char>)),
    Prune(i128),
}

/// The overlay after one change, as the contracts of the methods that make it state.
pub open spec fn apply_op(o: OverlayModel, op: OverlayOp) -> OverlayModel {
    match op {
        OverlayOp::SetAuth(k, s) => OverlayModel { auth: o.auth.insert(k, s), model: o.model },
        OverlayOp::SetModel(k, s) => OverlayModel { auth: o.auth, model: o.model.insert(k, s) },
        OverlayOp::Clear(k) => OverlayModel { auth: o.auth.remove(k.0), model: o.model.remove(k) },
        OverlayOp::Prune(t) => pruned(o, t),
    }
}

/// The overlay after a sequence of changes, in order.
pub open spec fn apply_ops(o: OverlayModel, ops: Seq<OverlayOp>) -> OverlayModel
    decreases ops.len(),
{
    if ops.len() == 0 {
        o
    } else {
        apply_ops(apply_op(o, ops[0]), ops.drop_first())
    }
}

/// Whether a change writes or clears the auth entry of `k`.
pub open spec fn touches_auth(op: OverlayOp, k: Seq<char>) -> bool {
    match op {
        OverlayOp::SetAuth(k2, _) => k2 == k,
        OverlayOp::Clear(mk) => mk.0 == k,
        _ => false,
    }
}

/// Whether a change drops lapsed entries at an instant after `now`.
pub open spec fn prunes_after(op: OverlayOp, now: i128) -> bool {
    match op {
        OverlayOp::Prune(t) => t > now,
        _ => false,
    }
}

proof fn lemma_last_auth_write(o: OverlayModel, k: Seq<char>, s: RuntimeBlockState, ops: Seq<OverlayOp>, now: i128)
    requires
        o.auth.contains_key(k) && o.auth[k] == s || !o.auth.contains_key(k) && !s.spec_active_at(now),
        forall|i: int| 0 <= i < ops.len() ==> !touches_auth(#[trigger] ops[i], k),
        forall|i: int| 0 <= i < ops.len() ==> !prunes_after(#[trigger] ops[i], now),
    ensures
        blocked_until(apply_ops(o, ops).auth, k, now) == (if s.spec_active_at(now) {
            s.cooldown().next_retry_after
        } else {
            None
        }),
    decreases ops.len(),
{
    if ops.len() > 0 {
        let o1 = apply_op(o, ops[0]);
        assert(!touches_auth(ops[0], k));
        assert(!prunes_after(ops[0], now));
        let rest = ops.drop_first();
        assert forall|i: int| 0 <= i < rest.len() implies !touches_auth(#[trigger] rest[i], k) by {
            assert(rest[i] == ops[i + 1]);
        }
        assert forall|i: int| 0 <= i < rest.len() implies !prunes_after(#[trigger] rest[i], now) by {
            assert(rest[i] == ops[i + 1]);
        }
        match ops[0] {
            OverlayOp::Prune(t) => {
                if o.auth.contains_key(k) && !o.auth[k].spec_active_at(t) {
                    assert(!o1.auth.contains_key(k));
                } else if o.auth.contains_key(k) {
                    assert(o1.auth.contains_key(k));
                }
            },
            OverlayOp::SetAuth(k2, _) => {},
            OverlayOp::SetModel(_, _) => {},
            OverlayOp::Clear(mk) => {},
        }
        lemma_last_auth_write(o1, k, s, rest, now);
    }
}

/// The last write to an auth decides its lookup: after `set_auth_failure` records `s` for `k`,
/// whatever other changes follow (blocks and clears of other auths, blocks of models, and the
/// dropping of lapsed entries at instants up to `now`), a lookup at `now` reports `s`'s
/// deadline while `s` is in force at `now`, and no block otherwise.
pub proof fn law_last_auth_write_decides(
    o: OverlayModel,
    k: Seq<char>,
    s: RuntimeBlockState,
    ops: Seq<OverlayOp>,
    now: i128,
)
    requires
        forall|i: int| 0 <= i < ops.len() ==> !touches_auth(#[trigger] ops[i], k),
        forall|i: int| 0 <= i < ops.len() ==> !prunes_after(#[trigger] ops[i], now),
    ensures
        blocked_until(apply_ops(apply_op(o, OverlayOp::SetAuth(k, s)), ops).auth, k, now) == (if s.spec_active_at(
            now,
        ) {
            s.cooldown().next_retry_after
        } else {
            None
        }),
{
    lemma_last_auth_write(apply_op(o, OverlayOp::SetAuth(k, s)), k, s, ops, now);
}

impl AuthStateOverlay {
    pub closed spec fn model_view(&self) -> OverlayModel {
        OverlayModel { auth: self.auth.view(), model: self.model.view() }
    }

    pub closed spec fn wf(&self) -> bool {
        self.auth.wf() && self.model.wf()
    }

    /// An overlay in which every auth is healthy.
    pub fn new() -> (r: Self)
        ensures
            r.wf(),
            r.model_view().auth == Map::<Seq<char>, RuntimeBlockState>::empty(),
            r.model_view().model == Map::<(Seq<char>, Seq<char>), RuntimeBlockState>::empty(),
    {
        AuthStateOverlay { auth: KeyMap::new(), model: KeyMap::new() }
    }

    /// Blocks a whole auth.
    pub fn set_auth_failure(&mut self, auth_key: AuthKey, state: RuntimeBlockState)
        requires
            old(self).wf(),
        ensures
            final(self).wf(),
            final(self).model_view().auth == old(self).model_view().auth.insert(auth_key@, state),
            final(self).model_view().model == old(self).model_view().model,
    {
        self.auth.insert(auth_key, state);
    }

    /// Blocks one model of an auth.
    pub fn set_model_failure(&mut self, model_key: ModelKey, state: RuntimeBlockState)
        requires
            old(self).wf(),
        ensures
            final(self).wf(),
            final(self).model_view().model == old(self).model_view().model.insert(model_key@, state),
            final(self).model_view().auth == old(self).model_view().auth,
    {
        self.model.insert(model_key, state);
    }

    /// A success clears the block on the auth and on that model of it.
    pub fn clear_success(&mut self, model_key: &ModelKey)
        requires
            old(self).wf(),
        ensures
            final(self).wf(),
            final(self).model_view().auth == old(self).model_view().auth.remove(model_key@.0),
            final(self).model_view().model == old(self).model_view().model.remove(model_key@),
    {
        self.auth.remove(model_key.auth());
        self.model.remove(model_key);
    }

    /// Drops every lapsed entry.
    pub fn prune_expired(&mut self, now: i128)
        requires
            old(self).wf(),
        ensures
            final(self).wf(),
            final(self).model_view() == pruned(old(self).model_view(), now),
    {
        let ghost o = self.model_view();
        self.auth.retain_active(now);
        self.model.retain_active(now);
        assert(self.model_view().auth =~= active_part(o.auth, now));
        assert(self.model_view().model =~= active_part(o.model, now));
    }

    /// Until when the auth is blocked at `now`, dropping lapsed entries on the way.
    pub fn auth_blocked_until(&mut self, auth_key: &AuthKey, now: i128) -> (r: Option<i128>)
        requires
            old(self).wf(),
        ensures
            final(self).wf(),
            final(self).model_view() == pruned(old(self).model_view(), now),
            r == blocked_until(old(self).model_view().auth, auth_key@, now),
    {
        self.prune_expired(now);
        match self.auth.get(auth_key) {
            Some(state) => {
                if state.is_active_at(now) {
                    state.next_retry_after()
                } else {
                    None
                }
            },
            None => None,
        }
    }

    /// Until when the model of the auth is blocked at `now`, dropping lapsed entries on the way.
    pub fn model_blocked_until(&mut self, model_key: &ModelKey, now: i128) -> (r: Option<i128>)
        requires
            old(self).wf(),
        ensures
            final(self).wf(),
            final(self).model_view() == pruned(old(self).model_view(), now),
            r == blocked_until(old(self).model_view().model, model_key@, now),
    {
        self.prune_expired(now);
        match self.model.get(model_key) {
            Some(state) => {
                if state.is_active_at(now) {
                    state.next_retry_after()
                } else {
                    None
                }
            },
            None => None,
        }
    }
}

} // verus!
