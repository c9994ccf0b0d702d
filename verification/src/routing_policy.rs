//! The effective plan: the router's ideal plan cut down to the auths that the snapshot cooldowns
//! and the in-process health overlay still let run at this instant.
use vstd::prelude::*;
use crate::auth_state::{
    blocked_until, lemma_prune_idempotent, lemma_prune_keeps_blocks, pruned, spec_record_key,
    AuthKey, AuthStateOverlay, ModelKey, OverlayModel,
};
use crate::clock::now as clock_now;
use crate::health::{spec_failure_overlay, RecordedFailure};
use crate::router::{cooldown_active, spec_cooldown_active, strs};
use crate::text::{blank, chars_eq, chars_of, trim};
use crate::types::{AuthRecord, ExecutionPlan, RuntimeSnapshot};

verus! {

/// Whether some auth of the pool has the id `id`.
pub open spec fn has_auth_id(pool: Seq<AuthRecord>, id: Seq<char>) -> bool {
    exists|i: int| 0 <= i < pool.len() && #[trigger] pool[i].id@ == id
}

/// Position of the first auth of the pool with the id `id`.
pub open spec fn first_auth_with_id(pool: Seq<AuthRecord>, id: Seq<char>) -> int {
    choose|i: int|
        0 <= i < pool.len() && pool[i].id@ == id && forall|j: int| 0 <= j < i ==> pool[j].id@ != id
}

/// Positions of the auths that the ids name, in their order; ids with no auth are skipped.
pub open spec fn found_ids(pool: Seq<AuthRecord>, ids: Seq<Seq<char>>) -> Seq<usize>
    decreases ids.len(),
{
    if ids.len() == 0 {
        Seq::empty()
    } else {
        let rest = found_ids(pool, ids.drop_last());
        if has_auth_id(pool, ids.last()) {
            rest.push(first_auth_with_id(pool, ids.last()) as usize)
        } else {
            rest
        }
    }
}

/// The auths that a plan names, as positions in the pool: its chosen auth first, then its retry
/// candidates that the pool still holds. `None` when the chosen auth is gone.
pub open spec fn spec_retry_chain(pool: Seq<AuthRecord>, plan: ExecutionPlan) -> Option<Seq<usize>> {
    if has_auth_id(pool, plan.auth_id@) {
        Some(
            seq![first_auth_with_id(pool, plan.auth_id@) as usize] + found_ids(
                pool,
                strs(plan.retry_candidates@),
            ),
        )
    } else {
        None
    }
}

/// Whether an auth is held back for `model` at `now`: by its snapshot cooldown, or by a block of
/// the overlay on the auth or on that model of it.
pub open spec fn spec_auth_blocked(
    o: OverlayModel,
    auth: AuthRecord,
    model: Seq<char>,
    now: i128,
) -> bool {
    ||| spec_cooldown_active(auth.cooldown_until, now)
    ||| match spec_record_key(auth) {
        None => false,
        Some(k) => {
            ||| blocked_until(o.auth, k, now) is Some
            ||| (!blank(model) && blocked_until(o.model, (k, trim(model)), now) is Some)
        },
    }
}

/// The positions of `chain` whose auth is not held back, in order.
pub open spec fn unblocked(
    o: OverlayModel,
    pool: Seq<AuthRecord>,
    chain: Seq<usize>,
    model: Seq<char>,
    now: i128,
) -> Seq<usize>
    decreases chain.len(),
{
    if chain.len() == 0 {
        Seq::empty()
    } else {
        let rest = unblocked(o, pool, chain.drop_last(), model, now);
        if spec_auth_blocked(o, pool[chain.last() as int], model, now) {
            rest
        } else {
            rest.push(chain.last())
        }
    }
}

/// The auths of the chain that can run now, as positions in the pool.
pub open spec fn spec_runnable(
    o: OverlayModel,
    pool: Seq<AuthRecord>,
    plan: ExecutionPlan,
    now: i128,
) -> Option<Seq<usize>> {
    match spec_retry_chain(pool, plan) {
        Some(chain) => Some(unblocked(o, pool, chain, plan.model@, now)),
        None => None,
    }
}

/// What the effective plan is: the first runnable auth, with the other runnable ones as retry
/// candidates in order; `None` when the chosen auth is gone or nothing can run.
pub open spec fn spec_effective_plan(
    o: OverlayModel,
    pool: Seq<AuthRecord>,
    plan: ExecutionPlan,
    now: i128,
    r: Option<(ExecutionPlan, usize)>,
) -> bool {
    match spec_runnable(o, pool, plan, now) {
        Some(avail) if avail.len() > 0 => match r {
            Some((p, selected)) => {
                &&& selected == avail[0]
                &&& p.provider == plan.provider
                &&& p.model@ == plan.model@
                &&& p.auth_id@ == pool[selected as int].id@
                &&& strs(p.retry_candidates@) == avail.skip(1).map_values(
                    |i: usize| pool[i as int].id@,
                )
                &&& p.stickiness_source == plan.stickiness_source
            },
            None => false,
        },
        _ => r is None,
    }
}

pub(crate) fn find_auth(pool: &Vec<AuthRecord>, id: &[char]) -> (r: Option<usize>)
    ensures
        r is Some <==> has_auth_id(pool@, id@),
        r matches Some(i) ==> i < pool@.len() && i == first_auth_with_id(pool@, id@),
{
    let mut i: usize = 0;
    while i < pool.len()
        invariant
            i <= pool@.len(),
            forall|j: int| 0 <= j < i ==> pool@[j].id@ != id@,
        decreases pool@.len() - i,
    {
        let c = chars_of(pool[i].id.as_str());
        if chars_eq(c.as_slice(), id) {
            proof {
                let ii = i as int;
                assert(0 <= ii < pool@.len() && pool@[ii].id@ == id@ && forall|j: int|
                    0 <= j < ii ==> pool@[j].id@ != id@);
                let f = first_auth_with_id(pool@, id@);
                if f < ii {
                } else if f > ii {
                }
            }
            return Some(i);
        }
        i = i + 1;
    }
    None
}

/// The auths that the plan names, as positions in the snapshot's pool: its chosen auth first,
/// then the retry candidates still in the pool. `None` when the chosen auth is not in the pool.
pub fn auth_retry_chain(snapshot: &RuntimeSnapshot, plan: &ExecutionPlan) -> (r: Option<Vec<usize>>)
    ensures
        r matches Some(c) ==> spec_retry_chain(snapshot.auth_pool@, *plan) == Some(c@),
        r is None ==> spec_retry_chain(snapshot.auth_pool@, *plan) is None,
        r matches Some(c) ==> forall|k: int| 0 <= k < c@.len() ==> c@[k] < snapshot.auth_pool@.len(),
{
    let pool = &snapshot.auth_pool;
    let primary = chars_of(plan.auth_id.as_str());
    let first = match find_auth(pool, primary.as_slice()) {
        Some(i) => i,
        None => {
            return None;
        },
    };
    let mut chain: Vec<usize> = Vec::new();
    chain.push(first);
    let ghost ids = strs(plan.retry_candidates@);
    let mut k: usize = 0;
    while k < plan.retry_candidates.len()
        invariant
            k <= plan.retry_candidates@.len(),
            ids == strs(plan.retry_candidates@),
            pool == &snapshot.auth_pool,
            first == first_auth_with_id(pool@, plan.auth_id@),
            first < pool@.len(),
            chain@ == seq![first] + found_ids(pool@, ids.take(k as int)),
            forall|u: int| 0 <= u < chain@.len() ==> chain@[u] < pool@.len(),
        decreases plan.retry_candidates@.len() - k,
    {
        let id = chars_of(plan.retry_candidates[k].as_str());
        proof {
            assert(ids.take(k + 1).drop_last() =~= ids.take(k as int));
            assert(ids.take(k + 1).last() == id@);
        }
        match find_auth(pool, id.as_slice()) {
            Some(i) => {
                chain.push(i);
                assert(chain@ =~= seq![first] + found_ids(pool@, ids.take(k + 1)));
            },
            None => {
                assert(chain@ =~= seq![first] + found_ids(pool@, ids.take(k + 1)));
            },
        }
        k = k + 1;
    }
    proof {
        assert(ids.take(k as int) =~= ids);
    }
    Some(chain)
}

/// Whether the snapshot puts the auth in cooldown at `now`.
pub fn snapshot_cooldown_active(auth: &AuthRecord, now: i128) -> (r: bool)
    ensures
        r == spec_cooldown_active(auth.cooldown_until, now),
{
    cooldown_active(&auth.cooldown_until, now)
}

proof fn lemma_blocked_after_prune(o: OverlayModel, auth: AuthRecord, model: Seq<char>, now: i128)
    ensures
        spec_auth_blocked(pruned(o, now), auth, model, now) == spec_auth_blocked(
            o,
            auth,
            model,
            now,
        ),
{
    if let Some(k) = spec_record_key(auth) {
        lemma_prune_keeps_blocks(o.auth, k, now);
        lemma_prune_keeps_blocks(o.model, (k, trim(model)), now);
    }
}

/// Whether the auth is held back for `model` at `now`. Looking at the overlay drops its lapsed
/// entries, which no lookup at `now` can tell apart.
pub fn auth_blocked(auth: &AuthRecord, model: &str, overlay: &mut AuthStateOverlay, now: i128) -> (r:
    bool)
    requires
        old(overlay).wf(),
    ensures
        final(overlay).wf(),
        r == spec_auth_blocked(old(overlay).model_view(), *auth, model@, now),
        final(overlay).model_view() == old(overlay).model_view() || final(overlay).model_view()
            == pruned(old(overlay).model_view(), now),
{
    let ghost o = overlay.model_view();
    if snapshot_cooldown_active(auth, now) {
        return true;
    }
    let auth_key = match AuthKey::try_from_auth_record(auth) {
        Some(k) => k,
        None => {
            return false;
        },
    };
    match ModelKey::new(auth_key.duplicate(), model) {
        None => overlay.auth_blocked_until(&auth_key, now).is_some(),
        Some(model_key) => {
            if overlay.auth_blocked_until(&auth_key, now).is_some() {
                true
            } else {
                let b = overlay.model_blocked_until(&model_key, now).is_some();
                proof {
                    lemma_prune_keeps_blocks(o.model, model_key@, now);
                    lemma_prune_idempotent(o, now);
                }
                b
            }
        },
    }
}

proof fn lemma_unblocked_len(o: OverlayModel, pool: Seq<AuthRecord>, chain: Seq<usize>, model: Seq<char>, now: i128)
    ensures
        unblocked(o, pool, chain, model, now).len() <= chain.len(),
        forall|u: int|
            0 <= u < unblocked(o, pool, chain, model, now).len() ==> chain.contains(
                #[trigger] unblocked(o, pool, chain, model, now)[u],
            ),
    decreases chain.len(),
{
    if chain.len() > 0 {
        lemma_unblocked_len(o, pool, chain.drop_last(), model, now);
        let rest = unblocked(o, pool, chain.drop_last(), model, now);
        assert forall|u: int| 0 <= u < rest.len() implies chain.contains(#[trigger] rest[u]) by {
            let w = choose|w: int| 0 <= w < chain.drop_last().len() && chain.drop_last()[w] == rest[u];
            assert(chain[w] == rest[u]);
        }
        assert(chain[chain.len() - 1] == chain.last());
    }
}

/// The plan that can run now, cut down from the router's plan, with the position in the pool of
/// the auth it runs on; `None` when the plan's auth is gone or every auth of it is held back.
pub fn resolve_effective_plan_at(
    snapshot: &RuntimeSnapshot,
    plan: &ExecutionPlan,
    overlay: &mut AuthStateOverlay,
    now: i128,
) -> (r: Option<(ExecutionPlan, usize)>)
    requires
        old(overlay).wf(),
    ensures
        final(overlay).wf(),
        final(overlay).model_view() == old(overlay).model_view() || final(overlay).model_view()
            == pruned(old(overlay).model_view(), now),
        spec_effective_plan(old(overlay).model_view(), snapshot.auth_pool@, *plan, now, r),
        r matches Some((_, i)) ==> i < snapshot.auth_pool@.len(),
{
    let ghost o = overlay.model_view();
    let pool = &snapshot.auth_pool;
    let chain = match auth_retry_chain(snapshot, plan) {
        Some(c) => c,
        None => {
            return None;
        },
    };
    let mut avail: Vec<usize> = Vec::new();
    let mut k: usize = 0;
    while k < chain.len()
        invariant
            k <= chain@.len(),
            pool == &snapshot.auth_pool,
            forall|u: int| 0 <= u < chain@.len() ==> chain@[u] < pool@.len(),
            overlay.wf(),
            overlay.model_view() == o || overlay.model_view() == pruned(o, now),
            avail@ == unblocked(o, pool@, chain@.take(k as int), plan.model@, now),
        decreases chain@.len() - k,
    {
        let i = chain[k];
        let ghost cur = overlay.model_view();
        let blocked = auth_blocked(&pool[i], plan.model.as_str(), overlay, now);
        proof {
            lemma_blocked_after_prune(o, pool@[i as int], plan.model@, now);
            lemma_prune_idempotent(o, now);
            assert(chain@.take(k + 1).drop_last() =~= chain@.take(k as int));
            assert(chain@.take(k + 1).last() == i);
        }
        if !blocked {
            avail.push(i);
        }
        k = k + 1;
    }
    proof {
        assert(chain@.take(k as int) =~= chain@);
        lemma_unblocked_len(o, pool@, chain@, plan.model@, now);
        assert forall|u: int| 0 <= u < avail@.len() implies avail@[u] < pool@.len() by {
            assert(chain@.contains(avail@[u]));
        }
    }
    if avail.len() == 0 {
        return None;
    }
    let selected = avail[0];
    let mut retry_candidates: Vec<String> = Vec::new();
    let mut j: usize = 1;
    while j < avail.len()
        invariant
            1 <= j <= avail@.len(),
            pool == &snapshot.auth_pool,
            forall|u: int| 0 <= u < avail@.len() ==> avail@[u] < pool@.len(),
            strs(retry_candidates@) == avail@.subrange(1, j as int).map_values(
                |i: usize| pool@[i as int].id@,
            ),
        decreases avail@.len() - j,
    {
        let ghost before = retry_candidates@;
        let id = pool[avail[j]].id.clone();
        retry_candidates.push(id);
        proof {
            assert(strs(retry_candidates@) =~= strs(before).push(id@));
            assert(avail@.subrange(1, j + 1) =~= avail@.subrange(1, j as int).push(avail@[j as int]));
            assert(strs(retry_candidates@) =~= avail@.subrange(1, j + 1).map_values(
                |i: usize| pool@[i as int].id@,
            ));
        }
        j = j + 1;
    }
    proof {
        assert(avail@.subrange(1, j as int) =~= avail@.skip(1));
    }
    Some(
        (
            ExecutionPlan {
                provider: plan.provider,
                model: plan.model.clone(),
                auth_id: pool[selected].id.clone(),
                retry_candidates,
                stickiness_source: plan.stickiness_source,
            },
            selected,
        ),
    )
}

/// The plan that can run at the current instant (see `resolve_effective_plan_at`).
pub fn resolve_effective_plan(
    snapshot: &RuntimeSnapshot,
    plan: &ExecutionPlan,
    overlay: &mut AuthStateOverlay,
) -> (r: Option<(ExecutionPlan, usize)>)
    requires
        old(overlay).wf(),
    ensures
        final(overlay).wf(),
        exists|now: i128|
            #![trigger spec_effective_plan(old(overlay).model_view(), snapshot.auth_pool@, *plan, now, r)]
            {
                &&& final(overlay).model_view() == old(overlay).model_view()
                    || final(overlay).model_view() == pruned(old(overlay).model_view(), now)
                &&& spec_effective_plan(old(overlay).model_view(), snapshot.auth_pool@, *plan, now, r)
            },
        r matches Some((_, i)) ==> i < snapshot.auth_pool@.len(),
{
    let now = clock_now();
    resolve_effective_plan_at(snapshot, plan, overlay, now)
}


proof fn lemma_unblocked(
    o: OverlayModel,
    pool: Seq<AuthRecord>,
    chain: Seq<usize>,
    model: Seq<char>,
    now: i128,
)
    ensures
        forall|k: int|
            0 <= k < unblocked(o, pool, chain, model, now).len() ==> !spec_auth_blocked(
                o,
                pool[#[trigger] unblocked(o, pool, chain, model, now)[k] as int],
                model,
                now,
            ) && chain.contains(unblocked(o, pool, chain, model, now)[k]),
        forall|k: int|
            0 <= k < chain.len() && !spec_auth_blocked(o, pool[#[trigger] chain[k] as int], model, now)
                ==> unblocked(o, pool, chain, model, now).contains(chain[k]),
    decreases chain.len(),
{
    if chain.len() > 0 {
        let t = chain.drop_last();
        lemma_unblocked(o, pool, t, model, now);
        let u = unblocked(o, pool, t, model, now);
        let r = unblocked(o, pool, chain, model, now);
        assert forall|k: int| 0 <= k < r.len() implies !spec_auth_blocked(
            o,
            pool[#[trigger] r[k] as int],
            model,
            now,
        ) && chain.contains(r[k]) by {
            if k < u.len() {
                assert(r[k] == u[k]);
                assert(t.contains(u[k]));
                let m = choose|m: int| 0 <= m < t.len() && t[m] == u[k];
                assert(chain[m] == t[m]);
            } else {
                assert(r[k] == chain.last());
                assert(chain[chain.len() - 1] == chain.last());
            }
        }
        assert forall|k: int| 0 <= k < chain.len() && !spec_auth_blocked(
            o,
            pool[#[trigger] chain[k] as int],
            model,
            now,
        ) implies r.contains(chain[k]) by {
            if k < chain.len() - 1 {
                assert(t[k] == chain[k]);
                assert(u.contains(chain[k]));
                let m = choose|m: int| 0 <= m < u.len() && u[m] == chain[k];
                assert(r[m] == u[m]);
            } else {
                assert(r[r.len() - 1] == chain.last());
            }
        }
    }
}

/// The effective plan never runs a held-back auth: its selected auth and every retry candidate
/// are auths of the plan's chain that are neither cooling down in the snapshot nor blocked in
/// the overlay; and an auth of the chain that is not held back is never left out.
pub proof fn law_effective_plan_skips_blocked_auths(
    o: OverlayModel,
    pool: Seq<AuthRecord>,
    plan: ExecutionPlan,
    now: i128,
    p: ExecutionPlan,
    selected: usize,
)
    requires
        spec_effective_plan(o, pool, plan, now, Some((p, selected))),
    ensures
        spec_retry_chain(pool, plan) matches Some(chain) && chain.contains(selected)
            && !spec_auth_blocked(o, pool[selected as int], plan.model@, now) && (forall|k: int|
            0 <= k < chain.len() && !spec_auth_blocked(o, pool[#[trigger] chain[k] as int], plan.model@, now)
                ==> chain[k] == selected || strs(p.retry_candidates@).contains(pool[chain[k] as int].id@)),
{
    let chain = spec_retry_chain(pool, plan)->0;
    lemma_unblocked(o, pool, chain, plan.model@, now);
    let avail = unblocked(o, pool, chain, plan.model@, now);
    assert(avail.contains(avail[0]));
    assert forall|k: int| 0 <= k < chain.len() && !spec_auth_blocked(
        o,
        pool[#[trigger] chain[k] as int],
        plan.model@,
        now,
    ) implies chain[k] == selected || strs(p.retry_candidates@).contains(pool[chain[k] as int].id@) by {
        assert(avail.contains(chain[k]));
        let m = choose|m: int| 0 <= m < avail.len() && avail[m] == chain[k];
        if m > 0 {
            let ids = avail.skip(1).map_values(|i: usize| pool[i as int].id@);
            assert(ids[m - 1] == pool[chain[k] as int].id@);
        }
    }
}

/// When every auth of the plan's chain is held back, there is no effective plan.
pub proof fn law_all_blocked_means_no_plan(
    o: OverlayModel,
    pool: Seq<AuthRecord>,
    plan: ExecutionPlan,
    now: i128,
    r: Option<(ExecutionPlan, usize)>,
)
    requires
        spec_effective_plan(o, pool, plan, now, r),
        spec_retry_chain(pool, plan) matches Some(chain) && forall|k: int|
            0 <= k < chain.len() ==> spec_auth_blocked(o, pool[#[trigger] chain[k] as int], plan.model@, now),
    ensures
        r is None,
{
    let chain = spec_retry_chain(pool, plan)->0;
    lemma_unblocked(o, pool, chain, plan.model@, now);
    let avail = unblocked(o, pool, chain, plan.model@, now);
    if avail.len() > 0 {
        assert(chain.contains(avail[0]));
        let m = choose|m: int| 0 <= m < chain.len() && chain[m] == avail[0];
        assert(spec_auth_blocked(o, pool[chain[m] as int], plan.model@, now));
    }
}


/// A recorded failure holds its auth back until its cooldown ends: once `record_failure` has
/// put the failure of `auth` on `model` in the overlay, the auth counts as held back for that
/// model at every instant before the deadline, so no effective plan selects it.
pub proof fn law_recorded_failure_holds_auth_back(
    o: OverlayModel,
    n: OverlayModel,
    f: RecordedFailure,
    auth: AuthRecord,
    model: Seq<char>,
    now: i128,
    t: i128,
)
    requires
        spec_failure_overlay(o, n, f, now),
        f.cooldown_until matches Some(until) && t < until,
        spec_record_key(auth) == Some(f.auth_key@),
        f.model_key@ == (f.auth_key@, trim(model)),
        !blank(model),
    ensures
        spec_auth_blocked(n, auth, model, t),
{
    let k = f.auth_key@;
    match f.classification.kind.spec_scope() {
        crate::error_events::ErrorScope::Auth => {
            assert(n.auth.contains_key(k));
            assert(n.auth[k].spec_active_at(t));
            assert(blocked_until(n.auth, k, t) is Some);
        },
        crate::error_events::ErrorScope::Model => {
            assert(n.model.contains_key(f.model_key@));
            assert(n.model[f.model_key@].spec_active_at(t));
            assert(blocked_until(n.model, (k, trim(model)), t) is Some);
        },
    }
}

/// A success lifts the overlay's hold: after `record_success` of `auth` on `model`, the auth is
/// held back for that model only by its own snapshot cooldown.
pub proof fn law_success_lifts_hold(o: OverlayModel, auth: AuthRecord, model: Seq<char>, t: i128)
    requires
        spec_record_key(auth) is Some,
        !blank(model),
    ensures
        ({
            let k = spec_record_key(auth)->0;
            let n = OverlayModel { auth: o.auth.remove(k), model: o.model.remove((k, trim(model))) };
            spec_auth_blocked(n, auth, model, t) == spec_cooldown_active(auth.cooldown_until, t)
        }),
{
}

} // verus!
