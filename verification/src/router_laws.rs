//! What every plan of the router satisfies, whatever the snapshot, request and state.
use vstd::prelude::*;
use crate::clock::{in_range, NANOS_PER_SECOND};
use crate::router::{
    add_unique, available_prefix, eligible, ids_of, insert_ordered, keep_priority, opt_trim,
    planned, precedes, session_branch, session_key, spec_available, spec_next_offset, spec_plan,
    spec_resolve_model, spec_retries, spec_select, strategy_branch, ttl_nanos, without,
    PlanErrorModel, PlanModel, PlanRequest, RouterModel,
};
use crate::types::{AuthRecord, RoutingStrategy, RuntimeSnapshot, StickinessSource};

verus! {

/// Positions in priority order: no later auth has a higher priority than an earlier one.
pub open spec fn priority_sorted(pool: Seq<AuthRecord>, s: Seq<usize>) -> bool {
    forall|i: int, j: int|
        #![trigger s[i], s[j]]
        0 <= i < j < s.len() ==> pool[s[i] as int].priority >= pool[s[j] as int].priority
}

proof fn lemma_insert_contains(pool: Seq<AuthRecord>, s: Seq<usize>, x: usize)
    ensures
        insert_ordered(pool, s, x).len() == s.len() + 1,
        forall|e: usize| #[trigger]
            insert_ordered(pool, s, x).contains(e) <==> (s.contains(e) || e == x),
    decreases s.len(),
{
    let r = insert_ordered(pool, s, x);
    if s.len() == 0 {
        assert(r =~= seq![x]);
        assert forall|e: usize| #[trigger] r.contains(e) <==> (s.contains(e) || e == x) by {
            if e == x {
                assert(r[0] == x);
            }
        }
    } else if precedes(pool, x as int, s[0] as int) {
        assert(r =~= seq![x] + s);
        assert forall|e: usize| #[trigger] r.contains(e) <==> (s.contains(e) || e == x) by {
            if r.contains(e) {
                let k = choose|k: int| 0 <= k < r.len() && r[k] == e;
                if k > 0 {
                    assert(s[k - 1] == e);
                }
            }
            if s.contains(e) {
                let k = choose|k: int| 0 <= k < s.len() && s[k] == e;
                assert(r[k + 1] == e);
            }
            if e == x {
                assert(r[0] == x);
            }
        }
    } else {
        let t = s.drop_first();
        lemma_insert_contains(pool, t, x);
        let u = insert_ordered(pool, t, x);
        assert(r =~= seq![s[0]] + u);
        assert forall|e: usize| #[trigger] r.contains(e) <==> (s.contains(e) || e == x) by {
            if r.contains(e) {
                let k = choose|k: int| 0 <= k < r.len() && r[k] == e;
                if k > 0 {
                    assert(u[k - 1] == e);
                    assert(u.contains(e));
                    if t.contains(e) {
                        let m = choose|m: int| 0 <= m < t.len() && t[m] == e;
                        assert(s[m + 1] == e);
                    }
                } else {
                    assert(s[0] == e);
                }
            }
            if s.contains(e) {
                let k = choose|k: int| 0 <= k < s.len() && s[k] == e;
                if k > 0 {
                    assert(t[k - 1] == e);
                    assert(u.contains(e));
                    let m = choose|m: int| 0 <= m < u.len() && u[m] == e;
                    assert(r[m + 1] == e);
                } else {
                    assert(r[0] == e);
                }
            }
            if e == x {
                assert(u.contains(x));
                let m = choose|m: int| 0 <= m < u.len() && u[m] == x;
                assert(r[m + 1] == x);
            }
        }
    }
}

proof fn lemma_insert_sorted(pool: Seq<AuthRecord>, s: Seq<usize>, x: usize)
    requires
        priority_sorted(pool, s),
    ensures
        priority_sorted(pool, insert_ordered(pool, s, x)),
    decreases s.len(),
{
    let r = insert_ordered(pool, s, x);
    if s.len() == 0 {
        assert(r =~= seq![x]);
    } else if precedes(pool, x as int, s[0] as int) {
        assert(r =~= seq![x] + s);
        assert forall|i: int, j: int|
            #![trigger r[i], r[j]]
            0 <= i < j < r.len() implies pool[r[i] as int].priority >= pool[r[j] as int].priority by {
            if i == 0 {
                if j > 1 {
                    assert(s[0] == r[1] && s[j - 1] == r[j]);
                }
            } else {
                assert(s[i - 1] == r[i] && s[j - 1] == r[j]);
            }
        }
    } else {
        let t = s.drop_first();
        assert(priority_sorted(pool, t)) by {
            assert forall|i: int, j: int|
                #![trigger t[i], t[j]]
                0 <= i < j < t.len() implies pool[t[i] as int].priority >= pool[t[j] as int].priority by {
                assert(t[i] == s[i + 1] && t[j] == s[j + 1]);
            }
        }
        lemma_insert_sorted(pool, t, x);
        lemma_insert_contains(pool, t, x);
        let u = insert_ordered(pool, t, x);
        assert(r =~= seq![s[0]] + u);
        assert forall|i: int, j: int|
            #![trigger r[i], r[j]]
            0 <= i < j < r.len() implies pool[r[i] as int].priority >= pool[r[j] as int].priority by {
            if i == 0 {
                let e = r[j];
                assert(u[j - 1] == e);
                assert(u.contains(e));
                if e != x {
                    assert(t.contains(e));
                    let m = choose|m: int| 0 <= m < t.len() && t[m] == e;
                    assert(s[m + 1] == e);
                    assert(s[0] == r[0]);
                }
            } else {
                assert(u[i - 1] == r[i] && u[j - 1] == r[j]);
            }
        }
    }
}

/// What the available auths are: eligible positions of the pool, every eligible position, in
/// priority order.
proof fn lemma_available(pool: Seq<AuthRecord>, model: Seq<char>, now: i128, n: nat)
    requires
        n <= pool.len(),
        pool.len() <= usize::MAX,
    ensures
        forall|k: int|
            0 <= k < available_prefix(pool, model, now, n).len() ==> ((#[trigger] available_prefix(
                pool,
                model,
                now,
                n,
            )[k]) as int) < n && eligible(
                pool[available_prefix(pool, model, now, n)[k] as int],
                model,
                now,
            ),
        forall|j: int|
            0 <= j < n && eligible(#[trigger] pool[j], model, now) ==> available_prefix(
                pool,
                model,
                now,
                n,
            ).contains(j as usize),
        priority_sorted(pool, available_prefix(pool, model, now, n)),
    decreases n,
{
    if n > 0 {
        let prev = available_prefix(pool, model, now, (n - 1) as nat);
        lemma_available(pool, model, now, (n - 1) as nat);
        let av = available_prefix(pool, model, now, n);
        if eligible(pool[n - 1], model, now) {
            let x = (n - 1) as usize;
            lemma_insert_contains(pool, prev, x);
            lemma_insert_sorted(pool, prev, x);
            assert(av == insert_ordered(pool, prev, x));
            assert forall|k: int| 0 <= k < av.len() implies ((#[trigger] av[k]) as int) < n
                && eligible(pool[av[k] as int], model, now) by {
                assert(av.contains(av[k]));
                if av[k] != x {
                    assert(prev.contains(av[k]));
                    let m = choose|m: int| 0 <= m < prev.len() && prev[m] == av[k];
                    assert(prev[m] == av[k]);
                }
            }
            assert forall|j: int| 0 <= j < n && eligible(#[trigger] pool[j], model, now) implies av.contains(
                j as usize,
            ) by {
                if j < n - 1 {
                    assert(prev.contains(j as usize));
                }
            }
        } else {
            assert(av == prev);
            assert forall|j: int| 0 <= j < n && eligible(#[trigger] pool[j], model, now) implies av.contains(
                j as usize,
            ) by {
                if j < n - 1 {
                    assert(prev.contains(j as usize));
                }
            }
        }
    }
}

proof fn lemma_keep(pool: Seq<AuthRecord>, s: Seq<usize>, p: i32)
    ensures
        forall|k: int|
            0 <= k < keep_priority(pool, s, p).len() ==> s.contains(
                #[trigger] keep_priority(pool, s, p)[k],
            ) && pool[keep_priority(pool, s, p)[k] as int].priority == p,
        forall|k: int|
            0 <= k < s.len() && pool[#[trigger] s[k] as int].priority == p ==> keep_priority(
                pool,
                s,
                p,
            ).contains(s[k]),
    decreases s.len(),
{
    if s.len() > 0 {
        let t = s.drop_last();
        lemma_keep(pool, t, p);
        let kt = keep_priority(pool, t, p);
        let ks = keep_priority(pool, s, p);
        assert forall|k: int| 0 <= k < ks.len() implies s.contains(#[trigger] ks[k])
            && pool[ks[k] as int].priority == p by {
            if k < kt.len() {
                assert(ks[k] == kt[k]);
                assert(t.contains(kt[k]));
                let m = choose|m: int| 0 <= m < t.len() && t[m] == kt[k];
                assert(s[m] == t[m]);
            } else {
                assert(ks[k] == s.last());
                assert(s[s.len() - 1] == s.last());
            }
        }
        assert forall|k: int| 0 <= k < s.len() && pool[#[trigger] s[k] as int].priority == p implies ks.contains(
            s[k],
        ) by {
            if k < s.len() - 1 {
                assert(t[k] == s[k]);
                assert(kt.contains(s[k]));
                let m = choose|m: int| 0 <= m < kt.len() && kt[m] == s[k];
                assert(ks[m] == kt[m]);
            } else {
                assert(ks[ks.len() - 1] == s.last());
            }
        }
    }
}

proof fn lemma_select(
    offsets: Map<Seq<char>, usize>,
    strategy: RoutingStrategy,
    pool: Seq<AuthRecord>,
    model: Seq<char>,
    highest: Seq<usize>,
)
    requires
        highest.len() > 0,
    ensures
        highest.contains(spec_select(offsets, strategy, pool, model, highest).0),
{
    match strategy {
        RoutingStrategy::FillFirst => {
            assert(highest[0] == spec_select(offsets, strategy, pool, model, highest).0);
        },
        RoutingStrategy::RoundRobin => {
            let key = crate::router::rr_key(model, pool[highest[0] as int].priority);
            let (o, m) = spec_next_offset(offsets, key, highest.len());
            if highest.len() > 1 {
                let cur: usize = if offsets.contains_key(key) {
                    offsets[key]
                } else {
                    0
                };
                let len = highest.len() as int;
                assert(0 <= (cur as int) % len < len) by (nonlinear_arith)
                    requires
                        len > 1,
                        cur >= 0,
                ;
                assert((cur as int) % len <= cur as int) by (nonlinear_arith)
                    requires
                        len > 1,
                        cur >= 0,
                ;
                assert(o as int == (cur as int) % len);
            }
            assert(highest[o as int] == spec_select(offsets, strategy, pool, model, highest).0);
        },
    }
}

/// The facts about the available auths and the highest layer that every law below uses.
proof fn lemma_layers(pool: Seq<AuthRecord>, model: Seq<char>, now: i128)
    requires
        spec_available(pool, model, now).len() > 0,
        pool.len() <= usize::MAX,
    ensures
        ({
            let avail = spec_available(pool, model, now);
            let highest = keep_priority(pool, avail, pool[avail[0] as int].priority);
            &&& highest.len() > 0
            &&& forall|k: int|
                0 <= k < avail.len() ==> ((#[trigger] avail[k]) as int) < pool.len() && eligible(
                    pool[avail[k] as int],
                    model,
                    now,
                )
            &&& forall|x: usize|
                #[trigger] highest.contains(x) ==> avail.contains(x) && pool[x as int].priority
                    == pool[avail[0] as int].priority
            &&& forall|j: int|
                0 <= j < pool.len() && eligible(#[trigger] pool[j], model, now) ==> pool[j].priority
                    <= pool[avail[0] as int].priority
        }),
{
    let avail = spec_available(pool, model, now);
    lemma_available(pool, model, now, pool.len());
    let p = pool[avail[0] as int].priority;
    let highest = keep_priority(pool, avail, p);
    lemma_keep(pool, avail, p);
    assert(highest.contains(avail[0]));
    assert forall|x: usize| #[trigger] highest.contains(x) implies avail.contains(x)
        && pool[x as int].priority == p by {
        let k = choose|k: int| 0 <= k < highest.len() && highest[k] == x;
        assert(avail.contains(highest[k]));
    }
    assert forall|j: int| 0 <= j < pool.len() && eligible(#[trigger] pool[j], model, now) implies pool[j].priority
        <= p by {
        assert(avail.contains(j as usize));
        let k = choose|k: int| 0 <= k < avail.len() && avail[k] == j as usize;
        if k > 0 {
            assert(pool[avail[0] as int].priority >= pool[avail[k] as int].priority);
        }
    }
}

proof fn lemma_id_member(pool: Seq<AuthRecord>, avail: Seq<usize>, id: Seq<char>) -> (i: int)
    requires
        ids_of(pool, avail).contains(id),
    ensures
        exists|k: int| 0 <= k < avail.len() && avail[k] as int == i,
        pool[i].id@ == id,
{
    let aids = ids_of(pool, avail);
    let k = choose|k: int| 0 <= k < aids.len() && aids[k] == id;
    avail[k] as int
}

proof fn lemma_id_of_member(pool: Seq<AuthRecord>, avail: Seq<usize>, x: usize)
    requires
        avail.contains(x),
    ensures
        ids_of(pool, avail).contains(pool[x as int].id@),
{
    let k = choose|k: int| 0 <= k < avail.len() && avail[k] == x;
    assert(ids_of(pool, avail)[k] == pool[x as int].id@);
}

proof fn lemma_without(ids: Seq<Seq<char>>, x: Seq<char>)
    ensures
        !without(ids, x).contains(x),
    decreases ids.len(),
{
    if ids.len() > 0 {
        lemma_without(ids.drop_last(), x);
        let r = without(ids.drop_last(), x);
        if ids.last() != x {
            assert forall|k: int| 0 <= k < r.push(ids.last()).len() implies r.push(ids.last())[k]
                != x by {
                if k < r.len() {
                    assert(r.push(ids.last())[k] == r[k]);
                }
            }
        }
    }
}

proof fn lemma_add_unique(acc: Seq<Seq<char>>, ids: Seq<Seq<char>>, x: Seq<char>)
    requires
        !acc.contains(x),
    ensures
        !add_unique(acc, ids, x).contains(x),
    decreases ids.len(),
{
    if ids.len() > 0 {
        lemma_add_unique(acc, ids.drop_last(), x);
        let a = add_unique(acc, ids.drop_last(), x);
        let y = ids.last();
        if y != x && !a.contains(y) {
            assert forall|k: int| 0 <= k < a.push(y).len() implies a.push(y)[k] != x by {
                if k < a.len() {
                    assert(a.push(y)[k] == a[k]);
                }
            }
        }
    }
}

proof fn lemma_retries(aids: Seq<Seq<char>>, chosen: Seq<char>, highest: Option<Seq<Seq<char>>>)
    ensures
        !spec_retries(aids, chosen, highest).contains(chosen),
{
    match highest {
        Some(h) => lemma_without(h, chosen),
        None => {},
    }
    let start = match highest {
        Some(h) => without(h, chosen),
        None => seq![],
    };
    lemma_add_unique(start, aids, chosen);
}

/// Whether the planned auth is an auth of the pool that may serve the planned model at the
/// instant of planning.
pub open spec fn serves(pool: Seq<AuthRecord>, p: PlanModel, now: i128) -> bool {
    exists|i: int|
        0 <= i < pool.len() && #[trigger] pool[i].id@ == p.auth_id && eligible(pool[i], p.model, now)
}

/// Whether the planned auth is an auth of the pool that may serve the planned model and has the
/// highest priority among those that may.
pub open spec fn serves_from_top(pool: Seq<AuthRecord>, p: PlanModel, now: i128) -> bool {
    exists|i: int|
        0 <= i < pool.len() && #[trigger] pool[i].id@ == p.auth_id && eligible(pool[i], p.model, now)
            && forall|j: int|
            0 <= j < pool.len() && eligible(#[trigger] pool[j], p.model, now) ==> pool[j].priority
                <= pool[i].priority
}

/// A plan names an auth of the pool that is enabled for the provider, supports the planned
/// model and is not cooling down at the instant of planning; and the auth it names is never
/// among its own retry candidates.
pub proof fn law_plan_uses_eligible_auth(
    st: RouterModel,
    snap: RuntimeSnapshot,
    req: PlanRequest,
    now: i128,
    mono: i128,
)
    ensures
        spec_plan(st, snap, req, now, mono).0 matches Ok(p) ==> serves(snap.auth_pool@, p, now)
            && !p.retries.contains(p.auth_id),
{
    let pool = snap.auth_pool@;
    let r = spec_plan(st, snap, req, now, mono).0;
    if r is Ok {
        let p = r->Ok_0;
        let model = spec_resolve_model(snap, req.requested_model@)->0;
        let avail = spec_available(pool, model, now);
        let aids = ids_of(pool, avail);
        assert(snap.auth_pool.len() == pool.len());
        lemma_layers(pool, model, now);
        let highest = keep_priority(pool, avail, pool[avail[0] as int].priority);
        let hids = ids_of(pool, highest);
        if opt_trim(req.pinned_auth_id) is Some {
            let pinned = opt_trim(req.pinned_auth_id)->0;
            let i = lemma_id_member(pool, avail, pinned);
            assert(pool[i].id@ == p.auth_id);
            lemma_retries(aids, pinned, None);
        } else {
            let session = if snap.routing.session_affinity {
                opt_trim(req.session_id)
            } else {
                None
            };
            let key = session_key(session->0, model);
            if session is Some && st.affinity.contains_key(key) && st.affinity[key].1 > mono
                && aids.contains(st.affinity[key].0) {
                let a = st.affinity[key].0;
                let i = lemma_id_member(pool, avail, a);
                assert(pool[i].id@ == p.auth_id);
                lemma_retries(aids, a, Some(hids));
            } else {
                lemma_select(st.offsets, snap.routing.strategy, pool, model, highest);
                let idx = spec_select(st.offsets, snap.routing.strategy, pool, model, highest).0;
                assert(avail.contains(idx));
                let k = choose|k: int| 0 <= k < avail.len() && avail[k] == idx;
                assert(eligible(pool[avail[k] as int], model, now));
                assert(pool[idx as int].id@ == p.auth_id);
                lemma_retries(aids, pool[idx as int].id@, Some(hids));
            }
        }
    }
}

/// A plan that the strategy chose (no pinned auth, no live session binding) names an auth of
/// the highest priority among those that may serve the model: round robin and fill-first only
/// ever pick within the top layer.
pub proof fn law_strategy_stays_in_top_layer(
    st: RouterModel,
    snap: RuntimeSnapshot,
    req: PlanRequest,
    now: i128,
    mono: i128,
)
    ensures
        spec_plan(st, snap, req, now, mono).0 matches Ok(p) ==> ((p.source == StickinessSource::Strategy
            || p.source == StickinessSource::ReboundSessionAffinity) ==> serves_from_top(
            snap.auth_pool@,
            p,
            now,
        )),
{
    let pool = snap.auth_pool@;
    let r = spec_plan(st, snap, req, now, mono).0;
    if r is Ok {
        let p = r->Ok_0;
        if p.source == StickinessSource::Strategy || p.source
            == StickinessSource::ReboundSessionAffinity {
            let model = spec_resolve_model(snap, req.requested_model@)->0;
            let avail = spec_available(pool, model, now);
            assert(snap.auth_pool.len() == pool.len());
        lemma_layers(pool, model, now);
            let highest = keep_priority(pool, avail, pool[avail[0] as int].priority);
            lemma_select(st.offsets, snap.routing.strategy, pool, model, highest);
            let idx = spec_select(st.offsets, snap.routing.strategy, pool, model, highest).0;
            assert(avail.contains(idx));
            let k = choose|k: int| 0 <= k < avail.len() && avail[k] == idx;
            assert(eligible(pool[avail[k] as int], model, now));
            assert(pool[idx as int].id@ == p.auth_id);
            assert(pool[idx as int].priority == pool[avail[0] as int].priority);
        }
    }
}

/// A pinned auth that may serve the model wins over strategy and session bindings, and leaves
/// the router's state as it was.
pub proof fn law_pinned_auth_wins(
    st: RouterModel,
    snap: RuntimeSnapshot,
    req: PlanRequest,
    now: i128,
    mono: i128,
)
    requires
        snap.routes.responses,
        crate::router::spec_provider_enabled(snap),
        spec_resolve_model(snap, req.requested_model@) is Some,
        opt_trim(req.pinned_auth_id) is Some,
        ids_of(
            snap.auth_pool@,
            spec_available(
                snap.auth_pool@,
                spec_resolve_model(snap, req.requested_model@)->0,
                now,
            ),
        ).contains(opt_trim(req.pinned_auth_id)->0),
    ensures
        spec_plan(st, snap, req, now, mono).0 matches Ok(p) && p.auth_id == opt_trim(req.pinned_auth_id)->0
            && p.source == StickinessSource::PinnedAuth,
        spec_plan(st, snap, req, now, mono).1 == st,
{
    let model = spec_resolve_model(snap, req.requested_model@)->0;
    assert(crate::text::trim(req.requested_model@).len() > 0);
    let aids = ids_of(snap.auth_pool@, spec_available(snap.auth_pool@, model, now));
    let k = choose|k: int| 0 <= k < aids.len() && aids[k] == opt_trim(req.pinned_auth_id)->0;
    assert(spec_available(snap.auth_pool@, model, now).len() > 0);
}

/// A session keeps its auth: planning the same request again at the same instants, from the
/// state that a plan for it left, picks the same auth from the session binding and changes
/// nothing.
pub proof fn law_session_binding_is_reused(
    st: RouterModel,
    snap: RuntimeSnapshot,
    req: PlanRequest,
    now: i128,
    mono: i128,
)
    requires
        in_range(now as int),
        in_range(mono as int),
        snap.routing.session_affinity,
        opt_trim(req.session_id) is Some,
        opt_trim(req.pinned_auth_id) is None,
        spec_plan(st, snap, req, now, mono).0 is Ok,
    ensures
        ({
            let (r1, st1) = spec_plan(st, snap, req, now, mono);
            let (r2, st2) = spec_plan(st1, snap, req, now, mono);
            &&& r2 matches Ok(p2)
            &&& p2.auth_id == r1->Ok_0.auth_id
            &&& p2.source == StickinessSource::SessionAffinity
            &&& st2 == st1
        }),
{
    let pool = snap.auth_pool@;
    let model = spec_resolve_model(snap, req.requested_model@)->0;
    let avail = spec_available(pool, model, now);
    let aids = ids_of(pool, avail);
    assert(snap.auth_pool.len() == pool.len());
    lemma_layers(pool, model, now);
    let highest = keep_priority(pool, avail, pool[avail[0] as int].priority);
    let key = session_key(opt_trim(req.session_id)->0, model);
    let (r1, st1) = spec_plan(st, snap, req, now, mono);
    let live = st.affinity.contains_key(key) && st.affinity[key].1 > mono;
    if !(live && aids.contains(st.affinity[key].0)) {
        lemma_select(st.offsets, snap.routing.strategy, pool, model, highest);
        let idx = spec_select(st.offsets, snap.routing.strategy, pool, model, highest).0;
        assert(avail.contains(idx));
        lemma_id_of_member(pool, avail, idx);
        let ttl = ttl_nanos(snap.routing.session_ttl_seconds);
        assert(ttl >= NANOS_PER_SECOND) by (nonlinear_arith)
            requires
                ttl == (if snap.routing.session_ttl_seconds == 0 {
                    1
                } else {
                    snap.routing.session_ttl_seconds as int
                }) * NANOS_PER_SECOND,
        ;
        assert(ttl <= 0x1_0000_0000_0000_0000 * NANOS_PER_SECOND) by (nonlinear_arith)
            requires
                ttl == (if snap.routing.session_ttl_seconds == 0 {
                    1
                } else {
                    snap.routing.session_ttl_seconds as int
                }) * NANOS_PER_SECOND,
        ;
        assert(st1.affinity.contains_key(key));
        assert(st1.affinity[key] == (pool[idx as int].id@, (mono + ttl) as i128));
    }
}

} // verus!
