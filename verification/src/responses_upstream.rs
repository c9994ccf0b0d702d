//! Running a responses request upstream: which path it takes, the chain of auths it may try,
//! and the rule by which a failure moves on to the next auth before anything has been sent
//! downstream. The calls themselves are made by the caller, which reports each outcome here.
use vstd::prelude::*;
use crate::auth_state::{AuthStateOverlay, OverlayModel};
use crate::error_events::ErrorEvent;
use crate::failure::{
    classified, classify_upstream_failure, spec_precommit_classification, ClassifiedUpstreamFailure,
};
use crate::health::{
    made_failure, record_failure, recordable, spec_failure_event, spec_failure_overlay,
    RecordedFailure,
};
use crate::router::strs;
use crate::routing_policy::{find_auth, first_auth_with_id, has_auth_id};
use crate::text::{chars_eq, chars_of};
use crate::clock::in_range;
use crate::types::{AuthRecord, ExecutionPlan, ProviderKind, RuntimeSnapshot};
use crate::upstream_runtime::{spec_can_execute_for_auth, UpstreamRuntime};

verus! {

/// The retry candidates of a plan that the pool holds, skipping the selected auth's id.
pub open spec fn bound_rest(pool: Seq<AuthRecord>, ids: Seq<Seq<char>>, selected_id: Seq<char>) -> Seq<
    usize,
>
    decreases ids.len(),
{
    if ids.len() == 0 {
        Seq::empty()
    } else {
        let rest = bound_rest(pool, ids.drop_last(), selected_id);
        if ids.last() == selected_id {
            rest
        } else if has_auth_id(pool, ids.last()) {
            rest.push(first_auth_with_id(pool, ids.last()) as usize)
        } else {
            rest
        }
    }
}

/// The auths a request bound to `selected` may try, in order: the selected auth, then the
/// plan's retry candidates found in the pool, other than the selected auth's id.
pub open spec fn spec_auth_bound_chain(pool: Seq<AuthRecord>, plan: ExecutionPlan, selected: usize) -> Seq<
    usize,
> {
    seq![selected] + bound_rest(pool, strs(plan.retry_candidates@), pool[selected as int].id@)
}

/// The auths a request bound to `selected` may try, as positions in the pool.
pub fn auth_bound_retry_chain(snapshot: &RuntimeSnapshot, plan: &ExecutionPlan, selected: usize) -> (r:
    Vec<usize>)
    requires
        selected < snapshot.auth_pool@.len(),
    ensures
        r@ == spec_auth_bound_chain(snapshot.auth_pool@, *plan, selected),
        forall|k: int| 0 <= k < r@.len() ==> r@[k] < snapshot.auth_pool@.len(),
{
    let pool = &snapshot.auth_pool;
    let selected_id = chars_of(pool[selected].id.as_str());
    let mut chain: Vec<usize> = Vec::new();
    chain.push(selected);
    let ghost ids = strs(plan.retry_candidates@);
    let mut k: usize = 0;
    while k < plan.retry_candidates.len()
        invariant
            k <= plan.retry_candidates@.len(),
            ids == strs(plan.retry_candidates@),
            pool == &snapshot.auth_pool,
            selected < pool@.len(),
            selected_id@ == pool@[selected as int].id@,
            chain@ == seq![selected] + bound_rest(pool@, ids.take(k as int), selected_id@),
            forall|u: int| 0 <= u < chain@.len() ==> chain@[u] < pool@.len(),
        decreases plan.retry_candidates@.len() - k,
    {
        let id = chars_of(plan.retry_candidates[k].as_str());
        proof {
            assert(ids.take(k + 1).drop_last() =~= ids.take(k as int));
            assert(ids.take(k + 1).last() == id@);
        }
        if chars_eq(id.as_slice(), selected_id.as_slice()) {
            assert(chain@ =~= seq![selected] + bound_rest(pool@, ids.take(k + 1), selected_id@));
        } else {
            match find_auth(pool, id.as_slice()) {
                Some(i) => {
                    chain.push(i);
                    assert(chain@ =~= seq![selected] + bound_rest(
                        pool@,
                        ids.take(k + 1),
                        selected_id@,
                    ));
                },
                None => {
                    assert(chain@ =~= seq![selected] + bound_rest(
                        pool@,
                        ids.take(k + 1),
                        selected_id@,
                    ));
                },
            }
        }
        k = k + 1;
    }
    assert(ids.take(k as int) =~= ids);
    chain
}

/// Whether a request can go upstream at all: some upstream is configured, or the selected auth
/// carries its own credential.
pub fn upstream_enabled_for_request(
    upstream: &UpstreamRuntime,
    snapshot: &RuntimeSnapshot,
    selected: Option<usize>,
) -> (r: bool)
    requires
        selected matches Some(i) ==> i < snapshot.auth_pool@.len(),
    ensures
        r == (upstream.spec_config().openai is Some || upstream.spec_config().codex is Some || match selected {
            Some(i) => spec_can_execute_for_auth(upstream.spec_config(), snapshot.auth_pool@[i as int]),
            None => false,
        }),
{
    upstream.is_enabled() || match selected {
        Some(i) => upstream.can_execute_for_auth(&snapshot.auth_pool[i]),
        None => false,
    }
}

/// Whether a Codex request from a non-streaming client is still run as a stream upstream and
/// folded back into one JSON body.
pub fn aggregate_codex_stream(provider: ProviderKind, downstream_stream: bool) -> (r: bool)
    ensures
        r == (provider == ProviderKind::Codex && !downstream_stream),
{
    match provider {
        ProviderKind::Codex => !downstream_stream,
        _ => false,
    }
}

/// The chain of auths a request tries, when it is bound to its selected auth: only when that
/// auth carries its own credential. `None` means the request goes to the configured upstream
/// without an auth.
pub fn upstream_attempts(
    upstream: &UpstreamRuntime,
    snapshot: &RuntimeSnapshot,
    plan: &ExecutionPlan,
    selected: Option<usize>,
) -> (r: Option<Vec<usize>>)
    requires
        selected matches Some(i) ==> i < snapshot.auth_pool@.len(),
    ensures
        match selected {
            Some(i) => if spec_can_execute_for_auth(upstream.spec_config(), snapshot.auth_pool@[i as int]) {
                r matches Some(c) && c@ == spec_auth_bound_chain(snapshot.auth_pool@, *plan, i)
            } else {
                r is None
            },
            None => r is None,
        },
        r matches Some(c) ==> c@.len() > 0 && forall|k: int| 0 <= k < c@.len() ==> c@[k] < snapshot.auth_pool@.len(),
{
    match selected {
        Some(i) => {
            if upstream.can_execute_for_auth(&snapshot.auth_pool[i]) {
                Some(auth_bound_retry_chain(snapshot, plan, i))
            } else {
                None
            }
        },
        None => None,
    }
}

/// What to do after an attempt on an auth of the chain.
#[derive(Debug)]
pub enum RetryStep {
    /// Try the auth at this position of the pool.
    Attempt(usize),
    /// The request failed with this message.
    Failed(String),
}

/// What a failed attempt reported: the failure's reason, whether it moved on (or would have,
/// had there been another auth), and the `errors` event when the failure could be recorded.
#[derive(Debug)]
pub struct FailureReport {
    pub reason: &'static str,
    pub retryable: bool,
    pub event: Option<ErrorEvent>,
}

/// A request working through its chain of auths.
#[derive(Debug, Clone)]
pub struct AuthRetry {
    chain: Vec<usize>,
    pos: usize,
}

impl AuthRetry {
    pub closed spec fn chain(&self) -> Seq<usize> {
        self.chain@
    }

    pub closed spec fn pos(&self) -> nat {
        self.pos as nat
    }

    pub open spec fn wf(&self) -> bool {
        self.pos() < self.chain().len()
    }

    /// A run that starts with the first auth of the chain.
    pub fn new(chain: Vec<usize>) -> (r: Self)
        requires
            chain@.len() > 0,
        ensures
            r.wf(),
            r.chain() == chain@,
            r.pos() == 0,
    {
        AuthRetry { chain, pos: 0 }
    }

    /// The auth to try now.
    pub fn current(&self) -> (r: usize)
        requires
            self.wf(),
        ensures
            r == self.chain()[self.pos() as int],
    {
        self.chain[self.pos]
    }

    /// Handles a failed attempt on the current auth: classifies the failure, records it against
    /// the auth and the plan's model, and moves on to the next auth when the failure is one that
    /// may retry before the response is committed and the chain has another auth.
    pub fn on_error(
        &mut self,
        message: &str,
        snapshot: &RuntimeSnapshot,
        model: &str,
        request_id: String,
        overlay: &mut AuthStateOverlay,
        now: i128,
    ) -> (r: (RetryStep, FailureReport))
        requires
            old(self).wf(),
            forall|k: int| 0 <= k < old(self).chain().len() ==> old(self).chain()[k] < snapshot.auth_pool@.len(),
            old(overlay).wf(),
            in_range(now as int),
        ensures
            final(overlay).wf(),
            final(self).chain() == old(self).chain(),
            ({
                let retryable = spec_precommit_classification(message@).spec_should_retry();
                let next = old(self).pos() + 1;
                &&& r.1.retryable == retryable
                &&& if retryable && next < old(self).chain().len() {
                    &&& final(self).pos() == next
                    &&& r.0 == RetryStep::Attempt(old(self).chain()[next as int])
                } else {
                    &&& final(self).pos() == old(self).pos()
                    &&& r.0 matches RetryStep::Failed(m) && m@ == message@
                }
            }),
            final(self).wf(),
            exists|c: ClassifiedUpstreamFailure|
                #![trigger classified(c, message@)]
                {
                    let auth = snapshot.auth_pool@[old(self).chain()[old(self).pos() as int] as int];
                    &&& classified(c, message@)
                    &&& r.1.reason@ == c.kind.spec_reason()
                    &&& if recordable(auth, model@) {
                        exists|f: RecordedFailure|
                            #![trigger made_failure(f, auth, model@, request_id, c, now)]
                            {
                                &&& made_failure(f, auth, model@, request_id, c, now)
                                &&& spec_failure_overlay(
                                    old(overlay).model_view(),
                                    final(overlay).model_view(),
                                    f,
                                    now,
                                )
                                &&& r.1.event matches Some(e) && spec_failure_event(e, f, now)
                            }
                    } else {
                        &&& final(overlay).model_view() == old(overlay).model_view()
                        &&& r.1.event is None
                    }
                },
    {
        let candidate = self.chain[self.pos];
        let auth = &snapshot.auth_pool[candidate];
        let classification = classify_upstream_failure(message);
        let ghost c = classification;
        let kind = classification.kind;
        let retryable = kind.precommit_retry().should_retry();
        let reason = kind.reason();
        let event = match RecordedFailure::new_at(auth, model, request_id, classification, now) {
            Some(failure) => {
                let ghost f = failure;
                let e = record_failure(overlay, failure, now);
                assert(made_failure(f, *auth, model@, request_id, c, now));
                Some(e)
            },
            None => None,
        };
        let report = FailureReport { reason, retryable, event };
        if retryable && self.pos < self.chain.len() - 1 {
            self.pos = self.pos + 1;
            (RetryStep::Attempt(self.chain[self.pos]), report)
        } else {
            (RetryStep::Failed(String::from_str(message)), report)
        }
    }
}

} // verus!
