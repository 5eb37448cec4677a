//! The decision evaluators.
//!
//! `decide` is full evaluation: deny-overrides, default-deny. A selected
//! policy whose condition does not come out as a boolean denies the
//! request outright: an evaluation failure is never silently ignored.
//!
//! `decide_partial` evaluates with the resource unknown. Policies whose
//! condition resolves without the resource either settle the decision or
//! drop out; the rest are residual candidates. An unresolved Forbid is
//! conservative: it blocks an unconditional Allow but never widens the
//! residual set handed to the predicate compiler.

use vstd::prelude::*;
use crate::entity::Entity;
use crate::entity::EntityId;
use crate::entity::EntityIdV;
use crate::entity::Value;
use crate::expr::Bindings;
use crate::expr::Expr;
use crate::expr::POut;
use crate::expr::Reduced;
use crate::expr::is_falsev;
use crate::expr::is_truev;
use crate::expr::peval;
use crate::expr::reduce;
use crate::expr::reduced_matches;
use crate::expr::with_resource;
use crate::policy::Effect;
use crate::policy::Policy;
use crate::policy::PolicySet;
use crate::policy::ScopePattern;
use crate::policy::action_matches;
use crate::policy::cond_of;
use crate::policy::duplicate_annotations;
use crate::policy::lookup_ann;
use crate::policy::match_action;
use crate::policy::match_pattern;
use crate::policy::pat_matches;

verus! {

/// A policy whose scope matched but whose condition still waits for the
/// resource: the original annotations and the as-far-as-reduced condition.
#[derive(Debug, PartialEq, Eq)]
pub struct ResidualPolicy {
    pub annotations: Vec<(String, String)>,
    pub condition: Expr,
}

impl ResidualPolicy {
    /// The value of an annotation, by key.
    pub fn annotation(&self, key: &String) -> (r: Option<String>)
        ensures
            match r {
                Some(v) => lookup_ann(self.annotations@, key@) == Some(v@),
                None => lookup_ann(self.annotations@, key@) is None,
            },
    {
        crate::policy::annotation_of(&self.annotations, key)
    }
}

/// The decision: allowed, denied, or still depending on the unknown
/// resource through the listed policies.
#[derive(Debug, PartialEq, Eq)]
pub enum ResourceAuthorizationResult {
    Allow,
    Deny,
    Residual(Vec<ResidualPolicy>),
}

/// What the policy's condition evaluates to under these bindings.
pub open spec fn cond_out(p: Policy, b: Bindings) -> POut {
    peval(cond_of(p), b)
}

pub open spec fn ok_bool(o: POut) -> bool {
    is_truev(o) || is_falsev(o)
}

/// Full selection: all three scope patterns match the concrete request.
pub open spec fn full_selected(
    p: Policy,
    store: Seq<Entity>,
    principal: EntityIdV,
    action: EntityIdV,
    resource: EntityIdV,
) -> bool {
    pat_matches(store, p.principal_scope, principal) && action_matches(p.action_scope, action)
        && pat_matches(store, p.resource_scope, resource)
}

/// Deny-overrides, default-deny, over fully known bindings: the request
/// is allowed when no selected condition misevaluates, no selected Forbid
/// holds, and some selected Permit holds.
pub open spec fn decide_allows(
    ps: Seq<Policy>,
    store: Seq<Entity>,
    action: EntityIdV,
    b: Bindings,
) -> bool {
    let principal = b.principal.uid@;
    let resource = b.resource.unwrap().uid@;
    &&& forall|i: int|
        0 <= i < ps.len() && full_selected(#[trigger] ps[i], store, principal, action, resource)
            ==> ok_bool(cond_out(ps[i], b))
    &&& forall|i: int|
        0 <= i < ps.len() && full_selected(#[trigger] ps[i], store, principal, action, resource)
            && ps[i].effect is Forbid ==> !is_truev(cond_out(ps[i], b))
    &&& exists|i: int|
        0 <= i < ps.len() && full_selected(#[trigger] ps[i], store, principal, action, resource)
            && ps[i].effect is Permit && is_truev(cond_out(ps[i], b))
}

/// Decides a concrete request: `decide_allows`, executably.
pub fn decide(policies: &PolicySet, store: &Vec<Entity>, action: &EntityId, b: &Bindings) -> (allow:
    bool)
    requires
        b.resource is Some,
    ensures
        allow == decide_allows(policies.policies@, store@, action@, *b),
{
    let ghost ps = policies.policies@;
    let ghost principal_v = b.principal.uid@;
    let ghost resource_v = b.resource.unwrap().uid@;
    let mut found_permit = false;
    let mut i: usize = 0;
    while i < policies.policies.len()
        invariant
            b.resource is Some,
            ps == policies.policies@,
            principal_v == b.principal.uid@,
            resource_v == b.resource.unwrap().uid@,
            i <= ps.len(),
            forall|j: int|
                0 <= j < i as int && full_selected(
                    #[trigger] ps[j],
                    store@,
                    principal_v,
                    action@,
                    resource_v,
                ) ==> ok_bool(cond_out(ps[j], *b)),
            forall|j: int|
                0 <= j < i as int && full_selected(
                    #[trigger] ps[j],
                    store@,
                    principal_v,
                    action@,
                    resource_v,
                ) && ps[j].effect is Forbid ==> !is_truev(cond_out(ps[j], *b)),
            found_permit == exists|j: int|
                0 <= j < i as int && full_selected(
                    #[trigger] ps[j],
                    store@,
                    principal_v,
                    action@,
                    resource_v,
                ) && ps[j].effect is Permit && is_truev(cond_out(ps[j], *b)),
        decreases ps.len() - i,
    {
        let p = &policies.policies[i];
        let res_ent: &Entity = match &b.resource {
            Some(re) => re,
            None => {
                proof {
                    assert(false);
                }
                &b.principal
            },
        };
        let sel = match_pattern(store, &p.principal_scope, &b.principal.uid) && match_action(
            &p.action_scope,
            action,
        ) && match_pattern(store, &p.resource_scope, &res_ent.uid);
        if sel {
            let rd = match &p.condition {
                Some(c) => reduce(c, b),
                None => {
                    proof {
                        assert(peval(cond_of(ps[i as int]), *b) == POut::Val(
                            crate::entity::ValueV::Bool(true),
                        ));
                    }
                    Reduced::Known(Value::Bool(true))
                },
            };
            proof {
                assert(reduced_matches(rd, cond_of(ps[i as int]), *b));
            }
            match rd {
                Reduced::Known(Value::Bool(bv)) => {
                    if bv {
                        if matches!(p.effect, Effect::Forbid) {
                            return false;
                        }
                        found_permit = true;
                    }
                },
                _ => {
                    return false;
                },
            }
        }
        i = i + 1;
    }
    found_permit
}

/// Partial selection: the principal and action patterns match; with the
/// resource unknown, only an unconstrained resource scope matches
/// structurally.
pub open spec fn partial_selected(
    p: Policy,
    store: Seq<Entity>,
    principal: EntityIdV,
    action: EntityIdV,
) -> bool {
    pat_matches(store, p.principal_scope, principal) && action_matches(p.action_scope, action)
        && p.resource_scope is Any
}

/// A selected policy whose condition resolved to a non-boolean or failed.
pub open spec fn is_perr(
    p: Policy,
    store: Seq<Entity>,
    b: Bindings,
    action: EntityIdV,
) -> bool {
    partial_selected(p, store, b.principal.uid@, action) && !(cond_out(p, b) is Open) && !ok_bool(
        cond_out(p, b),
    )
}

/// A selected policy whose condition resolved to true.
pub open spec fn is_ptrue(
    p: Policy,
    store: Seq<Entity>,
    b: Bindings,
    action: EntityIdV,
) -> bool {
    partial_selected(p, store, b.principal.uid@, action) && is_truev(cond_out(p, b))
}

/// A selected policy whose condition still waits for the resource.
pub open spec fn is_cand(
    p: Policy,
    store: Seq<Entity>,
    b: Bindings,
    action: EntityIdV,
) -> bool {
    partial_selected(p, store, b.principal.uid@, action) && cond_out(p, b) is Open
}

pub open spec fn some_perr(ps: Seq<Policy>, store: Seq<Entity>, b: Bindings, action: EntityIdV) -> bool {
    exists|i: int| 0 <= i < ps.len() && is_perr(#[trigger] ps[i], store, b, action)
}

pub open spec fn some_forbid_true(
    ps: Seq<Policy>,
    store: Seq<Entity>,
    b: Bindings,
    action: EntityIdV,
) -> bool {
    exists|i: int|
        0 <= i < ps.len() && (#[trigger] ps[i]).effect is Forbid && is_ptrue(ps[i], store, b, action)
}

pub open spec fn some_permit_true(
    ps: Seq<Policy>,
    store: Seq<Entity>,
    b: Bindings,
    action: EntityIdV,
) -> bool {
    exists|i: int|
        0 <= i < ps.len() && (#[trigger] ps[i]).effect is Permit && is_ptrue(ps[i], store, b, action)
}

pub open spec fn some_forbid_cand(
    ps: Seq<Policy>,
    store: Seq<Entity>,
    b: Bindings,
    action: EntityIdV,
) -> bool {
    exists|i: int|
        0 <= i < ps.len() && (#[trigger] ps[i]).effect is Forbid && is_cand(ps[i], store, b, action)
}

pub open spec fn some_cand(ps: Seq<Policy>, store: Seq<Entity>, b: Bindings, action: EntityIdV) -> bool {
    exists|i: int| 0 <= i < ps.len() && is_cand(#[trigger] ps[i], store, b, action)
}

/// The indices of the Permit residual candidates, in policy-set order.
pub open spec fn cand_idxs(ps: Seq<Policy>, store: Seq<Entity>, b: Bindings, action: EntityIdV) -> Seq<int>
    decreases ps.len(),
{
    if ps.len() == 0 {
        Seq::empty()
    } else {
        let pre = cand_idxs(ps.drop_last(), store, b, action);
        if ps.last().effect is Permit && is_cand(ps.last(), store, b, action) {
            pre.push(ps.len() - 1)
        } else {
            pre
        }
    }
}

pub proof fn lemma_cand_idxs_bounds(ps: Seq<Policy>, store: Seq<Entity>, b: Bindings, action: EntityIdV)
    ensures
        forall|k: int|
            0 <= k < cand_idxs(ps, store, b, action).len() ==> 0 <= #[trigger] cand_idxs(
                ps,
                store,
                b,
                action,
            )[k] < ps.len() && ps[cand_idxs(ps, store, b, action)[k]].effect is Permit && is_cand(
                ps[cand_idxs(ps, store, b, action)[k]],
                store,
                b,
                action,
            ),
    decreases ps.len(),
{
    if ps.len() > 0 {
        lemma_cand_idxs_bounds(ps.drop_last(), store, b, action);
        assert forall|k: int|
            0 <= k < cand_idxs(ps.drop_last(), store, b, action).len() implies {
            let ii = #[trigger] cand_idxs(ps.drop_last(), store, b, action)[k];
            ps[ii] == ps.drop_last()[ii]
        } by {
            let ii = cand_idxs(ps.drop_last(), store, b, action)[k];
            assert(ps.drop_last()[ii] == ps[ii]);
        }
    }
}

/// There is a Permit candidate exactly when the candidate index list is
/// non-empty.
pub proof fn lemma_cand_idxs_nonempty(ps: Seq<Policy>, store: Seq<Entity>, b: Bindings, action: EntityIdV)
    ensures
        (cand_idxs(ps, store, b, action).len() > 0) == exists|i: int|
            0 <= i < ps.len() && (#[trigger] ps[i]).effect is Permit && is_cand(
                ps[i],
                store,
                b,
                action,
            ),
    decreases ps.len(),
{
    if ps.len() > 0 {
        lemma_cand_idxs_nonempty(ps.drop_last(), store, b, action);
        if cand_idxs(ps, store, b, action).len() > 0 {
            if !(ps.last().effect is Permit && is_cand(ps.last(), store, b, action)) {
                let i = choose|i: int|
                    0 <= i < ps.drop_last().len() && (#[trigger] ps.drop_last()[i]).effect is Permit
                        && is_cand(ps.drop_last()[i], store, b, action);
                assert(ps[i] == ps.drop_last()[i]);
            } else {
                assert(ps[ps.len() - 1].effect is Permit && is_cand(
                    ps[ps.len() - 1],
                    store,
                    b,
                    action,
                ));
            }
        } else {
            if exists|i: int|
                0 <= i < ps.len() && (#[trigger] ps[i]).effect is Permit && is_cand(
                    ps[i],
                    store,
                    b,
                    action,
                ) {
                let i = choose|i: int|
                    0 <= i < ps.len() && (#[trigger] ps[i]).effect is Permit && is_cand(
                        ps[i],
                        store,
                        b,
                        action,
                    );
                assert(i < ps.len() - 1);
                assert(ps.drop_last()[i] == ps[i]);
            }
        }
    }
}

/// The views of an annotation list.
pub open spec fn ann_views(s: Seq<(String, String)>) -> Seq<(Seq<char>, Seq<char>)> {
    s.map_values(|p: (String, String)| (p.0@, p.1@))
}

/// One residual entry: the source policy's annotations, and a condition
/// that is still open and agrees with the source condition under every
/// way of supplying the resource.
pub open spec fn residual_entry_ok(rp: ResidualPolicy, p: Policy, b: Bindings) -> bool {
    &&& ann_views(rp.annotations@) == ann_views(p.annotations@)
    &&& peval(rp.condition, b) is Open
    &&& forall|res: Entity|
        #[trigger] peval(rp.condition, with_resource(b, res)) == peval(
            cond_of(p),
            with_resource(b, res),
        )
}

/// The residual list is exactly the Permit residual candidates, in order.
pub open spec fn residuals_ok(
    rs: Seq<ResidualPolicy>,
    ps: Seq<Policy>,
    store: Seq<Entity>,
    b: Bindings,
    action: EntityIdV,
) -> bool {
    let idxs = cand_idxs(ps, store, b, action);
    rs.len() == idxs.len() && forall|k: int|
        0 <= k < rs.len() ==> residual_entry_ok(#[trigger] rs[k], ps[idxs[k]], b)
}

/// What `decide_partial` promises, step by step: any resolved failure or
/// resolved Forbid denies; a resolved Permit with nothing left undetermined
/// on the Forbid side allows; nothing undetermined at all denies; otherwise
/// the Permit candidates are handed out as the residual set.
pub open spec fn partial_result_matches(
    r: ResourceAuthorizationResult,
    ps: Seq<Policy>,
    store: Seq<Entity>,
    b: Bindings,
    action: EntityIdV,
) -> bool {
    let deny_now = some_perr(ps, store, b, action) || some_forbid_true(ps, store, b, action);
    let allow_now = !deny_now && some_permit_true(ps, store, b, action) && !some_forbid_cand(
        ps,
        store,
        b,
        action,
    );
    match r {
        ResourceAuthorizationResult::Allow => allow_now,
        ResourceAuthorizationResult::Deny => deny_now || (!allow_now && !some_cand(
            ps,
            store,
            b,
            action,
        )),
        ResourceAuthorizationResult::Residual(rs) => !deny_now && !allow_now && some_cand(
            ps,
            store,
            b,
            action,
        ) && residuals_ok(rs@, ps, store, b, action),
    }
}

/// Decides a request whose resource is not yet known.
pub fn decide_partial(
    policies: &PolicySet,
    store: &Vec<Entity>,
    action: &EntityId,
    b: &Bindings,
) -> (r: ResourceAuthorizationResult)
    requires
        b.resource is None,
    ensures
        partial_result_matches(r, policies.policies@, store@, *b, action@),
{
    let ghost ps = policies.policies@;
    let ghost principal_v = b.principal.uid@;
    let mut residuals: Vec<ResidualPolicy> = Vec::new();
    let mut permit_true = false;
    let mut forbid_cand = false;
    let mut i: usize = 0;
    while i < policies.policies.len()
        invariant
            b.resource is None,
            ps == policies.policies@,
            principal_v == b.principal.uid@,
            i <= ps.len(),
            forall|j: int| 0 <= j < i as int ==> !is_perr(#[trigger] ps[j], store@, *b, action@),
            forall|j: int|
                0 <= j < i as int ==> !((#[trigger] ps[j]).effect is Forbid && is_ptrue(
                    ps[j],
                    store@,
                    *b,
                    action@,
                )),
            permit_true == exists|j: int|
                0 <= j < i as int && (#[trigger] ps[j]).effect is Permit && is_ptrue(
                    ps[j],
                    store@,
                    *b,
                    action@,
                ),
            forbid_cand == exists|j: int|
                0 <= j < i as int && (#[trigger] ps[j]).effect is Forbid && is_cand(
                    ps[j],
                    store@,
                    *b,
                    action@,
                ),
            residuals@.len() == cand_idxs(ps.take(i as int), store@, *b, action@).len(),
            forall|k: int|
                0 <= k < residuals@.len() ==> residual_entry_ok(
                    #[trigger] residuals@[k],
                    ps[cand_idxs(ps.take(i as int), store@, *b, action@)[k]],
                    *b,
                ),
        decreases ps.len() - i,
    {
        let ghost pre_idxs = cand_idxs(ps.take(i as int), store@, *b, action@);
        proof {
            lemma_cand_idxs_bounds(ps.take(i as int), store@, *b, action@);
            assert(ps.take(i as int + 1).drop_last() =~= ps.take(i as int));
            assert(ps.take(i as int + 1).last() == ps[i as int]);
        }
        let p = &policies.policies[i];
        let sel = match_pattern(store, &p.principal_scope, &b.principal.uid) && match_action(
            &p.action_scope,
            action,
        ) && (matches!(p.resource_scope, ScopePattern::Any));
        if sel {
            let rd = match &p.condition {
                Some(c) => reduce(c, b),
                None => {
                    proof {
                        assert(peval(cond_of(ps[i as int]), *b) == POut::Val(
                            crate::entity::ValueV::Bool(true),
                        ));
                    }
                    Reduced::Known(Value::Bool(true))
                },
            };
            proof {
                assert(reduced_matches(rd, cond_of(ps[i as int]), *b));
            }
            match rd {
                Reduced::Known(Value::Bool(bv)) => {
                    if bv {
                        if matches!(p.effect, Effect::Forbid) {
                            proof {
                                assert(ps[i as int].effect is Forbid && is_ptrue(
                                    ps[i as int],
                                    store@,
                                    *b,
                                    action@,
                                ));
                            }
                            return ResourceAuthorizationResult::Deny;
                        }
                        permit_true = true;
                    }
                },
                Reduced::Known(_) => {
                    proof {
                        assert(is_perr(ps[i as int], store@, *b, action@));
                    }
                    return ResourceAuthorizationResult::Deny;
                },
                Reduced::Failed => {
                    proof {
                        assert(is_perr(ps[i as int], store@, *b, action@));
                    }
                    return ResourceAuthorizationResult::Deny;
                },
                Reduced::Open(e2) => {
                    if matches!(p.effect, Effect::Forbid) {
                        forbid_cand = true;
                    } else {
                        let anns = duplicate_annotations(&p.annotations);
                        proof {
                            assert(ann_views(anns@) =~= ann_views(ps[i as int].annotations@));
                        }
                        residuals.push(ResidualPolicy { annotations: anns, condition: e2 });
                    }
                },
            }
        }
        i = i + 1;
        proof {
            assert(ps.take(i as int).drop_last() =~= ps.take(i as int - 1));
        }
    }
    proof {
        assert(ps.take(ps.len() as int) =~= ps);
        lemma_cand_idxs_nonempty(ps, store@, *b, action@);
    }
    if permit_true && !forbid_cand {
        return ResourceAuthorizationResult::Allow;
    }
    if residuals.len() == 0 && !forbid_cand {
        proof {
            assert forall|i2: int| 0 <= i2 < ps.len() implies !is_cand(
                #[trigger] ps[i2],
                store@,
                *b,
                action@,
            ) by {
                if is_cand(ps[i2], store@, *b, action@) {
                    if ps[i2].effect is Permit {
                    } else {
                        assert(ps[i2].effect is Forbid);
                    }
                }
            }
        }
        return ResourceAuthorizationResult::Deny;
    }
    ResourceAuthorizationResult::Residual(residuals)
}

} // verus!
