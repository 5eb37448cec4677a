//! The combination laws of the evaluators, stated and proved once and for
//! all: deny-overrides, default-deny, the transitive role grant, and that
//! partial evaluation agrees with full evaluation once the resource is
//! supplied.

use vstd::prelude::*;
use crate::entity::Entity;
use crate::entity::EntityIdV;
use crate::entity::ValueV;
use crate::entity::has_edge;
use crate::entity::lemma_reachable_refl;
use crate::entity::lemma_reachable_step;
use crate::entity::reachable;
use crate::evaluator::ResourceAuthorizationResult;
use crate::evaluator::cand_idxs;
use crate::evaluator::cond_out;
use crate::evaluator::decide_allows;
use crate::evaluator::full_selected;
use crate::evaluator::is_cand;
use crate::evaluator::is_perr;
use crate::evaluator::is_ptrue;
use crate::evaluator::lemma_cand_idxs_bounds;
use crate::evaluator::ok_bool;
use crate::evaluator::partial_result_matches;
use crate::evaluator::partial_selected;
use crate::evaluator::residual_entry_ok;
use crate::evaluator::residuals_ok;
use crate::evaluator::some_cand;
use crate::evaluator::some_forbid_cand;
use crate::evaluator::some_forbid_true;
use crate::evaluator::some_permit_true;
use crate::evaluator::some_perr;
use crate::expr::Bindings;
use crate::expr::POut;
use crate::expr::is_truev;
use crate::expr::lemma_peval_persists;
use crate::expr::peval;
use crate::expr::with_resource;
use crate::policy::Policy;
use crate::policy::ScopePattern;
use crate::policy::action_matches;
use crate::policy::cond_of;
use crate::policy::pat_matches;

verus! {

/// Deny-overrides: a request matched by an unconditional Permit and an
/// unconditional Forbid is denied — the Permit never wins.
pub proof fn lemma_deny_overrides(
    ps: Seq<Policy>,
    store: Seq<Entity>,
    action: EntityIdV,
    b: Bindings,
    i: int,
    j: int,
)
    requires
        b.resource is Some,
        0 <= i < ps.len(),
        ps[i].effect is Permit,
        ps[i].condition is None,
        full_selected(ps[i], store, b.principal.uid@, action, b.resource.unwrap().uid@),
        0 <= j < ps.len(),
        ps[j].effect is Forbid,
        ps[j].condition is None,
        full_selected(ps[j], store, b.principal.uid@, action, b.resource.unwrap().uid@),
    ensures
        !decide_allows(ps, store, action, b),
{
    assert(cond_out(ps[j], b) == POut::Val(ValueV::Bool(true)));
    assert(is_truev(cond_out(ps[j], b)));
}

/// Default-deny, full evaluation: the empty policy set allows nothing.
pub proof fn lemma_default_deny_full(store: Seq<Entity>, action: EntityIdV, b: Bindings)
    ensures
        !decide_allows(Seq::<Policy>::empty(), store, action, b),
{
}

/// Default-deny, partial evaluation: against the empty policy set, the
/// only decision the contract admits is Deny.
pub proof fn lemma_default_deny_partial(
    r: ResourceAuthorizationResult,
    store: Seq<Entity>,
    action: EntityIdV,
    b: Bindings,
)
    requires
        partial_result_matches(r, Seq::<Policy>::empty(), store, b, action),
    ensures
        r is Deny,
{
}

/// Transitive role grant: a principal that is a member of a role which is
/// itself a member of group `g` (a two-hop membership chain) is granted
/// access by a Permit scoped to `g`, provided no selected policy
/// misevaluates and no selected Forbid holds.
pub proof fn lemma_transitive_role_grant(
    ps: Seq<Policy>,
    store: Seq<Entity>,
    action: EntityIdV,
    b: Bindings,
    role: EntityIdV,
    g: EntityIdV,
    i: int,
)
    requires
        b.resource is Some,
        has_edge(store, b.principal.uid@, role),
        has_edge(store, role, g),
        0 <= i < ps.len(),
        ps[i].effect is Permit,
        ps[i].condition is None,
        ps[i].principal_scope matches ScopePattern::MemberOf(gid) && gid@ == g,
        action_matches(ps[i].action_scope, action),
        pat_matches(store, ps[i].resource_scope, b.resource.unwrap().uid@),
        forall|j: int|
            0 <= j < ps.len() && full_selected(
                #[trigger] ps[j],
                store,
                b.principal.uid@,
                action,
                b.resource.unwrap().uid@,
            ) ==> ok_bool(cond_out(ps[j], b)),
        forall|j: int|
            0 <= j < ps.len() && full_selected(
                #[trigger] ps[j],
                store,
                b.principal.uid@,
                action,
                b.resource.unwrap().uid@,
            ) && ps[j].effect is Forbid ==> !is_truev(cond_out(ps[j], b)),
    ensures
        decide_allows(ps, store, action, b),
{
    lemma_reachable_refl(store, b.principal.uid@);
    lemma_reachable_step(store, b.principal.uid@, b.principal.uid@, role);
    lemma_reachable_step(store, b.principal.uid@, role, g);
    assert(pat_matches(store, ps[i].principal_scope, b.principal.uid@));
    assert(cond_out(ps[i], b) == POut::Val(ValueV::Bool(true)));
    assert(full_selected(ps[i], store, b.principal.uid@, action, b.resource.unwrap().uid@)
        && ps[i].effect is Permit && is_truev(cond_out(ps[i], b)));
}

/// Every Permit residual candidate has its index in the candidate list.
proof fn lemma_cand_idxs_complete(
    ps: Seq<Policy>,
    store: Seq<Entity>,
    b: Bindings,
    action: EntityIdV,
    i: int,
)
    requires
        0 <= i < ps.len(),
        ps[i].effect is Permit,
        is_cand(ps[i], store, b, action),
    ensures
        exists|k: int|
            0 <= k < cand_idxs(ps, store, b, action).len() && cand_idxs(ps, store, b, action)[k]
                == i,
    decreases ps.len(),
{
    let idxs = cand_idxs(ps, store, b, action);
    if i == ps.len() - 1 {
        assert(idxs[idxs.len() - 1] == i);
    } else {
        assert(ps.drop_last()[i] == ps[i]);
        lemma_cand_idxs_complete(ps.drop_last(), store, b, action, i);
        let pre = cand_idxs(ps.drop_last(), store, b, action);
        let k = choose|k: int| 0 <= k < pre.len() && pre[k] == i;
        if ps.last().effect is Permit && is_cand(ps.last(), store, b, action) {
            assert(idxs[k] == pre[k]);
        } else {
            assert(idxs[k] == pre[k]);
        }
    }
}

/// Partial evaluation generalizes full evaluation: when every resource
/// scope is unconstrained, no Forbid stays unresolved, and no residual
/// condition misevaluates once the resource is supplied, then resolving
/// the partial decision against the concrete resource gives exactly the
/// full decision — Allow stays allowed, Deny stays denied, and a residual
/// set allows precisely when one of its reduced conditions comes out
/// true.
pub proof fn lemma_partial_equals_full(
    r: ResourceAuthorizationResult,
    ps: Seq<Policy>,
    store: Seq<Entity>,
    pb: Bindings,
    res: Entity,
    action: EntityIdV,
)
    requires
        pb.resource is None,
        partial_result_matches(r, ps, store, pb, action),
        forall|i: int| 0 <= i < ps.len() ==> (#[trigger] ps[i]).resource_scope is Any,
        !some_forbid_cand(ps, store, pb, action),
        forall|i: int|
            0 <= i < ps.len() && is_cand(#[trigger] ps[i], store, pb, action) ==> ok_bool(
                cond_out(ps[i], with_resource(pb, res)),
            ),
    ensures
        decide_allows(ps, store, action, with_resource(pb, res)) == match r {
            ResourceAuthorizationResult::Allow => true,
            ResourceAuthorizationResult::Deny => false,
            ResourceAuthorizationResult::Residual(rs) => exists|k: int|
                0 <= k < rs@.len() && peval(
                    (#[trigger] rs@[k]).condition,
                    with_resource(pb, res),
                ) == POut::Val(ValueV::Bool(true)),
        },
{
    let fb = with_resource(pb, res);
    let principal = pb.principal.uid@;
    let resource = res.uid@;
    assert(fb.principal == pb.principal);
    assert(fb.resource.unwrap() == res);
    // With every resource scope unconstrained, full and partial selection
    // agree.
    assert forall|i: int| 0 <= i < ps.len() implies full_selected(
        #[trigger] ps[i],
        store,
        principal,
        action,
        resource,
    ) == partial_selected(ps[i], store, principal, action) by {
        assert(pat_matches(store, ps[i].resource_scope, resource));
    }
    // A condition that resolved without the resource keeps its value.
    assert forall|i: int|
        0 <= i < ps.len() && !(cond_out(#[trigger] ps[i], pb) is Open) implies cond_out(ps[i], fb)
        == cond_out(ps[i], pb) by {
        lemma_peval_persists(cond_of(ps[i]), pb, res);
    }
    let deny_now = some_perr(ps, store, pb, action) || some_forbid_true(ps, store, pb, action);
    let allow_now = !deny_now && some_permit_true(ps, store, pb, action) && !some_forbid_cand(
        ps,
        store,
        pb,
        action,
    );
    if some_perr(ps, store, pb, action) {
        let i = choose|i: int| 0 <= i < ps.len() && is_perr(#[trigger] ps[i], store, pb, action);
        assert(!ok_bool(cond_out(ps[i], fb)));
        assert(!decide_allows(ps, store, action, fb));
    } else if some_forbid_true(ps, store, pb, action) {
        let i = choose|i: int|
            0 <= i < ps.len() && (#[trigger] ps[i]).effect is Forbid && is_ptrue(
                ps[i],
                store,
                pb,
                action,
            );
        assert(is_truev(cond_out(ps[i], fb)));
        assert(!decide_allows(ps, store, action, fb));
    } else {
        // No resolved failure and no resolved Forbid: the three conjuncts
        // of the full decision reduce to whether some Permit holds.
        assert forall|i: int|
            0 <= i < ps.len() && full_selected(
                #[trigger] ps[i],
                store,
                principal,
                action,
                resource,
            ) implies ok_bool(cond_out(ps[i], fb)) by {
            if cond_out(ps[i], pb) is Open {
                assert(is_cand(ps[i], store, pb, action));
            } else {
                if !ok_bool(cond_out(ps[i], pb)) {
                    assert(is_perr(ps[i], store, pb, action));
                }
            }
        }
        assert forall|i: int|
            0 <= i < ps.len() && full_selected(
                #[trigger] ps[i],
                store,
                principal,
                action,
                resource,
            ) && ps[i].effect is Forbid implies !is_truev(cond_out(ps[i], fb)) by {
            if cond_out(ps[i], pb) is Open {
                assert(is_cand(ps[i], store, pb, action));
                assert(some_forbid_cand(ps, store, pb, action));
            } else {
                if is_truev(cond_out(ps[i], pb)) {
                    assert(is_ptrue(ps[i], store, pb, action));
                    assert(some_forbid_true(ps, store, pb, action));
                }
            }
        }
        match r {
            ResourceAuthorizationResult::Allow => {
                let i = choose|i: int|
                    0 <= i < ps.len() && (#[trigger] ps[i]).effect is Permit && is_ptrue(
                        ps[i],
                        store,
                        pb,
                        action,
                    );
                assert(is_truev(cond_out(ps[i], fb)));
                assert(decide_allows(ps, store, action, fb));
            },
            ResourceAuthorizationResult::Deny => {
                // Step-five deny: nothing was left undetermined and no
                // Permit resolved to true.
                assert(!allow_now && !some_cand(ps, store, pb, action));
                assert(!some_permit_true(ps, store, pb, action));
                if decide_allows(ps, store, action, fb) {
                    let i = choose|i: int|
                        0 <= i < ps.len() && full_selected(
                            #[trigger] ps[i],
                            store,
                            principal,
                            action,
                            resource,
                        ) && ps[i].effect is Permit && is_truev(cond_out(ps[i], fb));
                    if cond_out(ps[i], pb) is Open {
                        assert(is_cand(ps[i], store, pb, action));
                        assert(some_cand(ps, store, pb, action));
                    } else {
                        assert(is_ptrue(ps[i], store, pb, action));
                        assert(some_permit_true(ps, store, pb, action));
                    }
                }
            },
            ResourceAuthorizationResult::Residual(rs) => {
                assert(!allow_now && some_cand(ps, store, pb, action) && residuals_ok(
                    rs@,
                    ps,
                    store,
                    pb,
                    action,
                ));
                assert(!some_permit_true(ps, store, pb, action));
                let idxs = cand_idxs(ps, store, pb, action);
                lemma_cand_idxs_bounds(ps, store, pb, action);
                if exists|k: int|
                    0 <= k < rs@.len() && peval((#[trigger] rs@[k]).condition, fb) == POut::Val(
                        ValueV::Bool(true),
                    ) {
                    let k = choose|k: int|
                        0 <= k < rs@.len() && peval((#[trigger] rs@[k]).condition, fb)
                            == POut::Val(ValueV::Bool(true));
                    assert(residual_entry_ok(rs@[k], ps[idxs[k]], pb));
                    let i = idxs[k];
                    assert(peval(rs@[k].condition, fb) == peval(cond_of(ps[i]), fb));
                    assert(is_truev(cond_out(ps[i], fb)));
                    assert(full_selected(ps[i], store, principal, action, resource)
                        && ps[i].effect is Permit && is_truev(cond_out(ps[i], fb)));
                    assert(decide_allows(ps, store, action, fb));
                } else {
                    if decide_allows(ps, store, action, fb) {
                        let i = choose|i: int|
                            0 <= i < ps.len() && full_selected(
                                #[trigger] ps[i],
                                store,
                                principal,
                                action,
                                resource,
                            ) && ps[i].effect is Permit && is_truev(cond_out(ps[i], fb));
                        if cond_out(ps[i], pb) is Open {
                            assert(is_cand(ps[i], store, pb, action));
                            lemma_cand_idxs_complete(ps, store, pb, action, i);
                            let k = choose|k: int| 0 <= k < idxs.len() && idxs[k] == i;
                            assert(residual_entry_ok(rs@[k], ps[i], pb));
                            assert(peval(rs@[k].condition, fb) == peval(cond_of(ps[i]), fb));
                            assert(peval(rs@[k].condition, fb) == POut::Val(ValueV::Bool(true)));
                            assert(false);
                        } else {
                            assert(is_ptrue(ps[i], store, pb, action));
                            assert(some_permit_true(ps, store, pb, action));
                            assert(false);
                        }
                    }
                }
            },
        }
    }
}

} // verus!
