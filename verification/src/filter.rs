//! The predicate compiler: turns a decision into a row-level filter
//! specification. A registry maps policy annotation ids to named query
//! parameters; the compiled filter is the disjunction of the activated
//! parameters, each bound to the principal id. A residual policy whose id
//! is not registered is configuration drift: it contributes nothing (the
//! compiler fails closed) and is reported on the error channel.

use vstd::prelude::*;
use crate::evaluator::ResidualPolicy;
use crate::evaluator::ResourceAuthorizationResult;
use crate::policy::lookup_ann;
use vstd::string::StringExecFns;

verus! {

/// One registry row: which query parameter a policy id activates, and the
/// query fragment that parameter controls.
#[derive(Debug)]
pub struct RegistryEntry {
    pub policy_id: String,
    pub param: String,
    pub fragment: String,
}

/// The static mapping from policy annotation ids to named query
/// parameters; an explicit, checked artifact kept in sync with the policy
/// source.
#[derive(Debug)]
pub struct Registry {
    pub entries: Vec<RegistryEntry>,
}

/// A named query parameter, activated and bound to a value.
#[derive(Debug, PartialEq, Eq)]
pub struct ActiveParam {
    pub name: String,
    pub bound_value: String,
}

/// The row filter handed to the storage collaborator: allow everything,
/// deny everything, or include any row satisfying one of the activated
/// parameters.
#[derive(Debug, PartialEq, Eq)]
pub struct FilterSpec {
    pub always_allow: bool,
    pub always_deny: bool,
    pub active_params: Vec<ActiveParam>,
}

/// Configuration drift found while compiling: a residual policy id with
/// no registry entry, or a residual policy without an id annotation.
#[derive(Debug, PartialEq, Eq)]
pub enum MappingError {
    UnregisteredPolicyId(String),
    MissingIdAnnotation,
}

/// First-match registry lookup: the parameter name a policy id activates.
pub open spec fn reg_lookup(entries: Seq<RegistryEntry>, id: Seq<char>) -> Option<Seq<char>>
    decreases entries.len(),
{
    if entries.len() == 0 {
        None
    } else if entries[0].policy_id@ == id {
        Some(entries[0].param@)
    } else {
        reg_lookup(entries.drop_first(), id)
    }
}

proof fn lemma_reg_lookup_skip(entries: Seq<RegistryEntry>, id: Seq<char>, i: int)
    requires
        0 <= i <= entries.len(),
        forall|j: int| 0 <= j < i ==> entries[j].policy_id@ != id,
    ensures
        reg_lookup(entries, id) == reg_lookup(entries.skip(i), id),
    decreases i,
{
    if i > 0 {
        assert(entries.drop_first() =~= entries.skip(1));
        lemma_reg_lookup_skip(entries.skip(1), id, i - 1);
        assert(entries.skip(1).skip(i - 1) =~= entries.skip(i));
    } else {
        assert(entries.skip(0) =~= entries);
    }
}

impl Registry {
    /// Decides `reg_lookup`, handing back the parameter name.
    pub fn lookup(&self, id: &String) -> (r: Option<String>)
        ensures
            match r {
                Some(p) => reg_lookup(self.entries@, id@) == Some(p@),
                None => reg_lookup(self.entries@, id@) is None,
            },
    {
        let mut i: usize = 0;
        while i < self.entries.len()
            invariant
                i <= self.entries.len(),
                forall|j: int| 0 <= j < i as int ==> self.entries@[j].policy_id@ != id@,
            decreases self.entries.len() - i,
        {
            if self.entries[i].policy_id == *id {
                proof {
                    lemma_reg_lookup_skip(self.entries@, id@, i as int);
                    assert(self.entries@.skip(i as int)[0] == self.entries@[i as int]);
                }
                return Some(self.entries[i].param.clone());
            }
            i = i + 1;
        }
        proof {
            lemma_reg_lookup_skip(self.entries@, id@, self.entries@.len() as int);
            assert(self.entries@.skip(self.entries@.len() as int).len() == 0);
        }
        None
    }
}

/// The `id` annotation of a residual policy.
pub open spec fn residual_id(rp: ResidualPolicy) -> Option<Seq<char>> {
    lookup_ann(rp.annotations@, "id"@)
}

/// The parameters a residual list activates, in order: one per residual
/// policy whose id is registered, each bound to the principal id.
pub open spec fn params_of(
    rs: Seq<ResidualPolicy>,
    reg: Seq<RegistryEntry>,
    pid: Seq<char>,
) -> Seq<(Seq<char>, Seq<char>)>
    decreases rs.len(),
{
    if rs.len() == 0 {
        Seq::empty()
    } else {
        let pre = params_of(rs.drop_last(), reg, pid);
        match residual_id(rs.last()) {
            Some(id) => match reg_lookup(reg, id) {
                Some(param) => pre.push((param, pid)),
                None => pre,
            },
            None => pre,
        }
    }
}

/// The drift a residual list shows against the registry, in order: the
/// unregistered ids, and a marker for each policy without an id.
pub open spec fn drift_of(rs: Seq<ResidualPolicy>, reg: Seq<RegistryEntry>) -> Seq<
    Option<Seq<char>>,
>
    decreases rs.len(),
{
    if rs.len() == 0 {
        Seq::empty()
    } else {
        let pre = drift_of(rs.drop_last(), reg);
        match residual_id(rs.last()) {
            Some(id) => match reg_lookup(reg, id) {
                Some(param) => pre,
                None => pre.push(Some(id)),
            },
            None => pre.push(None),
        }
    }
}

/// What a mapping error reports: the unregistered id, or nothing for a
/// missing annotation.
pub open spec fn merr_view(e: MappingError) -> Option<Seq<char>> {
    match e {
        MappingError::UnregisteredPolicyId(id) => Some(id@),
        MappingError::MissingIdAnnotation => None,
    }
}

/// The views of an active parameter list.
pub open spec fn param_views(v: Seq<ActiveParam>) -> Seq<(Seq<char>, Seq<char>)> {
    v.map_values(|p: ActiveParam| (p.name@, p.bound_value@))
}

/// Maps a decision to a row filter: Allow places no restriction, Deny
/// selects nothing, and a residual set activates the registered parameter
/// of each of its policies, bound to the principal id, combined as a
/// disjunction. Drift is reported, never silently widened.
pub fn compile(
    decision: &ResourceAuthorizationResult,
    principal_id: &String,
    registry: &Registry,
) -> (out: (FilterSpec, Vec<MappingError>))
    ensures
        match decision {
            ResourceAuthorizationResult::Allow => out.0.always_allow && !out.0.always_deny
                && out.0.active_params@.len() == 0 && out.1@.len() == 0,
            ResourceAuthorizationResult::Deny => !out.0.always_allow && out.0.always_deny
                && out.0.active_params@.len() == 0 && out.1@.len() == 0,
            ResourceAuthorizationResult::Residual(rs) => !out.0.always_allow
                && !out.0.always_deny && param_views(out.0.active_params@) == params_of(
                rs@,
                registry.entries@,
                principal_id@,
            ) && out.1@.map_values(|e: MappingError| merr_view(e)) == drift_of(
                rs@,
                registry.entries@,
            ),
        },
{
    match decision {
        ResourceAuthorizationResult::Allow => (
            FilterSpec { always_allow: true, always_deny: false, active_params: Vec::new() },
            Vec::new(),
        ),
        ResourceAuthorizationResult::Deny => (
            FilterSpec { always_allow: false, always_deny: true, active_params: Vec::new() },
            Vec::new(),
        ),
        ResourceAuthorizationResult::Residual(rs) => {
            let id_key = String::from_str("id");
            let mut active: Vec<ActiveParam> = Vec::new();
            let mut errors: Vec<MappingError> = Vec::new();
            let mut i: usize = 0;
            while i < rs.len()
                invariant
                    i <= rs@.len(),
                    id_key@ == "id"@,
                    param_views(active@) == params_of(
                        rs@.take(i as int),
                        registry.entries@,
                        principal_id@,
                    ),
                    errors@.map_values(|e: MappingError| merr_view(e)) == drift_of(
                        rs@.take(i as int),
                        registry.entries@,
                    ),
                decreases rs@.len() - i,
            {
                proof {
                    assert(rs@.take(i as int + 1).drop_last() =~= rs@.take(i as int));
                    assert(rs@.take(i as int + 1).last() == rs@[i as int]);
                }
                let ghost old_active = active@;
                let ghost old_errors = errors@;
                match rs[i].annotation(&id_key) {
                    Some(id) => match registry.lookup(&id) {
                        Some(param) => {
                            active.push(
                                ActiveParam { name: param, bound_value: principal_id.clone() },
                            );
                            proof {
                                assert(param_views(active@) =~= param_views(old_active).push(
                                    (active@.last().name@, active@.last().bound_value@),
                                ));
                            }
                        },
                        None => {
                            errors.push(MappingError::UnregisteredPolicyId(id));
                            proof {
                                assert(errors@.map_values(|e: MappingError| merr_view(e)) =~=
                                    old_errors.map_values(|e: MappingError| merr_view(e)).push(
                                    merr_view(errors@.last()),
                                ));
                            }
                        },
                    },
                    None => {
                        errors.push(MappingError::MissingIdAnnotation);
                        proof {
                            assert(errors@.map_values(|e: MappingError| merr_view(e)) =~=
                                old_errors.map_values(|e: MappingError| merr_view(e)).push(
                                merr_view(errors@.last()),
                            ));
                        }
                    },
                }
                i = i + 1;
            }
            proof {
                assert(rs@.take(rs@.len() as int) =~= rs@);
            }
            (
                FilterSpec { always_allow: false, always_deny: false, active_params: active },
                errors,
            )
        },
    }
}

/// Does the compiled filter include a row? `truth` says, for each
/// parameter name, whether the row satisfies that parameter's fragment.
pub open spec fn row_selected(
    params: Seq<(Seq<char>, Seq<char>)>,
    truth: Map<Seq<char>, bool>,
) -> bool {
    exists|i: int| 0 <= i < params.len() && truth[(#[trigger] params[i]).0] == true
}

pub open spec fn row_included(f: FilterSpec, truth: Map<Seq<char>, bool>) -> bool {
    f.always_allow || (!f.always_deny && row_selected(param_views(f.active_params@), truth))
}

/// Predicate monotonicity: adding a residual policy can only enlarge or
/// preserve the set of rows the compiled filter selects, never shrink it.
pub proof fn lemma_predicate_monotonic(
    rs: Seq<ResidualPolicy>,
    extra: ResidualPolicy,
    reg: Seq<RegistryEntry>,
    pid: Seq<char>,
    truth: Map<Seq<char>, bool>,
)
    ensures
        row_selected(params_of(rs, reg, pid), truth) ==> row_selected(
            params_of(rs.push(extra), reg, pid),
            truth,
        ),
{
    assert(rs.push(extra).drop_last() =~= rs);
    assert(rs.push(extra).last() == extra);
    if row_selected(params_of(rs, reg, pid), truth) {
        let i = choose|i: int|
            0 <= i < params_of(rs, reg, pid).len() && truth[(#[trigger] params_of(
                rs,
                reg,
                pid,
            )[i]).0] == true;
        assert(params_of(rs.push(extra), reg, pid)[i] == params_of(rs, reg, pid)[i]);
    }
}

/// Every policy in the set that carries an id annotation has a registry
/// entry: the startup check against configuration drift.
pub fn registry_covers(registry: &Registry, policies: &crate::policy::PolicySet) -> (r: bool)
    ensures
        r == (forall|i: int|
            0 <= i < policies.policies@.len() ==> match lookup_ann(
                (#[trigger] policies.policies@[i]).annotations@,
                "id"@,
            ) {
                Some(id) => reg_lookup(registry.entries@, id) is Some,
                None => true,
            }),
{
    let id_key = String::from_str("id");
    let mut i: usize = 0;
    while i < policies.policies.len()
        invariant
            i <= policies.policies@.len(),
            id_key@ == "id"@,
            forall|j: int|
                0 <= j < i as int ==> match lookup_ann(
                    (#[trigger] policies.policies@[j]).annotations@,
                    "id"@,
                ) {
                    Some(id) => reg_lookup(registry.entries@, id) is Some,
                    None => true,
                },
        decreases policies.policies@.len() - i,
    {
        match policies.policies[i].annotation(&id_key) {
            Some(id) => {
                if registry.lookup(&id).is_none() {
                    return false;
                }
            },
            None => {},
        }
        i = i + 1;
    }
    true
}

} // verus!
