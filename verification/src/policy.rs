//! Policies: a permit/forbid effect, a scope triple of patterns over
//! (principal, action, resource), an optional condition, and string-keyed
//! annotations; the schema they are validated against; and scope matching.

use vstd::prelude::*;
use crate::entity::Entity;
use crate::entity::EntityId;
use crate::entity::EntityIdV;
use crate::entity::contains_id;
use crate::entity::reachable;
use crate::entity::is_descendant;
use crate::entity::vec_contains_id;
use crate::expr::Expr;
use crate::entity::Value;

verus! {

#[derive(Clone, Copy, Debug, PartialEq, Eq, Structural)]
pub enum Effect {
    Permit,
    Forbid,
}

/// A scope pattern over the principal or the resource: any entity, one
/// exact entity, or any member of a group.
#[derive(Debug, PartialEq, Eq)]
pub enum ScopePattern {
    Any,
    Exactly(EntityId),
    MemberOf(EntityId),
}

/// A scope pattern over the action: any action, one exact action, or one
/// of a listed set.
#[derive(Debug, PartialEq, Eq)]
pub enum ActionScope {
    AnyAction,
    Exactly(EntityId),
    OneOf(Vec<EntityId>),
}

/// A permit/forbid rule. The annotations are required to carry a stable
/// `id` key wherever the predicate compiler consumes the policy.
#[derive(Debug)]
pub struct Policy {
    pub effect: Effect,
    pub principal_scope: ScopePattern,
    pub action_scope: ActionScope,
    pub resource_scope: ScopePattern,
    pub condition: Option<Expr>,
    pub annotations: Vec<(String, String)>,
}

/// An unordered collection of policies, immutable once loaded.
#[derive(Debug)]
pub struct PolicySet {
    pub policies: Vec<Policy>,
}

/// Declared entity type names and action names; requests and policy
/// scopes are validated against it before any evaluation.
#[derive(Debug)]
pub struct Schema {
    pub entity_types: Vec<String>,
    pub actions: Vec<String>,
}

/// Does the pattern accept the entity with this id, under this store's
/// membership graph?
pub open spec fn pat_matches(store: Seq<Entity>, pat: ScopePattern, id: EntityIdV) -> bool {
    match pat {
        ScopePattern::Any => true,
        ScopePattern::Exactly(x) => id == x@,
        ScopePattern::MemberOf(g) => reachable(store, id, g@),
    }
}

/// Does the action scope accept this action id?
pub open spec fn action_matches(pat: ActionScope, id: EntityIdV) -> bool {
    match pat {
        ActionScope::AnyAction => true,
        ActionScope::Exactly(x) => id == x@,
        ActionScope::OneOf(v) => contains_id(v@, id),
    }
}

/// Decides `pat_matches`, traversing the membership graph for group
/// patterns.
pub fn match_pattern(store: &Vec<Entity>, pat: &ScopePattern, id: &EntityId) -> (r: bool)
    ensures
        r == pat_matches(store@, *pat, id@),
{
    match pat {
        ScopePattern::Any => true,
        ScopePattern::Exactly(x) => id.eq_id(x),
        ScopePattern::MemberOf(g) => is_descendant(store, id, g),
    }
}

/// Decides `action_matches`.
pub fn match_action(pat: &ActionScope, id: &EntityId) -> (r: bool)
    ensures
        r == action_matches(*pat, id@),
{
    match pat {
        ActionScope::AnyAction => true,
        ActionScope::Exactly(x) => id.eq_id(x),
        ActionScope::OneOf(v) => vec_contains_id(v, id),
    }
}

/// First-match lookup of an annotation by key.
pub open spec fn lookup_ann(anns: Seq<(String, String)>, key: Seq<char>) -> Option<Seq<char>>
    decreases anns.len(),
{
    if anns.len() == 0 {
        None
    } else if anns[0].0@ == key {
        Some(anns[0].1@)
    } else {
        lookup_ann(anns.drop_first(), key)
    }
}

pub proof fn lemma_lookup_ann_skip(anns: Seq<(String, String)>, key: Seq<char>, i: int)
    requires
        0 <= i <= anns.len(),
        forall|j: int| 0 <= j < i ==> anns[j].0@ != key,
    ensures
        lookup_ann(anns, key) == lookup_ann(anns.skip(i), key),
    decreases i,
{
    if i > 0 {
        assert(anns.drop_first() =~= anns.skip(1));
        lemma_lookup_ann_skip(anns.skip(1), key, i - 1);
        assert(anns.skip(1).skip(i - 1) =~= anns.skip(i));
    } else {
        assert(anns.skip(0) =~= anns);
    }
}

/// Looks an annotation up by key on a plain annotation list.
pub fn annotation_of(anns: &Vec<(String, String)>, key: &String) -> (r: Option<String>)
    ensures
        match r {
            Some(v) => lookup_ann(anns@, key@) == Some(v@),
            None => lookup_ann(anns@, key@) is None,
        },
{
    let mut i: usize = 0;
    while i < anns.len()
        invariant
            i <= anns.len(),
            forall|j: int| 0 <= j < i as int ==> anns@[j].0@ != key@,
        decreases anns.len() - i,
    {
        if anns[i].0 == *key {
            proof {
                lemma_lookup_ann_skip(anns@, key@, i as int);
                assert(anns@.skip(i as int)[0] == anns@[i as int]);
            }
            return Some(anns[i].1.clone());
        }
        i = i + 1;
    }
    proof {
        lemma_lookup_ann_skip(anns@, key@, anns@.len() as int);
        assert(anns@.skip(anns@.len() as int).len() == 0);
    }
    None
}

impl Policy {
    /// The value of an annotation, by key; the first entry with that key
    /// wins.
    pub fn annotation(&self, key: &String) -> (r: Option<String>)
        ensures
            match r {
                Some(v) => lookup_ann(self.annotations@, key@) == Some(v@),
                None => lookup_ann(self.annotations@, key@) is None,
            },
    {
        annotation_of(&self.annotations, key)
    }
}

/// Does the string list hold this text?
pub open spec fn contains_str(s: Seq<String>, x: Seq<char>) -> bool {
    exists|i: int| 0 <= i < s.len() && s[i]@ == x
}

pub fn contains_string(v: &Vec<String>, x: &String) -> (r: bool)
    ensures
        r == contains_str(v@, x@),
{
    let mut i: usize = 0;
    while i < v.len()
        invariant
            i <= v.len(),
            forall|j: int| 0 <= j < i as int ==> v@[j]@ != x@,
        decreases v.len() - i,
    {
        if v[i] == *x {
            return true;
        }
        i = i + 1;
    }
    false
}

impl Schema {
    /// Is this entity type declared?
    pub open spec fn declares_type(&self, ty: Seq<char>) -> bool {
        contains_str(self.entity_types@, ty)
    }

    /// Is this action name declared?
    pub open spec fn declares_action(&self, name: Seq<char>) -> bool {
        contains_str(self.actions@, name)
    }
}

/// Every entity type a scope pattern names must be declared.
pub open spec fn pat_wf(pat: ScopePattern, schema: Schema) -> bool {
    match pat {
        ScopePattern::Any => true,
        ScopePattern::Exactly(x) => schema.declares_type(x@.ty),
        ScopePattern::MemberOf(g) => schema.declares_type(g@.ty),
    }
}

/// Every action an action scope names must be declared.
pub open spec fn action_scope_wf(pat: ActionScope, schema: Schema) -> bool {
    match pat {
        ActionScope::AnyAction => true,
        ActionScope::Exactly(x) => schema.declares_action(x@.eid),
        ActionScope::OneOf(v) => forall|k: int|
            0 <= k < v@.len() ==> schema.declares_action((#[trigger] v@[k])@.eid),
    }
}

/// A policy is well-formed against the schema when every scope reference
/// is declared.
pub open spec fn policy_wf(p: Policy, schema: Schema) -> bool {
    pat_wf(p.principal_scope, schema) && action_scope_wf(p.action_scope, schema) && pat_wf(
        p.resource_scope,
        schema,
    )
}

fn pat_valid(pat: &ScopePattern, schema: &Schema) -> (r: bool)
    ensures
        r == pat_wf(*pat, *schema),
{
    match pat {
        ScopePattern::Any => true,
        ScopePattern::Exactly(x) => contains_string(&schema.entity_types, &x.ty),
        ScopePattern::MemberOf(g) => contains_string(&schema.entity_types, &g.ty),
    }
}

fn all_actions_declared(v: &Vec<EntityId>, schema: &Schema) -> (r: bool)
    ensures
        r == (forall|k: int|
            0 <= k < v@.len() ==> schema.declares_action((#[trigger] v@[k])@.eid)),
{
    let mut i: usize = 0;
    while i < v.len()
        invariant
            i <= v.len(),
            forall|k: int|
                0 <= k < i as int ==> schema.declares_action((#[trigger] v@[k])@.eid),
        decreases v.len() - i,
    {
        if !contains_string(&schema.actions, &v[i].eid) {
            return false;
        }
        i = i + 1;
    }
    true
}

fn action_scope_valid(pat: &ActionScope, schema: &Schema) -> (r: bool)
    ensures
        r == action_scope_wf(*pat, *schema),
{
    match pat {
        ActionScope::AnyAction => true,
        ActionScope::Exactly(x) => contains_string(&schema.actions, &x.eid),
        ActionScope::OneOf(v) => all_actions_declared(v, schema),
    }
}

/// Decides `policy_wf`.
pub fn policy_valid(p: &Policy, schema: &Schema) -> (r: bool)
    ensures
        r == policy_wf(*p, *schema),
{
    pat_valid(&p.principal_scope, schema) && action_scope_valid(&p.action_scope, schema)
        && pat_valid(&p.resource_scope, schema)
}

/// The policy's condition, with a missing condition read as `true`.
pub open spec fn cond_of(p: Policy) -> Expr {
    match p.condition {
        Option::Some(e) => e,
        Option::None => Expr::Lit(Value::Bool(true)),
    }
}

/// A fresh copy of an annotation list, entry for entry.
pub fn duplicate_annotations(anns: &Vec<(String, String)>) -> (r: Vec<(String, String)>)
    ensures
        r@.len() == anns@.len(),
        forall|k: int|
            0 <= k < anns@.len() ==> (#[trigger] r@[k]).0@ == anns@[k].0@ && r@[k].1@
                == anns@[k].1@,
{
    let mut out: Vec<(String, String)> = Vec::new();
    let mut i: usize = 0;
    while i < anns.len()
        invariant
            i <= anns.len(),
            out@.len() == i as int,
            forall|k: int|
                0 <= k < i as int ==> (#[trigger] out@[k]).0@ == anns@[k].0@ && out@[k].1@
                    == anns@[k].1@,
        decreases anns.len() - i,
    {
        out.push((anns[i].0.clone(), anns[i].1.clone()));
        i = i + 1;
    }
    out
}

} // verus!
