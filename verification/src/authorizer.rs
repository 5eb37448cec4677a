//! The policy repository and the authorization entry points: an immutable,
//! schema-validated policy snapshot, a single-resource decision, and the
//! partial decision used before a bulk listing.

use vstd::prelude::*;
use vstd::string::StringExecFns;
use crate::entity::Entity;
use crate::entity::EntityId;
use crate::evaluator::ResourceAuthorizationResult;
use crate::evaluator::decide;
use crate::evaluator::decide_allows;
use crate::evaluator::decide_partial;
use crate::evaluator::partial_result_matches;
use crate::expr::Bindings;
use crate::policy::Policy;
use crate::policy::PolicySet;
use crate::policy::Schema;
use crate::policy::contains_string;
use crate::policy::policy_valid;
use crate::policy::policy_wf;
use crate::token::SchemaViolationError;
use crate::token::TokenClaims;
use crate::token::TokenError;
use crate::token::claims_store_of;
use crate::token::is_principal_of;

verus! {

/// Why a request could not be decided: it failed schema validation, or
/// its claims could not be turned into entities.
#[derive(Clone, Copy, Debug, PartialEq, Eq, Structural)]
pub enum AuthorizerError {
    RequestValidationError(SchemaViolationError),
    TokenError(TokenError),
}

/// Every policy in the set refers only to declared types and actions.
pub open spec fn set_wf(ps: Seq<Policy>, schema: Schema) -> bool {
    forall|i: int| 0 <= i < ps.len() ==> policy_wf(#[trigger] ps[i], schema)
}

/// The schema declares everything a concrete request touches.
pub open spec fn full_request_wf(schema: Schema, action: EntityId, resource: Entity) -> bool {
    &&& schema.declares_action(action@.eid)
    &&& schema.declares_type(resource.uid@.ty)
    &&& schema.declares_type("User"@)
    &&& schema.declares_type("Role"@)
}

/// The schema declares everything a resource-less request touches.
pub open spec fn partial_request_wf(schema: Schema, action: EntityId) -> bool {
    &&& schema.declares_action(action@.eid)
    &&& schema.declares_type("User"@)
    &&& schema.declares_type("Role"@)
}

/// The store and bindings a concrete evaluation runs against: the claim
/// entities, then the resource; the principal bound, the resource bound,
/// an empty context.
pub open spec fn full_eval_setup(
    store: Seq<Entity>,
    bb: Bindings,
    claims: TokenClaims,
    resource: Entity,
) -> bool {
    &&& store.len() >= 1
    &&& claims_store_of(store.drop_last(), claims)
    &&& store.last()@ == resource@
    &&& is_principal_of(bb.principal, claims.id as int, claims.roles@)
    &&& bb.resource is Some
    &&& bb.resource.unwrap()@ == resource@
    &&& bb.context@.len() == 0
}

/// The store and bindings a partial evaluation runs against: the claim
/// entities alone; the principal bound, no resource, an empty context.
pub open spec fn partial_eval_setup(store: Seq<Entity>, bb: Bindings, claims: TokenClaims) -> bool {
    &&& claims_store_of(store, claims)
    &&& is_principal_of(bb.principal, claims.id as int, claims.roles@)
    &&& bb.resource is None
    &&& bb.context@.len() == 0
}

/// The immutable snapshot every evaluation reads: a schema-validated
/// policy set. Built once at startup, never mutated.
#[derive(Debug)]
pub struct Permission {
    pub policies: PolicySet,
    pub schema: Schema,
}

impl Permission {
    /// Loads the repository: validates every policy against the schema.
    /// Any violation is fatal, so that no request is ever evaluated
    /// against an unvalidated set.
    pub fn new(policies: PolicySet, schema: Schema) -> (r: Result<Permission, AuthorizerError>)
        ensures
            match r {
                Ok(perm) => perm.policies == policies && perm.schema == schema && set_wf(
                    policies.policies@,
                    schema,
                ),
                Err(e) => !set_wf(policies.policies@, schema) && e is RequestValidationError,
            },
    {
        let mut i: usize = 0;
        while i < policies.policies.len()
            invariant
                i <= policies.policies@.len(),
                forall|j: int|
                    0 <= j < i as int ==> policy_wf(#[trigger] policies.policies@[j], schema),
            decreases policies.policies@.len() - i,
        {
            if !policy_valid(&policies.policies[i], &schema) {
                return Err(
                    AuthorizerError::RequestValidationError(
                        SchemaViolationError::UndeclaredEntityType,
                    ),
                );
            }
            i = i + 1;
        }
        Ok(Permission { policies, schema })
    }

    fn check_claim_types(&self) -> (r: bool)
        ensures
            r == (self.schema.declares_type("User"@) && self.schema.declares_type("Role"@)),
    {
        let user_ok = contains_string(&self.schema.entity_types, &String::from_str("User"));
        let role_ok = contains_string(&self.schema.entity_types, &String::from_str("Role"));
        user_ok && role_ok
    }

    /// Decides one concrete resource access: schema validation, then full
    /// evaluation, deny-overrides and default-deny.
    pub fn is_authorized(
        &self,
        token_claims: &TokenClaims,
        action: &EntityId,
        resource: &Entity,
    ) -> (r: Result<bool, AuthorizerError>)
        ensures
            match r {
                Ok(allow) => full_request_wf(self.schema, *action, *resource) && (forall|k: int|
                    0 <= k < token_claims.roles@.len() ==> (#[trigger] token_claims.roles@[k])@.len()
                        > 0) && (exists|store: Seq<Entity>, bb: Bindings|
                    full_eval_setup(store, bb, *token_claims, *resource) && allow == decide_allows(
                        self.policies.policies@,
                        store,
                        action@,
                        bb,
                    )),
                Err(e) => match e {
                    AuthorizerError::RequestValidationError(_) => !full_request_wf(
                        self.schema,
                        *action,
                        *resource,
                    ),
                    AuthorizerError::TokenError(_) => full_request_wf(
                        self.schema,
                        *action,
                        *resource,
                    ) && (exists|k: int|
                        0 <= k < token_claims.roles@.len() && (
                        #[trigger] token_claims.roles@[k])@.len() == 0),
                },
            },
    {
        if !contains_string(&self.schema.actions, &action.eid) {
            return Err(
                AuthorizerError::RequestValidationError(SchemaViolationError::UndeclaredAction),
            );
        }
        if !contains_string(&self.schema.entity_types, &resource.uid.ty) {
            return Err(
                AuthorizerError::RequestValidationError(SchemaViolationError::UndeclaredEntityType),
            );
        }
        if !self.check_claim_types() {
            return Err(
                AuthorizerError::RequestValidationError(SchemaViolationError::UndeclaredEntityType),
            );
        }
        let mut store = match token_claims.entities(None) {
            Ok(es) => es,
            Err(e) => {
                return Err(AuthorizerError::TokenError(e));
            },
        };
        let principal = store[store.len() - 1].duplicate();
        proof {
            crate::token::lemma_principal_view(
                store@.last(),
                principal,
                token_claims.id as int,
                token_claims.roles@,
            );
        }
        let ghost claim_store = store@;
        store.push(resource.duplicate());
        let b = Bindings {
            principal,
            resource: Some(resource.duplicate()),
            context: Vec::new(),
        };
        let allow = decide(&self.policies, &store, action, &b);
        proof {
            assert(store@.drop_last() =~= claim_store);
            assert(full_eval_setup(store@, b, *token_claims, *resource));
        }
        Ok(allow)
    }

    /// Decides a bulk-listing request before the rows are known: schema
    /// validation, then partial evaluation.
    pub fn get_policies(
        &self,
        token_claims: &TokenClaims,
        action: &EntityId,
    ) -> (r: Result<ResourceAuthorizationResult, AuthorizerError>)
        ensures
            match r {
                Ok(res) => partial_request_wf(self.schema, *action) && (forall|k: int|
                    0 <= k < token_claims.roles@.len() ==> (#[trigger] token_claims.roles@[k])@.len()
                        > 0) && (exists|store: Seq<Entity>, bb: Bindings|
                    partial_eval_setup(store, bb, *token_claims) && partial_result_matches(
                        res,
                        self.policies.policies@,
                        store,
                        bb,
                        action@,
                    )),
                Err(e) => match e {
                    AuthorizerError::RequestValidationError(_) => !partial_request_wf(
                        self.schema,
                        *action,
                    ),
                    AuthorizerError::TokenError(_) => partial_request_wf(self.schema, *action) && (
                    exists|k: int|
                        0 <= k < token_claims.roles@.len() && (
                        #[trigger] token_claims.roles@[k])@.len() == 0),
                },
            },
    {
        if !contains_string(&self.schema.actions, &action.eid) {
            return Err(
                AuthorizerError::RequestValidationError(SchemaViolationError::UndeclaredAction),
            );
        }
        if !self.check_claim_types() {
            return Err(
                AuthorizerError::RequestValidationError(SchemaViolationError::UndeclaredEntityType),
            );
        }
        let store = match token_claims.entities(None) {
            Ok(es) => es,
            Err(e) => {
                return Err(AuthorizerError::TokenError(e));
            },
        };
        let principal = store[store.len() - 1].duplicate();
        proof {
            crate::token::lemma_principal_view(
                store@.last(),
                principal,
                token_claims.id as int,
                token_claims.roles@,
            );
        }
        let b = Bindings { principal, resource: None, context: Vec::new() };
        let res = decide_partial(&self.policies, &store, action, &b);
        proof {
            assert(partial_eval_setup(store@, b, *token_claims));
        }
        Ok(res)
    }
}

} // verus!
