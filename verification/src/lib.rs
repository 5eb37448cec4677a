//! Attribute-based access control with partial evaluation.
//!
//! A principal (a user with a role hierarchy) asks to perform an action on a
//! resource. A static set of permit/forbid policies decides. When the
//! resource is fully known, `decide` returns allow or deny (deny-overrides,
//! default-deny). When the resource has not been fetched yet (bulk listing),
//! `decide_partial` evaluates each policy condition as far as possible and
//! returns the residual set of policies that could still permit access; the
//! predicate compiler turns that set into a row-level filter for the caller's
//! query.

pub mod authorizer;
pub mod entity;
pub mod evaluator;
pub mod expr;
pub mod filter;
pub mod laws;
pub mod policy;
pub mod token;
