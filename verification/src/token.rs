//! The token claims adapter and the entity model builder: externally
//! verified claims (a principal id and role names) become a principal
//! entity with one membership edge per distinct role. Signature
//! verification itself is an external collaborator and no concern of this
//! module.

use vstd::prelude::*;
use vstd::string::StringExecFns;
use crate::entity::Entity;
use crate::entity::EntityId;
use crate::policy::Schema;

verus! {

/// Malformed claims: the request fails, the process does not.
#[derive(Clone, Copy, Debug, PartialEq, Eq, Structural)]
pub enum EntityConstructionError {
    EmptyPrincipalId,
    EmptyRoleName,
}

/// A policy, request or claim set refers to something the schema does not
/// declare.
#[derive(Clone, Copy, Debug, PartialEq, Eq, Structural)]
pub enum SchemaViolationError {
    UndeclaredEntityType,
    UndeclaredAction,
}

/// What can go wrong turning claims into entities.
#[derive(Clone, Copy, Debug, PartialEq, Eq, Structural)]
pub enum TokenError {
    EntityConstruction(EntityConstructionError),
    SchemaViolation(SchemaViolationError),
}

/// Externally verified claims: who asks, and under which roles.
#[derive(Debug, Clone)]
pub struct TokenClaims {
    pub id: i32,
    pub roles: Vec<String>,
}

pub open spec fn dec_digit(d: int) -> char {
    if d == 0 {
        '0'
    } else if d == 1 {
        '1'
    } else if d == 2 {
        '2'
    } else if d == 3 {
        '3'
    } else if d == 4 {
        '4'
    } else if d == 5 {
        '5'
    } else if d == 6 {
        '6'
    } else if d == 7 {
        '7'
    } else if d == 8 {
        '8'
    } else {
        '9'
    }
}

/// The base-ten digits of a natural number, most significant first.
pub open spec fn dec_nat(n: nat) -> Seq<char>
    decreases n,
{
    if n < 10 {
        seq![dec_digit(n as int)]
    } else {
        dec_nat(n / 10).push(dec_digit((n % 10) as int))
    }
}

/// The base-ten rendering of an integer, with a leading minus sign when
/// negative.
pub open spec fn dec_int(i: int) -> Seq<char> {
    if i < 0 {
        seq!['-'] + dec_nat((-i) as nat)
    } else {
        dec_nat(i as nat)
    }
}

pub proof fn lemma_dec_int_nonempty(i: int)
    ensures
        dec_int(i).len() >= 1,
{
    if i < 0 {
        lemma_dec_nat_nonempty((-i) as nat);
    } else {
        lemma_dec_nat_nonempty(i as nat);
    }
}

proof fn lemma_dec_nat_nonempty(n: nat)
    ensures
        dec_nat(n).len() >= 1,
    decreases n,
{
    if n >= 10 {
        lemma_dec_nat_nonempty(n / 10);
    }
}

/// Relies on i32::to_string: the base-ten rendering of the value, with a
/// leading minus sign when negative.
#[verifier::external_body]
fn i32_to_string(x: i32) -> (r: String)
    ensures
        r@ == dec_int(x as int),
{
    x.to_string()
}

/// The views of a sequence of strings.
pub open spec fn str_views(s: Seq<String>) -> Seq<Seq<char>> {
    s.map_values(|x: String| x@)
}

/// The distinct elements of a sequence, first occurrences in order.
pub open spec fn dedup_strs(s: Seq<Seq<char>>) -> Seq<Seq<char>>
    decreases s.len(),
{
    if s.len() == 0 {
        Seq::empty()
    } else {
        let pre = dedup_strs(s.drop_last());
        if pre.contains(s.last()) {
            pre
        } else {
            pre.push(s.last())
        }
    }
}

/// A principal entity: a `User` with the given id text, no attributes,
/// and one `Role` membership edge per distinct role name.
pub open spec fn is_principal_entity(u: Entity, pid: Seq<char>, roles: Seq<String>) -> bool {
    &&& u.uid@.ty == "User"@
    &&& u.uid@.eid == pid
    &&& u.attrs@.len() == 0
    &&& u.parents@.len() == dedup_strs(str_views(roles)).len()
    &&& forall|k: int|
        0 <= k < u.parents@.len() ==> (#[trigger] u.parents@[k])@.ty == "Role"@
            && u.parents@[k]@.eid == dedup_strs(str_views(roles))[k]
}

/// The principal entity a claim set describes, its id rendered in base
/// ten.
pub open spec fn is_principal_of(u: Entity, id: int, roles: Seq<String>) -> bool {
    is_principal_entity(u, dec_int(id), roles)
}

/// One bare role entity per role name, in claim order.
pub open spec fn are_roles_of(es: Seq<Entity>, roles: Seq<String>) -> bool {
    &&& es.len() == roles.len()
    &&& forall|k: int|
        0 <= k < es.len() ==> (#[trigger] es[k]).uid@.ty == "Role"@ && es[k].uid@.eid == roles[k]@
            && es[k].attrs@.len() == 0 && es[k].parents@.len() == 0
}

fn contains_eid(v: &Vec<EntityId>, name: &String) -> (r: bool)
    ensures
        r == (exists|j: int| 0 <= j < v@.len() && (#[trigger] v@[j])@.eid == name@),
{
    let mut i: usize = 0;
    while i < v.len()
        invariant
            i <= v.len(),
            forall|j: int| 0 <= j < i as int ==> (#[trigger] v@[j])@.eid != name@,
        decreases v.len() - i,
    {
        if v[i].eid == *name {
            return true;
        }
        i = i + 1;
    }
    false
}

/// The entity model builder: turns a principal id and role names into a
/// `User` entity whose parents are its roles, duplicate role names
/// collapsed to one membership edge. Fails exactly when the principal id
/// cannot be rendered into a valid entity id (it is empty) or a role name
/// is empty.
pub fn build_principal(principal_id: String, roles: &Vec<String>) -> (r: Result<
    Entity,
    TokenError,
>)
    ensures
        match r {
            Ok(u) => principal_id@.len() > 0 && is_principal_entity(u, principal_id@, roles@)
                && (forall|k: int|
                0 <= k < roles@.len() ==> (#[trigger] roles@[k])@.len() > 0),
            Err(e) => (e == TokenError::EntityConstruction(
                EntityConstructionError::EmptyPrincipalId,
            ) && principal_id@.len() == 0) || (e == TokenError::EntityConstruction(
                EntityConstructionError::EmptyRoleName,
            ) && principal_id@.len() > 0 && (exists|k: int|
                0 <= k < roles@.len() && (#[trigger] roles@[k])@.len() == 0)),
        },
{
    if principal_id.as_str().is_empty() {
        return Err(TokenError::EntityConstruction(EntityConstructionError::EmptyPrincipalId));
    }
    let role_ty = String::from_str("Role");
    let mut parents: Vec<EntityId> = Vec::new();
    let mut i: usize = 0;
    while i < roles.len()
        invariant
            i <= roles.len(),
            principal_id@.len() > 0,
            role_ty@ == "Role"@,
            forall|k: int| 0 <= k < i as int ==> (#[trigger] roles@[k])@.len() > 0,
            parents@.len() == dedup_strs(str_views(roles@).take(i as int)).len(),
            forall|k: int|
                0 <= k < parents@.len() ==> (#[trigger] parents@[k])@.ty == "Role"@
                    && parents@[k]@.eid == dedup_strs(str_views(roles@).take(i as int))[k],
        decreases roles.len() - i,
    {
        let ghost pre_names = str_views(roles@).take(i as int);
        let ghost cur_names = str_views(roles@).take(i as int + 1);
        proof {
            assert(cur_names.drop_last() =~= pre_names);
            assert(cur_names.last() == roles@[i as int]@);
        }
        if roles[i].as_str().is_empty() {
            return Err(TokenError::EntityConstruction(EntityConstructionError::EmptyRoleName));
        }
        let seen = contains_eid(&parents, &roles[i]);
        proof {
            // The names recorded so far are exactly the deduplicated
            // prefix, so the membership test decides the spec-level
            // `contains`.
            if seen {
                let j = choose|j: int|
                    0 <= j < parents@.len() && (#[trigger] parents@[j])@.eid == roles@[i as int]@;
                assert(dedup_strs(pre_names)[j] == roles@[i as int]@);
                assert(dedup_strs(pre_names).contains(roles@[i as int]@));
            } else {
                if dedup_strs(pre_names).contains(roles@[i as int]@) {
                    let j = choose|j: int|
                        0 <= j < dedup_strs(pre_names).len() && dedup_strs(pre_names)[j]
                            == roles@[i as int]@;
                    assert(parents@[j]@.eid == roles@[i as int]@);
                }
            }
        }
        if !seen {
            parents.push(EntityId::new(role_ty.clone(), roles[i].clone()));
        }
        i = i + 1;
    }
    proof {
        assert(str_views(roles@).take(roles@.len() as int) =~= str_views(roles@));
    }
    let uid = EntityId::new(String::from_str("User"), principal_id);
    Ok(Entity { uid, attrs: Vec::new(), parents })
}

impl TokenClaims {
    /// Builds the principal entity for these claims. The id always
    /// renders to a non-empty string, so this fails exactly when a role
    /// name is empty.
    pub fn user(&self) -> (r: Result<Entity, TokenError>)
        ensures
            match r {
                Ok(u) => is_principal_of(u, self.id as int, self.roles@) && (forall|k: int|
                    0 <= k < self.roles@.len() ==> (#[trigger] self.roles@[k])@.len() > 0),
                Err(e) => e == TokenError::EntityConstruction(
                    EntityConstructionError::EmptyRoleName,
                ) && (exists|k: int|
                    0 <= k < self.roles@.len() && (#[trigger] self.roles@[k])@.len() == 0),
            },
    {
        let pid = i32_to_string(self.id);
        proof {
            lemma_dec_int_nonempty(self.id as int);
        }
        build_principal(pid, &self.roles)
    }

    /// The ids of the claimed roles, in claim order, duplicates kept.
    pub fn roles_ids(&self) -> (r: Vec<EntityId>)
        ensures
            r@.len() == self.roles@.len(),
            forall|k: int|
                0 <= k < r@.len() ==> (#[trigger] r@[k])@.ty == "Role"@ && r@[k]@.eid
                    == self.roles@[k]@,
    {
        let role_ty = String::from_str("Role");
        let mut out: Vec<EntityId> = Vec::new();
        let mut i: usize = 0;
        while i < self.roles.len()
            invariant
                i <= self.roles.len(),
                role_ty@ == "Role"@,
                out@.len() == i as int,
                forall|k: int|
                    0 <= k < i as int ==> (#[trigger] out@[k])@.ty == "Role"@ && out@[k]@.eid
                        == self.roles@[k]@,
            decreases self.roles.len() - i,
        {
            out.push(EntityId::new(role_ty.clone(), self.roles[i].clone()));
            i = i + 1;
        }
        out
    }

    /// One bare entity per claimed role, in claim order.
    pub fn roles(&self) -> (r: Vec<Entity>)
        ensures
            are_roles_of(r@, self.roles@),
    {
        let ids = self.roles_ids();
        let mut out: Vec<Entity> = Vec::new();
        let mut i: usize = 0;
        while i < ids.len()
            invariant
                i <= ids.len(),
                ids@.len() == self.roles@.len(),
                forall|k: int|
                    0 <= k < ids@.len() ==> (#[trigger] ids@[k])@.ty == "Role"@ && ids@[k]@.eid
                        == self.roles@[k]@,
                out@.len() == i as int,
                forall|k: int|
                    0 <= k < i as int ==> (#[trigger] out@[k]).uid@.ty == "Role"@ && out@[k].uid@.eid
                        == self.roles@[k]@ && out@[k].attrs@.len() == 0 && out@[k].parents@.len()
                        == 0,
            decreases ids.len() - i,
        {
            out.push(Entity { uid: ids[i].duplicate(), attrs: Vec::new(), parents: Vec::new() });
            i = i + 1;
        }
        out
    }

    /// The request's entity slice: the role entities, then the principal.
    /// With a schema given, the `Role` and `User` types must be declared.
    pub fn entities(&self, schema: Option<&Schema>) -> (r: Result<Vec<Entity>, TokenError>)
        ensures
            match r {
                Ok(es) => {
                    &&& es@.len() == self.roles@.len() + 1
                    &&& are_roles_of(es@.take(self.roles@.len() as int), self.roles@)
                    &&& is_principal_of(es@.last(), self.id as int, self.roles@)
                    &&& forall|k: int|
                        0 <= k < self.roles@.len() ==> (#[trigger] self.roles@[k])@.len() > 0
                    &&& match schema {
                        Some(s) => s.declares_type("Role"@) && s.declares_type("User"@),
                        None => true,
                    }
                },
                Err(e) => match e {
                    TokenError::EntityConstruction(_) => exists|k: int|
                        0 <= k < self.roles@.len() && (#[trigger] self.roles@[k])@.len() == 0,
                    TokenError::SchemaViolation(_) => match schema {
                        Some(s) => !(s.declares_type("Role"@) && s.declares_type("User"@)),
                        None => false,
                    },
                },
            },
    {
        match schema {
            Some(s) => {
                let role_ok = crate::policy::contains_string(&s.entity_types, &String::from_str("Role"));
                let user_ok = crate::policy::contains_string(&s.entity_types, &String::from_str("User"));
                if !role_ok || !user_ok {
                    return Err(TokenError::SchemaViolation(
                        SchemaViolationError::UndeclaredEntityType,
                    ));
                }
            },
            None => {},
        }
        let u = match self.user() {
            Ok(u) => u,
            Err(e) => {
                return Err(e);
            },
        };
        let mut es = self.roles();
        proof {
            assert(es@.take(self.roles@.len() as int) =~= es@);
        }
        es.push(u);
        proof {
            assert(es@.take(self.roles@.len() as int) =~= es@.drop_last());
        }
        Ok(es)
    }
}

/// The entity slice a claim set yields: the role entities, then the
/// principal.
pub open spec fn claims_store_of(es: Seq<Entity>, claims: TokenClaims) -> bool {
    &&& es.len() == claims.roles@.len() + 1
    &&& are_roles_of(es.take(claims.roles@.len() as int), claims.roles@)
    &&& is_principal_of(es.last(), claims.id as int, claims.roles@)
}

/// Being the principal of a claim set depends on the entity's view alone.
pub proof fn lemma_principal_view(u1: Entity, u2: Entity, id: int, roles: Seq<String>)
    requires
        is_principal_of(u1, id, roles),
        u2@ == u1@,
    ensures
        is_principal_of(u2, id, roles),
{
    assert(u2.attrs@.len() == u2@.attrs.len());
    assert(u1.attrs@.len() == u1@.attrs.len());
    assert(u2.parents@.len() == crate::entity::id_views(u2.parents@).len());
    assert(u1.parents@.len() == crate::entity::id_views(u1.parents@).len());
    assert forall|k: int|
        0 <= k < u2.parents@.len() implies (#[trigger] u2.parents@[k])@.ty == "Role"@
            && u2.parents@[k]@.eid == dedup_strs(str_views(roles))[k] by {
        assert(crate::entity::id_views(u2.parents@)[k] == u2.parents@[k]@);
        assert(crate::entity::id_views(u1.parents@)[k] == u1.parents@[k]@);
    }
}

/// Holds the signing secret for the token boundary. Signing and verifying
/// themselves are the outside collaborator's work; this library only
/// carries the configuration explicitly instead of reading process state.
pub struct TokenService {
    jwt_secret: String,
}

impl TokenService {
    /// The configured signing secret.
    pub closed spec fn spec_secret(&self) -> Seq<char> {
        self.jwt_secret@
    }

    pub fn new(jwt_secret: &str) -> (r: TokenService)
        ensures
            r.spec_secret() == jwt_secret@,
    {
        TokenService { jwt_secret: String::from_str(jwt_secret) }
    }

    pub fn secret(&self) -> (r: &String)
        ensures
            r@ == self.spec_secret(),
    {
        &self.jwt_secret
    }
}

} // verus!
