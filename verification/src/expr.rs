//! Policy condition expressions: a closed tagged-variant tree with two
//! operations, full evaluation and reduction under partially known bindings.
//!
//! Evaluation is three-valued: an expression yields a value, stays open
//! because it touches the unknown resource (or an explicit unknown marker),
//! or fails (a missing attribute, an operand of the wrong shape). The
//! semantics is chosen so that once an expression yields a value or fails
//! under partial bindings, supplying the resource cannot change that
//! outcome (`lemma_peval_persists`).

use vstd::prelude::*;
use crate::entity::Entity;
use crate::entity::EntityId;
use crate::entity::Value;
use crate::entity::ValueV;
use crate::entity::contains_id;
use crate::entity::id_views;
use crate::entity::lookup_attr;
use crate::entity::lookup_value;
use crate::entity::vec_contains_id;

verus! {

/// A boolean condition over the request's principal, resource and context.
#[derive(Debug, PartialEq, Eq)]
pub enum Expr {
    /// A constant value.
    Lit(Value),
    /// The principal entity itself, as an entity value.
    PrincipalRef,
    /// The resource entity itself, as an entity value.
    ResourceRef,
    /// An attribute of the principal.
    PrincipalAttr(String),
    /// An attribute of the resource.
    ResourceAttr(String),
    /// An attribute of the request context.
    ContextAttr(String),
    /// An explicit unknown: never reducible.
    Unknown(String),
    /// Equality of two values.
    Eq(Box<Expr>, Box<Expr>),
    /// Membership of an entity in a list of entities.
    In(Box<Expr>, Box<Expr>),
    And(Box<Expr>, Box<Expr>),
    Or(Box<Expr>, Box<Expr>),
}

/// What a request supplies to condition evaluation. `resource` is `None`
/// while the resource has not been fetched.
#[derive(Debug)]
pub struct Bindings {
    pub principal: Entity,
    pub resource: Option<Entity>,
    pub context: Vec<(String, Value)>,
}

/// The outcome of evaluating an expression under (possibly partial)
/// bindings.
pub ghost enum POut {
    Val(ValueV),
    Open,
    Fail,
}

/// Equality of attribute values: decided per shape, `false` across shapes;
/// entity lists compare pointwise.
pub open spec fn val_eq(a: ValueV, b: ValueV) -> bool {
    match (a, b) {
        (ValueV::Bool(x), ValueV::Bool(y)) => x == y,
        (ValueV::Int(x), ValueV::Int(y)) => x == y,
        (ValueV::Str(x), ValueV::Str(y)) => x == y,
        (ValueV::Ent(x), ValueV::Ent(y)) => x == y,
        (ValueV::EntSet(x), ValueV::EntSet(y)) => x == y,
        _ => false,
    }
}

pub open spec fn is_truev(o: POut) -> bool {
    o == POut::Val(ValueV::Bool(true))
}

pub open spec fn is_falsev(o: POut) -> bool {
    o == POut::Val(ValueV::Bool(false))
}

/// Conjunction: false wins over everything, then openness, then failure.
pub open spec fn and_out(a: POut, b: POut) -> POut {
    if is_falsev(a) || is_falsev(b) {
        POut::Val(ValueV::Bool(false))
    } else if a is Open || b is Open {
        POut::Open
    } else if is_truev(a) && is_truev(b) {
        POut::Val(ValueV::Bool(true))
    } else {
        POut::Fail
    }
}

/// Disjunction: true wins over everything, then openness, then failure.
pub open spec fn or_out(a: POut, b: POut) -> POut {
    if is_truev(a) || is_truev(b) {
        POut::Val(ValueV::Bool(true))
    } else if a is Open || b is Open {
        POut::Open
    } else if is_falsev(a) && is_falsev(b) {
        POut::Val(ValueV::Bool(false))
    } else {
        POut::Fail
    }
}

/// Equality is strict: a failed operand fails the comparison, an open
/// operand leaves it open.
pub open spec fn eq_out(a: POut, b: POut) -> POut {
    match (a, b) {
        (POut::Fail, _) => POut::Fail,
        (_, POut::Fail) => POut::Fail,
        (POut::Open, _) => POut::Open,
        (_, POut::Open) => POut::Open,
        (POut::Val(x), POut::Val(y)) => POut::Val(ValueV::Bool(val_eq(x, y))),
    }
}

/// Membership is strict like equality and demands an entity on the left
/// and an entity list on the right.
pub open spec fn in_out(a: POut, b: POut) -> POut {
    match (a, b) {
        (POut::Fail, _) => POut::Fail,
        (_, POut::Fail) => POut::Fail,
        (POut::Open, _) => POut::Open,
        (_, POut::Open) => POut::Open,
        (POut::Val(x), POut::Val(y)) => match (x, y) {
            (ValueV::Ent(id), ValueV::EntSet(s)) => POut::Val(ValueV::Bool(s.contains(id))),
            _ => POut::Fail,
        },
    }
}

/// Evaluates an expression as far as the bindings allow.
pub open spec fn peval(e: Expr, b: Bindings) -> POut
    decreases e,
{
    match e {
        Expr::Lit(v) => POut::Val(v@),
        Expr::PrincipalRef => POut::Val(ValueV::Ent(b.principal.uid@)),
        Expr::ResourceRef => match b.resource {
            Option::Some(r) => POut::Val(ValueV::Ent(r.uid@)),
            Option::None => POut::Open,
        },
        Expr::PrincipalAttr(n) => match lookup_attr(b.principal.attrs@, n@) {
            Option::Some(v) => POut::Val(v),
            Option::None => POut::Fail,
        },
        Expr::ResourceAttr(n) => match b.resource {
            Option::Some(r) => match lookup_attr(r.attrs@, n@) {
                Option::Some(v) => POut::Val(v),
                Option::None => POut::Fail,
            },
            Option::None => POut::Open,
        },
        Expr::ContextAttr(n) => match lookup_attr(b.context@, n@) {
            Option::Some(v) => POut::Val(v),
            Option::None => POut::Fail,
        },
        Expr::Unknown(_) => POut::Open,
        Expr::Eq(l, r) => eq_out(peval(*l, b), peval(*r, b)),
        Expr::In(l, r) => in_out(peval(*l, b), peval(*r, b)),
        Expr::And(l, r) => and_out(peval(*l, b), peval(*r, b)),
        Expr::Or(l, r) => or_out(peval(*l, b), peval(*r, b)),
    }
}

/// The same bindings with the resource supplied.
pub open spec fn with_resource(b: Bindings, res: Entity) -> Bindings {
    Bindings { principal: b.principal, resource: Option::Some(res), context: b.context }
}

/// Once partial evaluation yields a value or fails, supplying the resource
/// cannot change the outcome: partial evaluation generalizes full
/// evaluation instead of approximating it.
pub proof fn lemma_peval_persists(e: Expr, b: Bindings, res: Entity)
    requires
        b.resource is None,
        !(peval(e, b) is Open),
    ensures
        peval(e, with_resource(b, res)) == peval(e, b),
    decreases e,
{
    let bf = with_resource(b, res);
    match e {
        Expr::Eq(l, r) => {
            if !(peval(*l, b) is Open) {
                lemma_peval_persists(*l, b, res);
            }
            if !(peval(*r, b) is Open) {
                lemma_peval_persists(*r, b, res);
            }
        },
        Expr::In(l, r) => {
            if !(peval(*l, b) is Open) {
                lemma_peval_persists(*l, b, res);
            }
            if !(peval(*r, b) is Open) {
                lemma_peval_persists(*r, b, res);
            }
        },
        Expr::And(l, r) => {
            if !(peval(*l, b) is Open) {
                lemma_peval_persists(*l, b, res);
            }
            if !(peval(*r, b) is Open) {
                lemma_peval_persists(*r, b, res);
            }
        },
        Expr::Or(l, r) => {
            if !(peval(*l, b) is Open) {
                lemma_peval_persists(*l, b, res);
            }
            if !(peval(*r, b) is Open) {
                lemma_peval_persists(*r, b, res);
            }
        },
        _ => {},
    }
}

/// The result of reducing an expression under partial bindings: a value, a
/// reduced tree that still waits for the resource, or a failure.
#[derive(Debug, PartialEq, Eq)]
pub enum Reduced {
    Known(Value),
    Open(Expr),
    Failed,
}

/// What `reduce` promises: a `Known` value or a failure is exactly what
/// `peval` says; a reduced tree is open now and agrees with the original
/// expression under every way of supplying the resource.
pub open spec fn reduced_matches(r: Reduced, e: Expr, b: Bindings) -> bool {
    match r {
        Reduced::Known(v) => peval(e, b) == POut::Val(v@),
        Reduced::Open(e2) => peval(e, b) is Open && peval(e2, b) is Open && (b.resource is None
            ==> forall|res: Entity|
                #[trigger] peval(e2, with_resource(b, res)) == peval(e, with_resource(b, res))),
        Reduced::Failed => peval(e, b) is Fail,
    }
}

/// An expression that fails under every binding; stands in for a
/// subexpression that already failed when a reduced tree is rebuilt.
fn err_expr() -> (e: Expr)
    ensures
        forall|b2: Bindings| #[trigger] peval(e, b2) == POut::Fail,
{
    let e = Expr::In(
        Box::new(Expr::Lit(Value::Bool(false))),
        Box::new(Expr::Lit(Value::Bool(false))),
    );
    proof {
        assert forall|b2: Bindings| #[trigger] peval(e, b2) == POut::Fail by {
            assert(peval(Expr::Lit(Value::Bool(false)), b2) == POut::Val(ValueV::Bool(false)));
            assert(peval(e, b2) == in_out(
                POut::Val(ValueV::Bool(false)),
                POut::Val(ValueV::Bool(false)),
            ));
        }
    }
    e
}

/// Turns a reduction outcome back into an expression with the same
/// semantics, for rebuilding a reduced tree.
fn to_open_part(r: Reduced) -> (e2: Expr)
    ensures
        match r {
            Reduced::Known(v) => forall|b2: Bindings| #[trigger] peval(e2, b2) == POut::Val(v@),
            Reduced::Open(t) => e2 == t,
            Reduced::Failed => forall|b2: Bindings| #[trigger] peval(e2, b2) == POut::Fail,
        },
{
    match r {
        Reduced::Known(v) => {
            let e2 = Expr::Lit(v);
            proof {
                assert forall|b2: Bindings| #[trigger] peval(e2, b2) == POut::Val(
                    e2->Lit_0@,
                ) by {}
            }
            e2
        },
        Reduced::Open(t) => t,
        Reduced::Failed => err_expr(),
    }
}

fn is_known_false(r: &Reduced) -> (out: bool)
    ensures
        out == match r {
            Reduced::Known(v) => v@ == ValueV::Bool(false),
            _ => false,
        },
{
    match r {
        Reduced::Known(Value::Bool(x)) => !*x,
        _ => false,
    }
}

fn is_known_true(r: &Reduced) -> (out: bool)
    ensures
        out == match r {
            Reduced::Known(v) => v@ == ValueV::Bool(true),
            _ => false,
        },
{
    match r {
        Reduced::Known(Value::Bool(x)) => *x,
        _ => false,
    }
}

fn is_open(r: &Reduced) -> (out: bool)
    ensures
        out == (r is Open),
{
    match r {
        Reduced::Open(_) => true,
        _ => false,
    }
}

fn is_failed(r: &Reduced) -> (out: bool)
    ensures
        out == (r is Failed),
{
    match r {
        Reduced::Failed => true,
        _ => false,
    }
}

/// Pointwise equality of two entity id lists.
fn id_vecs_equal(x: &Vec<EntityId>, y: &Vec<EntityId>) -> (r: bool)
    ensures
        r == (id_views(x@) == id_views(y@)),
{
    if x.len() != y.len() {
        proof {
            assert(id_views(x@).len() != id_views(y@).len());
        }
        return false;
    }
    let mut i: usize = 0;
    while i < x.len()
        invariant
            x@.len() == y@.len(),
            i <= x@.len(),
            forall|k: int| 0 <= k < i as int ==> x@[k]@ == y@[k]@,
        decreases x@.len() - i,
    {
        if !x[i].eq_id(&y[i]) {
            proof {
                assert(id_views(x@)[i as int] != id_views(y@)[i as int]);
            }
            return false;
        }
        i = i + 1;
    }
    proof {
        assert(id_views(x@) =~= id_views(y@));
    }
    true
}

/// Is the id among the listed ones?
fn ent_in_list(x: &EntityId, s: &Vec<EntityId>) -> (r: bool)
    ensures
        r == id_views(s@).contains(x@),
{
    let m = vec_contains_id(s, x);
    proof {
        lemma_id_views_seq_contains(s@, x@);
    }
    m
}

proof fn lemma_id_views_seq_contains(s: Seq<EntityId>, v: crate::entity::EntityIdV)
    ensures
        id_views(s).contains(v) == contains_id(s, v),
{
    if contains_id(s, v) {
        let i = choose|i: int| 0 <= i < s.len() && s[i]@ == v;
        assert(id_views(s)[i] == v);
    }
    if id_views(s).contains(v) {
        let i = choose|i: int| 0 <= i < id_views(s).len() && id_views(s)[i] == v;
        assert(s[i]@ == v);
    }
}

/// Equality of two attribute values, as `val_eq` states it.
pub fn values_equal(a: &Value, b: &Value) -> (r: bool)
    ensures
        r == val_eq(a@, b@),
{
    match (a, b) {
        (Value::Bool(x), Value::Bool(y)) => *x == *y,
        (Value::Int(x), Value::Int(y)) => *x == *y,
        (Value::Str(x), Value::Str(y)) => *x == *y,
        (Value::Ent(x), Value::Ent(y)) => x.eq_id(y),
        (Value::EntSet(x), Value::EntSet(y)) => id_vecs_equal(x, y),
        _ => false,
    }
}

/// After reducing both operands of a binary node, the rebuilt operands
/// agree with the originals under the current bindings and under every way
/// of supplying the resource.
proof fn lemma_rebuild_ok(
    ra: Reduced,
    rc: Reduced,
    e1: Expr,
    e2: Expr,
    l: Expr,
    r: Expr,
    b: Bindings,
)
    requires
        reduced_matches(ra, l, b),
        reduced_matches(rc, r, b),
        match ra {
            Reduced::Known(v) => forall|b2: Bindings| #[trigger] peval(e1, b2) == POut::Val(v@),
            Reduced::Open(t) => e1 == t,
            Reduced::Failed => forall|b2: Bindings| #[trigger] peval(e1, b2) == POut::Fail,
        },
        match rc {
            Reduced::Known(v) => forall|b2: Bindings| #[trigger] peval(e2, b2) == POut::Val(v@),
            Reduced::Open(t) => e2 == t,
            Reduced::Failed => forall|b2: Bindings| #[trigger] peval(e2, b2) == POut::Fail,
        },
    ensures
        peval(e1, b) == peval(l, b),
        peval(e2, b) == peval(r, b),
        b.resource is None ==> forall|res: Entity|
            #[trigger] peval(e1, with_resource(b, res)) == peval(l, with_resource(b, res)),
        b.resource is None ==> forall|res: Entity|
            #[trigger] peval(e2, with_resource(b, res)) == peval(r, with_resource(b, res)),
{
    if b.resource is None {
        assert forall|res: Entity| #[trigger] peval(e1, with_resource(b, res)) == peval(
            l,
            with_resource(b, res),
        ) by {
            if !(ra is Open) {
                lemma_peval_persists(l, b, res);
            }
        }
        assert forall|res: Entity| #[trigger] peval(e2, with_resource(b, res)) == peval(
            r,
            with_resource(b, res),
        ) by {
            if !(rc is Open) {
                lemma_peval_persists(r, b, res);
            }
        }
    }
}

fn combine_eq(
    ra: Reduced,
    rc: Reduced,
    Ghost(l): Ghost<Expr>,
    Ghost(r): Ghost<Expr>,
    Ghost(b): Ghost<Bindings>,
) -> (out: Reduced)
    requires
        reduced_matches(ra, l, b),
        reduced_matches(rc, r, b),
    ensures
        reduced_matches(out, Expr::Eq(Box::new(l), Box::new(r)), b),
{
    let ghost te = Expr::Eq(Box::new(l), Box::new(r));
    proof {
        assert(peval(te, b) == eq_out(peval(l, b), peval(r, b)));
    }
    if is_failed(&ra) || is_failed(&rc) {
        Reduced::Failed
    } else if is_open(&ra) || is_open(&rc) {
        let ghost ga = ra;
        let ghost gc = rc;
        let e1 = to_open_part(ra);
        let e2 = to_open_part(rc);
        let out = Expr::Eq(Box::new(e1), Box::new(e2));
        proof {
            lemma_rebuild_ok(ga, gc, e1, e2, l, r, b);
            assert(peval(out, b) == eq_out(peval(e1, b), peval(e2, b)));
            if b.resource is None {
                assert forall|res: Entity| #[trigger] peval(out, with_resource(b, res)) == peval(
                    te,
                    with_resource(b, res),
                ) by {
                    assert(peval(out, with_resource(b, res)) == eq_out(
                        peval(e1, with_resource(b, res)),
                        peval(e2, with_resource(b, res)),
                    ));
                    assert(peval(te, with_resource(b, res)) == eq_out(
                        peval(l, with_resource(b, res)),
                        peval(r, with_resource(b, res)),
                    ));
                }
            }
        }
        Reduced::Open(out)
    } else {
        match (ra, rc) {
            (Reduced::Known(v1), Reduced::Known(v2)) => Reduced::Known(
                Value::Bool(values_equal(&v1, &v2)),
            ),
            _ => Reduced::Failed,
        }
    }
}

fn combine_in(
    ra: Reduced,
    rc: Reduced,
    Ghost(l): Ghost<Expr>,
    Ghost(r): Ghost<Expr>,
    Ghost(b): Ghost<Bindings>,
) -> (out: Reduced)
    requires
        reduced_matches(ra, l, b),
        reduced_matches(rc, r, b),
    ensures
        reduced_matches(out, Expr::In(Box::new(l), Box::new(r)), b),
{
    let ghost te = Expr::In(Box::new(l), Box::new(r));
    proof {
        assert(peval(te, b) == in_out(peval(l, b), peval(r, b)));
    }
    if is_failed(&ra) || is_failed(&rc) {
        Reduced::Failed
    } else if is_open(&ra) || is_open(&rc) {
        let ghost ga = ra;
        let ghost gc = rc;
        let e1 = to_open_part(ra);
        let e2 = to_open_part(rc);
        let out = Expr::In(Box::new(e1), Box::new(e2));
        proof {
            lemma_rebuild_ok(ga, gc, e1, e2, l, r, b);
            assert(peval(out, b) == in_out(peval(e1, b), peval(e2, b)));
            if b.resource is None {
                assert forall|res: Entity| #[trigger] peval(out, with_resource(b, res)) == peval(
                    te,
                    with_resource(b, res),
                ) by {
                    assert(peval(out, with_resource(b, res)) == in_out(
                        peval(e1, with_resource(b, res)),
                        peval(e2, with_resource(b, res)),
                    ));
                    assert(peval(te, with_resource(b, res)) == in_out(
                        peval(l, with_resource(b, res)),
                        peval(r, with_resource(b, res)),
                    ));
                }
            }
        }
        Reduced::Open(out)
    } else {
        match (ra, rc) {
            (Reduced::Known(v1), Reduced::Known(v2)) => match (v1, v2) {
                (Value::Ent(x), Value::EntSet(s)) => Reduced::Known(
                    Value::Bool(ent_in_list(&x, &s)),
                ),
                _ => Reduced::Failed,
            },
            _ => Reduced::Failed,
        }
    }
}

fn combine_and(
    ra: Reduced,
    rc: Reduced,
    Ghost(l): Ghost<Expr>,
    Ghost(r): Ghost<Expr>,
    Ghost(b): Ghost<Bindings>,
) -> (out: Reduced)
    requires
        reduced_matches(ra, l, b),
        reduced_matches(rc, r, b),
    ensures
        reduced_matches(out, Expr::And(Box::new(l), Box::new(r)), b),
{
    let ghost te = Expr::And(Box::new(l), Box::new(r));
    proof {
        assert(peval(te, b) == and_out(peval(l, b), peval(r, b)));
    }
    if is_known_false(&ra) || is_known_false(&rc) {
        Reduced::Known(Value::Bool(false))
    } else if is_open(&ra) || is_open(&rc) {
        let ghost ga = ra;
        let ghost gc = rc;
        let e1 = to_open_part(ra);
        let e2 = to_open_part(rc);
        let out = Expr::And(Box::new(e1), Box::new(e2));
        proof {
            lemma_rebuild_ok(ga, gc, e1, e2, l, r, b);
            assert(peval(out, b) == and_out(peval(e1, b), peval(e2, b)));
            if b.resource is None {
                assert forall|res: Entity| #[trigger] peval(out, with_resource(b, res)) == peval(
                    te,
                    with_resource(b, res),
                ) by {
                    assert(peval(out, with_resource(b, res)) == and_out(
                        peval(e1, with_resource(b, res)),
                        peval(e2, with_resource(b, res)),
                    ));
                    assert(peval(te, with_resource(b, res)) == and_out(
                        peval(l, with_resource(b, res)),
                        peval(r, with_resource(b, res)),
                    ));
                }
            }
        }
        Reduced::Open(out)
    } else if is_known_true(&ra) && is_known_true(&rc) {
        Reduced::Known(Value::Bool(true))
    } else {
        Reduced::Failed
    }
}

fn combine_or(
    ra: Reduced,
    rc: Reduced,
    Ghost(l): Ghost<Expr>,
    Ghost(r): Ghost<Expr>,
    Ghost(b): Ghost<Bindings>,
) -> (out: Reduced)
    requires
        reduced_matches(ra, l, b),
        reduced_matches(rc, r, b),
    ensures
        reduced_matches(out, Expr::Or(Box::new(l), Box::new(r)), b),
{
    let ghost te = Expr::Or(Box::new(l), Box::new(r));
    proof {
        assert(peval(te, b) == or_out(peval(l, b), peval(r, b)));
    }
    if is_known_true(&ra) || is_known_true(&rc) {
        Reduced::Known(Value::Bool(true))
    } else if is_open(&ra) || is_open(&rc) {
        let ghost ga = ra;
        let ghost gc = rc;
        let e1 = to_open_part(ra);
        let e2 = to_open_part(rc);
        let out = Expr::Or(Box::new(e1), Box::new(e2));
        proof {
            lemma_rebuild_ok(ga, gc, e1, e2, l, r, b);
            assert(peval(out, b) == or_out(peval(e1, b), peval(e2, b)));
            if b.resource is None {
                assert forall|res: Entity| #[trigger] peval(out, with_resource(b, res)) == peval(
                    te,
                    with_resource(b, res),
                ) by {
                    assert(peval(out, with_resource(b, res)) == or_out(
                        peval(e1, with_resource(b, res)),
                        peval(e2, with_resource(b, res)),
                    ));
                    assert(peval(te, with_resource(b, res)) == or_out(
                        peval(l, with_resource(b, res)),
                        peval(r, with_resource(b, res)),
                    ));
                }
            }
        }
        Reduced::Open(out)
    } else if is_known_false(&ra) && is_known_false(&rc) {
        Reduced::Known(Value::Bool(false))
    } else {
        Reduced::Failed
    }
}

/// Reduces an expression as far as the bindings allow: known subtrees
/// collapse to literals, open subtrees stay, failed subtrees are replaced
/// by a canonical failing expression.
pub fn reduce(e: &Expr, b: &Bindings) -> (r: Reduced)
    ensures
        reduced_matches(r, *e, *b),
    decreases *e,
{
    match e {
        Expr::Lit(v) => Reduced::Known(v.duplicate()),
        Expr::PrincipalRef => Reduced::Known(Value::Ent(b.principal.uid.duplicate())),
        Expr::ResourceRef => match &b.resource {
            Option::Some(res) => Reduced::Known(Value::Ent(res.uid.duplicate())),
            Option::None => Reduced::Open(Expr::ResourceRef),
        },
        Expr::PrincipalAttr(n) => match lookup_value(&b.principal.attrs, n) {
            Option::Some(v) => Reduced::Known(v),
            Option::None => Reduced::Failed,
        },
        Expr::ResourceAttr(n) => match &b.resource {
            Option::Some(res) => match lookup_value(&res.attrs, n) {
                Option::Some(v) => Reduced::Known(v),
                Option::None => Reduced::Failed,
            },
            Option::None => Reduced::Open(Expr::ResourceAttr(n.clone())),
        },
        Expr::ContextAttr(n) => match lookup_value(&b.context, n) {
            Option::Some(v) => Reduced::Known(v),
            Option::None => Reduced::Failed,
        },
        Expr::Unknown(n) => Reduced::Open(Expr::Unknown(n.clone())),
        Expr::Eq(l, r) => {
            let ra = reduce(l, b);
            let rc = reduce(r, b);
            let out = combine_eq(ra, rc, Ghost(**l), Ghost(**r), Ghost(*b));
            proof {
                assert(Expr::Eq(Box::new(**l), Box::new(**r)) == *e);
            }
            out
        },
        Expr::In(l, r) => {
            let ra = reduce(l, b);
            let rc = reduce(r, b);
            let out = combine_in(ra, rc, Ghost(**l), Ghost(**r), Ghost(*b));
            proof {
                assert(Expr::In(Box::new(**l), Box::new(**r)) == *e);
            }
            out
        },
        Expr::And(l, r) => {
            let ra = reduce(l, b);
            let rc = reduce(r, b);
            let out = combine_and(ra, rc, Ghost(**l), Ghost(**r), Ghost(*b));
            proof {
                assert(Expr::And(Box::new(**l), Box::new(**r)) == *e);
            }
            out
        },
        Expr::Or(l, r) => {
            let ra = reduce(l, b);
            let rc = reduce(r, b);
            let out = combine_or(ra, rc, Ghost(**l), Ghost(**r), Ghost(*b));
            proof {
                assert(Expr::Or(Box::new(**l), Box::new(**r)) == *e);
            }
            out
        },
    }
}

} // verus!
