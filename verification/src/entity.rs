//! Entities: typed, identified objects with attributes and parent
//! memberships, and the cycle-safe traversal of the membership graph.

use vstd::prelude::*;
use vstd::set_lib::lemma_len_subset;
use vstd::seq_lib::seq_to_set_is_finite;

verus! {

broadcast use seq_to_set_is_finite;

/// A (type-name, id-string) pair, unique within its type.
#[derive(Debug, PartialEq, Eq)]
pub struct EntityId {
    pub ty: String,
    pub eid: String,
}

/// Mathematical image of an `EntityId`: both components as character
/// sequences.
pub ghost struct EntityIdV {
    pub ty: Seq<char>,
    pub eid: Seq<char>,
}

impl View for EntityId {
    type V = EntityIdV;

    open spec fn view(&self) -> EntityIdV {
        EntityIdV { ty: self.ty@, eid: self.eid@ }
    }
}

impl EntityId {
    pub fn new(ty: String, eid: String) -> (r: EntityId)
        ensures
            r@.ty == ty@ && r@.eid == eid@,
    {
        EntityId { ty, eid }
    }

    /// Equality of entity ids, decided on both components.
    pub fn eq_id(&self, other: &EntityId) -> (r: bool)
        ensures
            r == (self@ == other@),
    {
        let r = self.ty == other.ty && self.eid == other.eid;
        proof {
            if self@ == other@ {
                assert(self.ty@ == other.ty@ && self.eid@ == other.eid@);
            }
        }
        r
    }

    /// A fresh copy equal to `self`.
    pub fn duplicate(&self) -> (r: EntityId)
        ensures
            r == *self,
    {
        EntityId { ty: self.ty.clone(), eid: self.eid.clone() }
    }
}

/// A scalar or structured attribute value.
#[derive(Debug, PartialEq, Eq)]
pub enum Value {
    Bool(bool),
    Int(i64),
    Str(String),
    Ent(EntityId),
    /// A list of entity references; order is kept, equality is pointwise.
    EntSet(Vec<EntityId>),
}

pub ghost enum ValueV {
    Bool(bool),
    Int(int),
    Str(Seq<char>),
    Ent(EntityIdV),
    EntSet(Seq<EntityIdV>),
}

/// The views of a sequence of entity ids.
pub open spec fn id_views(s: Seq<EntityId>) -> Seq<EntityIdV> {
    s.map_values(|e: EntityId| e@)
}

impl View for Value {
    type V = ValueV;

    open spec fn view(&self) -> ValueV {
        match self {
            Value::Bool(b) => ValueV::Bool(*b),
            Value::Int(i) => ValueV::Int(*i as int),
            Value::Str(s) => ValueV::Str(s@),
            Value::Ent(e) => ValueV::Ent(e@),
            Value::EntSet(v) => ValueV::EntSet(id_views(v@)),
        }
    }
}

impl Value {
    /// A fresh copy with the same view as `self`.
    pub fn duplicate(&self) -> (r: Value)
        ensures
            r@ == self@,
    {
        match self {
            Value::Bool(b) => Value::Bool(*b),
            Value::Int(i) => Value::Int(*i),
            Value::Str(s) => Value::Str(s.clone()),
            Value::Ent(e) => Value::Ent(e.duplicate()),
            Value::EntSet(v) => {
                let mut out: Vec<EntityId> = Vec::new();
                let mut i: usize = 0;
                while i < v.len()
                    invariant
                        i <= v.len(),
                        out@.len() == i as int,
                        forall|k: int| 0 <= k < i as int ==> out@[k] == v@[k],
                    decreases v.len() - i,
                {
                    out.push(v[i].duplicate());
                    i = i + 1;
                }
                proof {
                    assert(out@ =~= v@);
                }
                Value::EntSet(out)
            },
        }
    }
}

/// An entity: an id, an attribute mapping (first entry with a name wins),
/// and the ids of the entities it is a member of.
#[derive(Debug)]
pub struct Entity {
    pub uid: EntityId,
    pub attrs: Vec<(String, Value)>,
    pub parents: Vec<EntityId>,
}

pub ghost struct EntityV {
    pub uid: EntityIdV,
    pub attrs: Seq<(Seq<char>, ValueV)>,
    pub parents: Seq<EntityIdV>,
}

impl View for Entity {
    type V = EntityV;

    open spec fn view(&self) -> EntityV {
        EntityV {
            uid: self.uid@,
            attrs: self.attrs@.map_values(|p: (String, Value)| (p.0@, p.1@)),
            parents: id_views(self.parents@),
        }
    }
}

/// First-match lookup of an attribute by name.
pub open spec fn lookup_attr(attrs: Seq<(String, Value)>, name: Seq<char>) -> Option<ValueV>
    decreases attrs.len(),
{
    if attrs.len() == 0 {
        None
    } else if attrs[0].0@ == name {
        Some(attrs[0].1@)
    } else {
        lookup_attr(attrs.drop_first(), name)
    }
}

pub proof fn lemma_lookup_skip(attrs: Seq<(String, Value)>, name: Seq<char>, i: int)
    requires
        0 <= i <= attrs.len(),
        forall|j: int| 0 <= j < i ==> attrs[j].0@ != name,
    ensures
        lookup_attr(attrs, name) == lookup_attr(attrs.skip(i), name),
    decreases i,
{
    if i > 0 {
        assert(attrs.drop_first() =~= attrs.skip(1));
        lemma_lookup_skip(attrs.skip(1), name, i - 1);
        assert(attrs.skip(1).skip(i - 1) =~= attrs.skip(i));
    } else {
        assert(attrs.skip(0) =~= attrs);
    }
}

/// First-match lookup in a name/value list, as `lookup_attr` states it.
pub fn lookup_value(attrs: &Vec<(String, Value)>, name: &String) -> (r: Option<Value>)
    ensures
        match r {
            Some(v) => lookup_attr(attrs@, name@) == Some(v@),
            None => lookup_attr(attrs@, name@) is None,
        },
{
    let mut i: usize = 0;
    while i < attrs.len()
        invariant
            i <= attrs.len(),
            forall|j: int| 0 <= j < i as int ==> attrs@[j].0@ != name@,
        decreases attrs.len() - i,
    {
        if attrs[i].0 == *name {
            let v = attrs[i].1.duplicate();
            proof {
                lemma_lookup_skip(attrs@, name@, i as int);
                assert(attrs@.skip(i as int)[0] == attrs@[i as int]);
            }
            return Some(v);
        }
        i = i + 1;
    }
    proof {
        lemma_lookup_skip(attrs@, name@, attrs@.len() as int);
        assert(attrs@.skip(attrs@.len() as int).len() == 0);
    }
    None
}

impl Entity {
    /// Looks an attribute up by name; the first entry with that name wins.
    pub fn get_attr(&self, name: &String) -> (r: Option<Value>)
        ensures
            match r {
                Some(v) => lookup_attr(self.attrs@, name@) == Some(v@),
                None => lookup_attr(self.attrs@, name@) is None,
            },
    {
        lookup_value(&self.attrs, name)
    }

    /// A fresh entity with the same view as `self`.
    pub fn duplicate(&self) -> (r: Entity)
        ensures
            r@ == self@,
    {
        let mut attrs: Vec<(String, Value)> = Vec::new();
        let mut i: usize = 0;
        while i < self.attrs.len()
            invariant
                i <= self.attrs.len(),
                attrs@.len() == i as int,
                forall|k: int| 0 <= k < i as int ==> #[trigger] attrs@[k].0@ == self.attrs@[k].0@
                    && attrs@[k].1@ == self.attrs@[k].1@,
            decreases self.attrs.len() - i,
        {
            attrs.push((self.attrs[i].0.clone(), self.attrs[i].1.duplicate()));
            i = i + 1;
        }
        let mut parents: Vec<EntityId> = Vec::new();
        let mut j: usize = 0;
        while j < self.parents.len()
            invariant
                j <= self.parents.len(),
                parents@.len() == j as int,
                forall|k: int| 0 <= k < j as int ==> parents@[k] == self.parents@[k],
            decreases self.parents.len() - j,
        {
            parents.push(self.parents[j].duplicate());
            j = j + 1;
        }
        let r = Entity { uid: self.uid.duplicate(), attrs, parents };
        proof {
            assert(parents@ =~= self.parents@);
            assert(r@.attrs =~= self@.attrs);
            assert(r@ == self@);
        }
        r
    }
}

/// Does some stored entity with id `a` list `b` among its parents?
pub open spec fn has_edge(store: Seq<Entity>, a: EntityIdV, b: EntityIdV) -> bool {
    exists|j: int, k: int|
        0 <= j < store.len() && 0 <= k < store[j].parents@.len() && store[j].uid@ == a
            && store[j].parents@[k]@ == b
}

/// A non-empty sequence of ids whose consecutive elements are linked by
/// membership edges.
pub open spec fn is_path(store: Seq<Entity>, p: Seq<EntityIdV>) -> bool {
    forall|i: int| 0 <= i < p.len() - 1 ==> has_edge(store, #[trigger] p[i], p[i + 1])
}

/// `b` is reachable from `a` along membership edges (reflexively).
pub open spec fn reachable(store: Seq<Entity>, a: EntityIdV, b: EntityIdV) -> bool {
    exists|p: Seq<EntityIdV>| p.len() >= 1 && p[0] == a && p.last() == b && is_path(store, p)
}

pub proof fn lemma_reachable_refl(store: Seq<Entity>, a: EntityIdV)
    ensures
        reachable(store, a, a),
{
    let p = seq![a];
    assert(p.len() >= 1 && p[0] == a && p.last() == a && is_path(store, p));
}

pub proof fn lemma_reachable_step(store: Seq<Entity>, a: EntityIdV, b: EntityIdV, c: EntityIdV)
    requires
        reachable(store, a, b),
        has_edge(store, b, c),
    ensures
        reachable(store, a, c),
{
    let p = choose|p: Seq<EntityIdV>| p.len() >= 1 && p[0] == a && p.last() == b && is_path(
        store,
        p,
    );
    let q = p.push(c);
    assert(q[p.len() - 1] == b);
    assert forall|i: int| 0 <= i < q.len() - 1 implies #[trigger] has_edge(store, q[i], q[i + 1]) by {
        if i < p.len() - 1 {
            assert(q[i] == p[i] && q[i + 1] == p[i + 1]);
        }
    }
    assert(q.len() >= 1 && q[0] == a && q.last() == c && is_path(store, q));
}

/// Does the sequence hold an id with this view?
pub open spec fn contains_id(s: Seq<EntityId>, v: EntityIdV) -> bool {
    exists|i: int| 0 <= i < s.len() && s[i]@ == v
}

/// Every parent of `ent` appears in `s`.
pub open spec fn covers_entity_parents(ent: Entity, s: Seq<EntityId>) -> bool {
    forall|k: int| 0 <= k < ent.parents@.len() ==> contains_id(s, ent.parents@[k]@)
}

/// Every edge out of `a` leads into `s`.
pub open spec fn edges_covered(store: Seq<Entity>, a: EntityIdV, s: Seq<EntityId>) -> bool {
    forall|j: int|
        0 <= j < store.len() && (#[trigger] store[j]).uid@ == a ==> covers_entity_parents(
            store[j],
            s,
        )
}

/// A set of ids that contains the start id and is closed under edges
/// contains everything reachable from the start.
proof fn lemma_path_stays(store: Seq<Entity>, vis: Seq<EntityId>, p: Seq<EntityIdV>)
    requires
        is_path(store, p),
        p.len() >= 1,
        contains_id(vis, p[0]),
        forall|i: int|
            0 <= i < vis.len() ==> edges_covered(store, (#[trigger] vis[i])@, vis),
    ensures
        contains_id(vis, p.last()),
    decreases p.len(),
{
    if p.len() > 1 {
        assert(has_edge(store, p[0], p[1]));
        let (j, k) = choose|j: int, k: int|
            0 <= j < store.len() && 0 <= k < store[j].parents@.len() && store[j].uid@ == p[0]
                && store[j].parents@[k]@ == p[1];
        let i = choose|i: int| 0 <= i < vis.len() && vis[i]@ == p[0];
        assert(edges_covered(store, vis[i]@, vis));
        assert(covers_entity_parents(store[j], vis));
        assert(contains_id(vis, store[j].parents@[k]@));
        let q = p.drop_first();
        assert(q[0] == p[1] && q.last() == p.last());
        assert forall|i2: int| 0 <= i2 < q.len() - 1 implies #[trigger] has_edge(store, q[i2], q[i2 + 1]) by {
            assert(q[i2] == p[i2 + 1] && q[i2 + 1] == p[i2 + 2]);
        }
        lemma_path_stays(store, vis, q);
    }
}

/// All parent ids that occur anywhere in the store.
pub open spec fn all_parent_views(store: Seq<Entity>) -> Seq<EntityIdV>
    decreases store.len(),
{
    if store.len() == 0 {
        Seq::empty()
    } else {
        all_parent_views(store.drop_last()) + id_views(store.last().parents@)
    }
}

proof fn lemma_parent_in_all(store: Seq<Entity>, j: int, k: int)
    requires
        0 <= j < store.len(),
        0 <= k < store[j].parents@.len(),
    ensures
        all_parent_views(store).contains(store[j].parents@[k]@),
    decreases store.len(),
{
    if j == store.len() - 1 {
        let pre = all_parent_views(store.drop_last());
        let suf = id_views(store.last().parents@);
        assert(suf[k] == store[j].parents@[k]@);
        assert(all_parent_views(store)[pre.len() + k] == suf[k]);
    } else {
        lemma_parent_in_all(store.drop_last(), j, k);
        let pre = all_parent_views(store.drop_last());
        let i = choose|i: int| 0 <= i < pre.len() && pre[i] == store[j].parents@[k]@;
        assert(all_parent_views(store)[i] == pre[i]);
    }
}

/// Every id the traversal can ever record: the start id and every parent id
/// in the store.
pub open spec fn traversal_candidates(store: Seq<Entity>, from: EntityIdV) -> Set<EntityIdV> {
    all_parent_views(store).to_set().insert(from)
}

proof fn lemma_id_views_contains(s: Seq<EntityId>, v: EntityIdV)
    ensures
        id_views(s).to_set().contains(v) == contains_id(s, v),
{
    if contains_id(s, v) {
        let i = choose|i: int| 0 <= i < s.len() && s[i]@ == v;
        assert(id_views(s)[i] == v);
        assert(id_views(s).contains(v));
    }
    if id_views(s).to_set().contains(v) {
        let i = choose|i: int| 0 <= i < id_views(s).len() && id_views(s)[i] == v;
        assert(s[i]@ == v);
    }
}

pub fn vec_contains_id(v: &Vec<EntityId>, x: &EntityId) -> (r: bool)
    ensures
        r == contains_id(v@, x@),
{
    let mut i: usize = 0;
    while i < v.len()
        invariant
            i <= v.len(),
            forall|j: int| 0 <= j < i as int ==> v@[j]@ != x@,
        decreases v.len() - i,
    {
        if v[i].eq_id(x) {
            return true;
        }
        i = i + 1;
    }
    false
}

proof fn lemma_contains_id_grow(s: Seq<EntityId>, t: Seq<EntityId>, v: EntityIdV)
    requires
        contains_id(s, v),
        s.len() <= t.len(),
        forall|i: int| 0 <= i < s.len() ==> t[i] == s[i],
    ensures
        contains_id(t, v),
{
    let i = choose|i: int| 0 <= i < s.len() && s[i]@ == v;
    assert(t[i]@ == v);
}

proof fn lemma_covers_grow(ent: Entity, s: Seq<EntityId>, t: Seq<EntityId>)
    requires
        covers_entity_parents(ent, s),
        s.len() <= t.len(),
        forall|i: int| 0 <= i < s.len() ==> t[i] == s[i],
    ensures
        covers_entity_parents(ent, t),
{
    assert forall|k: int| 0 <= k < ent.parents@.len() implies contains_id(
        t,
        (#[trigger] ent.parents@[k])@,
    ) by {
        lemma_contains_id_grow(s, t, ent.parents@[k]@);
    }
}

proof fn lemma_edges_covered_grow(store: Seq<Entity>, a: EntityIdV, s: Seq<EntityId>, t: Seq<EntityId>)
    requires
        edges_covered(store, a, s),
        s.len() <= t.len(),
        forall|i: int| 0 <= i < s.len() ==> t[i] == s[i],
    ensures
        edges_covered(store, a, t),
{
    assert forall|j: int|
        0 <= j < store.len() && (#[trigger] store[j]).uid@ == a implies covers_entity_parents(
        store[j],
        t,
    ) by {
        lemma_covers_grow(store[j], s, t);
    }
}

/// Is the entity with id `to` an ancestor (through any number of membership
/// edges, reflexively) of the entity with id `from`?
///
/// The membership graph may contain cycles; the traversal keeps a visited
/// set and terminates regardless of how the entities are linked.
pub fn is_descendant(store: &Vec<Entity>, from: &EntityId, to: &EntityId) -> (r: bool)
    ensures
        r == reachable(store@, from@, to@),
{
    if from.eq_id(to) {
        proof {
            lemma_reachable_refl(store@, from@);
        }
        return true;
    }
    let mut visited: Vec<EntityId> = Vec::new();
    visited.push(from.duplicate());
    let mut frontier: Vec<EntityId> = Vec::new();
    frontier.push(from.duplicate());
    proof {
        lemma_reachable_refl(store@, from@);
        assert(visited@[0]@ == from@);
        assert(frontier@[0]@ == from@);
        assert(contains_id(visited@, from@));
        assert(contains_id(frontier@, visited@[0]@));
        assert(traversal_candidates(store@, from@).contains(from@));
    }
    while frontier.len() > 0
        invariant
            contains_id(visited@, from@),
            forall|m: int|
                0 <= m < visited@.len() ==> reachable(store@, from@, (#[trigger] visited@[m])@),
            forall|m: int|
                0 <= m < frontier@.len() ==> contains_id(visited@, (#[trigger] frontier@[m])@),
            forall|m1: int, m2: int|
                0 <= m1 < m2 < visited@.len() ==> visited@[m1]@ != visited@[m2]@,
            forall|m: int|
                0 <= m < visited@.len() ==> contains_id(frontier@, (#[trigger] visited@[m])@)
                    || edges_covered(store@, visited@[m]@, visited@),
            forall|m: int|
                0 <= m < visited@.len() ==> traversal_candidates(store@, from@).contains(
                    (#[trigger] visited@[m])@,
                ),
            !contains_id(visited@, to@),
        decreases
            traversal_candidates(store@, from@).len() - id_views(visited@).to_set().len(),
            frontier@.len(),
    {
        proof {
            let vis_set = id_views(visited@).to_set();
            assert forall|v: EntityIdV| vis_set.contains(v) implies traversal_candidates(
                store@,
                from@,
            ).contains(v) by {
                lemma_id_views_contains(visited@, v);
            }
            lemma_len_subset(vis_set, traversal_candidates(store@, from@));
        }
        let ghost old_visited = visited@;
        let ghost old_frontier = frontier@;
        let cur = frontier.pop().unwrap();
        let ghost cur_view = cur@;
        proof {
            assert(old_frontier[old_frontier.len() - 1] == cur);
            assert(contains_id(old_visited, cur_view));
            // Coverage survives the pop: an id whose only frontier slot was
            // the popped one has the popped id's view, that is, it is `cur`.
            assert forall|m: int| 0 <= m < visited@.len() implies contains_id(
                frontier@,
                (#[trigger] visited@[m])@,
            ) || edges_covered(store@, visited@[m]@, visited@) || visited@[m]@ == cur_view by {
                if contains_id(old_frontier, visited@[m]@) && visited@[m]@ != cur_view {
                    let i = choose|i: int|
                        0 <= i < old_frontier.len() && old_frontier[i]@ == visited@[m]@;
                    assert(frontier@[i]@ == visited@[m]@);
                }
            }
        }
        let mut j: usize = 0;
        while j < store.len()
            invariant
                contains_id(visited@, from@),
                contains_id(visited@, cur_view),
                reachable(store@, from@, cur_view),
                forall|m: int|
                    0 <= m < visited@.len() ==> reachable(store@, from@, (#[trigger] visited@[m])@),
                forall|m: int|
                    0 <= m < frontier@.len() ==> contains_id(visited@, (#[trigger] frontier@[m])@),
                forall|m1: int, m2: int|
                    0 <= m1 < m2 < visited@.len() ==> visited@[m1]@ != visited@[m2]@,
                forall|m: int|
                    0 <= m < visited@.len() ==> contains_id(frontier@, (#[trigger] visited@[m])@)
                        || edges_covered(store@, visited@[m]@, visited@) || visited@[m]@
                        == cur_view,
                forall|m: int|
                    0 <= m < visited@.len() ==> traversal_candidates(store@, from@).contains(
                        (#[trigger] visited@[m])@,
                    ),
                !contains_id(visited@, to@),
                cur@ == cur_view,
                j <= store.len(),
                forall|j2: int|
                    0 <= j2 < j as int && (#[trigger] store@[j2]).uid@ == cur_view
                        ==> covers_entity_parents(store@[j2], visited@),
                old_visited.len() <= visited@.len(),
                forall|m: int| 0 <= m < old_visited.len() ==> visited@[m] == old_visited[m],
                frontier@.len() - visited@.len() == old_frontier.len() - 1 - old_visited.len(),
            decreases store.len() - j,
        {
            if store[j].uid.eq_id(&cur) {
                proof {
                    assert(store@[j as int].uid@ == cur_view);
                }
                let mut k: usize = 0;
                while k < store[j].parents.len()
                    invariant
                        contains_id(visited@, from@),
                        contains_id(visited@, cur_view),
                        reachable(store@, from@, cur_view),
                        forall|m: int|
                            0 <= m < visited@.len() ==> reachable(
                                store@,
                                from@,
                                (#[trigger] visited@[m])@,
                            ),
                        forall|m: int|
                            0 <= m < frontier@.len() ==> contains_id(
                                visited@,
                                (#[trigger] frontier@[m])@,
                            ),
                        forall|m1: int, m2: int|
                            0 <= m1 < m2 < visited@.len() ==> visited@[m1]@ != visited@[m2]@,
                        forall|m: int|
                            0 <= m < visited@.len() ==> contains_id(
                                frontier@,
                                (#[trigger] visited@[m])@,
                            ) || edges_covered(store@, visited@[m]@, visited@) || visited@[m]@
                                == cur_view,
                        forall|m: int|
                            0 <= m < visited@.len() ==> traversal_candidates(store@, from@).contains(
                                (#[trigger] visited@[m])@,
                            ),
                        !contains_id(visited@, to@),
                        cur@ == cur_view,
                        j < store.len(),
                        store@[j as int].uid@ == cur_view,
                        forall|j2: int|
                            0 <= j2 < j as int && (#[trigger] store@[j2]).uid@ == cur_view
                                ==> covers_entity_parents(store@[j2], visited@),
                        k <= store@[j as int].parents@.len(),
                        forall|m: int|
                            0 <= m < k as int ==> contains_id(
                                visited@,
                                (#[trigger] store@[j as int].parents@[m])@,
                            ),
                        old_visited.len() <= visited@.len(),
                        forall|m: int| 0 <= m < old_visited.len() ==> visited@[m] == old_visited[m],
                        frontier@.len() - visited@.len() == old_frontier.len() - 1
                            - old_visited.len(),
                    decreases store@[j as int].parents@.len() - k,
                {
                    let ghost pre_v = visited@;
                    let ghost pre_f = frontier@;
                    let p = &store[j].parents[k];
                    proof {
                        assert(has_edge(store@, cur_view, p@));
                        lemma_reachable_step(store@, from@, cur_view, p@);
                        lemma_parent_in_all(store@, j as int, k as int);
                    }
                    if p.eq_id(to) {
                        return true;
                    }
                    if !vec_contains_id(&visited, p) {
                        visited.push(p.duplicate());
                        frontier.push(p.duplicate());
                        proof {
                            let nv = visited@;
                            let nf = frontier@;
                            assert(nv[nv.len() - 1]@ == p@);
                            assert(nf[nf.len() - 1]@ == p@);
                            assert forall|m: int| 0 <= m < nf.len() implies contains_id(
                                nv,
                                (#[trigger] nf[m])@,
                            ) by {
                                if m < nf.len() - 1 {
                                    lemma_contains_id_grow(pre_v, nv, nf[m]@);
                                } else {
                                    assert(nv[nv.len() - 1]@ == nf[m]@);
                                }
                            }
                            assert forall|m: int| 0 <= m < nv.len() implies contains_id(
                                nf,
                                (#[trigger] nv[m])@,
                            ) || edges_covered(store@, nv[m]@, nv) || nv[m]@ == cur_view by {
                                if m < nv.len() - 1 {
                                    if contains_id(pre_f, pre_v[m]@) {
                                        lemma_contains_id_grow(pre_f, nf, nv[m]@);
                                    } else if edges_covered(store@, pre_v[m]@, pre_v) {
                                        lemma_edges_covered_grow(store@, pre_v[m]@, pre_v, nv);
                                    }
                                } else {
                                    assert(nf[nf.len() - 1]@ == nv[m]@);
                                }
                            }
                            assert forall|j2: int|
                                0 <= j2 < j as int && (#[trigger] store@[j2]).uid@
                                    == cur_view implies covers_entity_parents(store@[j2], nv) by {
                                lemma_covers_grow(store@[j2], pre_v, nv);
                            }
                            assert forall|m: int| 0 <= m < k as int + 1 implies contains_id(
                                nv,
                                (#[trigger] store@[j as int].parents@[m])@,
                            ) by {
                                if m < k as int {
                                    lemma_contains_id_grow(
                                        pre_v,
                                        nv,
                                        store@[j as int].parents@[m]@,
                                    );
                                } else {
                                    assert(nv[nv.len() - 1]@ == store@[j as int].parents@[m]@);
                                }
                            }
                            lemma_contains_id_grow(pre_v, nv, from@);
                            lemma_contains_id_grow(pre_v, nv, cur_view);
                        }
                    }
                    k = k + 1;
                }
                proof {
                    assert(covers_entity_parents(store@[j as int], visited@));
                }
            }
            j = j + 1;
        }
        proof {
            assert(edges_covered(store@, cur_view, visited@)) by {
                assert forall|j2: int|
                    0 <= j2 < store@.len() && (#[trigger] store@[j2]).uid@
                        == cur_view implies covers_entity_parents(store@[j2], visited@) by {}
            }
            assert forall|m: int| 0 <= m < visited@.len() implies contains_id(
                frontier@,
                (#[trigger] visited@[m])@,
            ) || edges_covered(store@, visited@[m]@, visited@) by {
                if visited@[m]@ == cur_view {
                }
            }
            // Termination: either a new id entered the visited set, or the
            // frontier shrank while the visited set stood still.
            let vis_set_old = id_views(old_visited).to_set();
            let vis_set_new = id_views(visited@).to_set();
            if visited@.len() == old_visited.len() {
                assert(visited@ =~= old_visited);
            } else {
                let added = visited@[old_visited.len() as int];
                assert forall|v: EntityIdV| vis_set_old.contains(v) implies vis_set_new.contains(
                    v,
                ) by {
                    lemma_id_views_contains(old_visited, v);
                    let i = choose|i: int| 0 <= i < old_visited.len() && old_visited[i]@ == v;
                    assert(visited@[i]@ == v);
                    lemma_id_views_contains(visited@, v);
                }
                assert(!contains_id(old_visited, added@)) by {
                    if contains_id(old_visited, added@) {
                        let i = choose|i: int|
                            0 <= i < old_visited.len() && old_visited[i]@ == added@;
                        assert(visited@[i]@ == visited@[old_visited.len() as int]@);
                    }
                }
                lemma_id_views_contains(old_visited, added@);
                lemma_id_views_contains(visited@, added@);
                assert(vis_set_new.contains(added@) && !vis_set_old.contains(added@));
                lemma_len_subset(vis_set_old, vis_set_new);
                assert(vis_set_old.len() < vis_set_new.len()) by {
                    if vis_set_old.len() == vis_set_new.len() {
                        assert(vis_set_old.insert(added@).subset_of(vis_set_new));
                        lemma_len_subset(vis_set_old.insert(added@), vis_set_new);
                        assert(vis_set_old.insert(added@).len() == vis_set_old.len() + 1);
                    }
                }
                assert forall|v: EntityIdV| vis_set_new.contains(v) implies traversal_candidates(
                    store@,
                    from@,
                ).contains(v) by {
                    lemma_id_views_contains(visited@, v);
                }
                lemma_len_subset(vis_set_new, traversal_candidates(store@, from@));
            }
        }
    }
    proof {
        assert forall|i: int| 0 <= i < visited@.len() implies edges_covered(
            store@,
            (#[trigger] visited@[i])@,
            visited@,
        ) by {
            assert(!contains_id(frontier@, visited@[i]@));
        }
        if reachable(store@, from@, to@) {
            let p = choose|p: Seq<EntityIdV>|
                p.len() >= 1 && p[0] == from@ && p.last() == to@ && is_path(store@, p);
            lemma_path_stays(store@, visited@, p);
        }
    }
    false
}

} // verus!
