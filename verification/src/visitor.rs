//! Post-order walks over the objects of the `components` and `paths` of a document, with
//! visitors whose state is followed through the walk.
use vstd::prelude::*;
use crate::document::{DocumentV, OpenApiTopLevel};
use crate::yaml::{
    as_map, as_mapping, has_key, items_view, lemma_entries_view, lemma_items_view,
    lemma_key_index, map_get, map_insert, with_map, yaml_view, MapV, Mapping, Yaml, YamlV,
};

verus! {

/// Something that is handed the objects of a document one at a time, may rewrite each, and
/// keeps a state; its view is that state.
pub trait ObjectVisitor: View {
    /// What a visit in state `state` makes of an object.
    spec fn rewrite(state: Self::V, object: YamlV) -> YamlV;

    /// The state after a visit in state `state` to an object.
    spec fn after(state: Self::V, object: YamlV) -> Self::V;

    /// Visits one object, in place.
    fn visit(&mut self, object: &mut Yaml)
        ensures
            final(object)@ == Self::rewrite(old(self)@, old(object)@),
            final(self)@ == Self::after(old(self)@, old(object)@),
    ;
}

/// Something that is handed mappings one at a time, may rewrite each, and keeps a state; its
/// view is that state.
pub trait MappingVisitor: View {
    /// What a visit in state `state` makes of a mapping.
    spec fn rewrite_mapping(state: Self::V, m: MapV) -> MapV;

    /// The state after a visit in state `state` to a mapping.
    spec fn after_mapping(state: Self::V, m: MapV) -> Self::V;

    /// Visits one mapping, in place.
    fn visit_mapping(&mut self, m: &mut Mapping)
        ensures
            final(m)@ == Self::rewrite_mapping(old(self)@, old(m)@),
            final(self)@ == Self::after_mapping(old(self)@, old(m)@),
    ;
}

/// A value with every value below it walked, from state `st`: the values of a mapping in
/// order and the items of a sequence in order, under any tags; the value itself is not
/// visited. Gives the new value and the visitor's state after.
pub open spec fn walk_children<V: ObjectVisitor>(st: V::V, v: YamlV) -> (YamlV, V::V)
    decreases v,
{
    match v {
        YamlV::Tagged(t, b) => {
            let r = walk_children::<V>(st, *b);
            (YamlV::Tagged(t, Box::new(r.0)), r.1)
        },
        YamlV::Sequence(s) => {
            let r = walk_items::<V>(st, s);
            (YamlV::Sequence(r.0), r.1)
        },
        YamlV::Mapping(m) => {
            let r = walk_entries::<V>(st, m);
            (YamlV::Mapping(r.0), r.1)
        },
        _ => (v, st),
    }
}

/// Each item walked in turn: its children first, then the item itself visited.
pub open spec fn walk_items<V: ObjectVisitor>(st: V::V, s: Seq<YamlV>) -> (Seq<YamlV>, V::V)
    decreases s,
{
    if s.len() == 0 {
        (Seq::empty(), st)
    } else {
        let p = walk_items::<V>(st, s.subrange(0, s.len() - 1));
        let c = walk_children::<V>(p.1, s[s.len() - 1]);
        (p.0.push(V::rewrite(c.1, c.0)), V::after(c.1, c.0))
    }
}

/// Each value of a mapping walked in turn; the keys stay.
pub open spec fn walk_entries<V: ObjectVisitor>(st: V::V, m: MapV) -> (MapV, V::V)
    decreases m,
{
    if m.len() == 0 {
        (Seq::empty(), st)
    } else {
        let p = walk_entries::<V>(st, m.subrange(0, m.len() - 1));
        let c = walk_children::<V>(p.1, m[m.len() - 1].1);
        (p.0.push((m[m.len() - 1].0, V::rewrite(c.1, c.0))), V::after(c.1, c.0))
    }
}

/// A value walked: its children, then the value itself.
pub open spec fn walk<V: ObjectVisitor>(st: V::V, v: YamlV) -> (YamlV, V::V) {
    let c = walk_children::<V>(st, v);
    (V::rewrite(c.1, c.0), V::after(c.1, c.0))
}

/// The values of an optional mapping walked.
pub open spec fn walk_opt_entries<V: ObjectVisitor>(st: V::V, m: Option<MapV>) -> (
    Option<MapV>,
    V::V,
) {
    match m {
        Some(m) => {
            let r = walk_entries::<V>(st, m);
            (Some(r.0), r.1)
        },
        None => (None, st),
    }
}

/// A document with every value of `components`, then every value of `paths`, walked; and the
/// visitor's state after.
pub open spec fn walk_document<V: ObjectVisitor>(st: V::V, d: DocumentV) -> (DocumentV, V::V) {
    let c = walk_opt_entries::<V>(st, d.components);
    let p = walk_opt_entries::<V>(c.1, d.paths);
    (DocumentV { components: c.0, paths: p.0, ..d }, p.1)
}

/// Walks one value: its children first, then the value itself is visited.
fn walk_object_inner<V: ObjectVisitor>(object: &mut Yaml, visitor: &mut V)
    ensures
        (final(object)@, final(visitor)@) == walk::<V>(old(visitor)@, old(object)@),
    decreases *old(object), 1nat,
{
    walk_children_of(object, visitor);
    visitor.visit(object);
}

/// Walks every value below `object`.
fn walk_children_of<V: ObjectVisitor>(object: &mut Yaml, visitor: &mut V)
    ensures
        (final(object)@, final(visitor)@) == walk_children::<V>(old(visitor)@, old(object)@),
    decreases *old(object), 0nat,
{
    let ghost start: Yaml = *object;
    match object {
        Yaml::Tagged(_, inner) => {
            walk_children_of(&mut **inner, visitor);
        },
        Yaml::Mapping(m) => {
            walk_mapping_values(m, visitor);
        },
        Yaml::Sequence(items) => {
            let ghost old_items = items@;
            let ghost old_v = items_view(old_items);
            let ghost st0 = visitor@;
            proof {
                lemma_items_view(old_items);
                let v0 = start->Sequence_0;
                assert forall|j: int| 0 <= j < old_items.len() implies decreases_to!(
                    start => #[trigger] old_items[j]) by {
                    assert(decreases_to!(start => v0));
                    assert(decreases_to!(v0 => v0[j]));
                }
                assert(old_v.subrange(0, 0) =~= Seq::<YamlV>::empty());
            }
            let n = items.len();
            let mut i: usize = 0;
            while i < n
                invariant
                    n == items@.len(),
                    n == old_items.len(),
                    old_v == items_view(old_items),
                    old_v.len() == n,
                    forall|j: int| 0 <= j < n ==> #[trigger] old_v[j] == yaml_view(old_items[j]),
                    0 <= i <= n,
                    start == *old(object),
                    forall|j: int| 0 <= j < n ==> decreases_to!(start => #[trigger] old_items[j]),
                    forall|j: int| i <= j < n ==> items@[j] == old_items[j],
                    walk_items::<V>(st0, old_v.subrange(0, i as int)).0.len() == i,
                    forall|j: int|
                        0 <= j < i ==> yaml_view(#[trigger] items@[j]) == walk_items::<V>(
                            st0,
                            old_v.subrange(0, i as int),
                        ).0[j],
                    visitor@ == walk_items::<V>(st0, old_v.subrange(0, i as int)).1,
                decreases n - i,
            {
                proof {
                    let s1 = old_v.subrange(0, i + 1);
                    assert(s1.subrange(0, i as int) =~= old_v.subrange(0, i as int));
                    assert(s1[i as int] == old_v[i as int]);
                }
                walk_object_inner(&mut items[i], visitor);
                i = i + 1;
            }
            proof {
                lemma_items_view(items@);
                assert(old_v.subrange(0, n as int) =~= old_v);
                assert(items_view(items@) =~= walk_items::<V>(st0, old_v).0);
            }
        },
        _ => {},
    }
}

/// Walks every value of a mapping, in order.
fn walk_mapping_values<V: ObjectVisitor>(m: &mut Mapping, visitor: &mut V)
    ensures
        (final(m)@, final(visitor)@) == walk_entries::<V>(old(visitor)@, old(m)@),
    decreases old(m).entries, 0nat,
{
    let ghost old_entries = m.entries@;
    let ghost old_v = m@;
    let ghost st0 = visitor@;
    let ghost start = m.entries;
    proof {
        lemma_entries_view(old_entries);
        assert forall|j: int| 0 <= j < old_entries.len() implies decreases_to!(
            start => (#[trigger] old_entries[j]).1) by {
            assert(decreases_to!(start => start[j]));
        }
        assert(old_v.subrange(0, 0) =~= Seq::<(YamlV, YamlV)>::empty());
    }
    let n = m.entries.len();
    let mut i: usize = 0;
    while i < n
        invariant
            n == m.entries@.len(),
            n == old_entries.len(),
            old_v.len() == n,
            forall|j: int|
                0 <= j < n ==> #[trigger] old_v[j] == (
                    yaml_view(old_entries[j].0),
                    yaml_view(old_entries[j].1),
                ),
            0 <= i <= n,
            start == old(m).entries,
            forall|j: int| 0 <= j < n ==> decreases_to!(start => (#[trigger] old_entries[j]).1),
            forall|j: int| i <= j < n ==> m.entries@[j] == old_entries[j],
            walk_entries::<V>(st0, old_v.subrange(0, i as int)).0.len() == i,
            forall|j: int|
                0 <= j < i ==> (yaml_view((#[trigger] m.entries@[j]).0), yaml_view(
                    m.entries@[j].1,
                )) == walk_entries::<V>(st0, old_v.subrange(0, i as int)).0[j],
            visitor@ == walk_entries::<V>(st0, old_v.subrange(0, i as int)).1,
        decreases n - i,
    {
        proof {
            let s1 = old_v.subrange(0, i + 1);
            assert(s1.subrange(0, i as int) =~= old_v.subrange(0, i as int));
            assert(s1[i as int] == old_v[i as int]);
        }
        walk_object_inner(&mut m.entries[i].1, visitor);
        i = i + 1;
    }
    proof {
        lemma_entries_view(m.entries@);
        assert(old_v.subrange(0, n as int) =~= old_v);
        assert(m@ =~= walk_entries::<V>(st0, old_v).0);
    }
}

/// Walks every value of `components`, then every value of `paths`, handing each object to
/// `visitor` after everything below it; gives the visitor back.
pub fn walk_objects<V: ObjectVisitor>(schema: &mut OpenApiTopLevel, visitor: V) -> (r: V)
    ensures
        (final(schema)@, r@) == walk_document::<V>(visitor@, old(schema)@),
{
    let mut visitor = visitor;
    match &mut schema.components {
        Some(components) => walk_mapping_values(components, &mut visitor),
        None => {},
    }
    match &mut schema.paths {
        Some(paths) => walk_mapping_values(paths, &mut visitor),
        None => {},
    }
    visitor
}


/// What a mapping visitor in state `st` makes of an object: the mapping under its tags
/// rewritten; any other value stays.
pub open spec fn rewrite_each_mapping<M: MappingVisitor>(st: M::V, object: YamlV) -> YamlV {
    match as_map(object) {
        Some(m) => with_map(object, M::rewrite_mapping(st, m)),
        None => object,
    }
}

/// The state of a mapping visitor after it is handed the mapping of an object, if any.
pub open spec fn after_each_mapping<M: MappingVisitor>(st: M::V, object: YamlV) -> M::V {
    match as_map(object) {
        Some(m) => M::after_mapping(st, m),
        None => st,
    }
}

/// Hands the mapping under the tags of `object`, if it holds one, to `visitor`.
pub fn visit_untagged_mapping<M: MappingVisitor>(object: &mut Yaml, visitor: &mut M)
    ensures
        final(object)@ == rewrite_each_mapping::<M>(old(visitor)@, old(object)@),
        final(visitor)@ == after_each_mapping::<M>(old(visitor)@, old(object)@),
    decreases *old(object),
{
    match object {
        Yaml::Tagged(_, inner) => visit_untagged_mapping(&mut **inner, visitor),
        Yaml::Mapping(m) => visitor.visit_mapping(m),
        _ => {},
    }
}

/// Hands every object that is a mapping (under its tags) to a mapping visitor.
pub struct EachMapping<M> {
    pub inner: M,
}

impl<M: View> View for EachMapping<M> {
    type V = M::V;

    open spec fn view(&self) -> M::V {
        self.inner@
    }
}

impl<M: MappingVisitor> ObjectVisitor for EachMapping<M> {
    open spec fn rewrite(st: M::V, object: YamlV) -> YamlV {
        rewrite_each_mapping::<M>(st, object)
    }

    open spec fn after(st: M::V, object: YamlV) -> M::V {
        after_each_mapping::<M>(st, object)
    }

    fn visit(&mut self, object: &mut Yaml) {
        visit_untagged_mapping(object, &mut self.inner);
    }
}

/// Whether an object is a mapping (under its tags) with a `$ref` key.
pub open spec fn is_ref_object(object: YamlV) -> bool {
    as_map(object) is Some && has_key(as_map(object).unwrap(), "$ref"@)
}

/// Hands the mappings that hold a `$ref` key to a mapping visitor.
pub struct RefObjects<M> {
    pub inner: M,
}

impl<M: View> View for RefObjects<M> {
    type V = M::V;

    open spec fn view(&self) -> M::V {
        self.inner@
    }
}

impl<M: MappingVisitor> ObjectVisitor for RefObjects<M> {
    open spec fn rewrite(st: M::V, object: YamlV) -> YamlV {
        if is_ref_object(object) {
            rewrite_each_mapping::<M>(st, object)
        } else {
            object
        }
    }

    open spec fn after(st: M::V, object: YamlV) -> M::V {
        if is_ref_object(object) {
            after_each_mapping::<M>(st, object)
        } else {
            st
        }
    }

    fn visit(&mut self, object: &mut Yaml) {
        let has_ref = match as_mapping(object) {
            Some(m) => m.contains_key("$ref"),
            None => false,
        };
        if has_ref {
            visit_untagged_mapping(object, &mut self.inner);
        }
    }
}

/// Each value of a mapping handed in turn to `V` from state `st`; the keys stay.
pub open spec fn visit_each_value<V: ObjectVisitor>(st: V::V, m: MapV) -> (MapV, V::V)
    decreases m.len(),
{
    if m.len() == 0 {
        (Seq::empty(), st)
    } else {
        let p = visit_each_value::<V>(st, m.subrange(0, m.len() - 1));
        let last = m[m.len() - 1];
        (p.0.push((last.0, V::rewrite(p.1, last.1))), V::after(p.1, last.1))
    }
}

/// `object` with the value under `key` (in the mapping under its tags) handed to `V`.
pub open spec fn visit_under_key_spec<V: ObjectVisitor>(st: V::V, object: YamlV, key: Seq<char>) -> (
    YamlV,
    V::V,
) {
    match as_map(object) {
        Some(m) => match map_get(m, key) {
            Some(s) => (with_map(object, map_insert(m, key, V::rewrite(st, s))), V::after(st, s)),
            None => (object, st),
        },
        None => (object, st),
    }
}

/// `object` with every value of the mapping under `key` handed in turn to `V`, where the value
/// under `key` is a mapping.
pub open spec fn visit_values_under_key_spec<V: ObjectVisitor>(
    st: V::V,
    object: YamlV,
    key: Seq<char>,
) -> (YamlV, V::V) {
    match as_map(object) {
        Some(m) => match map_get(m, key) {
            Some(s) => match as_map(s) {
                Some(sm) => {
                    let r = visit_each_value::<V>(st, sm);
                    (with_map(object, map_insert(m, key, with_map(s, r.0))), r.1)
                },
                None => (object, st),
            },
            None => (object, st),
        },
        None => (object, st),
    }
}

/// What the schema visitor does with an object: its `schema` value is handed to `V`, then
/// each value of its `schemas` mapping, in order.
pub open spec fn schema_object_step<V: ObjectVisitor>(st: V::V, object: YamlV) -> (YamlV, V::V) {
    let a = visit_under_key_spec::<V>(st, object, "schema"@);
    visit_values_under_key_spec::<V>(a.1, a.0, "schemas"@)
}

/// Visits the value under `key` in the mapping under the tags of `object`.
fn visit_under_key<V: ObjectVisitor>(object: &mut Yaml, key: &str, visitor: &mut V)
    ensures
        (final(object)@, final(visitor)@) == visit_under_key_spec::<V>(
            old(visitor)@,
            old(object)@,
            key@,
        ),
    decreases *old(object),
{
    match object {
        Yaml::Tagged(_, inner) => visit_under_key(&mut **inner, key, visitor),
        Yaml::Mapping(m) => {
            proof {
                lemma_entries_view(m.entries@);
                lemma_key_index(m@, key@);
            }
            let ghost old_m = m@;
            let ghost st0 = visitor@;
            match m.find(key) {
                Some(i) => {
                    visitor.visit(&mut m.entries[i].1);
                    proof {
                        lemma_entries_view(m.entries@);
                        assert(m@ =~= map_insert(old_m, key@, V::rewrite(st0, old_m[i as int].1)));
                    }
                },
                None => {},
            }
        },
        _ => {},
    }
}

/// Hands every value of the mapping under the tags of `object` to `visitor`, in order.
fn visit_values<V: ObjectVisitor>(object: &mut Yaml, visitor: &mut V)
    ensures
        match as_map(old(object)@) {
            Some(m) => {
                let r = visit_each_value::<V>(old(visitor)@, m);
                final(object)@ == with_map(old(object)@, r.0) && final(visitor)@ == r.1
            },
            None => final(object)@ == old(object)@ && final(visitor)@ == old(visitor)@,
        },
    decreases *old(object),
{
    match object {
        Yaml::Tagged(_, inner) => visit_values(&mut **inner, visitor),
        Yaml::Mapping(m) => {
            let ghost old_entries = m.entries@;
            let ghost old_v = m@;
            let ghost st0 = visitor@;
            proof {
                lemma_entries_view(old_entries);
                assert(old_v.subrange(0, 0) =~= Seq::<(YamlV, YamlV)>::empty());
            }
            let n = m.entries.len();
            let mut i: usize = 0;
            while i < n
                invariant
                    n == m.entries@.len(),
                    n == old_entries.len(),
                    old_v.len() == n,
                    forall|j: int|
                        0 <= j < n ==> #[trigger] old_v[j] == (
                            yaml_view(old_entries[j].0),
                            yaml_view(old_entries[j].1),
                        ),
                    0 <= i <= n,
                    forall|j: int| i <= j < n ==> m.entries@[j] == old_entries[j],
                    visit_each_value::<V>(st0, old_v.subrange(0, i as int)).0.len() == i,
                    forall|j: int|
                        0 <= j < i ==> (yaml_view((#[trigger] m.entries@[j]).0), yaml_view(
                            m.entries@[j].1,
                        )) == visit_each_value::<V>(st0, old_v.subrange(0, i as int)).0[j],
                    visitor@ == visit_each_value::<V>(st0, old_v.subrange(0, i as int)).1,
                decreases n - i,
            {
                proof {
                    let s1 = old_v.subrange(0, i + 1);
                    assert(s1.subrange(0, i as int) =~= old_v.subrange(0, i as int));
                    assert(s1[i as int] == old_v[i as int]);
                }
                visitor.visit(&mut m.entries[i].1);
                i = i + 1;
            }
            proof {
                lemma_entries_view(m.entries@);
                assert(old_v.subrange(0, n as int) =~= old_v);
                assert(m@ =~= visit_each_value::<V>(st0, old_v).0);
            }
        },
        _ => {},
    }
}

/// Hands every value of the mapping under `key` in the mapping under the tags of `object` to
/// `visitor`, in order.
fn visit_values_under_key<V: ObjectVisitor>(object: &mut Yaml, key: &str, visitor: &mut V)
    ensures
        (final(object)@, final(visitor)@) == visit_values_under_key_spec::<V>(
            old(visitor)@,
            old(object)@,
            key@,
        ),
    decreases *old(object),
{
    match object {
        Yaml::Tagged(_, inner) => visit_values_under_key(&mut **inner, key, visitor),
        Yaml::Mapping(m) => {
            proof {
                lemma_entries_view(m.entries@);
                lemma_key_index(m@, key@);
            }
            let ghost old_m = m@;
            let ghost st0 = visitor@;
            match m.find(key) {
                Some(i) => {
                    visit_values(&mut m.entries[i].1, visitor);
                    proof {
                        lemma_entries_view(m.entries@);
                        let s = old_m[i as int].1;
                        if as_map(s) is Some {
                            assert(m@ =~= map_insert(
                                old_m,
                                key@,
                                with_map(s, visit_each_value::<V>(st0, as_map(s).unwrap()).0),
                            ));
                        } else {
                            assert(m@ =~= old_m);
                        }
                    }
                },
                None => {},
            }
        },
        _ => {},
    }
}

/// Hands each `schema` value and each value of a `schemas` mapping of an object to a visitor.
pub struct SchemaObjects<V> {
    pub inner: V,
}

impl<V: View> View for SchemaObjects<V> {
    type V = V::V;

    open spec fn view(&self) -> V::V {
        self.inner@
    }
}

impl<V: ObjectVisitor> ObjectVisitor for SchemaObjects<V> {
    open spec fn rewrite(st: V::V, object: YamlV) -> YamlV {
        schema_object_step::<V>(st, object).0
    }

    open spec fn after(st: V::V, object: YamlV) -> V::V {
        schema_object_step::<V>(st, object).1
    }

    fn visit(&mut self, object: &mut Yaml) {
        visit_under_key(object, "schema", &mut self.inner);
        visit_values_under_key(object, "schemas", &mut self.inner);
    }
}

/// Walks the document's objects, handing `visitor` each `schema` value and each value of a
/// `schemas` mapping that it meets; gives the visitor back.
pub fn walk_schema_objects<V: ObjectVisitor>(schema: &mut OpenApiTopLevel, visitor: V) -> (r: V)
    ensures
        (final(schema)@, r@) == walk_document::<SchemaObjects<V>>(visitor@, old(schema)@),
{
    let w = walk_objects(schema, SchemaObjects { inner: visitor });
    w.inner
}

/// Walks the document's objects, handing `visitor` each mapping that holds a `$ref` key;
/// gives the visitor back.
pub fn walk_ref_objects<M: MappingVisitor>(schema: &mut OpenApiTopLevel, visitor: M) -> (r: M)
    ensures
        (final(schema)@, r@) == walk_document::<RefObjects<M>>(visitor@, old(schema)@),
{
    let w = walk_objects(schema, RefObjects { inner: visitor });
    w.inner
}

/// A visitor that changes nothing and keeps a copy of every object it is handed, in order.
pub struct ObjectRecorder {
    pub seen: Vec<Yaml>,
}

impl View for ObjectRecorder {
    type V = Seq<YamlV>;

    open spec fn view(&self) -> Seq<YamlV> {
        items_view(self.seen@)
    }
}

impl ObjectVisitor for ObjectRecorder {
    open spec fn rewrite(st: Seq<YamlV>, object: YamlV) -> YamlV {
        object
    }

    open spec fn after(st: Seq<YamlV>, object: YamlV) -> Seq<YamlV> {
        st.push(object)
    }

    fn visit(&mut self, object: &mut Yaml) {
        let ghost old_seen = self.seen@;
        let c = copy_yaml(object);
        self.seen.push(c);
        proof {
            lemma_items_view(old_seen);
            lemma_items_view(self.seen@);
            assert(items_view(self.seen@) =~= items_view(old_seen).push(object@));
        }
    }
}

/// The views of a sequence of mappings.
pub open spec fn mappings_view(s: Seq<Mapping>) -> Seq<MapV> {
    Seq::new(s.len(), |i: int| s[i]@)
}

/// A mapping visitor that changes nothing and keeps a copy of every mapping it is handed, in
/// order.
pub struct MappingRecorder {
    pub seen: Vec<Mapping>,
}

impl View for MappingRecorder {
    type V = Seq<MapV>;

    open spec fn view(&self) -> Seq<MapV> {
        mappings_view(self.seen@)
    }
}

impl MappingVisitor for MappingRecorder {
    open spec fn rewrite_mapping(st: Seq<MapV>, m: MapV) -> MapV {
        m
    }

    open spec fn after_mapping(st: Seq<MapV>, m: MapV) -> Seq<MapV> {
        st.push(m)
    }

    fn visit_mapping(&mut self, m: &mut Mapping) {
        let ghost old_seen = self.seen@;
        let c = copy_mapping(m);
        self.seen.push(c);
        proof {
            assert(mappings_view(self.seen@) =~= mappings_view(old_seen).push(m@));
        }
    }
}

/// A copy of a value.
pub fn copy_yaml(v: &Yaml) -> (r: Yaml)
    ensures
        r@ == v@,
    decreases *v, 1nat,
{
    match v {
        Yaml::Null => Yaml::Null,
        Yaml::Bool(b) => Yaml::Bool(*b),
        Yaml::Number(n) => Yaml::Number(n.clone()),
        Yaml::String(s) => Yaml::String(s.clone()),
        Yaml::Tagged(t, b) => Yaml::Tagged(t.clone(), Box::new(copy_yaml(b))),
        Yaml::Mapping(m) => Yaml::Mapping(copy_mapping(m)),
        Yaml::Sequence(items) => {
            let ghost start = *v;
            proof {
                lemma_items_view(items@);
                assert forall|j: int| 0 <= j < items@.len() implies decreases_to!(
                    start => #[trigger] items@[j]) by {
                    assert(decreases_to!(start => *items));
                    assert(decreases_to!(*items => items[j]));
                }
            }
            let mut out: Vec<Yaml> = Vec::new();
            let n = items.len();
            let mut i: usize = 0;
            while i < n
                invariant
                    n == items@.len(),
                    0 <= i <= n,
                    out@.len() == i,
                    start == *v,
                    forall|j: int| 0 <= j < n ==> decreases_to!(start => #[trigger] items@[j]),
                    forall|j: int| 0 <= j < i ==> yaml_view(#[trigger] out@[j]) == yaml_view(items@[j]),
                decreases n - i,
            {
                let c = copy_yaml(&items[i]);
                out.push(c);
                i = i + 1;
            }
            proof {
                lemma_items_view(out@);
                lemma_items_view(items@);
                assert(items_view(out@) =~= items_view(items@));
            }
            Yaml::Sequence(out)
        },
    }
}

/// A copy of a mapping.
pub fn copy_mapping(m: &Mapping) -> (r: Mapping)
    ensures
        r@ == m@,
    decreases m.entries, 0nat,
{
    let ghost start = m.entries;
    proof {
        assert forall|j: int| 0 <= j < m.entries@.len() implies decreases_to!(
            start => (#[trigger] m.entries@[j]).1) && decreases_to!(start => m.entries@[j].0) by {
            assert(decreases_to!(start => start[j]));
        }
    }
    let mut out: Vec<(Yaml, Yaml)> = Vec::new();
    let n = m.entries.len();
    let mut i: usize = 0;
    while i < n
        invariant
            n == m.entries@.len(),
            0 <= i <= n,
            out@.len() == i,
            start == m.entries,
            forall|j: int|
                0 <= j < n ==> decreases_to!(start => (#[trigger] m.entries@[j]).1)
                    && decreases_to!(start => m.entries@[j].0),
            forall|j: int|
                0 <= j < i ==> yaml_view((#[trigger] out@[j]).0) == yaml_view(m.entries@[j].0)
                    && yaml_view(out@[j].1) == yaml_view(m.entries@[j].1),
        decreases n - i,
    {
        let k = copy_yaml(&m.entries[i].0);
        let v = copy_yaml(&m.entries[i].1);
        out.push((k, v));
        i = i + 1;
    }
    proof {
        lemma_entries_view(out@);
        lemma_entries_view(m.entries@);
        assert(crate::yaml::entries_view(out@) =~= m@);
    }
    Mapping { entries: out }
}

} // verus!
