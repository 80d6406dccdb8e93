//! Properties of every node that a walk reaches, carried from each rewritten mapping to the
//! whole document.
use vstd::prelude::*;
use crate::document::DocumentV;
use crate::laws::{law_const_to_enum, law_nullable_type_null, law_schema_ref};
use crate::convert::converted;
use crate::rewrites::{
    const_to_enum, nullable_oneof, nullable_type_array, nullable_type_null, nullish, schema_ref,
    ConstToEnum, NullableOneOf, NullableTypeArray, NullableTypeNull, SchemaRef,
};
use crate::visitor::{
    is_ref_object, walk_children, walk_document, walk_entries, walk_items, EachMapping,
    MappingVisitor, ObjectVisitor, RefObjects,
};
use crate::yaml::{
    as_map, as_seq, has_key, is_string, key_index, law_get_after_remove, law_updates_keep_keys_unique,
    lemma_key_index,
    lemma_with_map_as_map, map_get, map_insert, map_remove, unique_keys, with_map, MapV, YamlV,
};

verus! {

/// A node is fine for `pm` where it is not a mapping, or its mapping has unique keys and
/// meets `pm`.
pub open spec fn node_ok(pm: spec_fn(MapV) -> bool, v: YamlV) -> bool {
    match as_map(v) {
        Some(m) => unique_keys(m) && pm(m),
        None => true,
    }
}

/// Every node below `v` (under any tags, the items of a sequence and the values of a
/// mapping, and all below them) is fine for `pm`.
pub open spec fn below_ok(pm: spec_fn(MapV) -> bool, v: YamlV) -> bool
    decreases v,
{
    match v {
        YamlV::Tagged(_, b) => below_ok(pm, *b),
        YamlV::Sequence(s) => items_ok(pm, s),
        YamlV::Mapping(m) => entries_ok(pm, m),
        _ => true,
    }
}

/// Every item of a sequence, and every node below it, is fine for `pm`.
pub open spec fn items_ok(pm: spec_fn(MapV) -> bool, s: Seq<YamlV>) -> bool
    decreases s,
{
    if s.len() == 0 {
        true
    } else {
        items_ok(pm, s.subrange(0, s.len() - 1)) && node_ok(pm, s[s.len() - 1]) && below_ok(
            pm,
            s[s.len() - 1],
        )
    }
}

/// Every value of a mapping, and every node below it, is fine for `pm`.
pub open spec fn entries_ok(pm: spec_fn(MapV) -> bool, m: MapV) -> bool
    decreases m,
{
    if m.len() == 0 {
        true
    } else {
        entries_ok(pm, m.subrange(0, m.len() - 1)) && node_ok(pm, m[m.len() - 1].1) && below_ok(
            pm,
            m[m.len() - 1].1,
        )
    }
}

/// `items_ok` holds exactly where each item is deeply fine.
pub proof fn lemma_items_ok(pm: spec_fn(MapV) -> bool, s: Seq<YamlV>)
    ensures
        items_ok(pm, s) == forall|i: int| 0 <= i < s.len() ==> #[trigger] deep_ok(pm, s[i]),
    decreases s.len(),
{
    if s.len() > 0 {
        let p = s.subrange(0, s.len() - 1);
        lemma_items_ok(pm, p);
        if forall|i: int| 0 <= i < s.len() ==> #[trigger] deep_ok(pm, s[i]) {
            assert forall|i: int| 0 <= i < p.len() implies #[trigger] deep_ok(pm, p[i]) by {
                assert(p[i] == s[i]);
                assert(deep_ok(pm, s[i]));
            }
            assert(deep_ok(pm, s[s.len() - 1]));
        }
        if items_ok(pm, s) {
            assert forall|i: int| 0 <= i < s.len() implies #[trigger] deep_ok(pm, s[i]) by {
                if i < s.len() - 1 {
                    assert(p[i] == s[i]);
                    assert(deep_ok(pm, p[i]));
                }
            }
        }
    }
}

/// `entries_ok` holds exactly where each value is deeply fine.
pub proof fn lemma_entries_ok(pm: spec_fn(MapV) -> bool, m: MapV)
    ensures
        entries_ok(pm, m) == values_ok(pm, m),
    decreases m.len(),
{
    if m.len() > 0 {
        let p = m.subrange(0, m.len() - 1);
        lemma_entries_ok(pm, p);
        if values_ok(pm, m) {
            assert forall|i: int| 0 <= i < p.len() implies #[trigger] deep_ok(pm, p[i].1) by {
                assert(p[i] == m[i]);
                assert(deep_ok(pm, m[i].1));
            }
            assert(deep_ok(pm, m[m.len() - 1].1));
        }
        if entries_ok(pm, m) {
            assert forall|i: int| 0 <= i < m.len() implies #[trigger] deep_ok(pm, m[i].1) by {
                if i < m.len() - 1 {
                    assert(p[i] == m[i]);
                    assert(deep_ok(pm, p[i].1));
                }
            }
        }
    }
}

/// `v` and every node below it are fine for `pm`.
pub open spec fn deep_ok(pm: spec_fn(MapV) -> bool, v: YamlV) -> bool {
    node_ok(pm, v) && below_ok(pm, v)
}

/// Every value of a mapping is deeply fine for `pm`.
pub open spec fn values_ok(pm: spec_fn(MapV) -> bool, m: MapV) -> bool {
    forall|i: int| 0 <= i < m.len() ==> #[trigger] deep_ok(pm, m[i].1)
}

/// No condition beyond unique keys.
pub open spec fn any_mapping() -> spec_fn(MapV) -> bool {
    |m: MapV| true
}

/// Every value of `components` and `paths` is deeply fine for `pm`.
pub open spec fn document_ok(pm: spec_fn(MapV) -> bool, d: DocumentV) -> bool {
    (d.components matches Some(c) ==> values_ok(pm, c)) && (d.paths matches Some(p) ==> values_ok(
        pm,
        p,
    ))
}

/// A mapping visitor keeps `pm`: from a mapping with unique keys whose values are deeply fine,
/// in any state, it makes a mapping with unique keys that meets `pm` and whose values are
/// deeply fine.
pub open spec fn keeps<M: MappingVisitor>(pm: spec_fn(MapV) -> bool) -> bool {
    forall|st: M::V, m: MapV|
        unique_keys(m) && values_ok(pm, m) ==> {
            let r = #[trigger] M::rewrite_mapping(st, m);
            unique_keys(r) && pm(r) && values_ok(pm, r)
        }
}

/// The nodes below a mapping are fine exactly where its values are deeply fine.
pub proof fn lemma_values_ok(pm: spec_fn(MapV) -> bool, m: MapV)
    ensures
        below_ok(pm, YamlV::Mapping(m)) == values_ok(pm, m),
{
    lemma_entries_ok(pm, m);
}

/// The nodes below a mapping value are fine exactly where its values are deeply fine; tags
/// make no difference.
pub proof fn lemma_below_ok_map(pm: spec_fn(MapV) -> bool, v: YamlV)
    requires
        as_map(v) is Some,
    ensures
        below_ok(pm, v) == values_ok(pm, as_map(v).unwrap()),
    decreases v,
{
    match v {
        YamlV::Tagged(_, b) => lemma_below_ok_map(pm, *b),
        YamlV::Mapping(m) => lemma_values_ok(pm, m),
        _ => {},
    }
}

/// Putting a mapping under the tags of a value.
pub proof fn lemma_below_ok_with_map(pm: spec_fn(MapV) -> bool, v: YamlV, m: MapV)
    requires
        as_map(v) is Some,
    ensures
        below_ok(pm, with_map(v, m)) == values_ok(pm, m),
        as_map(with_map(v, m)) == Some(m),
    decreases v,
{
    lemma_with_map_as_map(v, m);
    lemma_values_ok(pm, m);
    if let YamlV::Tagged(_, b) = v {
        lemma_below_ok_with_map(pm, *b, m);
    }
}

/// Walking the values of a mapping keeps its keys and makes every value deeply fine.
pub proof fn lemma_walk_entries_ok<V: ObjectVisitor>(
    pm: spec_fn(MapV) -> bool,
    st: V::V,
    m: MapV,
)
    requires
        keeps_objects::<V>(pm),
        values_ok(any_mapping(), m),
    ensures
        walk_entries::<V>(st, m).0.len() == m.len(),
        forall|i: int|
            0 <= i < m.len() ==> (#[trigger] walk_entries::<V>(st, m).0[i]).0
                == m[i].0,
        values_ok(pm, walk_entries::<V>(st, m).0),
    decreases m, 0nat,
{
    if m.len() > 0 {
        let p = m.subrange(0, m.len() - 1);
        assert(values_ok(any_mapping(), p)) by {
            assert forall|i: int| 0 <= i < p.len() implies #[trigger] deep_ok(
                any_mapping(),
                p[i].1,
            ) by {
                assert(p[i] == m[i]);
            }
        }
        lemma_walk_entries_ok::<V>(pm, st, p);
        let r = walk_entries::<V>(st, p);
        let last = m[m.len() - 1].1;
        assert(deep_ok(any_mapping(), m[m.len() - 1].1));
        lemma_walk_ok::<V>(pm, r.1, last);
    }
}

/// Walking the items of a sequence makes every item deeply fine.
pub proof fn lemma_walk_items_ok<V: ObjectVisitor>(
    pm: spec_fn(MapV) -> bool,
    st: V::V,
    s: Seq<YamlV>,
)
    requires
        keeps_objects::<V>(pm),
        forall|i: int| 0 <= i < s.len() ==> #[trigger] deep_ok(any_mapping(), s[i]),
    ensures
        walk_items::<V>(st, s).0.len() == s.len(),
        forall|i: int|
            0 <= i < s.len() ==> #[trigger] deep_ok(pm, walk_items::<V>(st, s).0[i]),
    decreases s, 0nat,
{
    if s.len() > 0 {
        let p = s.subrange(0, s.len() - 1);
        assert forall|i: int| 0 <= i < p.len() implies #[trigger] deep_ok(any_mapping(), p[i]) by {
            assert(p[i] == s[i]);
        }
        lemma_walk_items_ok::<V>(pm, st, p);
        let r = walk_items::<V>(st, p);
        assert(deep_ok(any_mapping(), s[s.len() - 1]));
        lemma_walk_ok::<V>(pm, r.1, s[s.len() - 1]);
    }
}

/// Walking below a value with unique keys everywhere keeps the value's own keys unique and
/// makes every node below it fine.
pub proof fn lemma_walk_children_ok<V: ObjectVisitor>(
    pm: spec_fn(MapV) -> bool,
    st: V::V,
    v: YamlV,
)
    requires
        keeps_objects::<V>(pm),
        deep_ok(any_mapping(), v),
    ensures
        node_ok(any_mapping(), walk_children::<V>(st, v).0),
        below_ok(pm, walk_children::<V>(st, v).0),
        as_map(v) is Some <==> as_map(walk_children::<V>(st, v).0) is Some,
    decreases v, 0nat,
{
    match v {
        YamlV::Tagged(t, b) => {
            lemma_walk_children_ok::<V>(pm, st, *b);
        },
        YamlV::Sequence(s) => {
            lemma_items_ok(any_mapping(), s);
            lemma_walk_items_ok::<V>(pm, st, s);
            let r = walk_items::<V>(st, s).0;
            lemma_items_ok(pm, r);
        },
        YamlV::Mapping(m) => {
            lemma_values_ok(any_mapping(), m);
            lemma_walk_entries_ok::<V>(pm, st, m);
            let r = walk_entries::<V>(st, m).0;
            assert forall|i: int, j: int|
                0 <= i < r.len() && 0 <= j < r.len() && i != j && (#[trigger] r[i]).0 is String implies r[i].0
                != (#[trigger] r[j]).0 by {
                assert(r[i].0 == m[i].0 && r[j].0 == m[j].0);
            }
            lemma_entries_ok(pm, r);
        },
        _ => {},
    }
}

/// Walking a value with unique keys everywhere makes it, and every node below it, fine.
pub proof fn lemma_walk_ok<V: ObjectVisitor>(pm: spec_fn(MapV) -> bool, st: V::V, v: YamlV)
    requires
        keeps_objects::<V>(pm),
        deep_ok(any_mapping(), v),
    ensures
        deep_ok(pm, V::rewrite(walk_children::<V>(st, v).1, walk_children::<V>(st, v).0)),
    decreases v, 1nat,
{
    lemma_walk_children_ok::<V>(pm, st, v);
}

/// An object visitor that keeps `pm` makes, from an object with unique keys all of whose
/// nodes below are fine, an object that is deeply fine.
pub open spec fn keeps_objects<V: ObjectVisitor>(pm: spec_fn(MapV) -> bool) -> bool {
    forall|st: V::V, c: YamlV|
        node_ok(any_mapping(), c) && below_ok(pm, c) ==> #[trigger] deep_ok(pm, V::rewrite(st, c))
}

/// A mapping visitor that keeps `pm`, handed each mapping, keeps `pm` for objects.
pub proof fn lemma_each_mapping_keeps<M: MappingVisitor>(pm: spec_fn(MapV) -> bool)
    requires
        keeps::<M>(pm),
    ensures
        keeps_objects::<EachMapping<M>>(pm),
{
    assert forall|st: M::V, c: YamlV|
        node_ok(any_mapping(), c) && below_ok(pm, c) implies #[trigger] deep_ok(
        pm,
        EachMapping::<M>::rewrite(st, c),
    ) by {
        if let Some(m) = as_map(c) {
            lemma_below_ok_map(pm, c);
            let r = M::rewrite_mapping(st, m);
            assert(unique_keys(r) && pm(r) && values_ok(pm, r));
            lemma_below_ok_with_map(pm, c, r);
        }
    }
}

/// Walking a document whose mappings all have unique keys with a visitor that keeps `pm`
/// leaves every value of `components` and `paths` deeply fine for `pm`.
pub proof fn law_walk_keeps_deep<V: ObjectVisitor>(
    pm: spec_fn(MapV) -> bool,
    st: V::V,
    d: DocumentV,
)
    requires
        keeps_objects::<V>(pm),
        document_ok(any_mapping(), d),
    ensures
        document_ok(pm, walk_document::<V>(st, d).0),
{
    if let Some(c) = d.components {
        lemma_walk_entries_ok::<V>(pm, st, c);
    }
    let st1 = match d.components {
        Some(c) => walk_entries::<V>(st, c).1,
        None => st,
    };
    if let Some(p) = d.paths {
        lemma_walk_entries_ok::<V>(pm, st1, p);
    }
}


/// Setting a key to a deeply fine value keeps the values deeply fine.
pub proof fn lemma_values_ok_insert(pm: spec_fn(MapV) -> bool, m: MapV, key: Seq<char>, x: YamlV)
    requires
        values_ok(pm, m),
        deep_ok(pm, x),
    ensures
        values_ok(pm, map_insert(m, key, x)),
{
    lemma_key_index(m, key);
    let r = map_insert(m, key, x);
    assert forall|i: int| 0 <= i < r.len() implies #[trigger] deep_ok(pm, r[i].1) by {
        if i < m.len() && i != key_index(m, key) {
            assert(r[i] == m[i]);
            assert(deep_ok(pm, m[i].1));
        }
    }
}

/// Removing a key keeps the values deeply fine.
pub proof fn lemma_values_ok_remove(pm: spec_fn(MapV) -> bool, m: MapV, key: Seq<char>)
    requires
        values_ok(pm, m),
    ensures
        values_ok(pm, map_remove(m, key)),
{
    lemma_key_index(m, key);
    let r = map_remove(m, key);
    let k = key_index(m, key);
    assert forall|i: int| 0 <= i < r.len() implies #[trigger] deep_ok(pm, r[i].1) by {
        if k >= 0 {
            let src = if i == k {
                m.len() - 1
            } else {
                i
            };
            assert(r[i] == m[src]);
            assert(deep_ok(pm, m[src].1));
        } else {
            assert(deep_ok(pm, m[i].1));
        }
    }
}

/// The value under a key present in a mapping is one of its values.
pub proof fn lemma_get_value_ok(pm: spec_fn(MapV) -> bool, m: MapV, key: Seq<char>)
    requires
        values_ok(pm, m),
        map_get(m, key) is Some,
    ensures
        deep_ok(pm, map_get(m, key).unwrap()),
{
    lemma_key_index(m, key);
    assert(deep_ok(pm, m[key_index(m, key)].1));
}

/// A mapping without a `const` key.
pub open spec fn without_const() -> spec_fn(MapV) -> bool {
    |m: MapV| !has_key(m, "const"@)
}

/// A mapping whose `type`, if any, does not stand for null.
pub open spec fn without_null_type() -> spec_fn(MapV) -> bool {
    |m: MapV| map_get(m, "type"@) is None || !nullish(map_get(m, "type"@).unwrap())
}

/// The `const` rewrite leaves no `const` key, keeps keys unique, and puts in only values
/// that were there.
pub proof fn lemma_const_to_enum_keeps()
    ensures
        keeps::<ConstToEnum>(without_const()),
{
    let pm = without_const();
    assert forall|st: (), m: MapV| unique_keys(m) && values_ok(pm, m) implies {
        let r = #[trigger] ConstToEnum::rewrite_mapping(st, m);
        unique_keys(r) && pm(r) && values_ok(pm, r)
    } by {
        let r = const_to_enum(m);
        lemma_key_index(m, "const"@);
        if let Some(c) = map_get(m, "const"@) {
            law_const_to_enum(m, c);
            lemma_key_index(r, "const"@);
            law_updates_keep_keys_unique(m, "const"@, c);
            law_updates_keep_keys_unique(map_remove(m, "const"@), "enum"@, YamlV::Sequence(seq![c]));
            lemma_get_value_ok(pm, m, "const"@);
            lemma_values_ok_remove(pm, m, "const"@);
            let e = YamlV::Sequence(seq![c]);
            lemma_items_ok(pm, seq![c]);
            assert(deep_ok(pm, e));
            lemma_values_ok_insert(pm, map_remove(m, "const"@), "enum"@, e);
        }
    }
}

/// The `type: null` rewrite leaves no `type` that stands for null, keeps keys unique, and
/// puts in only plain values.
pub proof fn lemma_nullable_type_null_keeps()
    ensures
        keeps::<NullableTypeNull>(without_null_type()),
{
    let pm = without_null_type();
    reveal_strlit("string");
    reveal_strlit("null");
    assert("string"@.len() != "null"@.len());
    assert forall|st: (), m: MapV| unique_keys(m) && values_ok(pm, m) implies {
        let r = #[trigger] NullableTypeNull::rewrite_mapping(st, m);
        unique_keys(r) && pm(r) && values_ok(pm, r)
    } by {
        let r = nullable_type_null(m);
        if map_get(m, "type"@) is Some && nullish(map_get(m, "type"@).unwrap()) {
            law_nullable_type_null(m);
            let ts = YamlV::String("string"@);
            let e = YamlV::Sequence(Seq::empty());
            let b = YamlV::Bool(true);
            let m0 = map_remove(m, "type"@);
            let m1 = map_insert(m0, "type"@, ts);
            let m2 = map_insert(m1, "enum"@, e);
            law_updates_keep_keys_unique(m, "type"@, ts);
            law_updates_keep_keys_unique(m0, "type"@, ts);
            law_updates_keep_keys_unique(m1, "enum"@, e);
            law_updates_keep_keys_unique(m2, "nullable"@, b);
            lemma_values_ok_remove(pm, m, "type"@);
            lemma_values_ok_insert(pm, m0, "type"@, ts);
            lemma_items_ok(pm, Seq::<YamlV>::empty());
            assert(deep_ok(pm, e));
            lemma_values_ok_insert(pm, m1, "enum"@, e);
            lemma_values_ok_insert(pm, m2, "nullable"@, b);
        }
    }
}

/// After `convert_const_to_enum`, no mapping anywhere in the values of `components` and
/// `paths` has a `const` key, and keys stay unique (where they were unique before).
pub proof fn law_no_const_left(d: DocumentV)
    requires
        document_ok(any_mapping(), d),
    ensures
        document_ok(without_const(), walk_document::<EachMapping<ConstToEnum>>((), d).0),
{
    lemma_const_to_enum_keeps();
    lemma_each_mapping_keeps::<ConstToEnum>(without_const());
    law_walk_keeps_deep::<EachMapping<ConstToEnum>>(without_const(), (), d);
}

/// After `convert_nullable_type_null`, no mapping anywhere in the values of `components` and
/// `paths` has a `type` that stands for null, and keys stay unique (where they were unique
/// before).
pub proof fn law_no_null_type_left(d: DocumentV)
    requires
        document_ok(any_mapping(), d),
    ensures
        document_ok(
            without_null_type(),
            walk_document::<EachMapping<NullableTypeNull>>((), d).0,
        ),
{
    lemma_nullable_type_null_keeps();
    lemma_each_mapping_keeps::<NullableTypeNull>(without_null_type());
    law_walk_keeps_deep::<EachMapping<NullableTypeNull>>(without_null_type(), (), d);
}


/// A mapping whose `$ref`, where it is a string, is its only entry: the form `allOf` items
/// take.
pub open spec fn refs_wrapped() -> spec_fn(MapV) -> bool {
    |m: MapV|
        match map_get(m, "$ref"@) {
            Some(r) => is_string(r) ==> m.len() == 1,
            None => true,
        }
}

/// The reference rewrite, handed the objects with a `$ref`, leaves `$ref` only in one-entry
/// mappings, keeps keys unique, and puts in only values that were there.
pub proof fn lemma_schema_ref_keeps()
    ensures
        keeps_objects::<RefObjects<SchemaRef>>(refs_wrapped()),
{
    let pm = refs_wrapped();
    assert forall|st: (), c: YamlV|
        node_ok(any_mapping(), c) && below_ok(pm, c) implies #[trigger] deep_ok(
        pm,
        RefObjects::<SchemaRef>::rewrite(st, c),
    ) by {
        if is_ref_object(c) {
            let m = as_map(c).unwrap();
            lemma_below_ok_map(pm, c);
            lemma_key_index(m, "$ref"@);
            let r = map_get(m, "$ref"@).unwrap();
            lemma_get_value_ok(pm, m, "$ref"@);
            let m0 = map_remove(m, "$ref"@);
            law_get_after_remove(m, "$ref"@);
            lemma_key_index(m0, "$ref"@);
            law_updates_keep_keys_unique(m, "$ref"@, r);
            lemma_values_ok_remove(pm, m, "$ref"@);
            let out = schema_ref(m);
            if is_string(r) {
                let inner = seq![(YamlV::String("$ref"@), r)];
                let a = YamlV::Sequence(seq![YamlV::Mapping(inner)]);
                law_schema_ref(m, r);
                lemma_key_index(out, "$ref"@);
                law_updates_keep_keys_unique(m0, "allOf"@, a);
                assert(unique_keys(inner));
                lemma_entries_ok(pm, inner);
                assert(deep_ok(pm, YamlV::Mapping(inner)));
                lemma_items_ok(pm, seq![YamlV::Mapping(inner)]);
                assert(deep_ok(pm, a));
                lemma_values_ok_insert(pm, m0, "allOf"@, a);
            }
            assert(unique_keys(out) && pm(out) && values_ok(pm, out));
            lemma_below_ok_with_map(pm, c, out);
        } else if let Some(m) = as_map(c) {
            lemma_key_index(m, "$ref"@);
            assert(pm(m));
        }
    }
}

/// After `convert_schema_ref`, a string `$ref` is left, anywhere in the values of `components`
/// and `paths`, only as the one entry of a mapping (the item of the `allOf` it was moved into),
/// and keys stay unique (where they were unique before).
pub proof fn law_refs_wrapped(d: DocumentV)
    requires
        document_ok(any_mapping(), d),
    ensures
        document_ok(refs_wrapped(), walk_document::<RefObjects<SchemaRef>>((), d).0),
{
    lemma_schema_ref_keeps();
    law_walk_keeps_deep::<RefObjects<SchemaRef>>(refs_wrapped(), (), d);
}


/// No mapping at all: a value deeply fine for it holds no mapping at or below it.
pub open spec fn no_mapping() -> spec_fn(MapV) -> bool {
    |m: MapV| false
}

/// Where no mapping lies below a value, a walk that hands each mapping to a mapping visitor
/// leaves the value and the visitor as they were.
pub proof fn lemma_flat_walk_children<M: MappingVisitor>(st: M::V, v: YamlV)
    requires
        below_ok(no_mapping(), v),
    ensures
        walk_children::<EachMapping<M>>(st, v) == (v, st),
    decreases v,
{
    match v {
        YamlV::Tagged(_, b) => {
            lemma_flat_walk_children::<M>(st, *b);
        },
        YamlV::Sequence(s) => {
            lemma_flat_walk_items::<M>(st, s);
        },
        YamlV::Mapping(m) => {
            lemma_flat_walk_entries::<M>(st, m);
        },
        _ => {},
    }
}

/// Where no mapping lies in or below the items of a sequence, such a walk leaves them and the
/// visitor as they were.
pub proof fn lemma_flat_walk_items<M: MappingVisitor>(st: M::V, s: Seq<YamlV>)
    requires
        items_ok(no_mapping(), s),
    ensures
        walk_items::<EachMapping<M>>(st, s) == (s, st),
    decreases s,
{
    if s.len() > 0 {
        let p = s.subrange(0, s.len() - 1);
        let last = s[s.len() - 1];
        lemma_flat_walk_items::<M>(st, p);
        lemma_flat_walk_children::<M>(st, last);
        assert(s =~= p.push(last));
    }
}

/// Where no mapping lies in or below the values of a mapping, such a walk leaves them and the
/// visitor as they were.
pub proof fn lemma_flat_walk_entries<M: MappingVisitor>(st: M::V, m: MapV)
    requires
        entries_ok(no_mapping(), m),
    ensures
        walk_entries::<EachMapping<M>>(st, m) == (m, st),
    decreases m,
{
    if m.len() > 0 {
        let p = m.subrange(0, m.len() - 1);
        let last = m[m.len() - 1].1;
        lemma_flat_walk_entries::<M>(st, p);
        lemma_flat_walk_children::<M>(st, last);
        assert(m =~= p.push(m[m.len() - 1]));
    }
}

/// Walking a one-entry mapping whose value is a mapping with no mapping in its values hands
/// that mapping, and only it, to the mapping visitor, and puts back what it makes of it.
pub proof fn lemma_flat_object_walk<M: MappingVisitor>(st: M::V, k: YamlV, m: MapV)
    requires
        values_ok(no_mapping(), m),
    ensures
        walk_entries::<EachMapping<M>>(st, seq![(k, YamlV::Mapping(m))]).0 == seq![
            (k, YamlV::Mapping(M::rewrite_mapping(st, m))),
        ],
{
    lemma_values_ok(no_mapping(), m);
    lemma_flat_walk_children::<M>(st, YamlV::Mapping(m));
    let e = seq![(k, YamlV::Mapping(m))];
    assert(e.subrange(0, 0) =~= Seq::<(YamlV, YamlV)>::empty());
    assert(walk_entries::<EachMapping<M>>(st, e.subrange(0, 0)) == (
        Seq::<(YamlV, YamlV)>::empty(),
        st,
    ));
    assert(Seq::<(YamlV, YamlV)>::empty().push((k, YamlV::Mapping(M::rewrite_mapping(st, m))))
        =~= seq![(k, YamlV::Mapping(M::rewrite_mapping(st, m)))]);
}

/// The items of a sequence value (under any tags) that is deeply fine are deeply fine.
pub proof fn lemma_seq_items_ok(pm: spec_fn(MapV) -> bool, v: YamlV)
    requires
        below_ok(pm, v),
        as_seq(v) is Some,
    ensures
        forall|i: int|
            0 <= i < as_seq(v).unwrap().len() ==> #[trigger] deep_ok(pm, as_seq(v).unwrap()[i]),
    decreases v,
{
    match v {
        YamlV::Tagged(_, b) => {
            lemma_seq_items_ok(pm, *b);
        },
        YamlV::Sequence(s) => {
            lemma_items_ok(pm, s);
        },
        _ => {},
    }
}

/// The type-array, type-null and const rewrites put no mapping into a mapping whose values
/// hold none.
pub proof fn lemma_rewrites_keep_flat(m: MapV)
    requires
        values_ok(no_mapping(), m),
    ensures
        values_ok(no_mapping(), nullable_type_array(m)),
        values_ok(no_mapping(), nullable_type_null(m)),
        values_ok(no_mapping(), const_to_enum(m)),
{
    let pm = no_mapping();
    let b = YamlV::Bool(true);
    assert(deep_ok(pm, b));
    if let Some(types) = map_get(m, "type"@) {
        lemma_get_value_ok(pm, m, "type"@);
        if let Some(s) = as_seq(types) {
            lemma_seq_items_ok(pm, types);
            if s.len() == 2 {
                let typ = if nullish(s[0]) {
                    s[1]
                } else {
                    s[0]
                };
                assert(deep_ok(pm, typ));
                lemma_values_ok_insert(pm, m, "type"@, typ);
                lemma_values_ok_insert(pm, map_insert(m, "type"@, typ), "nullable"@, b);
            }
        }
    }
    let ts = YamlV::String("string"@);
    let e = YamlV::Sequence(Seq::empty());
    let m0 = map_remove(m, "type"@);
    assert(deep_ok(pm, ts));
    lemma_items_ok(pm, Seq::<YamlV>::empty());
    assert(deep_ok(pm, e));
    lemma_values_ok_remove(pm, m, "type"@);
    lemma_values_ok_insert(pm, m0, "type"@, ts);
    lemma_values_ok_insert(pm, map_insert(m0, "type"@, ts), "enum"@, e);
    lemma_values_ok_insert(pm, map_insert(map_insert(m0, "type"@, ts), "enum"@, e), "nullable"@, b);
    if let Some(c) = map_get(m, "const"@) {
        lemma_get_value_ok(pm, m, "const"@);
        lemma_values_ok_remove(pm, m, "const"@);
        lemma_items_ok(pm, seq![c]);
        assert(deep_ok(pm, YamlV::Sequence(seq![c])));
        lemma_values_ok_insert(pm, map_remove(m, "const"@), "enum"@, YamlV::Sequence(seq![c]));
    }
}

/// The conversion rewrites each schema object in turn with the type-array, type-null, const
/// and `oneOf` rewrites: a `components` entry whose value is a mapping with no mapping in its
/// values (such as `{type: [string, 'null']}`) becomes exactly what those four rewrites, in that
/// order, make of it; with `law_converted_paths_as_components`, the same holds for `paths`.
pub proof fn law_converted_flat_object(d: DocumentV, k: YamlV, m: MapV)
    requires
        d.components == Some(seq![(k, YamlV::Mapping(m))]),
        values_ok(no_mapping(), m),
    ensures
        converted(d).components == Some(
            seq![
                (
                    k,
                    YamlV::Mapping(
                        nullable_oneof(const_to_enum(nullable_type_null(nullable_type_array(m)))),
                    ),
                ),
            ],
        ),
{
    let m1 = nullable_type_array(m);
    let m2 = nullable_type_null(m1);
    let m3 = const_to_enum(m2);
    lemma_rewrites_keep_flat(m);
    lemma_rewrites_keep_flat(m1);
    lemma_rewrites_keep_flat(m2);
    lemma_flat_object_walk::<NullableTypeArray>((), k, m);
    lemma_flat_object_walk::<NullableTypeNull>((), k, m1);
    lemma_flat_object_walk::<ConstToEnum>((), k, m2);
    lemma_flat_object_walk::<NullableOneOf>((), k, m3);
}

} // verus!
