//! What holds of the library's operations beyond each one's own contract.
use vstd::prelude::*;
use crate::convert::{converted, remove_licence, starts_with};
use crate::document::DocumentV;
use crate::rewrites::{
    const_to_enum, has_null_type, has_nullish_type, non_null_alternative, nullable_oneof,
    nullable_type_array, nullable_type_null, nullish, schema_ref, with_alternative,
};
use crate::visitor::{
    is_ref_object, schema_object_step, visit_each_value, visit_under_key_spec, walk,
    walk_children, walk_document, walk_entries, walk_items, walk_opt_entries, MappingRecorder,
    ObjectRecorder, ObjectVisitor, RefObjects, SchemaObjects,
};
use crate::yaml::{
    as_map, as_seq, has_key, is_key, is_string, key_index, law_get_after_insert,
    law_get_after_remove, law_insert_keeps_other_keys, law_remove_keeps_other_keys,
    law_updates_keep_keys_unique, lemma_key_index, lemma_key_index_first, lemma_with_map_same,
    map_get, map_insert, map_remove, unique_keys, with_map, MapV, YamlV,
};

verus! {

/// The keys that the rewrites read and write are different strings.
pub proof fn lemma_keys_distinct()
    ensures
        "type"@ != "nullable"@,
        "type"@ != "enum"@,
        "type"@ != "const"@,
        "type"@ != "$ref"@,
        "type"@ != "allOf"@,
        "type"@ != "oneOf"@,
        "type"@ != "description"@,
        "type"@ != "schema"@,
        "nullable"@ != "enum"@,
        "nullable"@ != "const"@,
        "nullable"@ != "$ref"@,
        "nullable"@ != "allOf"@,
        "nullable"@ != "oneOf"@,
        "nullable"@ != "description"@,
        "nullable"@ != "schema"@,
        "enum"@ != "const"@,
        "enum"@ != "$ref"@,
        "enum"@ != "allOf"@,
        "enum"@ != "oneOf"@,
        "enum"@ != "description"@,
        "enum"@ != "schema"@,
        "const"@ != "$ref"@,
        "const"@ != "allOf"@,
        "const"@ != "oneOf"@,
        "const"@ != "description"@,
        "const"@ != "schema"@,
        "$ref"@ != "allOf"@,
        "$ref"@ != "oneOf"@,
        "$ref"@ != "description"@,
        "$ref"@ != "schema"@,
        "allOf"@ != "oneOf"@,
        "allOf"@ != "description"@,
        "allOf"@ != "schema"@,
        "oneOf"@ != "description"@,
        "oneOf"@ != "schema"@,
        "description"@ != "schema"@,
{
    reveal_strlit("type");
    reveal_strlit("nullable");
    reveal_strlit("enum");
    reveal_strlit("const");
    reveal_strlit("$ref");
    reveal_strlit("allOf");
    reveal_strlit("oneOf");
    reveal_strlit("description");
    reveal_strlit("schema");
    assert("type"@[0] != "nullable"@[0]);
    assert("type"@[0] != "enum"@[0]);
    assert("type"@[0] != "const"@[0]);
    assert("type"@[0] != "$ref"@[0]);
    assert("type"@[0] != "allOf"@[0]);
    assert("type"@[0] != "oneOf"@[0]);
    assert("type"@[0] != "description"@[0]);
    assert("type"@[0] != "schema"@[0]);
    assert("nullable"@[0] != "enum"@[0]);
    assert("nullable"@[0] != "const"@[0]);
    assert("nullable"@[0] != "$ref"@[0]);
    assert("nullable"@[0] != "allOf"@[0]);
    assert("nullable"@[0] != "oneOf"@[0]);
    assert("nullable"@[0] != "description"@[0]);
    assert("nullable"@[0] != "schema"@[0]);
    assert("enum"@[0] != "const"@[0]);
    assert("enum"@[0] != "$ref"@[0]);
    assert("enum"@[0] != "allOf"@[0]);
    assert("enum"@[0] != "oneOf"@[0]);
    assert("enum"@[0] != "description"@[0]);
    assert("enum"@[0] != "schema"@[0]);
    assert("const"@[0] != "$ref"@[0]);
    assert("const"@[0] != "allOf"@[0]);
    assert("const"@[0] != "oneOf"@[0]);
    assert("const"@[0] != "description"@[0]);
    assert("const"@[0] != "schema"@[0]);
    assert("$ref"@[0] != "allOf"@[0]);
    assert("$ref"@[0] != "oneOf"@[0]);
    assert("$ref"@[0] != "description"@[0]);
    assert("$ref"@[0] != "schema"@[0]);
    assert("allOf"@[0] != "oneOf"@[0]);
    assert("allOf"@[0] != "description"@[0]);
    assert("allOf"@[0] != "schema"@[0]);
    assert("oneOf"@[0] != "description"@[0]);
    assert("oneOf"@[0] != "schema"@[0]);
    assert("description"@[0] != "schema"@[0]);
}

/// `type: [T, null]` (either order) becomes `type: T` with `nullable: true`; every other key
/// keeps its value.
pub proof fn law_nullable_type_array(m: MapV, types: YamlV)
    requires
        map_get(m, "type"@) == Some(types),
        as_seq(types) is Some,
        as_seq(types).unwrap().len() == 2,
        nullish(as_seq(types).unwrap()[0]) || nullish(as_seq(types).unwrap()[1]),
    ensures
        ({
            let s = as_seq(types).unwrap();
            let t = if nullish(s[0]) {
                s[1]
            } else {
                s[0]
            };
            map_get(nullable_type_array(m), "type"@) == Some(t)
        }),
        map_get(nullable_type_array(m), "nullable"@) == Some(YamlV::Bool(true)),
        forall|k: Seq<char>|
            k != "type"@ && k != "nullable"@ ==> #[trigger] map_get(nullable_type_array(m), k)
                == map_get(m, k),
{
    lemma_keys_distinct();
    let s = as_seq(types).unwrap();
    let t = if nullish(s[0]) {
        s[1]
    } else {
        s[0]
    };
    let m1 = map_insert(m, "type"@, t);
    law_get_after_insert(m, "type"@, t);
    law_insert_keeps_other_keys(m1, "nullable"@, YamlV::Bool(true), "type"@);
    law_get_after_insert(m1, "nullable"@, YamlV::Bool(true));
    assert forall|k: Seq<char>| k != "type"@ && k != "nullable"@ implies #[trigger] map_get(
        nullable_type_array(m),
        k,
    ) == map_get(m, k) by {
        law_insert_keeps_other_keys(m, "type"@, t, k);
        law_insert_keeps_other_keys(m1, "nullable"@, YamlV::Bool(true), k);
    }
}

/// `type: null` becomes `type: string` with `enum: []` and `nullable: true`; every other key
/// keeps its value.
pub proof fn law_nullable_type_null(m: MapV)
    requires
        unique_keys(m),
        map_get(m, "type"@) is Some,
        nullish(map_get(m, "type"@).unwrap()),
    ensures
        map_get(nullable_type_null(m), "type"@) == Some(YamlV::String("string"@)),
        map_get(nullable_type_null(m), "enum"@) == Some(YamlV::Sequence(Seq::empty())),
        map_get(nullable_type_null(m), "nullable"@) == Some(YamlV::Bool(true)),
        forall|k: Seq<char>|
            k != "type"@ && k != "enum"@ && k != "nullable"@ ==> #[trigger] map_get(
                nullable_type_null(m),
                k,
            ) == map_get(m, k),
{
    lemma_keys_distinct();
    let ts = YamlV::String("string"@);
    let e = YamlV::Sequence(Seq::empty());
    let b = YamlV::Bool(true);
    let m0 = map_remove(m, "type"@);
    let m1 = map_insert(m0, "type"@, ts);
    let m2 = map_insert(m1, "enum"@, e);
    law_get_after_insert(m0, "type"@, ts);
    law_insert_keeps_other_keys(m1, "enum"@, e, "type"@);
    law_insert_keeps_other_keys(m2, "nullable"@, b, "type"@);
    law_get_after_insert(m1, "enum"@, e);
    law_insert_keeps_other_keys(m2, "nullable"@, b, "enum"@);
    law_get_after_insert(m2, "nullable"@, b);
    assert forall|k: Seq<char>| k != "type"@ && k != "enum"@ && k != "nullable"@ implies #[trigger] map_get(
        nullable_type_null(m),
        k,
    ) == map_get(m, k) by {
        law_remove_keeps_other_keys(m, "type"@, k);
        law_insert_keeps_other_keys(m0, "type"@, ts, k);
        law_insert_keeps_other_keys(m1, "enum"@, e, k);
        law_insert_keeps_other_keys(m2, "nullable"@, b, k);
    }
}

/// `const: c` becomes `enum: [c]`: no `const` is left, and every other key keeps its value.
pub proof fn law_const_to_enum(m: MapV, c: YamlV)
    requires
        unique_keys(m),
        map_get(m, "const"@) == Some(c),
    ensures
        map_get(const_to_enum(m), "const"@) is None,
        map_get(const_to_enum(m), "enum"@) == Some(YamlV::Sequence(seq![c])),
        forall|k: Seq<char>|
            k != "const"@ && k != "enum"@ ==> #[trigger] map_get(const_to_enum(m), k) == map_get(
                m,
                k,
            ),
{
    lemma_keys_distinct();
    let e = YamlV::Sequence(seq![c]);
    let m0 = map_remove(m, "const"@);
    law_get_after_remove(m, "const"@);
    law_insert_keeps_other_keys(m0, "enum"@, e, "const"@);
    law_get_after_insert(m0, "enum"@, e);
    assert forall|k: Seq<char>| k != "const"@ && k != "enum"@ implies #[trigger] map_get(
        const_to_enum(m),
        k,
    ) == map_get(m, k) by {
        law_remove_keeps_other_keys(m, "const"@, k);
        law_insert_keeps_other_keys(m0, "enum"@, e, k);
    }
}

/// `$ref: uri` becomes `allOf: [{$ref: uri}]`: no `$ref` is left, and every other key keeps
/// its value.
pub proof fn law_schema_ref(m: MapV, r: YamlV)
    requires
        unique_keys(m),
        map_get(m, "$ref"@) == Some(r),
        is_string(r),
    ensures
        map_get(schema_ref(m), "$ref"@) is None,
        map_get(schema_ref(m), "allOf"@) == Some(
            YamlV::Sequence(seq![YamlV::Mapping(seq![(YamlV::String("$ref"@), r)])]),
        ),
        forall|k: Seq<char>|
            k != "$ref"@ && k != "allOf"@ ==> #[trigger] map_get(schema_ref(m), k) == map_get(m, k),
{
    lemma_keys_distinct();
    let a = YamlV::Sequence(seq![YamlV::Mapping(seq![(YamlV::String("$ref"@), r)])]);
    let m0 = map_remove(m, "$ref"@);
    law_get_after_remove(m, "$ref"@);
    law_insert_keeps_other_keys(m0, "allOf"@, a, "$ref"@);
    law_get_after_insert(m0, "allOf"@, a);
    assert forall|k: Seq<char>| k != "$ref"@ && k != "allOf"@ implies #[trigger] map_get(
        schema_ref(m),
        k,
    ) == map_get(m, k) by {
        law_remove_keeps_other_keys(m, "$ref"@, k);
        law_insert_keeps_other_keys(m0, "allOf"@, a, k);
    }
}

/// A `oneOf` of two schemas neither of which has the type `null` (a regular enum) stays as it
/// was.
pub proof fn law_regular_one_of_kept(m: MapV, o: YamlV)
    requires
        map_get(m, "oneOf"@) == Some(o),
        as_seq(o) is Some,
        as_seq(o).unwrap().len() == 2,
        !has_null_type(as_seq(o).unwrap()[0]),
        !has_null_type(as_seq(o).unwrap()[1]),
    ensures
        nullable_oneof(m) == m,
{
}

/// An object with its `oneOf` removed, the description of the alternative `tm` (if any) moved
/// up, `key: v` set and `nullable: true`.
pub open spec fn carried(m: MapV, tm: MapV, key: Seq<char>, v: YamlV) -> MapV {
    let m1 = map_remove(m, "oneOf"@);
    let m2 = match map_get(tm, "description"@) {
        Some(d) => map_insert(m1, "description"@, d),
        None => m1,
    };
    map_insert(map_insert(m2, key, v), "nullable"@, YamlV::Bool(true))
}

/// What carrying an alternative over leaves in the object: no `oneOf`, `key` and `nullable`
/// set, the alternative's description (or the object's own), every other key as it was, and
/// keys still unique.
pub proof fn lemma_carried(m: MapV, tm: MapV, key: Seq<char>, v: YamlV)
    requires
        unique_keys(m),
        key != "oneOf"@,
        key != "nullable"@,
        key != "description"@,
    ensures
        map_get(carried(m, tm, key, v), "oneOf"@) is None,
        map_get(carried(m, tm, key, v), key) == Some(v),
        map_get(carried(m, tm, key, v), "nullable"@) == Some(YamlV::Bool(true)),
        map_get(carried(m, tm, key, v), "description"@) == match map_get(tm, "description"@) {
            Some(d) => Some(d),
            None => map_get(m, "description"@),
        },
        forall|k: Seq<char>|
            k != "oneOf"@ && k != key && k != "nullable"@ && k != "description"@
                ==> #[trigger] map_get(carried(m, tm, key, v), k) == map_get(m, k),
        unique_keys(carried(m, tm, key, v)),
{
    lemma_keys_distinct();
    let b = YamlV::Bool(true);
    let m1 = map_remove(m, "oneOf"@);
    law_get_after_remove(m, "oneOf"@);
    law_updates_keep_keys_unique(m, "oneOf"@, b);
    law_remove_keeps_other_keys(m, "oneOf"@, "description"@);
    let m2 = match map_get(tm, "description"@) {
        Some(d) => map_insert(m1, "description"@, d),
        None => m1,
    };
    if let Some(d) = map_get(tm, "description"@) {
        law_insert_keeps_other_keys(m1, "description"@, d, "oneOf"@);
        law_get_after_insert(m1, "description"@, d);
        law_updates_keep_keys_unique(m1, "description"@, d);
    }
    let m3 = map_insert(m2, key, v);
    law_insert_keeps_other_keys(m2, key, v, "description"@);
    law_insert_keeps_other_keys(m3, "nullable"@, b, "description"@);
    law_insert_keeps_other_keys(m2, key, v, "oneOf"@);
    law_insert_keeps_other_keys(m3, "nullable"@, b, "oneOf"@);
    law_get_after_insert(m2, key, v);
    law_insert_keeps_other_keys(m3, "nullable"@, b, key);
    law_get_after_insert(m3, "nullable"@, b);
    law_updates_keep_keys_unique(m2, key, v);
    law_updates_keep_keys_unique(m3, "nullable"@, b);
    assert forall|k: Seq<char>|
        k != "oneOf"@ && k != key && k != "nullable"@ && k != "description"@ implies #[trigger] map_get(
        carried(m, tm, key, v),
        k,
    ) == map_get(m, k) by {
        law_remove_keeps_other_keys(m, "oneOf"@, k);
        if let Some(d) = map_get(tm, "description"@) {
            law_insert_keeps_other_keys(m1, "description"@, d, k);
        }
        law_insert_keeps_other_keys(m2, key, v, k);
        law_insert_keeps_other_keys(m3, "nullable"@, b, k);
    }
}

/// A `oneOf` of `{type: null}` and a reference (in either order) becomes the reference marked
/// nullable: the `oneOf` is gone, the reference's description moves up, and every other key
/// keeps its value.
pub proof fn law_nullable_one_of_ref(m: MapV, o: YamlV, tm: MapV, r: YamlV)
    requires
        unique_keys(m),
        map_get(m, "oneOf"@) == Some(o),
        as_seq(o) is Some,
        as_seq(o).unwrap().len() == 2,
        has_null_type(as_seq(o).unwrap()[0]) || has_null_type(as_seq(o).unwrap()[1]),
        as_map(non_null_alternative(as_seq(o).unwrap())) == Some(tm),
        map_get(tm, "allOf"@) is None,
        map_get(tm, "$ref"@) == Some(r),
    ensures
        nullable_oneof(m) == carried(m, tm, "$ref"@, r),
        map_get(nullable_oneof(m), "oneOf"@) is None,
        map_get(nullable_oneof(m), "$ref"@) == Some(r),
        map_get(nullable_oneof(m), "nullable"@) == Some(YamlV::Bool(true)),
        map_get(nullable_oneof(m), "description"@) == match map_get(tm, "description"@) {
            Some(d) => Some(d),
            None => map_get(m, "description"@),
        },
        forall|k: Seq<char>|
            k != "oneOf"@ && k != "$ref"@ && k != "nullable"@ && k != "description"@
                ==> #[trigger] map_get(nullable_oneof(m), k) == map_get(m, k),
{
    lemma_keys_distinct();
    lemma_carried(m, tm, "$ref"@, r);
}

/// A `oneOf` of `{type: null}` and a schema whose `allOf` is a single reference (in either
/// order) becomes that reference under `schema`, marked nullable: the `oneOf` is gone, the
/// description moves up, and every other key keeps its value.
pub proof fn law_nullable_one_of_all_of(m: MapV, o: YamlV, tm: MapV, a: YamlV)
    requires
        unique_keys(m),
        map_get(m, "oneOf"@) == Some(o),
        as_seq(o) is Some,
        as_seq(o).unwrap().len() == 2,
        has_null_type(as_seq(o).unwrap()[0]) || has_null_type(as_seq(o).unwrap()[1]),
        as_map(non_null_alternative(as_seq(o).unwrap())) == Some(tm),
        map_get(tm, "allOf"@) == Some(a),
        as_seq(a) is Some,
        as_seq(a).unwrap().len() == 1,
        as_map(as_seq(a).unwrap()[0]) is Some,
        has_key(as_map(as_seq(a).unwrap()[0]).unwrap(), "$ref"@),
    ensures
        nullable_oneof(m) == carried(m, tm, "schema"@, as_seq(a).unwrap()[0]),
        map_get(nullable_oneof(m), "oneOf"@) is None,
        map_get(nullable_oneof(m), "schema"@) == Some(as_seq(a).unwrap()[0]),
        map_get(nullable_oneof(m), "nullable"@) == Some(YamlV::Bool(true)),
        map_get(nullable_oneof(m), "description"@) == match map_get(tm, "description"@) {
            Some(d) => Some(d),
            None => map_get(m, "description"@),
        },
        forall|k: Seq<char>|
            k != "oneOf"@ && k != "schema"@ && k != "nullable"@ && k != "description"@
                ==> #[trigger] map_get(nullable_oneof(m), k) == map_get(m, k),
{
    lemma_keys_distinct();
    lemma_carried(m, tm, "schema"@, as_seq(a).unwrap()[0]);
}

/// A `oneOf` of `{type: null}` and a schema with a `type` and neither `allOf` nor `$ref` (in
/// either order) becomes that type marked nullable: the `oneOf` is gone, the description moves
/// up, and every other key keeps its value.
pub proof fn law_nullable_one_of_type(m: MapV, o: YamlV, tm: MapV, t: YamlV)
    requires
        unique_keys(m),
        map_get(m, "oneOf"@) == Some(o),
        as_seq(o) is Some,
        as_seq(o).unwrap().len() == 2,
        has_null_type(as_seq(o).unwrap()[0]) || has_null_type(as_seq(o).unwrap()[1]),
        as_map(non_null_alternative(as_seq(o).unwrap())) == Some(tm),
        map_get(tm, "allOf"@) is None,
        map_get(tm, "$ref"@) is None,
        map_get(tm, "type"@) == Some(t),
    ensures
        nullable_oneof(m) == carried(m, tm, "type"@, t),
        map_get(nullable_oneof(m), "oneOf"@) is None,
        map_get(nullable_oneof(m), "type"@) == Some(t),
        map_get(nullable_oneof(m), "nullable"@) == Some(YamlV::Bool(true)),
        map_get(nullable_oneof(m), "description"@) == match map_get(tm, "description"@) {
            Some(d) => Some(d),
            None => map_get(m, "description"@),
        },
        forall|k: Seq<char>|
            k != "oneOf"@ && k != "type"@ && k != "nullable"@ && k != "description"@
                ==> #[trigger] map_get(nullable_oneof(m), k) == map_get(m, k),
{
    lemma_keys_distinct();
    lemma_carried(m, tm, "type"@, t);
}

/// A `oneOf` that is not a sequence, or whose non-null alternative cannot be carried over,
/// leaves the object as it was.
pub proof fn law_unconverted_one_of_kept(m: MapV, o: YamlV)
    requires
        map_get(m, "oneOf"@) == Some(o),
        as_seq(o) is None || with_alternative(
            map_remove(m, "oneOf"@),
            non_null_alternative(as_seq(o).unwrap()),
        ) is None,
    ensures
        nullable_oneof(m) == m,
{
}

/// Where a key is set, it is found where it was, or last where it was not there.
pub proof fn lemma_key_index_insert(m: MapV, key: Seq<char>, v: YamlV)
    ensures
        key_index(map_insert(m, key, v), key) == if key_index(m, key) >= 0 {
            key_index(m, key)
        } else {
            m.len() as int
        },
{
    lemma_key_index(m, key);
    let r = map_insert(m, key, v);
    let k = key_index(m, key);
    if k >= 0 {
        assert forall|j: int| 0 <= j < k implies !is_key(#[trigger] r[j].0, key) by {
            assert(r[j] == m[j]);
        }
        lemma_key_index_first(r, key, k);
    } else {
        assert forall|j: int| 0 <= j < m.len() implies !is_key(#[trigger] r[j].0, key) by {
            assert(r[j] == m[j]);
            if is_key(m[j].0, key) {
                assert(has_key(m, key));
            }
        }
        lemma_key_index_first(r, key, m.len() as int);
    }
}

/// Setting a key twice is setting it to the second value.
pub proof fn lemma_insert_twice(m: MapV, key: Seq<char>, x: YamlV, y: YamlV)
    ensures
        map_insert(map_insert(m, key, x), key, y) == map_insert(m, key, y),
{
    lemma_key_index(m, key);
    lemma_key_index_insert(m, key, x);
    assert(map_insert(map_insert(m, key, x), key, y) =~= map_insert(m, key, y));
}

/// Setting a key and then removing it is removing it.
pub proof fn lemma_remove_after_insert(m: MapV, key: Seq<char>, x: YamlV)
    ensures
        map_remove(map_insert(m, key, x), key) == map_remove(m, key),
{
    lemma_key_index(m, key);
    lemma_key_index_insert(m, key, x);
    assert(map_remove(map_insert(m, key, x), key) =~= map_remove(m, key));
}

/// In a two-element array of types, the position of the null member does not matter.
pub proof fn law_type_array_order(m: MapV, a: YamlV, n: YamlV)
    requires
        nullish(n),
        !nullish(a),
    ensures
        nullable_type_array(map_insert(m, "type"@, YamlV::Sequence(seq![a, n])))
            == nullable_type_array(map_insert(m, "type"@, YamlV::Sequence(seq![n, a]))),
        map_get(nullable_type_array(map_insert(m, "type"@, YamlV::Sequence(seq![a, n]))), "type"@)
            == Some(a),
{
    let x = YamlV::Sequence(seq![a, n]);
    let y = YamlV::Sequence(seq![n, a]);
    law_get_after_insert(m, "type"@, x);
    law_get_after_insert(m, "type"@, y);
    lemma_insert_twice(m, "type"@, x, a);
    lemma_insert_twice(m, "type"@, y, a);
    law_nullable_type_array(map_insert(m, "type"@, x), x);
}

/// In a two-member `oneOf` with one null-typed member, whose other member can be carried over,
/// the position of the null-typed member does not matter.
pub proof fn law_one_of_order(m: MapV, nn: YamlV, t: YamlV)
    requires
        has_null_type(nn),
        !has_nullish_type(t),
        with_alternative(map_remove(m, "oneOf"@), t) is Some,
    ensures
        nullable_oneof(map_insert(m, "oneOf"@, YamlV::Sequence(seq![nn, t]))) == nullable_oneof(
            map_insert(m, "oneOf"@, YamlV::Sequence(seq![t, nn])),
        ),
{
    let x = YamlV::Sequence(seq![nn, t]);
    let y = YamlV::Sequence(seq![t, nn]);
    law_get_after_insert(m, "oneOf"@, x);
    law_get_after_insert(m, "oneOf"@, y);
    lemma_remove_after_insert(m, "oneOf"@, x);
    lemma_remove_after_insert(m, "oneOf"@, y);
    assert(has_nullish_type(nn));
    assert(non_null_alternative(seq![nn, t]) == t);
    assert(non_null_alternative(seq![t, nn]) == t);
}

/// Every rewrite keeps the keys of a mapping unique.
pub proof fn law_rewrites_keep_keys_unique(m: MapV)
    requires
        unique_keys(m),
    ensures
        unique_keys(nullable_type_array(m)),
        unique_keys(nullable_type_null(m)),
        unique_keys(const_to_enum(m)),
        unique_keys(schema_ref(m)),
        unique_keys(nullable_oneof(m)),
{
    let b = YamlV::Bool(true);
    // nullable_type_array
    if let Some(types) = map_get(m, "type"@) {
        if let Some(s) = as_seq(types) {
            let t = if nullish(s[0]) {
                s[1]
            } else {
                s[0]
            };
            law_updates_keep_keys_unique(m, "type"@, t);
            law_updates_keep_keys_unique(map_insert(m, "type"@, t), "nullable"@, b);
        }
    }
    // nullable_type_null
    let ts = YamlV::String("string"@);
    let e = YamlV::Sequence(Seq::empty());
    let m0 = map_remove(m, "type"@);
    law_updates_keep_keys_unique(m, "type"@, b);
    law_updates_keep_keys_unique(m0, "type"@, ts);
    law_updates_keep_keys_unique(map_insert(m0, "type"@, ts), "enum"@, e);
    law_updates_keep_keys_unique(map_insert(map_insert(m0, "type"@, ts), "enum"@, e), "nullable"@, b);
    // const_to_enum
    if let Some(c) = map_get(m, "const"@) {
        law_updates_keep_keys_unique(m, "const"@, b);
        law_updates_keep_keys_unique(map_remove(m, "const"@), "enum"@, YamlV::Sequence(seq![c]));
    }
    // schema_ref
    if let Some(r) = map_get(m, "$ref"@) {
        assert(is_string(r) || schema_ref(m) == m);
        law_updates_keep_keys_unique(m, "$ref"@, b);
        law_updates_keep_keys_unique(
            map_remove(m, "$ref"@),
            "allOf"@,
            YamlV::Sequence(seq![YamlV::Mapping(seq![(YamlV::String("$ref"@), r)])]),
        );
    }
    // nullable_oneof
    if let Some(o) = map_get(m, "oneOf"@) {
        if let Some(s) = as_seq(o) {
            if s.len() == 2 {
                if let Some(tm) = as_map(non_null_alternative(s)) {
                    lemma_keys_distinct();
                    if let Some(a) = map_get(tm, "allOf"@) {
                        if let Some(al) = as_seq(a) {
                            if al.len() == 1 {
                                lemma_carried(m, tm, "schema"@, al[0]);
                            }
                        }
                    } else if let Some(r) = map_get(tm, "$ref"@) {
                        lemma_carried(m, tm, "$ref"@, r);
                    } else if let Some(t) = map_get(tm, "type"@) {
                        lemma_carried(m, tm, "type"@, t);
                    }
                }
            }
        }
    }
}

/// The nodes below a value, in the order a walk hands them to its visitor: under any tags,
/// the items of a sequence or the values of a mapping, each after the nodes below it.
pub open spec fn children_nodes(v: YamlV) -> Seq<YamlV>
    decreases v,
{
    match v {
        YamlV::Tagged(_, b) => children_nodes(*b),
        YamlV::Sequence(s) => items_nodes(s),
        YamlV::Mapping(m) => entries_nodes(m),
        _ => Seq::empty(),
    }
}

/// The nodes of each item of a sequence, in order, each item after the nodes below it.
pub open spec fn items_nodes(s: Seq<YamlV>) -> Seq<YamlV>
    decreases s,
{
    if s.len() == 0 {
        Seq::empty()
    } else {
        items_nodes(s.subrange(0, s.len() - 1)) + children_nodes(s[s.len() - 1]).push(
            s[s.len() - 1],
        )
    }
}

/// The nodes of each value of a mapping, in order, each value after the nodes below it; keys
/// are not nodes.
pub open spec fn entries_nodes(m: MapV) -> Seq<YamlV>
    decreases m,
{
    if m.len() == 0 {
        Seq::empty()
    } else {
        entries_nodes(m.subrange(0, m.len() - 1)) + children_nodes(m[m.len() - 1].1).push(
            m[m.len() - 1].1,
        )
    }
}

/// The nodes of the values of an optional mapping.
pub open spec fn opt_entries_nodes(m: Option<MapV>) -> Seq<YamlV> {
    match m {
        Some(m) => entries_nodes(m),
        None => Seq::empty(),
    }
}

/// The nodes a walk of a document reaches, in order: those of the values of `components`,
/// then those of the values of `paths`.
pub open spec fn document_nodes(d: DocumentV) -> Seq<YamlV> {
    opt_entries_nodes(d.components) + opt_entries_nodes(d.paths)
}

/// The state of a visitor after it is handed the objects of `s` in turn, from `st`.
pub open spec fn fold_after<V: ObjectVisitor>(st: V::V, s: Seq<YamlV>) -> V::V
    decreases s.len(),
{
    if s.len() == 0 {
        st
    } else {
        V::after(fold_after::<V>(st, s.subrange(0, s.len() - 1)), s[s.len() - 1])
    }
}

/// Handing over `a` then `b` is handing over `a + b`.
pub proof fn lemma_fold_after_concat<V: ObjectVisitor>(st: V::V, a: Seq<YamlV>, b: Seq<YamlV>)
    ensures
        fold_after::<V>(st, a + b) == fold_after::<V>(fold_after::<V>(st, a), b),
    decreases b.len(),
{
    if b.len() == 0 {
        assert(a + b =~= a);
    } else {
        let b1 = b.subrange(0, b.len() - 1);
        lemma_fold_after_concat::<V>(st, a, b1);
        assert((a + b).subrange(0, (a + b).len() - 1) =~= a + b1);
    }
}

/// A visitor whose visits leave every object as it was.
pub open spec fn only_looks<V: ObjectVisitor>() -> bool {
    forall|st: V::V, o: YamlV| #[trigger] V::rewrite(st, o) == o
}

/// A walk whose visitor only looks leaves a value as it was, and hands the visitor the
/// nodes below the value, in order.
pub proof fn lemma_looking_walk_children<V: ObjectVisitor>(st: V::V, v: YamlV)
    requires
        only_looks::<V>(),
    ensures
        walk_children::<V>(st, v) == (v, fold_after::<V>(st, children_nodes(v))),
    decreases v,
{
    match v {
        YamlV::Tagged(t, b) => {
            lemma_looking_walk_children::<V>(st, *b);
        },
        YamlV::Sequence(s) => {
            lemma_looking_walk_items::<V>(st, s);
        },
        YamlV::Mapping(m) => {
            lemma_looking_walk_entries::<V>(st, m);
        },
        _ => {},
    }
}

/// A walk whose visitor only looks leaves a sequence as it was, and hands the visitor its
/// nodes, in order.
pub proof fn lemma_looking_walk_items<V: ObjectVisitor>(st: V::V, s: Seq<YamlV>)
    requires
        only_looks::<V>(),
    ensures
        walk_items::<V>(st, s) == (s, fold_after::<V>(st, items_nodes(s))),
    decreases s,
{
    if s.len() > 0 {
        let p = s.subrange(0, s.len() - 1);
        let last = s[s.len() - 1];
        lemma_looking_walk_items::<V>(st, p);
        let st1 = fold_after::<V>(st, items_nodes(p));
        lemma_looking_walk_children::<V>(st1, last);
        let sub = children_nodes(last).push(last);
        assert(sub.subrange(0, sub.len() - 1) =~= children_nodes(last));
        lemma_fold_after_concat::<V>(st, items_nodes(p), sub);
        assert(s =~= p.push(last));
    }
}

/// A walk whose visitor only looks leaves a mapping as it was, and hands the visitor the
/// nodes of its values, in order.
pub proof fn lemma_looking_walk_entries<V: ObjectVisitor>(st: V::V, m: MapV)
    requires
        only_looks::<V>(),
    ensures
        walk_entries::<V>(st, m) == (m, fold_after::<V>(st, entries_nodes(m))),
    decreases m,
{
    if m.len() > 0 {
        let p = m.subrange(0, m.len() - 1);
        let last = m[m.len() - 1].1;
        lemma_looking_walk_entries::<V>(st, p);
        let st1 = fold_after::<V>(st, entries_nodes(p));
        lemma_looking_walk_children::<V>(st1, last);
        let sub = children_nodes(last).push(last);
        assert(sub.subrange(0, sub.len() - 1) =~= children_nodes(last));
        lemma_fold_after_concat::<V>(st, entries_nodes(p), sub);
        assert(m =~= p.push(m[m.len() - 1]));
    }
}

/// A walk whose visitor only looks leaves the document as it was, and hands the visitor
/// every node of the values of `components`, then of `paths`, each once, each after the
/// nodes below it.
pub proof fn law_looking_walk<V: ObjectVisitor>(st: V::V, d: DocumentV)
    requires
        only_looks::<V>(),
    ensures
        walk_document::<V>(st, d) == (d, fold_after::<V>(st, document_nodes(d))),
{
    let c = opt_entries_nodes(d.components);
    if let Some(cm) = d.components {
        lemma_looking_walk_entries::<V>(st, cm);
    }
    let st1 = fold_after::<V>(st, c);
    if let Some(pm) = d.paths {
        lemma_looking_walk_entries::<V>(st1, pm);
    }
    lemma_fold_after_concat::<V>(st, c, opt_entries_nodes(d.paths));
}

/// The objects a walk from state `st` hands its visitor below `v`, in order, each as it is
/// when handed over: with the values below it already walked.
pub open spec fn children_trace<V: ObjectVisitor>(st: V::V, v: YamlV) -> Seq<YamlV>
    decreases v,
{
    match v {
        YamlV::Tagged(_, b) => children_trace::<V>(st, *b),
        YamlV::Sequence(s) => items_trace::<V>(st, s),
        YamlV::Mapping(m) => entries_trace::<V>(st, m),
        _ => Seq::empty(),
    }
}

/// The objects a walk from state `st` hands its visitor for the items of a sequence: for
/// each item in turn, those below it, then the item itself.
pub open spec fn items_trace<V: ObjectVisitor>(st: V::V, s: Seq<YamlV>) -> Seq<YamlV>
    decreases s,
{
    if s.len() == 0 {
        Seq::empty()
    } else {
        let p = walk_items::<V>(st, s.subrange(0, s.len() - 1));
        let last = s[s.len() - 1];
        items_trace::<V>(st, s.subrange(0, s.len() - 1)) + children_trace::<V>(p.1, last).push(
            walk_children::<V>(p.1, last).0,
        )
    }
}

/// The objects a walk from state `st` hands its visitor for the values of a mapping: for each
/// value in turn, those below it, then the value itself.
pub open spec fn entries_trace<V: ObjectVisitor>(st: V::V, m: MapV) -> Seq<YamlV>
    decreases m,
{
    if m.len() == 0 {
        Seq::empty()
    } else {
        let p = walk_entries::<V>(st, m.subrange(0, m.len() - 1));
        let last = m[m.len() - 1].1;
        entries_trace::<V>(st, m.subrange(0, m.len() - 1)) + children_trace::<V>(p.1, last).push(
            walk_children::<V>(p.1, last).0,
        )
    }
}

/// The objects a walk from state `st` hands its visitor for the values of an optional mapping.
pub open spec fn opt_entries_trace<V: ObjectVisitor>(st: V::V, m: Option<MapV>) -> Seq<YamlV> {
    match m {
        Some(m) => entries_trace::<V>(st, m),
        None => Seq::empty(),
    }
}

/// The objects a walk of a document from state `st` hands its visitor, in order: for the
/// values of `components`, then for those of `paths`.
pub open spec fn document_trace<V: ObjectVisitor>(st: V::V, d: DocumentV) -> Seq<YamlV> {
    let c = walk_opt_entries::<V>(st, d.components);
    opt_entries_trace::<V>(st, d.components) + opt_entries_trace::<V>(c.1, d.paths)
}

/// Below a value, a walk hands its visitor one object per node, and leaves it in the state
/// that those visits make.
pub proof fn lemma_trace_children<V: ObjectVisitor>(st: V::V, v: YamlV)
    ensures
        walk_children::<V>(st, v).1 == fold_after::<V>(st, children_trace::<V>(st, v)),
        children_trace::<V>(st, v).len() == children_nodes(v).len(),
    decreases v,
{
    match v {
        YamlV::Tagged(_, b) => {
            lemma_trace_children::<V>(st, *b);
        },
        YamlV::Sequence(s) => {
            lemma_trace_items::<V>(st, s);
        },
        YamlV::Mapping(m) => {
            lemma_trace_entries::<V>(st, m);
        },
        _ => {},
    }
}

/// For the items of a sequence, a walk hands its visitor one object per node, and leaves it in
/// the state that those visits make.
pub proof fn lemma_trace_items<V: ObjectVisitor>(st: V::V, s: Seq<YamlV>)
    ensures
        walk_items::<V>(st, s).1 == fold_after::<V>(st, items_trace::<V>(st, s)),
        items_trace::<V>(st, s).len() == items_nodes(s).len(),
    decreases s,
{
    if s.len() > 0 {
        let pre = s.subrange(0, s.len() - 1);
        let last = s[s.len() - 1];
        lemma_trace_items::<V>(st, pre);
        let p = walk_items::<V>(st, pre);
        lemma_trace_children::<V>(p.1, last);
        let c = walk_children::<V>(p.1, last);
        let sub = children_trace::<V>(p.1, last).push(c.0);
        assert(sub.subrange(0, sub.len() - 1) =~= children_trace::<V>(p.1, last));
        lemma_fold_after_concat::<V>(st, items_trace::<V>(st, pre), sub);
    }
}

/// For the values of a mapping, a walk hands its visitor one object per node, and leaves it
/// in the state that those visits make.
pub proof fn lemma_trace_entries<V: ObjectVisitor>(st: V::V, m: MapV)
    ensures
        walk_entries::<V>(st, m).1 == fold_after::<V>(st, entries_trace::<V>(st, m)),
        entries_trace::<V>(st, m).len() == entries_nodes(m).len(),
    decreases m,
{
    if m.len() > 0 {
        let pre = m.subrange(0, m.len() - 1);
        let last = m[m.len() - 1].1;
        lemma_trace_entries::<V>(st, pre);
        let p = walk_entries::<V>(st, pre);
        lemma_trace_children::<V>(p.1, last);
        let c = walk_children::<V>(p.1, last);
        let sub = children_trace::<V>(p.1, last).push(c.0);
        assert(sub.subrange(0, sub.len() - 1) =~= children_trace::<V>(p.1, last));
        lemma_fold_after_concat::<V>(st, entries_trace::<V>(st, pre), sub);
    }
}

/// Whatever its visitor makes of the objects, a walk of one value hands the visitor one
/// object per node of the value, those below it first and the value itself (its children
/// walked) last, and leaves the visitor in the state that those visits, in that order, make.
pub proof fn law_walk_one_value<V: ObjectVisitor>(st: V::V, v: YamlV)
    ensures
        walk::<V>(st, v).1 == fold_after::<V>(
            st,
            children_trace::<V>(st, v).push(walk_children::<V>(st, v).0),
        ),
        children_trace::<V>(st, v).len() == children_nodes(v).len(),
{
    lemma_trace_children::<V>(st, v);
    let t = children_trace::<V>(st, v).push(walk_children::<V>(st, v).0);
    assert(t.subrange(0, t.len() - 1) =~= children_trace::<V>(st, v));
}

/// Whatever its visitor makes of the objects, a walk of a document hands the visitor one
/// object per node of the values of `components`, then of `paths`, no more, and leaves the
/// visitor in the state that those visits, in that order, make.
pub proof fn law_walk_trace<V: ObjectVisitor>(st: V::V, d: DocumentV)
    ensures
        walk_document::<V>(st, d).1 == fold_after::<V>(st, document_trace::<V>(st, d)),
        document_trace::<V>(st, d).len() == document_nodes(d).len(),
{
    let c = walk_opt_entries::<V>(st, d.components);
    if let Some(cm) = d.components {
        lemma_trace_entries::<V>(st, cm);
    }
    if let Some(pm) = d.paths {
        lemma_trace_entries::<V>(c.1, pm);
    }
    lemma_fold_after_concat::<V>(
        st,
        opt_entries_trace::<V>(st, d.components),
        opt_entries_trace::<V>(c.1, d.paths),
    );
}

/// A recorder that is handed objects in turn holds them, in order, after what it held.
pub proof fn lemma_recorder_fold(st: Seq<YamlV>, s: Seq<YamlV>)
    ensures
        fold_after::<ObjectRecorder>(st, s) == st + s,
    decreases s.len(),
{
    if s.len() > 0 {
        lemma_recorder_fold(st, s.subrange(0, s.len() - 1));
        assert(st + s =~= (st + s.subrange(0, s.len() - 1)).push(s[s.len() - 1]));
    } else {
        assert(st + s =~= st);
    }
}

/// `walk_objects` hands its visitor every node of the values of `components`, then of
/// `paths`, each once, each after the nodes below it, and nothing else: a recorder comes back
/// holding exactly those nodes, in that order.
pub proof fn law_walk_objects_visits_every_node(st: Seq<YamlV>, d: DocumentV)
    ensures
        walk_document::<ObjectRecorder>(st, d) == (d, st + document_nodes(d)),
{
    law_looking_walk::<ObjectRecorder>(st, d);
    lemma_recorder_fold(st, document_nodes(d));
}

/// The mappings of the nodes that are mappings with a `$ref` key, in order.
pub open spec fn ref_mappings(s: Seq<YamlV>) -> Seq<MapV>
    decreases s.len(),
{
    if s.len() == 0 {
        Seq::empty()
    } else {
        let p = ref_mappings(s.subrange(0, s.len() - 1));
        let last = s[s.len() - 1];
        if is_ref_object(last) {
            p.push(as_map(last).unwrap())
        } else {
            p
        }
    }
}

/// `walk_ref_objects` hands its visitor the mapping of every node (in walk order) that is a
/// mapping with a `$ref` key, and nothing else: a recorder comes back holding exactly those.
pub proof fn law_walk_ref_objects_visits_ref_mappings(st: Seq<MapV>, d: DocumentV)
    ensures
        walk_document::<RefObjects<MappingRecorder>>(st, d) == (d, st + ref_mappings(
            document_nodes(d),
        )),
{
    assert forall|s0: Seq<MapV>, o: YamlV| #[trigger]
        RefObjects::<MappingRecorder>::rewrite(s0, o) == o by {
        if is_ref_object(o) {
            lemma_with_map_same(o);
        }
    }
    law_looking_walk::<RefObjects<MappingRecorder>>(st, d);
    lemma_ref_fold(st, document_nodes(d));
}

proof fn lemma_ref_fold(st: Seq<MapV>, s: Seq<YamlV>)
    ensures
        fold_after::<RefObjects<MappingRecorder>>(st, s) == st + ref_mappings(s),
    decreases s.len(),
{
    if s.len() > 0 {
        let p = s.subrange(0, s.len() - 1);
        lemma_ref_fold(st, p);
        let last = s[s.len() - 1];
        if is_ref_object(last) {
            assert(st + ref_mappings(s) =~= (st + ref_mappings(p)).push(as_map(last).unwrap()));
        }
    } else {
        assert(st + ref_mappings(s) =~= st);
    }
}

/// The values the schema visitor hands on for one object: its `schema` value, then each
/// value of its `schemas` mapping, in order.
pub open spec fn schema_values_of(o: YamlV) -> Seq<YamlV> {
    let first = match as_map(o) {
        Some(m) => match map_get(m, "schema"@) {
            Some(s) => seq![s],
            None => Seq::empty(),
        },
        None => Seq::empty(),
    };
    let rest = match as_map(o) {
        Some(m) => match map_get(m, "schemas"@) {
            Some(ss) => match as_map(ss) {
                Some(sm) => Seq::new(sm.len(), |i: int| sm[i].1),
                None => Seq::empty(),
            },
            None => Seq::empty(),
        },
        None => Seq::empty(),
    };
    first + rest
}

/// The values the schema visitor hands on for each node, in order.
pub open spec fn schema_values(s: Seq<YamlV>) -> Seq<YamlV>
    decreases s.len(),
{
    if s.len() == 0 {
        Seq::empty()
    } else {
        schema_values(s.subrange(0, s.len() - 1)) + schema_values_of(s[s.len() - 1])
    }
}

/// Setting a key to the value it holds changes nothing.
pub proof fn lemma_insert_same(m: MapV, key: Seq<char>)
    requires
        map_get(m, key) is Some,
    ensures
        map_insert(m, key, map_get(m, key).unwrap()) == m,
{
    crate::yaml::lemma_key_index(m, key);
    assert(map_insert(m, key, map_get(m, key).unwrap()) =~= m);
}

/// A recorder handed each value of a mapping keeps the mapping and holds its values.
proof fn lemma_recorder_values(st: Seq<YamlV>, m: MapV)
    ensures
        visit_each_value::<ObjectRecorder>(st, m) == (m, st + Seq::new(m.len(), |i: int| m[i].1)),
    decreases m.len(),
{
    if m.len() > 0 {
        let p = m.subrange(0, m.len() - 1);
        lemma_recorder_values(st, p);
        assert(m =~= p.push(m[m.len() - 1]));
        assert(st + Seq::new(m.len(), |i: int| m[i].1) =~= (st + Seq::new(
            p.len(),
            |i: int| p[i].1,
        )).push(m[m.len() - 1].1));
    } else {
        assert(m =~= Seq::<(YamlV, YamlV)>::empty());
        assert(st + Seq::new(m.len(), |i: int| m[i].1) =~= st);
    }
}

/// The schema visitor over a recorder leaves an object as it was and records its schema
/// values.
proof fn lemma_schema_recorder_step(st: Seq<YamlV>, o: YamlV)
    ensures
        schema_object_step::<ObjectRecorder>(st, o) == (o, st + schema_values_of(o)),
{
    let first = match as_map(o) {
        Some(m) => match map_get(m, "schema"@) {
            Some(s) => seq![s],
            None => Seq::<YamlV>::empty(),
        },
        None => Seq::<YamlV>::empty(),
    };
    let a = visit_under_key_spec::<ObjectRecorder>(st, o, "schema"@);
    if let Some(m) = as_map(o) {
        if let Some(s) = map_get(m, "schema"@) {
            lemma_insert_same(m, "schema"@);
            lemma_with_map_same(o);
        }
    }
    assert(a == (o, st + first)) by {
        if as_map(o) is Some && map_get(as_map(o).unwrap(), "schema"@) is Some {
            assert(st + first =~= st.push(map_get(as_map(o).unwrap(), "schema"@).unwrap()));
        } else {
            assert(st + first =~= st);
        }
    }
    if let Some(m) = as_map(o) {
        if let Some(ss) = map_get(m, "schemas"@) {
            if let Some(sm) = as_map(ss) {
                lemma_recorder_values(st + first, sm);
                lemma_with_map_same(ss);
                lemma_insert_same(m, "schemas"@);
                lemma_with_map_same(o);
                assert(st + first + Seq::new(sm.len(), |i: int| sm[i].1) =~= st
                    + schema_values_of(o));
            } else {
                assert(st + first =~= st + schema_values_of(o));
            }
        } else {
            assert(st + first =~= st + schema_values_of(o));
        }
    } else {
        assert(st + first =~= st + schema_values_of(o));
    }
}

proof fn lemma_schema_fold(st: Seq<YamlV>, s: Seq<YamlV>)
    ensures
        fold_after::<SchemaObjects<ObjectRecorder>>(st, s) == st + schema_values(s),
    decreases s.len(),
{
    if s.len() > 0 {
        let p = s.subrange(0, s.len() - 1);
        lemma_schema_fold(st, p);
        lemma_schema_recorder_step(st + schema_values(p), s[s.len() - 1]);
        assert(st + schema_values(s) =~= st + schema_values(p) + schema_values_of(s[s.len() - 1]));
    } else {
        assert(st + schema_values(s) =~= st);
    }
}

/// `walk_schema_objects` hands its visitor, for every node in walk order, the node's
/// `schema` value and then each value of its `schemas` mapping, and nothing else: a recorder
/// comes back holding exactly those.
pub proof fn law_walk_schema_objects_visits_schema_values(st: Seq<YamlV>, d: DocumentV)
    ensures
        walk_document::<SchemaObjects<ObjectRecorder>>(st, d) == (d, st + schema_values(
            document_nodes(d),
        )),
{
    assert forall|s0: Seq<YamlV>, o: YamlV| #[trigger]
        SchemaObjects::<ObjectRecorder>::rewrite(s0, o) == o by {
        lemma_schema_recorder_step(s0, o);
    }
    law_looking_walk::<SchemaObjects<ObjectRecorder>>(st, d);
    lemma_schema_fold(st, document_nodes(d));
}

/// The values of a mapping, in order.
pub open spec fn values_of(m: MapV) -> Seq<YamlV> {
    Seq::new(m.len(), |i: int| m[i].1)
}

/// Handing each value of a mapping in turn to a visitor puts what it makes of each back in
/// its place, under its key; the visitor is handed the values in order.
pub proof fn lemma_visit_each_value<V: ObjectVisitor>(st: V::V, m: MapV)
    ensures
        visit_each_value::<V>(st, m).0.len() == m.len(),
        forall|i: int|
            0 <= i < m.len() ==> #[trigger] visit_each_value::<V>(st, m).0[i] == (
                m[i].0,
                V::rewrite(fold_after::<V>(st, values_of(m).take(i)), m[i].1),
            ),
        visit_each_value::<V>(st, m).1 == fold_after::<V>(st, values_of(m)),
    decreases m.len(),
{
    if m.len() > 0 {
        let n = m.len() - 1;
        let p = m.subrange(0, n);
        lemma_visit_each_value::<V>(st, p);
        assert(values_of(m).take(n) =~= values_of(p));
        assert(values_of(m).subrange(0, n) =~= values_of(p));
        let r = visit_each_value::<V>(st, m);
        assert forall|i: int| 0 <= i < m.len() implies #[trigger] r.0[i] == (
            m[i].0,
            V::rewrite(fold_after::<V>(st, values_of(m).take(i)), m[i].1),
        ) by {
            if i < n {
                assert(values_of(m).take(i) =~= values_of(p).take(i));
                assert(p[i] == m[i]);
            }
        }
    }
}

/// The key a schema visitor reads first is not the key of the mapping it reads after.
proof fn lemma_schema_keys_distinct()
    ensures
        "schema"@ != "schemas"@,
{
    reveal_strlit("schema");
    reveal_strlit("schemas");
    assert("schema"@.len() != "schemas"@.len());
}

/// The entries of an object after the schema visitor's step.
pub open spec fn schema_step_entries<V: ObjectVisitor>(st: V::V, o: YamlV) -> MapV {
    as_map(SchemaObjects::<V>::rewrite(st, o)).unwrap()
}

/// The schema visitor hands `V` the object's `schema` value, then each value of its `schemas`
/// mapping, in order, and puts what `V` makes of each back in its place; every other entry of
/// the object stays.
pub proof fn law_schema_objects_rewrite_in_place<V: ObjectVisitor>(st: V::V, o: YamlV, m: MapV)
    requires
        as_map(o) == Some(m),
        unique_keys(m),
    ensures
        as_map(SchemaObjects::<V>::rewrite(st, o)) is Some,
        SchemaObjects::<V>::after(st, o) == fold_after::<V>(st, schema_values_of(o)),
        match map_get(m, "schema"@) {
            Some(s) => map_get(schema_step_entries::<V>(st, o), "schema"@) == Some(
                V::rewrite(st, s),
            ),
            None => map_get(schema_step_entries::<V>(st, o), "schema"@) is None,
        },
        match map_get(m, "schemas"@) {
            Some(ss) => match as_map(ss) {
                Some(sm) => {
                    &&& map_get(schema_step_entries::<V>(st, o), "schemas"@) is Some
                    &&& as_map(map_get(schema_step_entries::<V>(st, o), "schemas"@).unwrap())
                        is Some
                    &&& as_map(
                        map_get(schema_step_entries::<V>(st, o), "schemas"@).unwrap(),
                    ).unwrap().len() == sm.len()
                    &&& forall|i: int|
                        0 <= i < sm.len() ==> #[trigger] as_map(
                            map_get(schema_step_entries::<V>(st, o), "schemas"@).unwrap(),
                        ).unwrap()[i] == (
                            sm[i].0,
                            V::rewrite(
                                fold_after::<V>(
                                    st,
                                    schema_values_of(o).take(
                                        (if map_get(m, "schema"@) is Some {
                                            1int
                                        } else {
                                            0int
                                        }) + i,
                                    ),
                                ),
                                sm[i].1,
                            ),
                        )
                },
                None => map_get(schema_step_entries::<V>(st, o), "schemas"@) == Some(ss),
            },
            None => map_get(schema_step_entries::<V>(st, o), "schemas"@) is None,
        },
        forall|k: Seq<char>|
            k != "schema"@ && k != "schemas"@ ==> #[trigger] map_get(
                schema_step_entries::<V>(st, o),
                k,
            ) == map_get(m, k),
{
    lemma_schema_keys_distinct();
    let first = match map_get(m, "schema"@) {
        Some(s) => seq![s],
        None => Seq::<YamlV>::empty(),
    };
    let a = visit_under_key_spec::<V>(st, o, "schema"@);
    let m1 = match map_get(m, "schema"@) {
        Some(s) => map_insert(m, "schema"@, V::rewrite(st, s)),
        None => m,
    };
    if let Some(s) = map_get(m, "schema"@) {
        let v = V::rewrite(st, s);
        crate::yaml::lemma_with_map_as_map(o, m1);
        law_get_after_insert(m, "schema"@, v);
        law_updates_keep_keys_unique(m, "schema"@, v);
        law_insert_keeps_other_keys(m, "schema"@, v, "schemas"@);
        assert forall|k: Seq<char>| k != "schema"@ implies #[trigger] map_get(m1, k) == map_get(
            m,
            k,
        ) by {
            law_insert_keeps_other_keys(m, "schema"@, v, k);
        }
        assert(first.subrange(0, 0) =~= Seq::<YamlV>::empty());
        assert(fold_after::<V>(st, first.subrange(0, 0)) == st);
        assert(a == (with_map(o, m1), V::after(st, s)));
        assert(a.1 == fold_after::<V>(st, first));
    } else {
        assert(a.1 == fold_after::<V>(st, first));
    }
    assert(as_map(a.0) == Some(m1));
    assert(unique_keys(m1));
    let rest = match map_get(m, "schemas"@) {
        Some(ss) => match as_map(ss) {
            Some(sm) => values_of(sm),
            None => Seq::<YamlV>::empty(),
        },
        None => Seq::<YamlV>::empty(),
    };
    assert(schema_values_of(o) =~= first + rest);
    if let Some(ss) = map_get(m, "schemas"@) {
        if let Some(sm) = as_map(ss) {
            let r = visit_each_value::<V>(a.1, sm);
            let nv = with_map(ss, r.0);
            let m2 = map_insert(m1, "schemas"@, nv);
            crate::yaml::lemma_with_map_as_map(a.0, m2);
            crate::yaml::lemma_with_map_as_map(ss, r.0);
            law_get_after_insert(m1, "schemas"@, nv);
            law_insert_keeps_other_keys(m1, "schemas"@, nv, "schema"@);
            assert forall|k: Seq<char>| k != "schemas"@ implies #[trigger] map_get(m2, k)
                == map_get(m1, k) by {
                law_insert_keeps_other_keys(m1, "schemas"@, nv, k);
            }
            lemma_visit_each_value::<V>(a.1, sm);
            lemma_fold_after_concat::<V>(st, first, values_of(sm));
            assert forall|i: int| 0 <= i < sm.len() implies fold_after::<V>(
                a.1,
                values_of(sm).take(i),
            ) == fold_after::<V>(st, schema_values_of(o).take(first.len() + i)) by {
                lemma_fold_after_concat::<V>(st, first, values_of(sm).take(i));
                assert(schema_values_of(o).take(first.len() + i) =~= first + values_of(sm).take(
                    i,
                ));
            }
        } else {
            assert(first + rest =~= first);
        }
    } else {
        assert(first + rest =~= first);
    }
}

/// A walk reaches only `components` and `paths`: the version, `info` and `tags` stay.
pub proof fn law_walk_keeps_rest<V: ObjectVisitor>(st: V::V, d: DocumentV)
    ensures
        walk_document::<V>(st, d).0.openapi == d.openapi,
        walk_document::<V>(st, d).0.info == d.info,
        walk_document::<V>(st, d).0.tags == d.tags,
{
}

/// The licence pass removes the `info` entry of the licence mapping under `info.license`,
/// keeps the licence's other entries, and leaves everything else of the document as it was.
pub proof fn law_remove_licence(d: DocumentV, im: MapV, l: YamlV, lm: MapV)
    requires
        d.info == Some(im),
        map_get(im, "license"@) == Some(l),
        as_map(l) == Some(lm),
        unique_keys(lm),
    ensures
        ({
            let im2 = remove_licence(d).info.unwrap();
            let l2 = map_get(im2, "license"@).unwrap();
            &&& map_get(im2, "license"@) is Some
            &&& as_map(l2) == Some(map_remove(lm, "info"@))
            &&& map_get(map_remove(lm, "info"@), "info"@) is None
            &&& forall|k: Seq<char>|
                k != "info"@ ==> #[trigger] map_get(map_remove(lm, "info"@), k) == map_get(lm, k)
            &&& forall|k: Seq<char>| k != "license"@ ==> #[trigger] map_get(im2, k) == map_get(im, k)
        }),
        remove_licence(d).openapi == d.openapi,
        remove_licence(d).paths == d.paths,
        remove_licence(d).components == d.components,
        remove_licence(d).tags == d.tags,
{
    let l2 = with_map(l, map_remove(lm, "info"@));
    law_get_after_insert(im, "license"@, l2);
    crate::yaml::lemma_with_map_as_map(l, map_remove(lm, "info"@));
    law_get_after_remove(lm, "info"@);
    assert forall|k: Seq<char>| k != "info"@ implies #[trigger] map_get(map_remove(lm, "info"@), k)
        == map_get(lm, k) by {
        law_remove_keeps_other_keys(lm, "info"@, k);
    }
    assert forall|k: Seq<char>| k != "license"@ implies #[trigger] map_get(
        remove_licence(d).info.unwrap(),
        k,
    ) == map_get(im, k) by {
        law_insert_keeps_other_keys(im, "license"@, l2, k);
    }
}

/// The conversion does the same to the values of `paths` as to those of `components`, and
/// what it makes of each depends on nothing else: converting a document whose `components`
/// are another document's `paths` gives, as `components`, that document's converted `paths`,
/// and the other way round.
pub proof fn law_converted_paths_as_components(d: DocumentV)
    ensures
        converted(d).paths == converted(DocumentV { components: d.paths, ..d }).components,
        converted(d).components == converted(DocumentV { paths: d.components, ..d }).paths,
{
}

/// Only a `type` that is a two-item list holding null is rewritten by the type-array pass: a
/// mapping with no `type`, or whose `type` is not a list, is a list of another length, or is
/// a two-item list with no null in it, stays as it is.
pub proof fn law_type_array_only_pairs(m: MapV)
    requires
        match map_get(m, "type"@) {
            Some(ts) => match as_seq(ts) {
                Some(s) => s.len() != 2 || (!nullish(s[0]) && !nullish(s[1])),
                None => true,
            },
            None => true,
        },
    ensures
        nullable_type_array(m) == m,
{
}

/// Only a `type` that stands for null is rewritten by the type-null pass: a mapping with no
/// `type`, or with any other `type` (a list holding null among them), stays as it is.
pub proof fn law_type_null_only_null(m: MapV)
    requires
        match map_get(m, "type"@) {
            Some(t) => !nullish(t),
            None => true,
        },
    ensures
        nullable_type_null(m) == m,
{
}

/// Only a two-item `oneOf` is rewritten: a mapping with no `oneOf`, or whose `oneOf` is a
/// list of another length, stays as it is.
pub proof fn law_one_of_only_pairs(m: MapV)
    requires
        match map_get(m, "oneOf"@) {
            Some(o) => match as_seq(o) {
                Some(s) => s.len() != 2,
                None => true,
            },
            None => true,
        },
    ensures
        nullable_oneof(m) == m,
{
}

/// A converted document has the version `3.0.3`, so converting it again is refused as
/// "already version 3.0"; its `tags` are those of the input document, and its `info` only lost
/// the licence's `info` entry.
pub proof fn law_converted_document(d: DocumentV)
    ensures
        converted(d).openapi == "3.0.3"@,
        starts_with(converted(d).openapi, "3.0"@),
        converted(d).openapi != "3.1.0"@,
        converted(d).tags == d.tags,
        converted(d).info == remove_licence(d).info,
{
    reveal_strlit("3.0.3");
    reveal_strlit("3.0");
    reveal_strlit("3.1.0");
    assert("3.0.3"@.subrange(0, 3) =~= "3.0"@);
    assert("3.0.3"@[2] != "3.1.0"@[2]);
}

} // verus!
