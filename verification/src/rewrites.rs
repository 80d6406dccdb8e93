//! The rewrites that turn OpenAPI 3.1 schema objects into their OpenAPI 3.0 forms.
use vstd::prelude::*;
use crate::visitor::{copy_mapping, copy_yaml, MappingVisitor};
use crate::yaml::{
    as_map, as_mapping, as_seq, as_sequence, has_key, into_sequence, is_null,
    is_str, is_string, items_view, lemma_entries_view, lemma_items_view, lemma_key_index, map_get,
    map_insert, map_remove, null_is, str_is, string_is, MapV, Mapping, Yaml, YamlV,
};

verus! {

/// Whether a value stands for null in a list of types: null itself or the string `null`.
pub open spec fn nullish(v: YamlV) -> bool {
    is_null(v) || is_str(v, "null"@)
}

fn nullish_is(v: &Yaml) -> (r: bool)
    ensures
        r == nullish(v@),
{
    null_is(v) || str_is(v, "null")
}

/// `type: [T, null]` (or `[null, T]`) becomes `type: T` with `nullable: true`.
pub open spec fn nullable_type_array(m: MapV) -> MapV {
    match map_get(m, "type"@) {
        Some(types) => match as_seq(types) {
            Some(s) => if s.len() == 2 && (nullish(s[0]) || nullish(s[1])) {
                let typ = if nullish(s[0]) {
                    s[1]
                } else {
                    s[0]
                };
                map_insert(map_insert(m, "type"@, typ), "nullable"@, YamlV::Bool(true))
            } else {
                m
            },
            None => m,
        },
        None => m,
    }
}

/// Rewrites a two-element array of types that holds null into a nullable type.
pub struct NullableTypeArray;

impl View for NullableTypeArray {
    type V = ();

    open spec fn view(&self) -> () {
        ()
    }
}

impl MappingVisitor for NullableTypeArray {
    open spec fn rewrite_mapping(st: (), m: MapV) -> MapV {
        nullable_type_array(m)
    }

    open spec fn after_mapping(st: (), m: MapV) -> () {
        ()
    }

    fn visit_mapping(&mut self, m: &mut Mapping) {
        proof {
            lemma_entries_view(m.entries@);
        }
        let ghost old_m = m@;
        proof {
            lemma_key_index(old_m, "type"@);
        }
        let i = match m.find("type") {
            Some(i) => i,
            None => {
                return ;
            },
        };
        let typ_idx: usize = match as_sequence(&m.entries[i].1) {
            Some(items) => {
                proof {
                    lemma_items_view(items@);
                }
                if items.len() != 2 {
                    return ;
                } else if nullish_is(&items[0]) {
                    1
                } else if nullish_is(&items[1]) {
                    0
                } else {
                    return ;
                }
            },
            None => {
                return ;
            },
        };
        let mut taken = Yaml::Null;
        std::mem::swap(&mut m.entries[i].1, &mut taken);
        match into_sequence(taken) {
            Some(items) => {
                let mut items = items;
                proof {
                    lemma_items_view(items@);
                }
                let mut typ = items.remove(typ_idx);
                std::mem::swap(&mut m.entries[i].1, &mut typ);
                proof {
                    lemma_entries_view(m.entries@);
                    assert(m@ =~= map_insert(old_m, "type"@, m.entries@[i as int].1@));
                }
                m.insert("nullable", Yaml::Bool(true));
            },
            None => {
                proof {
                    assert(false);
                }
            },
        }
    }
}

/// `type: null` (null itself, or the string `null`) becomes `type: string` with `enum: []`
/// and `nullable: true`: a schema whose only valid value is null.
pub open spec fn nullable_type_null(m: MapV) -> MapV {
    match map_get(m, "type"@) {
        Some(t) => if nullish(t) {
            map_insert(
                map_insert(
                    map_insert(map_remove(m, "type"@), "type"@, YamlV::String("string"@)),
                    "enum"@,
                    YamlV::Sequence(Seq::empty()),
                ),
                "nullable"@,
                YamlV::Bool(true),
            )
        } else {
            m
        },
        None => m,
    }
}

/// Rewrites a null `type` into a nullable schema with no other value.
pub struct NullableTypeNull;

impl View for NullableTypeNull {
    type V = ();

    open spec fn view(&self) -> () {
        ()
    }
}

impl MappingVisitor for NullableTypeNull {
    open spec fn rewrite_mapping(st: (), m: MapV) -> MapV {
        nullable_type_null(m)
    }

    open spec fn after_mapping(st: (), m: MapV) -> () {
        ()
    }

    fn visit_mapping(&mut self, m: &mut Mapping) {
        let is_null_type = match m.get("type") {
            Some(t) => nullish_is(t),
            None => false,
        };
        if is_null_type {
            m.remove("type");
            m.insert("type", Yaml::String("string".to_owned()));
            let empty_enum = Yaml::Sequence(Vec::new());
            proof {
                lemma_items_view(Seq::<Yaml>::empty());
                assert(empty_enum@ == YamlV::Sequence(Seq::empty()));
            }
            m.insert("enum", empty_enum);
            m.insert("nullable", Yaml::Bool(true));
        }
    }
}

/// `const: c` becomes `enum: [c]`.
pub open spec fn const_to_enum(m: MapV) -> MapV {
    match map_get(m, "const"@) {
        Some(c) => map_insert(map_remove(m, "const"@), "enum"@, YamlV::Sequence(seq![c])),
        None => m,
    }
}

/// Rewrites a `const` into a one-value `enum`.
pub struct ConstToEnum;

impl View for ConstToEnum {
    type V = ();

    open spec fn view(&self) -> () {
        ()
    }
}

impl MappingVisitor for ConstToEnum {
    open spec fn rewrite_mapping(st: (), m: MapV) -> MapV {
        const_to_enum(m)
    }

    open spec fn after_mapping(st: (), m: MapV) -> () {
        ()
    }

    fn visit_mapping(&mut self, m: &mut Mapping) {
        match m.remove("const") {
            Some(constant) => {
                let mut values = Vec::new();
                values.push(constant);
                let values = Yaml::Sequence(values);
                proof {
                    lemma_items_view(seq![constant]);
                    assert(items_view(seq![constant]) =~= seq![constant@]);
                }
                m.insert("enum", values);
            },
            None => {},
        }
    }
}

/// `$ref: uri` becomes `allOf: [{$ref: uri}]`; a mapping whose `$ref` is not a string stays
/// as it is.
pub open spec fn schema_ref(m: MapV) -> MapV {
    match map_get(m, "$ref"@) {
        Some(r) => if is_string(r) {
            map_insert(
                map_remove(m, "$ref"@),
                "allOf"@,
                YamlV::Sequence(seq![YamlV::Mapping(seq![(YamlV::String("$ref"@), r)])]),
            )
        } else {
            m
        },
        None => m,
    }
}

/// Moves a `$ref` into a one-element `allOf`.
pub struct SchemaRef;

impl View for SchemaRef {
    type V = ();

    open spec fn view(&self) -> () {
        ()
    }
}

impl MappingVisitor for SchemaRef {
    open spec fn rewrite_mapping(st: (), m: MapV) -> MapV {
        schema_ref(m)
    }

    open spec fn after_mapping(st: (), m: MapV) -> () {
        ()
    }

    fn visit_mapping(&mut self, m: &mut Mapping) {
        let is_uri = match m.get("$ref") {
            Some(r) => string_is(r),
            None => false,
        };
        if !is_uri {
            return ;
        }
        match m.remove("$ref") {
            Some(ref_target) => {
                let mut all_of_inner = Mapping::new();
                all_of_inner.insert("$ref", ref_target);
                let inner = Yaml::Mapping(all_of_inner);
                let mut items = Vec::new();
                items.push(inner);
                let all_of = Yaml::Sequence(items);
                proof {
                    lemma_items_view(seq![inner]);
                    assert(items_view(seq![inner]) =~= seq![inner@]);
                    assert(inner@ == YamlV::Mapping(seq![(YamlV::String("$ref"@), ref_target@)]));
                }
                m.insert("allOf", all_of);
            },
            None => {},
        }
    }
}

/// Whether an item is a mapping whose `type` is the string `null`.
pub open spec fn has_null_type(item: YamlV) -> bool {
    match as_map(item) {
        Some(im) => match map_get(im, "type"@) {
            Some(t) => is_str(t, "null"@),
            None => false,
        },
        None => false,
    }
}

/// Whether an item is a mapping whose `type` stands for null.
pub open spec fn has_nullish_type(item: YamlV) -> bool {
    match as_map(item) {
        Some(im) => match map_get(im, "type"@) {
            Some(t) => nullish(t),
            None => false,
        },
        None => false,
    }
}

/// Whether a `oneOf` is left alone as a regular enum: it is a sequence, and it does not have
/// exactly two items one of which has the type `null`.
pub open spec fn one_of_kept(m: MapV) -> bool {
    match map_get(m, "oneOf"@) {
        Some(o) => match as_seq(o) {
            Some(s) => s.len() != 2 || !(has_null_type(s[0]) || has_null_type(s[1])),
            None => false,
        },
        None => false,
    }
}

/// The object `m1` (its `oneOf` already removed) with what the non-null alternative `typ`
/// holds: the alternative's description, and its reference (under a one-element `allOf`, or
/// its own `$ref`) or else its `type`, marked `nullable: true`. `None` where the alternative
/// is not a mapping, has an `allOf` that is not one mapping with a `$ref`, or has none of
/// `allOf`, `$ref` and `type`.
pub open spec fn with_alternative(m1: MapV, typ: YamlV) -> Option<MapV> {
    match as_map(typ) {
        None => None,
        Some(tm) => {
            let m2 = match map_get(tm, "description"@) {
                Some(d) => map_insert(m1, "description"@, d),
                None => m1,
            };
            let marked = |k: Seq<char>, v: YamlV|
                map_insert(map_insert(m2, k, v), "nullable"@, YamlV::Bool(true));
            match map_get(tm, "allOf"@) {
                Some(a) => match as_seq(a) {
                    Some(al) => if al.len() == 1 && as_map(al[0]) is Some && has_key(
                        as_map(al[0]).unwrap(),
                        "$ref"@,
                    ) {
                        Some(marked("schema"@, al[0]))
                    } else {
                        None
                    },
                    None => None,
                },
                None => match map_get(tm, "$ref"@) {
                    Some(r) => Some(marked("$ref"@, r)),
                    None => match map_get(tm, "type"@) {
                        Some(t) => Some(marked("type"@, t)),
                        None => None,
                    },
                },
            }
        },
    }
}

/// The alternative of a two-item `oneOf` that is not the null one: the second item where the
/// first has a null type, else the first.
pub open spec fn non_null_alternative(s: Seq<YamlV>) -> YamlV {
    if has_nullish_type(s[0]) {
        s[1]
    } else {
        s[0]
    }
}

/// A `oneOf` of null and one other schema becomes that schema, marked nullable; an object
/// whose `oneOf` is anything else, or whose alternative cannot be carried over, stays as it
/// is.
pub open spec fn nullable_oneof(m: MapV) -> MapV {
    if one_of_kept(m) {
        m
    } else {
        match map_get(m, "oneOf"@) {
            Some(o) => match as_seq(o) {
                Some(s) => if s.len() == 2 && (has_nullish_type(s[0]) || has_nullish_type(s[1])) {
                    match with_alternative(map_remove(m, "oneOf"@), non_null_alternative(s)) {
                        Some(out) => out,
                        None => m,
                    }
                } else {
                    m
                },
                None => m,
            },
            None => m,
        }
    }
}

fn null_type_is(item: &Yaml) -> (r: bool)
    ensures
        r == has_null_type(item@),
{
    match as_mapping(item) {
        Some(im) => match im.get("type") {
            Some(t) => str_is(t, "null"),
            None => false,
        },
        None => false,
    }
}

fn nullish_type_is(item: &Yaml) -> (r: bool)
    ensures
        r == has_nullish_type(item@),
{
    match as_mapping(item) {
        Some(im) => match im.get("type") {
            Some(t) => nullish_is(t),
            None => false,
        },
        None => false,
    }
}

/// Rewrites a nullable `oneOf` into the nullable form of its other alternative.
pub struct NullableOneOf;

impl NullableOneOf {
    fn keeps(m: &Mapping) -> (r: bool)
        ensures
            r == one_of_kept(m@),
    {
        match m.get("oneOf") {
            Some(o) => match as_sequence(o) {
                Some(s) => {
                    proof {
                        lemma_items_view(s@);
                    }
                    s.len() != 2 || !(null_type_is(&s[0]) || null_type_is(&s[1]))
                },
                None => false,
            },
            None => false,
        }
    }

    /// Marks `out` nullable with `key: value`, after the alternative's description, if any.
    fn mark(out: &mut Mapping, tm: &Mapping, key: &str, value: Yaml)
        ensures
            final(out)@ == map_insert(
                map_insert(
                    match map_get(tm@, "description"@) {
                        Some(d) => map_insert(old(out)@, "description"@, d),
                        None => old(out)@,
                    },
                    key@,
                    value@,
                ),
                "nullable"@,
                YamlV::Bool(true),
            ),
    {
        match tm.get("description") {
            Some(d) => {
                out.insert("description", copy_yaml(d));
            },
            None => {},
        }
        out.insert(key, value);
        out.insert("nullable", Yaml::Bool(true));
    }

    /// Carries what the non-null alternative `typ` holds into `out`, where it can be; says
    /// whether it could.
    fn take_alternative(out: &mut Mapping, typ: &Yaml) -> (r: bool)
        ensures
            r == with_alternative(old(out)@, typ@) is Some,
            r ==> final(out)@ == with_alternative(old(out)@, typ@).unwrap(),
    {
        let tm = match as_mapping(typ) {
            Some(tm) => tm,
            None => {
                return false;
            },
        };
        match tm.get("allOf") {
            Some(a) => {
                let al = match as_sequence(a) {
                    Some(al) => al,
                    None => {
                        return false;
                    },
                };
                proof {
                    lemma_items_view(al@);
                }
                if al.len() != 1 {
                    return false;
                }
                let is_ref = match as_mapping(&al[0]) {
                    Some(am) => am.contains_key("$ref"),
                    None => false,
                };
                if !is_ref {
                    return false;
                }
                Self::mark(out, tm, "schema", copy_yaml(&al[0]));
                true
            },
            None => match tm.get("$ref") {
                Some(r) => {
                    Self::mark(out, tm, "$ref", copy_yaml(r));
                    true
                },
                None => match tm.get("type") {
                    Some(t) => {
                        Self::mark(out, tm, "type", copy_yaml(t));
                        true
                    },
                    None => false,
                },
            },
        }
    }
}

impl View for NullableOneOf {
    type V = ();

    open spec fn view(&self) -> () {
        ()
    }
}

impl MappingVisitor for NullableOneOf {
    open spec fn rewrite_mapping(st: (), m: MapV) -> MapV {
        nullable_oneof(m)
    }

    open spec fn after_mapping(st: (), m: MapV) -> () {
        ()
    }

    fn visit_mapping(&mut self, m: &mut Mapping) {
        if Self::keeps(m) {
            return ;
        }
        let items = match m.get("oneOf") {
            Some(o) => match as_sequence(o) {
                Some(items) => items,
                None => {
                    return ;
                },
            },
            None => {
                return ;
            },
        };
        proof {
            lemma_items_view(items@);
        }
        if items.len() != 2 {
            return ;
        }
        let typ_idx: usize = if nullish_type_is(&items[0]) {
            1
        } else if nullish_type_is(&items[1]) {
            0
        } else {
            return ;
        };
        let mut out = copy_mapping(m);
        out.remove("oneOf");
        if Self::take_alternative(&mut out, &items[typ_idx]) {
            *m = out;
        }
    }
}

} // verus!
