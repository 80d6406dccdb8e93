//! The conversion of a whole document from OpenAPI 3.1 to OpenAPI 3.0.
use vstd::prelude::*;
use crate::document::{DocumentV, OpenApiTopLevel};
use crate::rewrites::{ConstToEnum, NullableOneOf, NullableTypeArray, NullableTypeNull, SchemaRef};
use crate::visitor::{
    rewrite_each_mapping, visit_untagged_mapping, walk_document, walk_objects, walk_ref_objects,
    EachMapping, MappingVisitor, RefObjects,
};
use crate::yaml::{
    lemma_entries_view, lemma_key_index, map_get, map_insert, map_remove, MapV, Mapping,
};

verus! {

/// Removes the `info` entry of a licence mapping.
pub struct RemoveLicenceInfo;

impl View for RemoveLicenceInfo {
    type V = ();

    open spec fn view(&self) -> () {
        ()
    }
}

impl MappingVisitor for RemoveLicenceInfo {
    open spec fn rewrite_mapping(st: (), m: MapV) -> MapV {
        map_remove(m, "info"@)
    }

    open spec fn after_mapping(st: (), m: MapV) -> () {
        ()
    }

    fn visit_mapping(&mut self, m: &mut Mapping) {
        m.remove("info");
    }
}

/// The document with the `info` entry of its `info.license` mapping removed.
pub open spec fn remove_licence(d: DocumentV) -> DocumentV {
    match d.info {
        Some(im) => match map_get(im, "license"@) {
            Some(l) => DocumentV {
                info: Some(map_insert(im, "license"@, rewrite_each_mapping::<RemoveLicenceInfo>((), l))),
                ..d
            },
            None => d,
        },
        None => d,
    }
}

/// Removes the `info` entry of the licence mapping under `info.license`.
pub fn remove_licence_identifier(schema: &mut OpenApiTopLevel)
    ensures
        final(schema)@ == remove_licence(old(schema)@),
{
    match &mut schema.info {
        Some(info) => {
            let ghost old_info = info@;
            proof {
                lemma_entries_view(info.entries@);
                lemma_key_index(old_info, "license"@);
            }
            match info.find("license") {
                Some(i) => {
                    visit_untagged_mapping(&mut info.entries[i].1, &mut RemoveLicenceInfo);
                    proof {
                        lemma_entries_view(info.entries@);
                        assert(info@ =~= map_insert(
                            old_info,
                            "license"@,
                            rewrite_each_mapping::<RemoveLicenceInfo>((), old_info[i as int].1),
                        ));
                    }
                },
                None => {},
            }
        },
        None => {},
    }
}

/// Replaces each `$ref: uri` of a mapping by `allOf: [{$ref: uri}]`.
pub fn convert_schema_ref(schema: &mut OpenApiTopLevel)
    ensures
        final(schema)@ == walk_document::<RefObjects<SchemaRef>>((), old(schema)@).0,
{
    walk_ref_objects(schema, SchemaRef);
}

/// Replaces each `type: [T, null]` by `type: T` and `nullable: true`.
pub fn convert_nullable_type_array(schema: &mut OpenApiTopLevel)
    ensures
        final(schema)@ == walk_document::<EachMapping<NullableTypeArray>>((), old(schema)@).0,
{
    walk_objects(schema, EachMapping { inner: NullableTypeArray });
}

/// Replaces each `type: null` by a nullable string schema with an empty `enum`.
pub fn convert_nullable_type_null(schema: &mut OpenApiTopLevel)
    ensures
        final(schema)@ == walk_document::<EachMapping<NullableTypeNull>>((), old(schema)@).0,
{
    walk_objects(schema, EachMapping { inner: NullableTypeNull });
}

/// Replaces every `const: value` by `enum: [value]`, in every mapping of `components` and
/// `paths`.
pub fn convert_const_to_enum(schema: &mut OpenApiTopLevel)
    ensures
        final(schema)@ == walk_document::<EachMapping<ConstToEnum>>((), old(schema)@).0,
{
    walk_objects(schema, EachMapping { inner: ConstToEnum });
}

/// Replaces each `oneOf` of null and one other schema by the nullable form of that schema.
pub fn convert_nullable_oneof(schema: &mut OpenApiTopLevel)
    ensures
        final(schema)@ == walk_document::<EachMapping<NullableOneOf>>((), old(schema)@).0,
{
    walk_objects(schema, EachMapping { inner: NullableOneOf });
}

/// Why a document is not converted.
pub enum ConvertError {
    /// The document's version starts with `3.0`.
    AlreadyVersion30,
    /// The document has another version than `3.1.0`; the version is kept.
    UnsupportedVersion(String),
}

impl ConvertError {
    /// The error's message.
    pub fn message(&self) -> (r: String)
        ensures
            match self {
                ConvertError::AlreadyVersion30 => r@ == "Schema is already version 3.0"@,
                ConvertError::UnsupportedVersion(v) => r@ == "Unsupported schema version `"@ + v@
                    + "`"@,
            },
    {
        match self {
            ConvertError::AlreadyVersion30 => "Schema is already version 3.0".to_owned(),
            ConvertError::UnsupportedVersion(v) => {
                let mut r = "Unsupported schema version `".to_owned();
                r.append(v.as_str());
                r.append("`");
                r
            },
        }
    }
}

/// Whether `s` begins with `prefix`.
pub open spec fn starts_with(s: Seq<char>, prefix: Seq<char>) -> bool {
    prefix.len() <= s.len() && s.subrange(0, prefix.len() as int) == prefix
}

/// Whether `s` begins with `prefix`.
pub fn text_starts_with(s: &str, prefix: &str) -> (r: bool)
    ensures
        r == starts_with(s@, prefix@),
{
    let n = s.unicode_len();
    let k = prefix.unicode_len();
    if k > n {
        return false;
    }
    let mut i: usize = 0;
    while i < k
        invariant
            k == prefix@.len(),
            n == s@.len(),
            k <= n,
            0 <= i <= k,
            forall|j: int| 0 <= j < i ==> s@[j] == prefix@[j],
        decreases k - i,
    {
        if s.get_char(i) != prefix.get_char(i) {
            return false;
        }
        i = i + 1;
    }
    proof {
        assert(s@.subrange(0, k as int) =~= prefix@);
    }
    true
}

/// The document as the conversion leaves it: version `3.0.3`, the licence's `info` removed,
/// then the rewrites applied in turn to the objects of `components` and `paths`.
pub open spec fn converted(d: DocumentV) -> DocumentV {
    let d1 = remove_licence(DocumentV { openapi: "3.0.3"@, ..d });
    let d2 = walk_document::<EachMapping<NullableTypeArray>>((), d1).0;
    let d3 = walk_document::<EachMapping<NullableTypeNull>>((), d2).0;
    let d4 = walk_document::<EachMapping<ConstToEnum>>((), d3).0;
    walk_document::<EachMapping<NullableOneOf>>((), d4).0
}

/// Converts an OpenAPI 3.1.0 document into an OpenAPI 3.0.3 document.
pub fn convert(schema: OpenApiTopLevel) -> (r: Result<OpenApiTopLevel, ConvertError>)
    ensures
        r is Ok <==> schema.openapi@ == "3.1.0"@,
        r matches Ok(out) ==> out@ == converted(schema@),
        r matches Err(e) ==> match e {
            ConvertError::AlreadyVersion30 => starts_with(schema.openapi@, "3.0"@),
            ConvertError::UnsupportedVersion(v) => v@ == schema.openapi@ && !starts_with(
                schema.openapi@,
                "3.0"@,
            ),
        },
{
    let mut schema = schema;
    if schema.openapi != "3.1.0".to_owned() {
        proof {
            reveal_strlit("3.1.0");
            reveal_strlit("3.0");
        }
        if text_starts_with(schema.openapi.as_str(), "3.0") {
            return Err(ConvertError::AlreadyVersion30);
        } else {
            return Err(ConvertError::UnsupportedVersion(schema.openapi));
        }
    }
    schema.openapi = "3.0.3".to_owned();
    remove_licence_identifier(&mut schema);
    convert_nullable_type_array(&mut schema);
    convert_nullable_type_null(&mut schema);
    convert_const_to_enum(&mut schema);
    convert_nullable_oneof(&mut schema);
    Ok(schema)
}

} // verus!
