use openapi31to30::args::Args;
use openapi31to30::convert::{
    convert, convert_const_to_enum, convert_nullable_oneof, convert_nullable_type_array,
    convert_nullable_type_null, convert_schema_ref, remove_licence_identifier,
    text_starts_with, ConvertError,
};
use openapi31to30::document::OpenApiTopLevel;
use openapi31to30::visitor::{walk_objects, walk_schema_objects, ObjectRecorder};
use openapi31to30::yaml::{Mapping, Yaml};

fn value_to_yaml(v: &serde_yaml::Value) -> Yaml {
    match v {
        serde_yaml::Value::Null => Yaml::Null,
        serde_yaml::Value::Bool(b) => Yaml::Bool(*b),
        serde_yaml::Value::Number(n) => Yaml::Number(n.to_string()),
        serde_yaml::Value::String(s) => Yaml::String(s.clone()),
        serde_yaml::Value::Sequence(items) => Yaml::Sequence(items.iter().map(value_to_yaml).collect()),
        serde_yaml::Value::Mapping(m) => Yaml::Mapping(mapping_to_yaml(m)),
        serde_yaml::Value::Tagged(t) => {
            Yaml::Tagged(t.tag.to_string(), Box::new(value_to_yaml(&t.value)))
        }
    }
}

fn mapping_to_yaml(m: &serde_yaml::Mapping) -> Mapping {
    Mapping { entries: m.iter().map(|(k, v)| (value_to_yaml(k), value_to_yaml(v))).collect() }
}

fn yaml_to_value(y: &Yaml) -> serde_yaml::Value {
    match y {
        Yaml::Null => serde_yaml::Value::Null,
        Yaml::Bool(b) => serde_yaml::Value::Bool(*b),
        Yaml::Number(n) => serde_yaml::Value::Number(n.parse().unwrap()),
        Yaml::String(s) => serde_yaml::Value::String(s.clone()),
        Yaml::Sequence(items) => serde_yaml::Value::Sequence(items.iter().map(yaml_to_value).collect()),
        Yaml::Mapping(m) => serde_yaml::Value::Mapping(mapping_to_value(m)),
        Yaml::Tagged(t, v) => serde_yaml::Value::Tagged(Box::new(serde_yaml::value::TaggedValue {
            tag: serde_yaml::value::Tag::new(t.clone()),
            value: yaml_to_value(v),
        })),
    }
}

fn mapping_to_value(m: &Mapping) -> serde_yaml::Mapping {
    let mut out = serde_yaml::Mapping::new();
    for (k, v) in &m.entries {
        out.insert(yaml_to_value(k), yaml_to_value(v));
    }
    out
}

fn field_mapping(top: &serde_yaml::Mapping, key: &str) -> Option<Mapping> {
    match top.get(key) {
        None | Some(serde_yaml::Value::Null) => None,
        Some(v) => Some(mapping_to_yaml(v.as_mapping().expect("a mapping"))),
    }
}

/// Reads the top level of a document the way the converter's command line does.
fn parse_doc(text: &str) -> OpenApiTopLevel {
    let value: serde_yaml::Value = serde_yaml::from_str(text).unwrap();
    let top = value.as_mapping().unwrap();
    OpenApiTopLevel {
        openapi: top.get("openapi").and_then(|v| v.as_str()).unwrap().to_owned(),
        info: field_mapping(top, "info"),
        paths: field_mapping(top, "paths"),
        components: field_mapping(top, "components"),
        tags: match top.get("tags") {
            None | Some(serde_yaml::Value::Null) => None,
            Some(v) => Some(value_to_yaml(v)),
        },
    }
}

/// Writes the top level of a document the way the converter's command line does.
fn doc_to_string(doc: &OpenApiTopLevel) -> String {
    let mut top = serde_yaml::Mapping::new();
    top.insert("openapi".into(), doc.openapi.clone().into());
    for (key, field) in [("info", &doc.info), ("paths", &doc.paths), ("components", &doc.components)] {
        if let Some(m) = field {
            top.insert(key.into(), serde_yaml::Value::Mapping(mapping_to_value(m)));
        }
    }
    if let Some(tags) = &doc.tags {
        top.insert("tags".into(), yaml_to_value(tags));
    }
    serde_yaml::to_string(&top).unwrap()
}

fn convert_text(text: &str) -> Result<String, String> {
    match convert(parse_doc(text)) {
        Ok(doc) => Ok(doc_to_string(&doc)),
        Err(e) => Err(e.message()),
    }
}


fn yaml_text(y: &Yaml) -> String {
    serde_yaml::to_string(&yaml_to_value(y)).unwrap()
}

fn mapping_text(m: &Mapping) -> String {
    serde_yaml::to_string(&mapping_to_value(m)).unwrap()
}

fn mapping_of(text: &str) -> Mapping {
    let v: serde_yaml::Value = serde_yaml::from_str(text).unwrap();
    mapping_to_yaml(v.as_mapping().unwrap())
}

fn doc_after(text: &str, pass: fn(&mut OpenApiTopLevel)) -> String {
    let mut doc = parse_doc(text);
    pass(&mut doc);
    doc_to_string(&doc)
}

#[test]
fn mapping_read_after_write() {
    let mut m = mapping_of("a: 1\nb: 2\n");
    assert!(m.insert("c", Yaml::Bool(true)).is_none());
    assert_eq!(mapping_text(&m), "a: 1\nb: 2\nc: true\n");
    assert_eq!(yaml_text(m.get("c").unwrap()), "true\n");
    // a write to a present key keeps its place and gives back the old value
    let old = m.insert("a", Yaml::String("x".to_string())).unwrap();
    assert_eq!(yaml_text(&old), "1\n");
    assert_eq!(mapping_text(&m), "a: x\nb: 2\nc: true\n");
    assert_eq!(m.len(), 3);
    assert!(m.contains_key("b"));
    assert!(!m.contains_key("d"));
    assert_eq!(m.find("c"), Some(2));
}

#[test]
fn mapping_remove_moves_last_entry() {
    let mut m = mapping_of("a: 1\nb: 2\nc: 3\n");
    let removed = m.remove("a").unwrap();
    assert_eq!(yaml_text(&removed), "1\n");
    assert_eq!(mapping_text(&m), "c: 3\nb: 2\n");
    assert!(m.get("a").is_none());
    assert!(m.remove("a").is_none());
    assert_eq!(mapping_text(&m), "c: 3\nb: 2\n");
}

#[test]
fn mapping_keys_are_plain_strings() {
    // a key that is a number or a tagged string is not the string key
    let m = mapping_of("1: one\n!t x: tagged\n");
    assert!(m.get("1").is_none());
    assert!(m.get("x").is_none());
}

#[test]
fn type_array_null_first() {
    let out = doc_after(
        "openapi: 3.0.1\ncomponents:\n  a:\n    type: [null, integer]\n    format: int64\n",
        convert_nullable_type_array,
    );
    assert_eq!(out, "openapi: 3.0.1\ncomponents:\n  a:\n    type: integer\n    format: int64\n    nullable: true\n");
}

#[test]
fn type_array_of_two_nulls_keeps_the_second() {
    let out = doc_after(
        "openapi: 3.0.1\ncomponents:\n  a:\n    type: [~, 'null']\n",
        convert_nullable_type_array,
    );
    assert_eq!(out, "openapi: 3.0.1\ncomponents:\n  a:\n    type: 'null'\n    nullable: true\n");
}

#[test]
fn type_array_other_shapes_stay() {
    let text = "openapi: 3.0.1\ncomponents:\n  a:\n    type:\n    - string\n    - integer\n  b:\n    type:\n    - string\n    - integer\n    - 'null'\n";
    assert_eq!(doc_after(text, convert_nullable_type_array), text);
}

#[test]
fn type_array_under_a_tag() {
    let out = doc_after(
        "openapi: 3.0.1\ncomponents:\n  a: !obj\n    type: !types [string, 'null']\n",
        convert_nullable_type_array,
    );
    assert_eq!(out, "openapi: 3.0.1\ncomponents:\n  a: !obj\n    type: string\n    nullable: true\n");
}

#[test]
fn type_null_becomes_nullable_empty_enum() {
    let out = doc_after(
        "openapi: 3.0.1\ncomponents:\n  a:\n    type: 'null'\n    description: nothing\n",
        convert_nullable_type_null,
    );
    assert_eq!(
        out,
        "openapi: 3.0.1\ncomponents:\n  a:\n    description: nothing\n    type: string\n    enum: []\n    nullable: true\n"
    );
}

#[test]
fn yaml_null_type_becomes_nullable_empty_enum() {
    let out = doc_after("openapi: 3.0.1\ncomponents:\n  c:\n    type: null\n", convert_nullable_type_null);
    assert_eq!(out, "openapi: 3.0.1\ncomponents:\n  c:\n    type: string\n    enum: []\n    nullable: true\n");
}

#[test]
fn type_null_replaces_an_enum_in_place() {
    let out = doc_after(
        "openapi: 3.0.1\ncomponents:\n  a:\n    enum: [1]\n    type: 'null'\n",
        convert_nullable_type_null,
    );
    assert_eq!(out, "openapi: 3.0.1\ncomponents:\n  a:\n    enum: []\n    type: string\n    nullable: true\n");
}

#[test]
fn const_in_schemas_becomes_enum() {
    let out = doc_after(
        "openapi: 3.0.1\ncomponents:\n  schemas:\n    Foo:\n      type: string\n      const: a\n",
        convert_const_to_enum,
    );
    assert_eq!(
        out,
        "openapi: 3.0.1\ncomponents:\n  schemas:\n    Foo:\n      type: string\n      enum:\n      - a\n"
    );
}

#[test]
fn every_const_becomes_enum() {
    let out = doc_after(
        "openapi: 3.0.1\npaths:\n  /a:\n    properties:\n      p:\n        items:\n          const: 1\n          title: one\ncomponents:\n  a:\n    const: 2\n",
        convert_const_to_enum,
    );
    assert_eq!(
        out,
        "openapi: 3.0.1\npaths:\n  /a:\n    properties:\n      p:\n        items:\n          title: one\n          enum:\n          - 1\ncomponents:\n  a:\n    enum:\n    - 2\n"
    );
}

#[test]
fn ref_that_is_not_a_string_stays() {
    let text = "openapi: 3.0.1\ncomponents:\n  a:\n    a: 1\n    $ref:\n      x: 1\n";
    assert_eq!(doc_after(text, convert_schema_ref), text);
    let text = "openapi: 3.0.1\ncomponents:\n  a:\n    $ref: 1\n    title: x\n";
    assert_eq!(doc_after(text, convert_schema_ref), text);
}

#[test]
fn one_of_that_is_not_a_sequence_stays() {
    let text = "openapi: 3.0.1\ncomponents:\n  a:\n    oneOf: x\n    title: t\n";
    assert_eq!(doc_after(text, convert_nullable_oneof), text);
}

#[test]
fn one_of_with_a_reference() {
    let out = doc_after(
        "openapi: 3.0.1\ncomponents:\n  a:\n    oneOf:\n    - $ref: '#/x'\n    - type: 'null'\n",
        convert_nullable_oneof,
    );
    assert_eq!(out, "openapi: 3.0.1\ncomponents:\n  a:\n    $ref: '#/x'\n    nullable: true\n");
}

#[test]
fn one_of_with_a_type_becomes_a_nullable_type() {
    let out = doc_after(
        "openapi: 3.0.1\ncomponents:\n  c:\n    oneOf:\n    - type: 'null'\n    - type: string\n",
        convert_nullable_oneof,
    );
    assert_eq!(out, "openapi: 3.0.1\ncomponents:\n  c:\n    type: string\n    nullable: true\n");
    let out = doc_after(
        "openapi: 3.0.1\ncomponents:\n  a:\n    title: t\n    oneOf:\n    - type: integer\n      description: d\n    - type: 'null'\n",
        convert_nullable_oneof,
    );
    assert_eq!(
        out,
        "openapi: 3.0.1\ncomponents:\n  a:\n    title: t\n    description: d\n    type: integer\n    nullable: true\n"
    );
}

#[test]
fn one_of_whose_alternative_cannot_be_carried_stays() {
    // no allOf, $ref or type in the alternative
    let text = "openapi: 3.0.1\ncomponents:\n  a:\n    title: t\n    oneOf:\n    - type: 'null'\n    - description: d\n";
    assert_eq!(doc_after(text, convert_nullable_oneof), text);
    // an allOf of two items
    let text = "openapi: 3.0.1\ncomponents:\n  a:\n    oneOf:\n    - type: 'null'\n    - description: d\n      allOf:\n      - $ref: '#/x'\n      - $ref: '#/y'\n";
    assert_eq!(doc_after(text, convert_nullable_oneof), text);
    // an alternative that is not a mapping
    let text = "openapi: 3.0.1\ncomponents:\n  a:\n    oneOf:\n    - type: 'null'\n    - x\n";
    assert_eq!(doc_after(text, convert_nullable_oneof), text);
}

#[test]
fn regular_enum_one_of_stays() {
    let text = "openapi: 3.0.1\ncomponents:\n  a:\n    oneOf:\n    - type: string\n    - type: integer\n    - type: 'null'\n";
    assert_eq!(doc_after(text, convert_nullable_oneof), text);
}

#[test]
fn licence_info_is_removed() {
    let out = doc_after(
        "openapi: 3.0.1\ninfo:\n  license:\n    info: MIT\n    name: MIT\n    url: u\n",
        remove_licence_identifier,
    );
    assert_eq!(out, "openapi: 3.0.1\ninfo:\n  license:\n    url: u\n    name: MIT\n");
    let text = "openapi: 3.0.1\ninfo:\n  license: MIT\n";
    assert_eq!(doc_after(text, remove_licence_identifier), text);
}

#[test]
fn looking_walk_keeps_the_document() {
    let text = "openapi: 3.0.1\ninfo:\n  x:\n  - 1\n  - 2\npaths:\n  /a:\n    get: {}\ncomponents:\n  b:\n  - c\n  - d: e\ntags:\n- name: t\n";
    let mut doc = parse_doc(text);
    let recorder = walk_objects(&mut doc, ObjectRecorder { seen: Vec::new() });
    assert_eq!(doc_to_string(&doc), text);
    // components first (c, e, {d: e}, [..]), then paths ({}, {get: {}})
    let seen: Vec<String> = recorder.seen.iter().map(yaml_text).collect();
    assert_eq!(seen, ["c\n", "e\n", "d: e\n", "- c\n- d: e\n", "{}\n", "get: {}\n"]);
}

#[test]
fn components_are_walked_before_paths() {
    let mut doc = parse_doc("openapi: 3.0.1\npaths:\n  /a: p\ncomponents:\n  b: c\n");
    let recorder = walk_objects(&mut doc, ObjectRecorder { seen: Vec::new() });
    let seen: Vec<String> = recorder.seen.iter().map(yaml_text).collect();
    assert_eq!(seen, ["c\n", "p\n"]);
}

#[test]
fn schema_walk_hands_on_schema_values() {
    let mut doc = parse_doc(
        "openapi: 3.0.1\ncomponents:\n  c:\n    schema:\n      const: x\n    schemas:\n      A: 1\n      B: 2\n",
    );
    let recorder = walk_schema_objects(&mut doc, ObjectRecorder { seen: Vec::new() });
    let seen: Vec<String> = recorder.seen.iter().map(yaml_text).collect();
    assert_eq!(seen, ["const: x\n", "1\n", "2\n"]);
    let mut doc = parse_doc("openapi: 3.0.1\ncomponents:\n  schemas:\n    Foo:\n      const: a\n");
    let recorder = walk_schema_objects(&mut doc, ObjectRecorder { seen: Vec::new() });
    assert!(recorder.seen.is_empty());
}

#[test]
fn walk_leaves_info_and_tags() {
    let text = "openapi: 3.0.1\ninfo:\n  type:\n  - string\n  - 'null'\ntags:\n- type:\n  - string\n  - 'null'\n";
    assert_eq!(doc_after(text, convert_nullable_type_array), text);
}

const FULL_31: &str = "\
openapi: 3.1.0
info:
  title: t
  license:
    name: MIT
    info: MIT
servers:
- url: http://example.com
paths:
  /a:
    get:
      responses:
        '200':
          description: ok
          content:
            application/json:
              schema:
                const: 3
components:
  schemas:
    A:
      type:
      - string
      - 'null'
    B:
      type: 'null'
    C:
      oneOf:
      - type: 'null'
      - $ref: '#/components/schemas/A'
tags:
- name: t
";

const FULL_30: &str = "\
openapi: 3.0.3
info:
  title: t
  license:
    name: MIT
paths:
  /a:
    get:
      responses:
        '200':
          description: ok
          content:
            application/json:
              schema:
                enum:
                - 3
components:
  schemas:
    A:
      type: string
      nullable: true
    B:
      type: string
      enum: []
      nullable: true
    C:
      oneOf:
      - type: string
        enum: []
        nullable: true
      - $ref: '#/components/schemas/A'
tags:
- name: t
";

/// The rewrites run in turn: `type: null` inside a `oneOf` is rewritten before the `oneOf`
/// rewrite looks for it, so such a `oneOf` stays (with its null alternative rewritten).
#[test]
fn whole_document_conversion() {
    let out = convert_text(FULL_31).unwrap();
    assert_eq!(out, FULL_30);
    // a converted document is refused when converted again
    assert_eq!(convert_text(&out).unwrap_err(), "Schema is already version 3.0");
}

#[test]
fn version_errors() {
    assert_eq!(convert_text("openapi: 3.0.0").unwrap_err(), "Schema is already version 3.0");
    assert_eq!(convert_text("openapi: '3.0'").unwrap_err(), "Schema is already version 3.0");
    assert_eq!(
        convert_text("openapi: 3.1.1").unwrap_err(),
        "Unsupported schema version `3.1.1`"
    );
    assert_eq!(convert_text("openapi: '3'").unwrap_err(), "Unsupported schema version `3`");
    match convert(parse_doc("openapi: 2.0.0")) {
        Err(ConvertError::UnsupportedVersion(v)) => assert_eq!(v, "2.0.0"),
        _ => panic!("expected an unsupported version"),
    }
    assert!(matches!(convert(parse_doc("openapi: 3.0.2")), Err(ConvertError::AlreadyVersion30)));
    assert!(convert(parse_doc("openapi: 3.1.0")).is_ok());
}

#[test]
fn prefix_test() {
    assert!(text_starts_with("3.0.1", "3.0"));
    assert!(text_starts_with("3.0", "3.0"));
    assert!(!text_starts_with("3", "3.0"));
    assert!(!text_starts_with("3.1.0", "3.0"));
    assert!(text_starts_with("x", ""));
}

#[test]
fn arguments_after_the_output_are_ignored() {
    let args: Vec<String> =
        ["bin", "--input", "a", "--output", "b", "extra"].iter().map(|s| s.to_string()).collect();
    assert_eq!(Args::parse(args).unwrap(), Args { input: "a".into(), output: "b".into() });
}

#[test]
fn nested_references_are_wrapped() {
    let out = doc_after(
        "openapi: 3.0.1\ncomponents:\n  a:\n    properties:\n      p:\n        $ref: '#/x'\n        title: t\n",
        convert_schema_ref,
    );
    assert_eq!(
        out,
        "openapi: 3.0.1\ncomponents:\n  a:\n    properties:\n      p:\n        title: t\n        allOf:\n        - $ref: '#/x'\n"
    );
}

#[test]
fn type_array_inside_a_type_array_is_rewritten_once() {
    let out = doc_after(
        "openapi: 3.0.1\ncomponents:\n  a:\n    type:\n    - - string\n      - 'null'\n    - 'null'\n",
        convert_nullable_type_array,
    );
    assert_eq!(
        out,
        "openapi: 3.0.1\ncomponents:\n  a:\n    type:\n    - string\n    - 'null'\n    nullable: true\n"
    );
}
