use openapi31to30::args::{Args, UsageError};
use openapi31to30::convert::{
    convert, convert_const_to_enum, convert_nullable_oneof, convert_nullable_type_array,
    convert_schema_ref,
};
use openapi31to30::document::OpenApiTopLevel;
use openapi31to30::visitor::{walk_objects, walk_ref_objects, MappingRecorder, ObjectRecorder};
use openapi31to30::yaml::{Mapping, Yaml};

fn value_to_yaml(v: &serde_yaml::Value) -> Yaml {
    match v {
        serde_yaml::Value::Null => Yaml::Null,
        serde_yaml::Value::Bool(b) => Yaml::Bool(*b),
        serde_yaml::Value::Number(n) => Yaml::Number(n.to_string()),
        serde_yaml::Value::String(s) => Yaml::String(s.clone()),
        serde_yaml::Value::Sequence(items) => Yaml::Sequence(items.iter().map(value_to_yaml).collect()),
        serde_yaml::Value::Mapping(m) => Yaml::Mapping(mapping_to_yaml(m)),
        serde_yaml::Value::Tagged(t) => {
            Yaml::Tagged(t.tag.to_string(), Box::new(value_to_yaml(&t.value)))
        }
    }
}

fn mapping_to_yaml(m: &serde_yaml::Mapping) -> Mapping {
    Mapping { entries: m.iter().map(|(k, v)| (value_to_yaml(k), value_to_yaml(v))).collect() }
}

fn yaml_to_value(y: &Yaml) -> serde_yaml::Value {
    match y {
        Yaml::Null => serde_yaml::Value::Null,
        Yaml::Bool(b) => serde_yaml::Value::Bool(*b),
        Yaml::Number(n) => serde_yaml::Value::Number(n.parse().unwrap()),
        Yaml::String(s) => serde_yaml::Value::String(s.clone()),
        Yaml::Sequence(items) => serde_yaml::Value::Sequence(items.iter().map(yaml_to_value).collect()),
        Yaml::Mapping(m) => serde_yaml::Value::Mapping(mapping_to_value(m)),
        Yaml::Tagged(t, v) => serde_yaml::Value::Tagged(Box::new(serde_yaml::value::TaggedValue {
            tag: serde_yaml::value::Tag::new(t.clone()),
            value: yaml_to_value(v),
        })),
    }
}

fn mapping_to_value(m: &Mapping) -> serde_yaml::Mapping {
    let mut out = serde_yaml::Mapping::new();
    for (k, v) in &m.entries {
        out.insert(yaml_to_value(k), yaml_to_value(v));
    }
    out
}

fn field_mapping(top: &serde_yaml::Mapping, key: &str) -> Option<Mapping> {
    match top.get(key) {
        None | Some(serde_yaml::Value::Null) => None,
        Some(v) => Some(mapping_to_yaml(v.as_mapping().expect("a mapping"))),
    }
}

/// Reads the top level of a document the way the converter's command line does.
fn parse_doc(text: &str) -> OpenApiTopLevel {
    let value: serde_yaml::Value = serde_yaml::from_str(text).unwrap();
    let top = value.as_mapping().unwrap();
    OpenApiTopLevel {
        openapi: top.get("openapi").and_then(|v| v.as_str()).unwrap().to_owned(),
        info: field_mapping(top, "info"),
        paths: field_mapping(top, "paths"),
        components: field_mapping(top, "components"),
        tags: match top.get("tags") {
            None | Some(serde_yaml::Value::Null) => None,
            Some(v) => Some(value_to_yaml(v)),
        },
    }
}

/// Writes the top level of a document the way the converter's command line does.
fn doc_to_string(doc: &OpenApiTopLevel) -> String {
    let mut top = serde_yaml::Mapping::new();
    top.insert("openapi".into(), doc.openapi.clone().into());
    for (key, field) in [("info", &doc.info), ("paths", &doc.paths), ("components", &doc.components)] {
        if let Some(m) = field {
            top.insert(key.into(), serde_yaml::Value::Mapping(mapping_to_value(m)));
        }
    }
    if let Some(tags) = &doc.tags {
        top.insert("tags".into(), yaml_to_value(tags));
    }
    serde_yaml::to_string(&top).unwrap()
}

fn convert_text(text: &str) -> Result<String, String> {
    match convert(parse_doc(text)) {
        Ok(doc) => Ok(doc_to_string(&doc)),
        Err(e) => Err(e.message()),
    }
}

/// Checks that progenitor can generate a client from the converted document.
fn progenitor_test(spec: &str) {
    let spec = serde_yaml::from_str(spec).expect("YAML parse");
    let mut generator = progenitor_impl::Generator::default();
    let _tokens = generator.generate_tokens(&spec).expect("Progenitor generate");
}

#[test]
fn schema_versions() {
    assert_eq!(convert_text("openapi: 3.0.1").unwrap_err(), "Schema is already version 3.0",);
    assert_eq!(
        convert_text("openapi: 4.0.1").unwrap_err(),
        "Unsupported schema version `4.0.1`",
    );
}

#[test]
fn schema_ref() {
    const INPUT: &str = r##"
openapi: 3.0.1
info:
  title: a schema
  version: '1.0'
paths: {}
components:
  some-component:
    some-member: game
    $ref: "#/components/refs/thing"
"##;
    const EXPECTED: &str = "\
openapi: 3.0.1
info:
  title: a schema
  version: '1.0'
paths: {}
components:
  some-component:
    some-member: game
    allOf:
    - $ref: '#/components/refs/thing'
";
    let mut top = parse_doc(INPUT);
    convert_schema_ref(&mut top);
    let out = doc_to_string(&top);
    assert_eq!(out, EXPECTED);
    progenitor_test(&out);
}

#[test]
fn test_nullable_type_0() {
    const INPUT: &str = "
openapi: 3.0.1
info:
  title: a schema
  version: '1.0'
paths: {}
components:
  some-component:
    schema:
      type:
        - string
        - null";
    const EXPECTED: &str = "\
openapi: 3.0.1
info:
  title: a schema
  version: '1.0'
paths: {}
components:
  some-component:
    schema:
      type: string
      nullable: true
";
    let mut top = parse_doc(INPUT);
    convert_nullable_type_array(&mut top);
    let out = doc_to_string(&top);
    assert_eq!(out, EXPECTED);
    progenitor_test(&out);
}

#[test]
fn test_nullable_type_1() {
    const INPUT: &str = "
openapi: 3.0.1
info:
  title: a schema
  version: '1.0'
paths: {}
components:
  schemas:
    UserWithNullableField:
      type: object
      required:
      - id
      properties:
        id:
          type: integer
          format: int32
        name:
          type:
          - string
          - 'null'";
    const EXPECTED: &str = "\
openapi: 3.0.1
info:
  title: a schema
  version: '1.0'
paths: {}
components:
  schemas:
    UserWithNullableField:
      type: object
      required:
      - id
      properties:
        id:
          type: integer
          format: int32
        name:
          type: string
          nullable: true
";
    let mut top = parse_doc(INPUT);
    convert_nullable_type_array(&mut top);
    let out = doc_to_string(&top);
    assert_eq!(out, EXPECTED);
    progenitor_test(&out);
}

#[test]
fn test_nullable_type_2() {
    const INPUT: &str = "
openapi: 3.0.1
info:
  title: a schema
  version: '1.0'
paths:
  /some-path/{param}:
    get:
      description: game
      operationId: game
      parameters:
        - name: param
          in: path
          schema:
            type:
              - integer
              - 'null'
          description: game
          required: true
      responses:
        '200':
          description: game
components: {}
";
    const EXPECTED: &str = "\
openapi: 3.0.1
info:
  title: a schema
  version: '1.0'
paths:
  /some-path/{param}:
    get:
      description: game
      operationId: game
      parameters:
      - name: param
        in: path
        schema:
          type: integer
          nullable: true
        description: game
        required: true
      responses:
        '200':
          description: game
components: {}
";
    let mut top = parse_doc(INPUT);
    convert_nullable_type_array(&mut top);
    let out = doc_to_string(&top);
    assert_eq!(out, EXPECTED);
    progenitor_test(&out);
}

#[test]
fn test_nullable_type_3() {
    const INPUT: &str = "
openapi: 3.0.1
info:
  title: a schema
  version: '1.0'
paths:
  /some-path/{param}:
    get:
      description: game
      operationId: game
      parameters:
        - name: param
          in: path
          schema:
            type: object
            properties:
              some-prop:
                oneOf:
                  - type: 'null'
                  - $ref: '#/components/schemas/thing'
                    description: hi
          description: game
          required: true
      responses:
        '200':
          description: game
components:
  schemas:
    thing:
      type: string
";
    const EXPECTED: &str = "\
openapi: 3.0.1
info:
  title: a schema
  version: '1.0'
paths:
  /some-path/{param}:
    get:
      description: game
      operationId: game
      parameters:
      - name: param
        in: path
        schema:
          type: object
          properties:
            some-prop:
              description: hi
              $ref: '#/components/schemas/thing'
              nullable: true
        description: game
        required: true
      responses:
        '200':
          description: game
components:
  schemas:
    thing:
      type: string
";
    let mut top = parse_doc(INPUT);
    convert_nullable_type_array(&mut top);
    convert_nullable_oneof(&mut top);
    let out = doc_to_string(&top);
    assert_eq!(out, EXPECTED);
    progenitor_test(&out);
}

#[test]
fn test_const_enum() {
    const INPUT: &str = "
openapi: 3.0.1
info:
  title: a schema
  version: '1.0'
paths: {}
components:
  some-component:
    schema:
      const: string
";
    const EXPECTED: &str = "\
openapi: 3.0.1
info:
  title: a schema
  version: '1.0'
paths: {}
components:
  some-component:
    schema:
      enum:
      - string
";
    let mut top = parse_doc(INPUT);
    convert_const_to_enum(&mut top);
    let out = doc_to_string(&top);
    assert_eq!(out, EXPECTED);
    progenitor_test(&out);
}

#[test]
fn test_nullable_oneof() {
    const INPUT: &str = "
openapi: 3.0.1
info:
  title: a schema
  version: '1.0'
paths: {}
components:
  some-component:
    oneOf:
    - type: 'null'
    - description: 'things'
      allOf:
      - $ref: '#/components/schemas/thing'
  enum-component:
    oneOf:
      - type: string
      - type: integer
";
    const EXPECTED: &str = "\
openapi: 3.0.1
info:
  title: a schema
  version: '1.0'
paths: {}
components:
  some-component:
    description: things
    schema:
      $ref: '#/components/schemas/thing'
    nullable: true
  enum-component:
    oneOf:
    - type: string
    - type: integer
";
    let mut top = parse_doc(INPUT);
    convert_nullable_oneof(&mut top);
    let out = doc_to_string(&top);
    assert_eq!(out, EXPECTED);
    progenitor_test(&out);
}

const USAGE: &str = "Usage: --input INPUT_FILE --output OUTPUT_FILE";

fn strings(args: &[&str]) -> Vec<String> {
    args.iter().map(|s| s.to_string()).collect()
}

#[test]
fn argparse() {
    assert_eq!(
        Args::parse(strings(&["./test", "--input", "input.yaml", "--output", "output.yaml"]))
            .unwrap(),
        Args { input: "input.yaml".into(), output: "output.yaml".into() }
    );

    let cases: &[&[&str]] = &[
        &[],
        &["./test"],
        &["./test", "--input", "a", "--output"],
        &["./test", "--input", "a", "--input", "a"],
        &["./test", "--output", "a", "--input", "a"],
    ];
    for invalid in cases {
        let err: UsageError = Args::parse(strings(invalid)).unwrap_err();
        assert_eq!(err.message(), USAGE);
    }
}

const WALK_OBJECTS_TEST: &str = r#"
openapi: 3.0.1
components:
  some-component:
    some-member: game
  other-component:
    - other-member: {}
"#;

#[test]
fn test_walk_objects() {
    let mut top = parse_doc(WALK_OBJECTS_TEST);
    let recorder = walk_objects(&mut top, ObjectRecorder { seen: Vec::new() });
    let keys: Vec<String> = recorder
        .seen
        .iter()
        .map(|object| serde_yaml::to_string(&yaml_to_value(object)).unwrap())
        .collect();

    assert_eq!(
        keys,
        ["game\n", "some-member: game\n", "{}\n", "other-member: {}\n", "- other-member: {}\n",]
    );
}

const REF_OBJECTS_TEST: &str = r##"
openapi: 3.0.1
components:
  some-component:
    some-member: game
    $ref: "#/components/refs/thing"
  other-component:
    - other-member: {}
"##;

#[test]
fn test_ref_objects() {
    // WALK_OBJECTS_TEST has no ref objects
    let mut top = parse_doc(WALK_OBJECTS_TEST);
    let recorder = walk_ref_objects(&mut top, MappingRecorder { seen: Vec::new() });
    assert!(recorder.seen.is_empty());

    let mut top = parse_doc(REF_OBJECTS_TEST);
    let recorder = walk_ref_objects(&mut top, MappingRecorder { seen: Vec::new() });
    let keys: Vec<String> = recorder
        .seen
        .iter()
        .map(|m| serde_yaml::to_string(&mapping_to_value(m)).unwrap())
        .collect();
    assert_eq!(keys, ["some-member: game\n$ref: '#/components/refs/thing'\n",]);
}
