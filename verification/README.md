# openapi31to30

Converts OpenAPI 3.1 documents into OpenAPI 3.0 documents.

- `src/` is the verified library. `yaml` holds the YAML value tree and its insertion-ordered
  mapping, `document` the top level of a document, `visitor` the post-order walks over the
  objects of `components` and `paths`, `rewrites` the rewrites of schema objects (nullable type
  arrays, `type: null`, `const`, nullable `oneOf`, `$ref`), `convert` the whole conversion and
  its version check, `args` the command line, `laws` the properties that span them, and `deep` the
  properties that a walk carries to every node it reaches.
- `app/main.rs` is the command: it reads and writes files, and turns YAML text into the
  library's document and back with `serde_yaml`.
- `tests/` runs the conversions on YAML text.
