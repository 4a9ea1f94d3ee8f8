# ya

"ya" (yet another YAML parser) reads YAML 1.2.2 streams and resolves their tags by the Core
Schema. The grammar productions are functions named after them (a few small ones, such as the
double-quoted line and character rules and `b-as-space`/`b-as-line-feed`, stand inside the
function of the production that uses them), and every one of them is proved by Verus to compute
exactly its production: each `ensures` equates the result with a spec function that states the
production over the input's characters.

## Layout

- `src/parse/`: the grammar. `chars` (character classes), `spaces` (indentation, separation,
  comments, line folding), `scalar` (plain, single- and double-quoted scalars), `properties`
  (tags, anchors, aliases), `flow` (flow nodes and collections), `block` (block scalars and
  collections), `document` (directives, documents and the stream), with `input` (the text and the
  per-document anchor and tag-handle state).
- `src/resolve.rs`: Core Schema tag resolution; what it may change of a node is stated and proved.
- `src/documents.rs`: `parse`, `parse_document` and the lazy document iterator `Documents`.
- `src/value.rs`, `src/error.rs`, `src/de.rs`: the node model, the errors and their rendering, and
  the decisions behind deserialization (what a node hands a visitor, how an enum is read).
- `src/text.rs`: strings as `char` sequences, and the UTF-8 byte offsets of their positions.
- `app/`: what Verus does not see: the `serde` deserializer and floating-point reading.
- `tests/`: the test suite, with one test on concrete values for each proved law.
