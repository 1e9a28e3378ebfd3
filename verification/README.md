# Fixture matrix generator

Builds the configuration trees used to benchmark configuration parsers and
renders each tree in five formats: exlex, JSON, TOML, INI and XML.

- `src/model.rs`: `ConfigNode`, its view `Section`, nesting depth and the
  uniqueness predicate `uniquely_keyed`.
- `src/generate.rs`: the wide, lopsided, matrix and scaling topologies, each
  specified exactly, with proofs that generated names and keys never collide
  and that a matrix of `n` levels is `n - 1` levels deep below its roots.
- `src/exlex.rs`, `src/json.rs`, `src/toml.rs`, `src/ini.rs`, `src/xml.rs`:
  one serializer per format, each proved to append exactly the text its
  spec function describes.
- `src/matrix.rs`: all five documents of one fixture set, and the names of
  the scaling fixtures.
- `src/structure.rs`: every format spends the same number of lines on the
  same tree, for single trees and for whole fixture sets.
- `src/text.rs`: decimal numerals, indentation and dotted paths.
- `app/main.rs`: writes the fixture files under `fixtures/`.
