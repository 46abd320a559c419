# chiyoda_core

The discrete core of the Chiyoda pedestrian-flow scenario toolchain, written
in Verus: every function in `src/` carries a contract that Verus proves.

## Layout

- `src/` — the verified library.
  - `lexer`, `literal`, `syntax`, `parser`, `diagnostics`: the line-oriented
    scenario language. `parse` states exactly which sources parse, what they
    denote, and the line and message of every rejection.
  - `formatter`: the canonical source text of a parsed scenario.
  - `canonical`, `agent_line`, `reformat`: the canonical text read back.
    Each declaration's canonical line tokenizes to words the parser accepts
    and that denote a declaration with the same line; `reformat` assembles
    these into the stability of formatting: for a source whose tokens are
    plain words, the canonical text parses and formats to itself, and what
    it parses to is the scenario again, declaration by declaration in
    canonical order.
  - `evidence`, `experiment`, `benchmark`, `anchor`: the manifest and catalog
    validators, each reporting every problem in field order.
  - `calibration`: content locks of catalog files and ZIP members: the bytes
    read from disk are hashed, the members are found in the archive through
    the `zip` crate, and a lock holds exactly when the size and digest match.
  - `digest`: SHA-256 (through the `sha2` crate) and its lower-case hex form.
  - `layout`, `inspection`: OpenStreetMap inspection limits, source
    provenance, tag classification, and the inspection of an OSM XML
    document, from its bytes (read through the `xml` crate) to the report.
  - `coordination`: queue-grid roadmap adjacency and FIFO ticket service.
  - `runtime`, `bundle`, `reference`, `model`, `paths`, `text`, `issues`:
    run options, agent states, deterministic draws, reference-data naming and
    shared text helpers.
- `tests/` — tests of the library's public functions.
- `app/` — the `chiyoda` command line (`check`, `compile`, `format`) and the
  readers that hand file contents and coordinate range checks to the library.

The floating-point simulation, geometry and trajectory statistics are not
part of the library.
