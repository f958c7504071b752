# chitta

The working model of a person, kept as typed memories.

Raw memories (observations, episodes, decisions) come in through tools and hooks.
A reflection reads what came in since the last one: a language model draws claims
from each raw memory and groups them, and groups that are large, spread out and
recent enough become consolidated memories (traits, values, patterns, preferences,
mental models), which take the place of memories that they contradict. Feedback
raises or lowers the confidence in a consolidated memory, and confidence fades with
time.

## Layout

- `src/` is the library, and Verus verifies all of it. It decides; it does no I/O.
  - `tools/` holds the tools: the rules on their arguments, and each call as a state
    machine that is told what happened and says what to do next. Every refusal says
    what was wrong and what to do about it (`tools/completeness.rs`).
  - `synthesis/` holds extraction, clustering, contradictions, thresholds, emission,
    the writing of one cluster, and the run that ties them together; `reflect.rs`
    holds the pipeline around it.
  - `ingest.rs` splits what hooks send into chunks and works through them.
  - `hybrid.rs` takes a search through its steps; `retrieval.rs`, `order.rs` and
    `consolidated.rs` fuse, order and select.
  - `facets.rs`, `validators.rs`, `error.rs`, `migrate.rs`, `llm.rs` and `db.rs` hold
    what their names say; `text.rs`, `json.rs`, `time.rs`, `ids.rs`, `hash.rs` and
    `floats.rs` are what the rest is built from.
- `tests/` runs the library on concrete values.
- `app/` is ordinary Rust around the library: Postgres, the language model, the ingest
  endpoint, the wire types of the tools, and the command line for export and seed.

## Conventions

Identifiers are the 128 bits of a UUID. Single-precision numbers are held by their
IEEE 754 bits: the library orders and compares them, and computes none.

What the library takes from `uuid`, `sha2`, `chrono` and the standard library stands
behind a few small functions whose contracts are believed, not proved: see `ids.rs`,
`hash.rs`, `time.rs` and the top of `text.rs`.
