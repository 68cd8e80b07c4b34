# greentic-flow

Flow documents (YGTC) for Greentic components, with their rules proved by
Verus: loading a document, the typed flow IR and its round trip, inserting a
step after an anchor and threading the anchor's routes through it, adding
the step a component's wizard configured, updating a step, removing a step
and splicing its routes into its predecessors, lint rules, component
metadata and contract checks, the lint of component configuration and of
the sidecar, flow metadata updates, fixture wizards, config flows and their
templates, the answer schema of a question list, CBOR values as JSON, and
the validation of CBOR configuration against a typed schema.

Layout:

- `src/` — the library, verified by Verus. Each public function states what
  it returns in its `ensures`; the laws that relate several functions are
  public proof functions named `law_*`.
- `tests/` — tests of the library on concrete values.
- `app/` — the `greentic-flow` command line: files, YAML and JSON text,
  CBOR decoding and the environment, around the library.

Outside crates are used where the logic needs them (JSON Schema checks,
regular expressions, language tags, SHA-256, identifier rules, the system
locale); each such call
sits in a small trusted function whose contract says what the library relies
on.
