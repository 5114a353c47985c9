# EchoRV

Bounded causal execution evidence for RISC-V firmware: EchoRV imports Spike commit
logs (or runs Spike), normalizes them into `echorv.trace.v1`, enriches traces with ELF
symbols and DWARF locations, and turns them into `echorv.evidence.v1` evidence with
stable identifiers, explicit causal links and trap diagnoses.

The library in `src/` is verified with Verus: every public function states what it
returns in terms of mathematical models of the trace and evidence types, and the
properties that span functions are stated and proved as `law_*` proof functions.

| Module | Contents |
|---|---|
| `model` | the trace and evidence types and their views |
| `text` | character-level helpers: scanning, trimming, case folding, number text |
| `spike` | the Spike commit-log grammar, its normalization, and the decisions around a Spike run |
| `analyzer` | validation, profile selection, causal evidence and its bounds |
| `elf` | ELF inspection and trace enrichment over what the `object` crate decodes |
| `sarif` | SARIF rule identifiers, descriptions and the rule set of a run |
| `cli` | command-line value parsing and the human-readable renderings |

`app/` holds the `echorv` command line around the library: argument handling, file
I/O, running Spike under a timeout, DWARF lookups through `addr2line`, and the JSON,
JSON Lines and SARIF encodings.
