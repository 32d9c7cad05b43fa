# infradrift

Drift detection for Terraform/OpenTofu plans, written in Verus: the library
in `src/` is verified, and `app/` is the command-line program around it.

## Layout

- `src/json.rs`, `src/plan/` — a plan as plain values (`TerraformPlan`,
  `JsonValue`), telling JSON plan files from binary planfiles, and the
  commands and messages of running `terraform`/`tofu plan`.
- `src/drift/` — drift detection: flattening resource states into dotted
  paths, attribute diffs with sensitive values masked, classification of
  plan actions, ignore rules (`all` and `any` modes), and the report with
  its summary. `src/drift/properties.rs` proves what holds of every report.
- `src/config.rs` — ignore rules, attribute patterns and validation
  messages.
- `src/filter/` — command-line filters and address globs.
- `src/output/` — the human, table, CSV and HCL renderings.
- `src/pipeline.rs` — detection followed by filtering, and the exit code.
- `src/text.rs`, `src/keymap.rs`, `src/seq_util.rs` — strings as
  character sequences, a sorted string-keyed map, and sequence lemmas.
  `KeyMap` is a vector of entries kept sorted by key, with that order as
  its stated invariant. It stands where a `BTreeMap<String, String>`
  would: vstd's `BTreeMap` specification is meaningful only for key types
  whose ordering vstd models (`key_obeys_cmp_spec`), and `String` is not
  one of them, so it would say nothing of the key order that the
  attribute diff follows.
- `app/` — argument parsing, reading files, running the plan commands,
  JSON serialization and printing.

## Exit codes

`0` when no drift is detected, `1` when drift is detected, `2` on error.
