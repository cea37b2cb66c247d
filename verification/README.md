# forge

A toolkit for modules of agent artifacts (skills, agents, rules): it
assembles a module's markdown sources per provider, deploys the build to
each provider's directory while keeping user edits, reports drift against an
upstream module, and checks the provenance of deployed files.

The logic is a Verus library whose functions carry `requires`/`ensures`
contracts that Verus proves:

- `src/` — the verified library. Text and path primitives (`text`, `paths`,
  `order`), frontmatter handling (`frontmatter`, `scan`, `transform`),
  assembly (`assemble`, `provider`), deployment planning and manifests
  (`deploy`, `digest`, `result`, `report`), drift (`drift`), provenance and
  sidecars (`provenance`, `sidecar`, `refs`), the `.forge` manifest
  (`dotforge`), version-control parsing (`vcs`), and the decisions behind
  the dashboard and the terminal browser (`view`, `dashboard`, `web`,
  `pages`, `tui`, `nav`, `lines`).
- `app/` — the `forge` command line: argument parsing, directory walks,
  file reads and writes, and terminal or JSON output.
- `tests/` — tests of the library on concrete values.

Calls into `sha2`, `serde_yaml`, `regex` and std's text conversions sit
behind small trusted wrappers whose contracts state what those crates do.

## Limits of this build

- The merge of a module's `config.yaml` over `defaults.yaml`
  (`merge_into` in `app/config.rs`) is plain, unverified code of the
  command line: mappings merge key by key, and any other value replaces the
  one below. It stands in for a merge function that is not part of this
  code base, so its behaviour on corner cases (sequences, nulls) is a
  choice made here.
- There are no built-in provider, model or tool-remapping tables: a module
  must carry its own `providers:` section; without `models.yaml` no model
  qualifier is known, and without `config/remap-tools.yaml` no tool is
  renamed.
- The command line offers `install`, `assemble`, `deploy`, `copy`,
  `provenance`, `drift` and `clean`. Scaffolding, validation and release
  commands, the web dashboard and the terminal browser are not wired up;
  the library holds the decisions behind the dashboard and the browser.
- Assembly writes no provenance sidecars and applies no model variants or
  keep-field lists.
