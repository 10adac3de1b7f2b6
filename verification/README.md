# doty

`doty` (Do That Yourself) inspects and cleans temporary state that NixOS
services and tools leave behind. Each cleanup framework has variants with
a safety tier (safe, confirm, risky, report-only); runs are dry-runs unless
`--apply` is given, and tiers other than safe need `--force`.

Layout:

- `src/` is the library, verified with Verus: the target catalog, the
  selection and gating of configured variants, reading `df`/`findmnt`
  output, grouping mounts by backing filesystem and planning a reclaim,
  the deletion guard and the quarantine-first removal journal, the
  metadata scan bookkeeping of `analyze` and its report, and the decisions of the cleanup
  targets (which entries are stale, pinned, allowlisted, or over a cap, and
  how they are reported).
- `app/` is the `doty` program around it: command-line parsing, running
  commands, walking and changing the filesystem, JSON output, and the
  floating-point usage percentages of `reclaim`.
- `tests/` exercises the library on concrete inputs.
