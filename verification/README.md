# Zip Risk Auditor

Inspects `.zip` archives for extraction hazards before they are opened: entries that
climb out of the directory they are extracted to or have an absolute path, duplicate
paths, programs and scripts, nested archives, and expansion ratios and sizes above a
threshold. Each archive gets a score from 0 to 100, and the riskiest comes first in the
report, which is printed and can be written as JSON and as Markdown.

```bash
zip-risk-auditor --input . --markdown-out reports/brief.md --json-out reports/brief.json
zip-risk-auditor --input downloads --ratio-threshold 12 --top 8 --fail-on-risk
```

## Layout

- `src/` is the library, verified with Verus. `src/lib.rs` says what each module is for;
  the modules whose names end in `_laws` state what holds of the library as a whole.
- `app/` is the program: the file system, the clock, floating point and JSON.
- `tests/` runs the library.

## What is not proved

The `zip` crate opens archives and looks up their entries. `src/archive.rs` states what
its functions are taken to do, and `src/text.rs` the same of `String::push`. The rest of
the library is proved from that and from the specifications of Verus's own library.

Floating point stays in `app/`. The library holds such numbers by their bit patterns,
which it compares, and receives their renderings as text.
