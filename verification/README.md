# jj_version

Version strings for Jujutsu repositories, in the style of
`git describe --tags --always`: the tag when the effective revision is tagged,
`<tag>-<distance>-g<short commit id>` when it is ahead of the nearest tag, and
the short commit id when no tag is reachable.

- `src/` is the verified library:
  - `lines` reads command output (lines, trimming, the single or the first
    non-empty line);
  - `decimal` reads and writes `usize` in decimal;
  - `resolve` holds the `jj` queries and the step function that turns their
    outputs into a version;
  - `args` reads the macro arguments `fallback = <expr>` from the token trees,
    each with the kind, identifier or character that the reading looks at,
    and says what the macro expands to;
  - `boundary` holds the calls into `std`, `syn` and `proc-macro2` that the
    rest relies on.
- `app/` is the procedural macro around it: it hands over the input's token
  trees, runs `jj`, and emits the version literal, the fallback expression or
  a compile error. Marking it `#[proc_macro]` takes a crate of the
  `proc-macro` type.
- `tests/` runs the library on concrete values.
