# wild_host

The host boundary of the wild linker, verified with Verus.

- `src/` is the verified library:
  - `text`: byte-level matching (`match_indices`, identifier boundaries, Latin-1 char classes).
  - `lexer`: blanking comments and literals out of Rust source, and compacting the rest.
  - `scan`: host `cfg` invocations, native OS references and host-tree references.
  - `paths`: which files the boundary applies to, and the baseline allowances.
  - `lint`: the per-file decisions of the `ban_host_cfg` lint and its diagnostics.
  - `fs`, `host_os`: the filesystem types and the decisions around creating output files;
    reading kernel versions.
- `app/` holds the calls into the operating system (memmap2, nix, libc), one host tree per
  operating system under `app/host/`, and the lint's compiler pass, which needs the
  compiler's private crates and is only built by dylint.
- `tests/` runs the library on concrete inputs.
