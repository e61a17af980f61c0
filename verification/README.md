# nixman-core

The domain logic of a NixOS configuration manager, written in Verus: the
option editing of Nix files (reading, replacing, inserting and removing
bindings: an edit changes one contiguous run of the text and keeps every
other character, comments and layout included), the import graph and option
resolution across modules, the pending-change buffer, package list edits
(a removed package takes its own line with it only when it stands alone
there, else one neighbouring space, so other items and comments stay), the
option index and its search, generation parsing and diffing, the
intent engine's assertion parsing and conflict resolution, and the decisions
around `nixos-rebuild`, Home Manager and git commits.

Layout:

- `src/` is the verified library. Every function there carries a contract
  that Verus proves; the few calls into outside crates (the `rnix` parser,
  `sha2`, `chrono`) and into std functions that vstd does not specify stand
  behind small trusted wrappers whose doc comments say what they assume.
  Public proof functions named `law_*` state properties that span several
  operations (what queuing and discarding changes do to the buffer, what an
  edit keeps of the source, the shape of suggested commit messages).
- `tests/` runs the library on concrete inputs.
- `app/` holds what Verus does not see: file and process I/O, git access,
  serde copies of the library's types, and the floating-point size reading
  of garbage-collection output.
