# latentslate

The verified core of LatentSlate, a local-first generative video editor:
the parts of the editor that decide things, written in Verus with their
contracts and proved.

- `src/` is the library. Each module states what its functions return in
  `requires`/`ensures` clauses over mathematical models (`Seq`, `Set`,
  spec functions), and the `law_*` proof functions state properties that
  span several calls (orders that are antisymmetric, sorts that keep every
  element, version deletes that leave no trace of the version and are
  refused while another asset still uses it, batches of clip moves
  that are applied whole or not at all, deletes and selections that name
  only existing items).
- `tests/` runs the library on concrete projects.
- `app/` holds the floating-point helpers around the library (frame
  stepping, time labels, clip start times, the lineage view's horizontal
  positions over the verified placement order) and the file-system
  halves of importing dropped files and deleting folders and versions.

Identifiers are the 128-bit values of the editor's UUIDs; paths are
project-relative path text; a literal input value is held as its JSON text.
