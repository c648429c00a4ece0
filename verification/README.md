# bookmill

A book publishing pipeline: markdown chapters in, EPUB and print-interior
documents out, with the house rules, KDP checks, accessibility audits,
audiobook change tracking and image shrinking that go with them.

- `src/` is the library, written and proved with Verus. Each public function
  states what it returns in its `ensures`; the laws the library keeps are
  public proof functions (`law_*`). Calls into outside crates (zip, image,
  lopdf, epub-builder, comrak, ...) go through small trusted wrappers whose
  contracts say what the crate does.
- `app/` is the command line around it: finding the repository, reading and
  writing files, the interactive picker's drawing loop, and running external
  tools. It hands the library plain values and leaves the decisions to it.
- `tests/` exercises the library on concrete inputs.

Run `bookmill --help` for the commands: `create`, `list`, `validate`,
`content`, `words`, `build`, `tui`, `readme` and `audiobook`.
