# qcode

The core of an intermediate representation for machine code, written in Rust
and verified with Verus: types and constants, instructions and their operands,
blocks and functions with use lists, a control-flow graph and names, and the
text that all of it is written as.

- `src/` is the library. Every function in it carries a contract that Verus
  proves; the exceptions are the short wrappers around `smallvec`, `rustc-hash`
  and std in `arena.rs`, `small.rs`, `fx.rs` and `segment/atoms.rs`, whose doc
  comments say what is believed of the wrapped call.
- `tests/` runs the library.
- `app/` is ordinary Rust around it: the registry of intrinsics, a type table
  that threads share with its wire format, and `Display`.

A body (`src/body/`) is modelled by its `BodyView`: the blocks, instructions,
parameters and edges that are alive, the order of the instructions, and the
names. An edit states the view it leads to, and keeps the uses of every value
recorded where they were; the laws in `src/body/laws.rs` and
`src/body/users.rs` say how edits fit together and what the recorded uses are.
