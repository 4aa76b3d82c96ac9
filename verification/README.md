# rusttorch

A library of rules for tensor programs: graphs and their passes, layers and optimizers,
checkpoints, exported programs (PT2, ONNX) and collective operations. It works on shapes,
element types, names and bytes, and is verified with Verus.

- `src/` is the library.
- `tests/` runs it on values.
- `app/` is the crate around it that owns tensors (`tch`), files and sockets.

Where the library calls an outside crate, or a part of the standard library that Verus does not
specify, the call stands in a small function of its own, marked `external_body`. Such a function
is trusted, not verified: its comment says what its contract takes for granted of the call.
