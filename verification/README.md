# grim_transformer

The model logic of a family of transformer decoders, written and proved in
Verus: settings, weight plans, cache bookkeeping, launch plans, attention,
convolution, scan and gated-delta recurrences, expert routing and adapters.

- `src/` is the library. Every function has a contract, and Verus proves all of
  them but those of the wrappers named below.
  Numbers are a parameter (`scalar::Scalars`): a computation is written once
  over a handful of operations, its contract says exactly which operations it
  performs, and the caller brings the precision. Laws, such as that decoding
  token by token gives what prefilling gives, or that the gradients of the
  gated delta recurrence are gradients, are public proof functions whose names
  start with `law_`.
- `tests/` runs the library in single and double precision.
- `app/` is ordinary Rust around it: the two precisions, configurations as
  JSON, switches from the environment, the sidecar file, and the loops that
  perform planned steps, blocks and passes and hand planned launches to a
  device.

What the library believes without proof of its only outside crate, `serde_json`,
stands in the contracts of the wrappers in `src/json.rs`, and what it believes of
two methods of `String` in `src/text.rs`.
