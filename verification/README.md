# vxapo_driver

The logic of an audio effect driver for Windows, written in Rust and proved with Verus.

- `src/` is the library. Its functions state in their contracts what they return and
  change, and the `law_` functions state what holds across several of them: that an
  installation and its rollback lead back to the same keys and values, that removing an
  installation puts back the effects it displaced and leaves none of its own behind where
  the record keeps none of them, that a release after a takeover leads back to what was
  there, and so on.
- `app/` is what meets Windows: the registry, services, files, COM, and arithmetic on
  floating-point numbers. It reads, hands plain values to the library, and carries out
  what comes back.
- `tests/` runs the library on concrete values.

The registry is a value in the library (`registry::Registry`): a list of keys, and a
journal of the changes made to them. `app/store.rs` fills it and replays the journal.
