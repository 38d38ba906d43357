# determinism-proto

The shared contract types of the determinism services, and the descriptor
comparison used when a protobuf family is promoted from its owner's
repository into the control plane.

- `src/` is the verified library. The message and enumeration types live
  under their protobuf package paths (`common::v1`, `controlplane::v1`,
  `scorer::v1`, ...). `descriptor_eq` holds the comparison: loading a
  compiled descriptor set, canonicalising it (dropping source locations,
  mapping the named root file, sorting by name), comparing two sets, and
  the report text; `descriptor_eq::laws` proves what holds of it as a whole.
- `app/` is the `proto-descriptor-eq` command (argument reading, running
  `protoc`, printing) and the configuration types that carry floating-point
  weights.
- `tests/` exercises the library.
