# lib

A verified model of the VIR runtime layer: the memory schema and its canonical
object shapes, subobject paths, allocations and the byte-level memory model,
the runtime loan shadow, object effects (transfer, drop, deinitialize,
storage reset, set discriminant), borrow formation, aggregate ABI
classification and validation, source maps and runtime fault messages.

Every function in `src/` is proved against its contract. Contracts are
stated over spec functions and mathematical views (sequences, sets, maps);
where an operation depends on the object shape
that `VirMemorySchema::object_shape` derives, the contract speaks of a shape
that matches the schema's layout. Shape derivation is promised to succeed on a
valid schema for scalar types, flat structs and flat enums (aggregates whose
fields are scalars); on those types an object effect never refuses with
`InvalidRuntimeState` because of the shape.

Layout:

- `src/memory.rs`, `src/object_shape.rs`, `src/byte_range.rs`: schema,
  layouts and object shapes.
- `src/provenance.rs`: subobject paths and pointer provenance.
- `src/runtime.rs`, `src/scalar_memory.rs`, `src/objects.rs`: allocations,
  scalar loads and stores, active variants.
- `src/loan_shadow.rs`, `src/borrow*.rs`: runtime loans and borrow formation.
- `src/transfer.rs`, `src/effects.rs`, `src/resources.rs`: object effects.
- `src/aggregate_abi.rs`, `src/spec.rs`, `src/source_map.rs`: ABI, contracts
  and source locations.
- `src/messages.rs`: the message of each runtime fault.
- `tests/`: executable tests of the library.
