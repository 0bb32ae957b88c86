# neura

The host side of the neura tensor runtime, verified with Verus: the device
ABI, tensor graphs and their gradients, the compiler from device functions to
shader modules, and the decisions the runtime takes around a compute device.

## Layout

- `src/` — the verified library.
  - Device ABI: `element`, `kind`, `refusal`, `schedule`, `profile`,
    `placement`, `store`, `strategy`, `window`, `pool`, `record`, `text`.
  - Tensors: `shape`, `init`, `graph` (building a graph, and its backward pass).
  - Device functions: `ir` (the source form), `dispatch` (function tables,
    dispatchers and templates), `lowered` (the lowered form of a module),
    `compiler` (declarations and lowering), `uniform` (whether every
    invocation of a workgroup reaches each barrier together), `writes`
    (whether every store goes where a kernel may write).
  - Shader programs: `program`, `compute` (checking a naga module against its
    bindings and compiling it), `workgroup` (isolating workgroup types in
    SPIR-V), `resource`.
  - Devices: `capability`, `context`, `transfer`, `frames` (how a queue
    recycles its recording frames).
- `tests/` — tests run against the compiled library.
- `app/` — host glue: byte-level record copies, flag sets, readable refusals,
  float-valued authoring helpers, and the conversion of a lowered module into
  a naga module.
