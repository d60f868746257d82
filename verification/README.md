# nyarix

The core of the Nyarix runtime, a modular runtime that executes network
stacks as graphs of modules, written in Verus with its behaviour stated in
`requires`/`ensures` contracts and proved.

## Layout

- `src/` — the verified library.
  - `base`, `errors`, `versions`, `text`: identifiers, platforms, semantic
    versions, error types and the string helpers the rest builds on.
  - `packet`: packets (payload, metadata, tags) and the packet pool.
  - `module_api`: capabilities, module metadata, resource limits, I/O
    policies, the rate limiter, metrics and the runtime context a module
    sees.
  - `package`: the `.nyp` archive format (tar + zstd), its manifest,
    Ed25519 signing, and trust levels.
  - `loader`: the discovery index, dependency order, version resolution,
    conflict detection, validation, installation, the cache and rollback.
  - `graph`: the flow graph (nodes, edges, conditions, cycle detection,
    shortest paths, validation), export, and the decisions of executing a
    packet through it.
  - `config`: the runtime configuration.
- `app/` — the program around the library: file and archive I/O, serde
  documents, the platform the process runs on, the module traits and the
  execution loops (sequential and concurrent), node queues, histograms and
  throughput rates.
- `tests/` — tests of the library.
