# sqlite_wasm

The parts of a componentized SQLite that decide things, as a library verified
with Verus: a page cache over cold storage, an allocator's block layout, an
in-memory file system with write-ahead-log support, a file system over a
pluggable backend, virtual tables and functions of extensions, a statement
cache, the registry of loaded extensions, and the fixup of linked WebAssembly
modules.

- `src/pcache`: the page cache, its recency list and its cold-storage regions;
  `content` states that pages read back what was left in them
- `src/mem`: the allocator
- `src/vfs`: the file systems, their storages and shared memory
- `src/host`, `src/policy`: loaded extensions and what they may do
- `src/embed`, `src/host_vtabs`: functions and tables of extensions
- `src/sqlite_lib`: the engine as a library
- `src/postlink`: fixing up linked modules
- `tests`: the tests, which run against the real outside crates
- `app`: the program and the glue to the engine's C interface, not verified
