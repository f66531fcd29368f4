# ruos

The userland runtime of a small operating system whose programs are WebAssembly modules,
as a Verus library: what the calls of a program do, how windows are kept, drawn and fed with
input, how threads wait for each other, and what the tools that come with the system compute.

- `src/host` — the calls of interpreted programs: memory, descriptors, paths, processes,
  network, services. `src/fiber.rs`, `src/pipeline.rs`, `src/exec_queue.rs` and `src/shell.rs`
  run such programs, by themselves and side by side.
- `src/wt` — compiled programs: their calls, the window manager and its compositor, the
  catalogue of programs, threads, demand paging.
- `src/raster` — the renderer of meshes: wire format, damage, and what is to be drawn. Single
  precision numbers are handled by their bits.
- `src/tools` — the tools.
- `app` — what surrounds the library: the engines that run programs, drawing in floating
  point, and the loops that wait. Nothing in it is verified.

Every public function states in its contract what it returns and changes. The public proof
functions state what holds of several of them together. What the library takes from outside
crates stands behind a few functions whose contracts are believed; each names the function
that it calls.
