# omnia

The rules of a host for WebAssembly component guests, written and proved in
Verus, with the host around them.

A deployment assembles guests into a registry, links the calls between them,
and runs them instance-per-call. What it decides on the way is a library of
plain functions with contracts; the engine, the file system, the command line
and the tasks stay outside it.

- `src/` is the library, every item of it verified:
  - `registry`, `runtime`, `seam`, `store`, `mount`, `options`, `extensions`,
    `plugin`, `cli`: a deployment's state and its guests' lifecycle;
  - `chain`, `dispatch`, `link`, `value`: calls into guests and between them,
    their depth bound, their target, and the values that cross;
  - `macros`: the grammar of `runtime!({ ... })` and what it expands to;
  - `guest`: what a guest is written against, that is errors, requests,
    commands, model questions, plugin handles and statements;
  - `text`, `idmap`: strings and string-keyed maps.
- `app/` is ordinary Rust around the library: wasmtime, serde, clap, tokio.
- `tests/` run the library on concrete values.

A function that calls an outside crate names it in its doc comment, with what
its contract takes from that crate without proof. Laws across functions are
public proof functions beside the functions they relate.
