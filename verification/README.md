# wry-bindgen

Runtime support for wasm-bindgen-style bindings carried over Wry's IPC,
written in Verus: the logic is proved against contracts, and the host
plumbing around it is ordinary Rust.

## Layout

- `src/` — the verified library.
  - `id_allocator`, `type_cache`, `batch`, `object_store`: the identifier
    spaces that mirror the JavaScript heap, the cache of type definitions,
    the batching runtime and the store of objects exported to JavaScript.
  - `ipc`, `encode` (with `primitives`, `containers`, `clamped`,
    `callbacks`, `batchable`): the binary message format and the encoding
    of Rust values on it, with round-trip laws.
  - `value`, `cast`, `sys`, `convert`, `closure`, `error`, `rt`, `events`:
    JavaScript handles, casts, closures and the promise state machine.
  - `webview`: request routing of the custom protocol and the conversation
    state that decides what each request and message causes.
  - `js_codegen`: the JavaScript glue registered for imported functions.
  - `text`, `versions`, `manifest`, `api_report`: the text processing of the
    maintenance scripts (manifest and lock-file updates, release tags,
    semver report filtering).
- `tests/` — tests of the library on concrete values.
- `app/` — the host side: the per-thread runtime stack, the IPC channels,
  the custom-protocol handler, the promise future, and the scripts' I/O.
