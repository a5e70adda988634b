# bundt

An LSP proxy that gives Bun scripts TypeScript intelligence. It sits between
the editor and a TypeScript language server, detects Bun context (a
`#!/usr/bin/env bun` shebang, a static import from `"bun"`, or `bun.lockb` at
the workspace root), and sends the downstream server compiler options for Bun
once; everything else is forwarded unchanged.

## Layout

- `src/` — the verified library (Verus):
  - `detector` — Bun-context detection, with its signal priority;
  - `framing` — the `Content-Length` envelope: header-line classification,
    a line-at-a-time header reader, whole-buffer decoding and encoding, and
    the law that decoding an encoded frame gives the body back;
  - `router` — the decisions of the editor-to-server loop as a state machine
    (`Router::accept_frame`, `Router::handle`, `Router::handle_frame`), the
    detection cache, `file://` URIs, relaying of the server's frames, and the
    laws of the router, per message and over whole streams;
  - `wire` — JSON on the wire: the configuration notification and what the
    router reads of an editor frame;
  - `synthesiser` — the compiler options for Bun and the layout of the
    extraction directory;
  - `launch` — which downstream server to start;
  - `text` — character-sequence helpers.
- `app/` — the program: argument parsing, the child process, async I/O,
  the lockfile probe on disk, extraction of the declarations.
- `tests/` — tests of the library.
