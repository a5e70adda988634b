//! Core of an LSP proxy that gives Bun scripts TypeScript intelligence:
//! Bun-context detection, LSP message framing, the routing decisions between
//! the editor and the downstream TypeScript server, and the synthesised
//! compiler options.

pub mod detector;
pub mod framing;
pub mod launch;
pub mod router;
pub mod synthesiser;
pub mod text;
pub mod wire;
