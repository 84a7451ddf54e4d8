//! A polyglot code-intelligence gateway's verified core: one HTTP-fronted
//! service brokers semantic queries over a workspace to a fleet of
//! per-language analyzer subprocesses speaking length-prefixed JSON-RPC
//! over their pipes.
//!
//! The library holds the logic that carries the system: the framed
//! transport and its round trip (`frame`), the pending-request table and
//! the session that demultiplexes concurrent responses (`pending`,
//! `session`), JSON-RPC body construction and routing fields (`rpc`),
//! language detection (`detect`), the workspace scanner (`scan`), path
//! arithmetic and workspace-folder resolution (`paths`), the manager
//! layer's ordering, range reads and composite query (`manager`), the
//! container orchestrator's registry and spawn sequence (`orchestrator`),
//! and the interpreter-version selection for the Ruby toolchain (`ruby`).
//! The surrounding runtime performs the process, file and network I/O and
//! hands the library plain values.
pub mod api_types;
pub mod detect;
pub mod frame;
pub mod manager;
pub mod orchestrator;
pub mod paths;
pub mod pending;
pub mod rpc;
pub mod ruby;
pub mod scan;
pub mod session;
pub mod text;
