//! Connection engine for a capability-based RPC protocol.
//!
//! The engine multiplexes application-level capability calls and protocol
//! control traffic over one bidirectional link. It keeps the four bookkeeping
//! tables of a connection (questions, answers, exports, imports) and turns
//! local application actions and incoming wire messages into table mutations
//! and outgoing messages. The surrounding process owns the transport and the
//! local server objects: it feeds the engine one event at a time and performs
//! the actions the engine hands back, so every decision the engine makes is
//! checked here, while reading and writing bytes stays outside.

pub mod types;
pub mod model;
pub mod engine;
pub mod laws;
