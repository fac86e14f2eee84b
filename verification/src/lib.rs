//! Request/response multiplexing over framed byte channels, together with the
//! per-connection dispatch of a coordinator.
//!
//! Everything in this crate is sequential and deterministic: a connection is
//! described by plain values (frames, queues, a table of pending requests) and
//! by functions that take one event and give the next state. Sockets, threads
//! and locks live with the caller.
//!
//! - [`message`]: frames of typed sections and their bytes on the wire.
//! - [`transport`]: the queues of a channel, and the loops of its writer and
//!   its reader over byte streams.
//! - [`rpc`]: requests and responses over one channel, matched by id.
//! - [`dispatch`]: routing of requests to the coordinator's handlers, and
//!   the tokens that a connection holds.
//! - [`executor`]: the registry of executors and the random choice among
//!   them.
//! - [`placement`] and [`submit`]: what the submit command makes of its
//!   arguments.
//! - [`error`] and [`text`]: the error kinds, and comparing strings.

pub mod dispatch;
pub mod error;
pub mod executor;
pub mod message;
pub mod placement;
pub mod rpc;
pub mod submit;
pub mod text;
pub mod transport;
