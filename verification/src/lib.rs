//! Topology and event coordination controller for a simulated packet-routing
//! network.
//!
//! The crate owns the authoritative topology view shared between a UI-driven
//! control context and a background event-bridge thread, recomputes a
//! deterministic layout skeleton after every change, and enforces the
//! structural safety rules that guard destructive operations.

pub mod bridge;
pub mod channels;
pub mod controller;
pub mod dispatch;
pub mod graph;
pub mod logging;
pub mod text;
pub mod layout;
pub mod validation;

use vstd::prelude::*;

verus! {

/// Everything a control operation can fail with.
///
/// `NodeNotFound`: the dispatch target has no registered endpoint.
/// `InvariantViolation`: the validator rejected a topology-reducing
/// operation; carries the offending server id.
/// `ChannelClosed`: a command endpoint is gone; the node is treated as
/// having terminated.
/// `ParseError`: malformed numeric input from the display layer.
#[derive(Clone, Copy, Debug, PartialEq, Eq, Structural)]
pub enum ControllerError {
    NodeNotFound(u8),
    InvariantViolation(u8),
    ChannelClosed(u8),
    ParseError,
}

} // verus!
