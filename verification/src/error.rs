//! The error taxonomy of the node runtime.

use vstd::prelude::*;

verus! {

/// Everything that can go wrong while building a node, parsing an envelope,
/// or handling a message. A handler-originated failure travels in
/// `Handler` and is passed back to the caller unchanged.
#[derive(Debug, Clone, PartialEq, Eq)]
pub enum NodeError {
    /// The input is not a valid envelope: a required field is missing or of
    /// the wrong shape.
    MalformedEnvelope,
    /// A node was asked to register a handler under the reserved type
    /// `init`; construction fails and no node is produced.
    ReservedHandler,
    /// An `init` body without a usable `node_id` string or `node_ids` array
    /// of strings; the node stays unconfigured.
    InvalidInit,
    /// An application message arrived before the node was initialized.
    NotReady,
    /// No handler is registered for the named message type.
    UnhandledType(String),
    /// An error produced by a handler, carried through verbatim.
    Handler(String),
}

} // verus!
