pub mod assoc;
pub mod error;
pub mod json;
pub mod message;
pub mod node;

pub use error::NodeError;
pub use message::{Body, Message};
pub use node::{echo_reply, message_before_init_returns_error, InitializedNode, Node, State};
