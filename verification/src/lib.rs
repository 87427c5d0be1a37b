//! Publish/subscribe framework for embedded links: message and packet
//! types, the link abstraction, and the verified decision logic that the
//! node drivers run.
pub mod link;
pub mod node;
pub mod packet;
pub mod topic;
pub mod usb;

pub use node::Id;
pub use packet::Packet;
pub use topic::Message;
