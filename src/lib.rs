//! Universal internet addresses with a fixed-width binary codec, and the
//! routing core of an enterprise service bus (ESB) built over routed
//! message-queue sockets.

pub mod addr;
pub mod esb;
pub mod onion;
pub mod rpc;
