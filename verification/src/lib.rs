//! A topic-based publish/subscribe broker.
//!
//! Producers hand messages to a cloneable [`broker::Broker`] handle together
//! with a topic [`descriptor::Descriptor`]; subscribers register a bounded
//! mailbox for the descriptors they care about. A single actor owns the
//! subscription table ([`table::ChannelMap`]) and applies commands one at a
//! time, so the table needs no lock.

pub mod broker;
pub mod descriptor;
pub mod fanout;
pub mod laws;
pub mod mailbox;
pub mod message;
pub mod route;
pub mod table;

pub use broker::{Actor, Broker, Command};
pub use descriptor::Descriptor;
pub use mailbox::Mailbox;
pub use message::{Chunk, Message, Protocol};
pub use route::{Guard, Param, Route, WebSocketRoute};
pub use table::ChannelMap;
