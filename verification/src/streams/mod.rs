//! The channel's author and the loop that drains the channel into the stores.

pub mod author;
pub mod message_retriever;

pub use author::{Address, AuthorError, ChannelAuthor, TransportError};
pub use message_retriever::MessageRetriever;
