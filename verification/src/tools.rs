//! The four tools: read, write, edit and bash.

pub mod edit;
pub mod registry;
pub mod logs;
pub mod tail;
pub mod read;
pub mod image;
pub mod access;
pub mod bash;
pub mod write;
pub mod server;
