//! Reader for StarCraft II replay files: the archive container that wraps a
//! replay, and the tag-prefixed versioned format of the entries inside it.

pub mod archive;
pub mod bytes;
pub mod color;
pub mod compress;
pub mod crypt;
pub mod encode;
pub mod error;
pub mod format;
pub mod header;
pub mod protocol15405;
pub mod value;
pub mod versioned;
pub mod vlq;
pub mod wire;
