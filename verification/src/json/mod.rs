//! The runtime value model: a dynamic document with its ordered mapping and
//! its passthrough value, the streams and builders that encode and decode
//! it, its text, and the teardown that does not recurse.

pub mod builder;
pub mod object;
pub mod raw;
pub mod teardown;
pub mod transcode;
pub mod value;
pub mod writer;
