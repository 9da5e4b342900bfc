//! Images as archives: the layout of an archive, the builder that makes one
//! and the loader that takes one into the local store.

pub mod builder;
pub mod layout;
pub mod loader;

pub use builder::Builder;
pub use layout::{read_archive, verified_blobs, write_archive, Archive, Entry};
pub use loader::load;
