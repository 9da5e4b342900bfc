//! Packaging of file trees as OCI images: names, digests, archives, the local
//! store and the registry protocol, with machine-checked contracts.
//!
//! The library computes and decides; it neither reads nor writes files,
//! sockets or JSON text. A caller hands it bytes and decoded documents, and
//! carries out what it asks for:
//!
//! - [`image_name`] and [`digest`]: the names of images and the addresses of
//!   blobs, with their grammars.
//! - [`blob`], [`descriptor`]: blobs, the pool that holds each once, and the
//!   documents that refer to them.
//! - [`image`]: the layout of an archive, the builder and the loader.
//! - [`local`]: the local store, and how it is laid out on disk.
//! - [`distribution`]: the client side of the registry protocol, as states
//!   and decisions.
//! - [`package`]: what the cargo subcommand decides.

pub mod blob;
pub mod descriptor;
pub mod digest;
pub mod distribution;
pub mod error;
pub mod image;
pub mod image_name;
pub mod local;
pub mod package;
pub mod search;
pub mod text;

pub use digest::Digest;
pub use error::Error;
pub use image_name::{ImageName, Reference};
