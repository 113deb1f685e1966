//! A verified core for a blog-post content store.
//!
//! The crate models the persistence protocol of a small content-management
//! backend: assembling a post from an uploaded file set, deriving a unique
//! slug from its title, staging the post's files into a per-post blob
//! directory with confirm-or-purge semantics, and the create / update /
//! delete repository flows that keep the post table and the blob directories
//! consistent.  The filesystem and the post table are modelled as in-memory
//! state; the surrounding binary performs the real I/O and mirrors the
//! decisions proved here.

pub mod config;
pub mod disk;
pub mod errors;
pub mod posts;
pub mod repository;
pub mod sluggen;
pub mod storage;
pub mod store;
pub mod telemetry;
pub mod textutil;
pub mod users;

pub use errors::PostsError;
