//! An offline asset build pipeline for a game's resource catalogue: it
//! gives each discovered resource a stable content-addressed identity,
//! decides from a modification-time cache what needs rebuilding, resolves
//! the prop libraries a map references by name and namespace, validates
//! every prop, texture and sprite reference against the library trees, and
//! lays the outputs out in a versioned bundle tree.
//!
//! The crate holds the pipeline's logic over plain values; the program
//! around it walks directories, parses manifests, and reads and writes
//! files.

pub mod cache;
pub mod digest;
pub mod kind;
pub mod namespace;
pub mod num;
pub mod path;
pub mod pipeline;
pub mod probe;
pub mod text;
pub mod validate;
