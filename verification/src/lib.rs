//! A filesystem-backed hierarchical document store, verified against an
//! in-memory model of its on-disk layout.
//!
//! The store keeps a tree of vertex nodes, each owning a metadata record, a
//! `children` directory of descendant vertices, and a `references` directory
//! of index-named attachment files. A registry maps workspace ids to root
//! paths. All navigation, creation, deletion, and reference materialization
//! logic is verified here over the model; the host shell mirrors the model
//! onto the real filesystem and decodes or encodes the JSON record files.

use vstd::prelude::*;

pub mod error;
pub mod host;
pub mod record;
pub mod registry;
pub mod refs;
pub mod text;
pub mod tree;
pub mod workspace;

verus! {

} // verus!
