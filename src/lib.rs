//! A deep-copy engine for dynamically typed, reference-counted object graphs.
//!
//! Objects live in an arena ([`graph::Heap`]) and are named by their index, which
//! serves as their identity. [`deepcopy_impl::deepcopy_impl`] produces an independent clone of
//! the graph reachable from a root, preserving sharing and cycles, while atomic
//! values stay shared.

use vstd::prelude::*;

pub mod containers;
pub mod deepcopy_impl;
pub mod dispatch;
pub mod error;
pub mod graph;
pub mod hash;
pub mod keepalive;
pub mod laws;
pub mod memo;
pub mod memo_trait;
pub mod reduce;
pub mod state;
pub mod types;
pub mod user_memo;

