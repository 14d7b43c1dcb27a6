//! Verified core of a command-line client for the AnimeGO catalogue.
use vstd::prelude::*;

pub mod laws;
pub mod menu;
pub mod models;
pub mod download;
pub mod page;
pub mod search;
pub mod text;
pub mod title;

verus! {
} // verus!
