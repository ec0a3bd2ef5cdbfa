//! An installation engine for placing the Luna modification into the
//! TIDAL desktop application: it resolves the application's resource
//! directory across platforms, validates and lands a downloaded archive
//! atomically, expands it without letting an entry escape the extraction
//! root, backs the primary asset archive up exactly once, injects the
//! extracted tree, and runs these operations as a strict in-order
//! pipeline that halts at the first failure.  The engine works on a
//! modelled world (filesystem, platform, network answer); a thin
//! unverified shell carries its decisions out against the real machine.

use vstd::prelude::*;

pub mod args;
pub mod chars;
pub mod fs_model;
pub mod laws;
pub mod manager;
pub mod paths;
pub mod resolver;
pub mod step;
pub mod steps;
pub mod types;
pub mod ui_models;
pub mod updater;
pub mod version;
pub mod zipcheck;

verus! {

} // verus!
