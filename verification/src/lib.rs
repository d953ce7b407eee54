//! SPECTRA: an OSINT investigation library with a verified core.

use vstd::prelude::*;

pub mod text;
pub mod pairs;
pub mod json;
pub mod audit;
pub mod entity;
pub mod transform;
pub mod plan;
pub mod store;
pub mod report;
pub mod probegen;
pub mod plugins;
pub mod ai;
pub mod collect;
pub mod probe;
pub mod correlate;
pub mod document;

verus! {
} // verus!
