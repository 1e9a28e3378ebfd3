//! Generation of benchmark configuration trees and their rendering into the
//! exlex, JSON, TOML, INI and XML fixture formats.
use vstd::prelude::*;

pub mod text;
pub mod model;
pub mod exlex;
pub mod xml;
pub mod toml;
pub mod ini;
pub mod json;
pub mod generate;
pub mod matrix;
pub mod structure;

verus! {
} // verus!
