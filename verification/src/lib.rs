use vstd::prelude::*;

pub mod text;
pub mod toml_model;
pub mod config;
pub mod quote;
pub mod error;
pub mod color;
pub mod layout;
pub mod features;
pub mod icons;
pub mod generator;

verus! {
} // verus!
