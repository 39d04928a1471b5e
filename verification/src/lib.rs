//! A behaviour-tree engine: a schema compiler that turns a catalogue of node,
//! decorator and service definitions into a closed type system, and an
//! interpreter that loads a tree of those types and ticks it.

pub mod fold;
pub mod generate;
pub mod json;
pub mod owl_bt;
pub mod schema;
pub mod standard;
pub mod traits;
pub mod tree;
