use vstd::prelude::*;

pub mod arith;
pub mod config;
pub mod diff;
pub mod draw;
pub mod duration;
pub mod emit;
pub mod font;
pub mod geometry;
pub mod hotkeys;
pub mod locate;
pub mod matcher;
pub mod points;
pub mod report;
pub mod resolve;
pub mod selection;
pub mod shape_laws;
pub mod session;
pub mod snap;
pub mod space;
pub mod strings;
pub mod text;
pub mod verdict;
pub mod wait;

verus! {

} // verus!
