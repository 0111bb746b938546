//! Longhorn: the queue, playback bookkeeping and configuration language of a
//! terminal music player, with their contracts proved by Verus.
use vstd::prelude::*;

pub mod song;
pub mod text;
pub mod lexer;
pub mod queue;
pub mod reader;
pub mod player;
pub mod parse;
pub mod path;
pub mod math;
pub mod lines;
pub mod settings;

verus! {

} // verus!
