//! The logic of a patching environment for the Rack modular synthesizer
//! engine: the patch model, the hand-menu catalog, widget input decisions,
//! texture bookkeeping and buffer layouts.

use vstd::prelude::*;

pub mod audio;
pub mod cable;
pub mod dmatex;
pub mod engine;
pub mod hand_menu;
pub mod interaction;
pub mod nanovg;
pub mod rack;
pub mod resource;
pub mod text;
pub mod workspace;

verus! {

} // verus!
