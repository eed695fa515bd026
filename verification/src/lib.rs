//! A tile-merging puzzle engine on a four-by-four grid: the move rule, the
//! tile spawner, loss detection, one level of undo, and the text record a
//! game is saved in.

pub mod board;
pub mod codec;
pub mod detector;
pub mod display;
pub mod engine;
pub mod input;
pub mod menu;
pub mod move_proofs;
pub mod session;
pub mod session_proofs;
pub mod spawner;
