//! A falling-block puzzle engine: a 10 x 20 board of placed blocks, an active
//! four-cell piece with rotation and wall-kick resolution, line clearing,
//! scoring, levelling, and a session controller that ties them together.
//!
//! The engine is deterministic: every update is a pure function of the current
//! session, the input snapshot, the elapsed time, and the pieces drawn to
//! refill the preview queue. Randomness enters only through `rng`.

pub mod board;
pub mod kick;
pub mod piece;
pub mod rng;
pub mod score;
pub mod session;
