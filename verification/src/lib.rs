//! Gameplay and calculator logic for a pair of small interactive demos:
//! a one-operand accumulator calculator driving a text display, and a
//! "lane runner" mini-game (menu / playing / game-over state machine with
//! obstacle spawning, movement, and collision detection).
//!
//! All world coordinates and times are held as integers: world positions
//! in thousandths of a world unit, durations in milliseconds.  The
//! calculator computes on exact rationals.

pub mod digits;
pub mod rat;
pub mod calc;
pub mod runner;
