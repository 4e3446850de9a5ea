//! Signup intake and roster coordination for scheduled team games.
pub mod clock;
pub mod controls;
pub mod model;
pub mod parser;
pub mod roster;
