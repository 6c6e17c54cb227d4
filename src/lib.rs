//! Derivation of personal calendar events from a roster of recurring
//! weekly consultation sessions.

pub mod diagnostic;
pub mod text;
pub mod weeks;
pub mod date;
pub mod roster;
pub mod identity;
pub mod laws;
