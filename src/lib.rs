//! Verified noun representation and addition jet for a u3-style loom.
//!
//! A noun is a 32-bit tagged word: a direct atom, a reference to a boxed
//! (indirect) atom, or a reference to a boxed cell. Boxed values live in the
//! loom, an arena of 32-bit words owned by the embedding runtime; here the loom
//! is seen as a slice of words that starts at the arena base.

pub mod loom;
pub mod noun;
pub mod arith;
pub mod mote;
pub mod jets;
