//! Tap-hold disambiguation engine for a keyboard-remapping pipeline.
//!
//! For every physical key configured as a tap-or-hold key, the engine decides
//! whether a press-release sequence is a tap or a hold.  Resolution is driven
//! by the event stream itself: whenever an event of a *different* key arrives,
//! every key still waiting for a decision is either promoted to a hold (its
//! wait period has elapsed) or flushed as a completed tap.

pub mod engine;
pub mod laws;
pub mod keys;
pub mod layers;
