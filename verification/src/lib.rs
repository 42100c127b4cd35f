//! A retained-mode scene graph for a flexbox-driven box renderer.
//!
//! The crate models a declarative tree of containers, text and images,
//! serializes it to a line-oriented wire format and parses it back,
//! prepares the tree for an external constraint solver, turns solved
//! geometry into an ordered list of paint commands, and decides, event
//! by event, when a repaint happens and which tree is current.

pub mod codec;
pub mod draw;
pub mod error;
pub mod events;
pub mod json;
pub mod layout;
pub mod object;
pub mod opts;
pub mod style;
