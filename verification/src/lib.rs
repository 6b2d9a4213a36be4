//! Typed model of a microcontroller description and its decoding from an element tree.

pub mod element;
pub mod encode;
pub mod error;
pub mod literal;
pub mod parse;
pub mod search;
pub mod svd;
pub mod tags;
pub mod text;
pub mod types;
