//! VDF text: its grammar, a parser and a renderer.
pub mod grammar;
pub mod parse;
pub mod render;
pub mod roundtrip;

pub mod reading;
