//! A small data-interchange engine without reflection.
//!
//! The option resolver (`modifier`, `case`, `opts`, `attr`, `input`) turns
//! the configuration directives attached to a type into a checked
//! configuration and into the wire names of its fields or variants. The
//! codec (`ser`, `de`, `place`) is a pair of streaming protocols: a value
//! gives its encoded shape lazily as a fragment, and a visitor takes tokens
//! one at a time and builds a value in a cell that its caller owns. The
//! runtime value model (`json`) is a dynamic document built on the codec.

pub mod attr;
pub mod case;
pub mod de;
pub mod error;
pub mod input;
pub mod json;
pub mod modifier;
pub mod opts;
pub mod place;
pub mod ser;
pub mod text;
