//! The grammar: numeric literals, delimited lists, elements and components.
pub mod component;
pub mod element;
pub mod list;
pub mod util;
