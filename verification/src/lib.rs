//! A parser for a small netlist description language: components that expose
//! nets and instantiate elements, with numeric literals that carry an SI
//! magnitude suffix.
pub mod chars;
pub mod document;
pub mod error;
pub mod names;
pub mod parser;
pub mod tokenizer;
