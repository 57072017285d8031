//! A node-graph visual programming model: blueprints of typed frames joined by
//! links, live machine instances of them, the pointer interaction state
//! machine that edits them, and an index-based persistence document.

pub mod geometry;
pub mod catalog;
pub mod graph;
pub mod touch;
pub mod vm;
pub mod persist;
pub mod json_canvas;
pub mod http;
