//! Loading a directed graph of named nodes from the lines of two text
//! files: a node table, which gives each node's name under its id, and an
//! edge list, which gives the edges grouped by the node they leave.
//!
//! [`read_pages`] reads the node table and [`read_links`] builds the graph
//! over its names. Both take the lines of their file, without the line
//! ends, and both give up at the first line that is at fault.

pub mod error;
pub mod graph;
pub mod links;
pub mod number;
pub mod page;
pub mod pages;
pub mod text;

pub use crate::error::LoadError;
pub use crate::graph::count_edges;
pub use crate::links::read_links;
pub use crate::page::Page;
pub use crate::pages::read_pages;
