//! A node of the graph: its name and the targets of its outgoing edges.

use vstd::prelude::*;

verus! {

/// A named node with the ids of the nodes that its edges lead to, in the
/// order in which the edges were added. An id may occur more than once, and
/// may be that of the node itself.
#[derive(Debug, PartialEq, Eq)]
pub struct Page {
    name: String,
    edges: Vec<i32>,
}

/// What a [`Page`] holds.
pub struct PageView {
    pub name: Seq<char>,
    pub edges: Seq<i32>,
}

impl View for Page {
    type V = PageView;

    closed spec fn view(&self) -> PageView {
        PageView { name: self.name@, edges: self.edges@ }
    }
}

impl DeepView for Page {
    type V = PageView;

    open spec fn deep_view(&self) -> PageView {
        self@
    }
}

impl Page {
    /// A node called `name`, without edges.
    pub fn new(name: String) -> (page: Page)
        ensures
            page@ == (PageView { name: name@, edges: Seq::empty() }),
    {
        Page { name: name, edges: Vec::new() }
    }

    /// Adds an edge to the node `edge`, after those that are there.
    pub fn add_edge(&mut self, edge: i32)
        ensures
            final(self)@ == (PageView {
                name: old(self)@.name,
                edges: old(self)@.edges.push(edge),
            }),
    {
        self.edges.push(edge);
    }

    /// The targets of the node's edges, oldest first.
    pub fn edges<'a>(&'a self) -> (edges: &'a Vec<i32>)
        ensures
            edges@ == self@.edges,
    {
        &self.edges
    }

    /// The node's name.
    pub fn name<'a>(&'a self) -> (name: &'a str)
        ensures
            name@ == self@.name,
    {
        self.name.as_str()
    }
}

} // verus!
