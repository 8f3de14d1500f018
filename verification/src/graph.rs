//! A graph as the sequence of its nodes, and the count of its edges.

use crate::page::{Page, PageView};
use vstd::prelude::*;

verus! {

/// `graph` with one more node at its end, called `name` and without edges.
pub open spec fn with_page(graph: Seq<PageView>, name: Seq<char>) -> Seq<PageView> {
    graph.push(PageView { name: name, edges: Seq::empty() })
}

/// `graph` with one more edge, to `target`, at the end of the edges of its
/// last node.
pub open spec fn with_edge(graph: Seq<PageView>, target: i32) -> Seq<PageView> {
    graph.update(
        graph.len() - 1,
        PageView { name: graph.last().name, edges: graph.last().edges.push(target) },
    )
}

/// The number of edges in `graph`: the lengths of its nodes' edge
/// sequences, added up.
pub open spec fn edge_total(graph: Seq<PageView>) -> nat
    decreases graph.len(),
{
    if graph.len() == 0 {
        0
    } else {
        edge_total(graph.drop_last()) + graph.last().edges.len()
    }
}

/// A node without edges adds nothing to the count.
pub proof fn lemma_edge_total_with_page(graph: Seq<PageView>, name: Seq<char>)
    ensures
        edge_total(with_page(graph, name)) == edge_total(graph),
{
    assert(with_page(graph, name).drop_last() == graph);
}

/// One more edge adds one to the count.
pub proof fn lemma_edge_total_with_edge(graph: Seq<PageView>, target: i32)
    requires
        graph.len() > 0,
    ensures
        edge_total(with_edge(graph, target)) == edge_total(graph) + 1,
{
    assert(with_edge(graph, target).drop_last() == graph.drop_last());
}

/// The first `k` nodes of a graph hold no more edges than the graph, and
/// one node more adds its own.
pub proof fn lemma_edge_total_prefix(graph: Seq<PageView>, k: int)
    requires
        0 <= k <= graph.len(),
    ensures
        edge_total(graph.take(k)) <= edge_total(graph),
        k < graph.len() ==> edge_total(graph.take(k + 1)) == edge_total(graph.take(k))
            + graph[k].edges.len(),
    decreases graph.len(),
{
    if k == graph.len() {
        assert(graph.take(k) == graph);
    } else {
        assert(graph.take(k + 1).drop_last() == graph.take(k));
        assert(graph.drop_last().take(k) == graph.take(k));
        lemma_edge_total_prefix(graph.drop_last(), k);
    }
}

/// Counts the edges of a graph.
pub fn count_edges(pages: &[Page]) -> (total: usize)
    requires
        edge_total(pages.deep_view()) <= usize::MAX,
    ensures
        total == edge_total(pages.deep_view()),
{
    let ghost graph = pages.deep_view();
    let mut total: usize = 0;
    let mut i: usize = 0;
    while i < pages.len()
        invariant
            i <= pages.len(),
            graph == pages.deep_view(),
            edge_total(graph) <= usize::MAX,
            total == edge_total(graph.take(i as int)),
        decreases pages.len() - i,
    {
        proof {
            lemma_edge_total_prefix(graph, i as int);
            lemma_edge_total_prefix(graph, i + 1);
        }
        total = total + pages[i].edges().len();
        i += 1;
    }
    assert(graph.take(i as int) == graph);
    total
}

} // verus!
