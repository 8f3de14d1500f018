//! The edge list: one line for each edge, which holds the id of the node
//! that the edge leaves and the id of the node that it leads to. The lines
//! are expected in groups, all the edges of one node together.
//!
//! The graph begins with the node of id 0. Each line whose source differs
//! from the source of the line before it (from 0, for the first line)
//! opens a group: a further node joins the graph, named as the node table
//! names that source. The target of each line joins the edges of the node
//! that was added last. Sources are looked up as they stand: a source that
//! comes back after another has opened its group opens a group again, under
//! its own name, and a node other than node 0 whose id is the source of no
//! line gets no entry. Targets are kept as they are read and are not looked
//! up in the node table.

use crate::error::LoadError;
use crate::graph::{
    edge_total,
    lemma_edge_total_with_edge,
    lemma_edge_total_with_page,
    with_edge,
    with_page,
};
use crate::number::{id_of, parse_id};
use crate::page::{Page, PageView};
use crate::pages::{page_table, table_outcome};
use crate::text::{fields, first_two_fields, to_chars};
use vstd::prelude::*;

verus! {

/// The source and the target that a line of an edge list declares: its
/// first two fields, which must each denote an id. Further fields are
/// passed over. `None` where the line declares nothing.
pub open spec fn link_line(line: Seq<char>) -> Option<(i32, i32)> {
    let f = fields(line);
    if f.len() >= 2 && id_of(f[0]) is Some && id_of(f[1]) is Some {
        Some((id_of(f[0])->0, id_of(f[1])->0))
    } else {
        None
    }
}

/// The source of line `i` of an edge list.
pub open spec fn source(lines: Seq<Seq<char>>, i: int) -> i32 {
    (link_line(lines[i])->0).0
}

/// The target of line `i` of an edge list.
pub open spec fn target(lines: Seq<Seq<char>>, i: int) -> i32 {
    (link_line(lines[i])->0).1
}

/// The source whose group is open when line `i` is reached: that of the
/// line before, and 0 at the first line.
pub open spec fn source_before(lines: Seq<Seq<char>>, i: int) -> i32 {
    if i <= 0 {
        0
    } else {
        source(lines, i - 1)
    }
}

/// Whether line `i` opens a group.
pub open spec fn opens_group(lines: Seq<Seq<char>>, i: int) -> bool {
    source(lines, i) != source_before(lines, i)
}

/// What is wrong with line `i` of an edge list, read against a table of
/// `nodes` nodes, if anything is.
pub open spec fn link_fault(nodes: nat, lines: Seq<Seq<char>>, i: int) -> Option<LoadError> {
    if link_line(lines[i]) is None {
        Some(LoadError::Format { line: i as usize })
    } else if opens_group(lines, i) && source(lines, i) >= nodes {
        Some(LoadError::Index { line: i as usize })
    } else {
        None
    }
}

/// Whether nothing is wrong with the first `n` lines of an edge list.
pub open spec fn links_sound(nodes: nat, lines: Seq<Seq<char>>, n: int) -> bool {
    forall|i: int| 0 <= i < n ==> (#[trigger] link_fault(nodes, lines, i)) is None
}

/// Whether `i` is the first line of an edge list with which something is
/// wrong.
pub open spec fn is_first_link_fault(nodes: nat, lines: Seq<Seq<char>>, i: int) -> bool {
    &&& 0 <= i < lines.len()
    &&& links_sound(nodes, lines, i)
    &&& link_fault(nodes, lines, i) is Some
}

/// The graph that the first `n` lines of an edge list build.
pub open spec fn graph_prefix(names: Seq<Seq<char>>, lines: Seq<Seq<char>>, n: nat) -> Seq<
    PageView,
>
    decreases n,
{
    if n == 0 {
        with_page(Seq::empty(), names[0])
    } else {
        let before = graph_prefix(names, lines, (n - 1) as nat);
        let grouped = if opens_group(lines, n - 1) {
            with_page(before, names[source(lines, n - 1) as int])
        } else {
            before
        };
        with_edge(grouped, target(lines, n - 1))
    }
}

/// The graph that an edge list builds over the names of a node table, or
/// what stands against it: a table without nodes, else what is wrong with
/// the first line that is at fault.
pub open spec fn link_graph(names: Seq<Seq<char>>, lines: Seq<Seq<char>>) -> Result<
    Seq<PageView>,
    LoadError,
> {
    if names.len() == 0 {
        Err(LoadError::EmptyTable)
    } else if links_sound(names.len(), lines, lines.len() as int) {
        Ok(graph_prefix(names, lines, lines.len()))
    } else {
        let first = choose|i: int| is_first_link_fault(names.len(), lines, i);
        Err(link_fault(names.len(), lines, first)->0)
    }
}

/// What the outcome of building a graph holds: the nodes, each by what it
/// holds, or the error.
pub open spec fn graph_outcome(r: Result<Vec<Page>, LoadError>) -> Result<
    Seq<PageView>,
    LoadError,
> {
    match r {
        Ok(pages) => Ok(pages.deep_view()),
        Err(e) => Err(e),
    }
}

/// The first faulty line decides the outcome.
pub proof fn lemma_first_link_fault(names: Seq<Seq<char>>, lines: Seq<Seq<char>>, i: int)
    requires
        names.len() > 0,
        is_first_link_fault(names.len(), lines, i),
    ensures
        link_graph(names, lines) == Err::<Seq<PageView>, LoadError>(
            link_fault(names.len(), lines, i)->0,
        ),
{
    let first = choose|k: int| is_first_link_fault(names.len(), lines, k);
    assert(is_first_link_fault(names.len(), lines, first));
    if first < i {
        assert(link_fault(names.len(), lines, first) is None);
    }
    if i < first {
        assert(link_fault(names.len(), lines, i) is None);
    }
}

/// Where something is wrong with the first `n` lines, one of them is the
/// first with which something is wrong.
pub proof fn lemma_first_link_fault_exists(nodes: nat, lines: Seq<Seq<char>>, n: int) -> (i: int)
    requires
        0 <= n <= lines.len(),
        !links_sound(nodes, lines, n),
    ensures
        i < n,
        is_first_link_fault(nodes, lines, i),
    decreases n,
{
    if links_sound(nodes, lines, n - 1) {
        n - 1
    } else {
        lemma_first_link_fault_exists(nodes, lines, n - 1)
    }
}

/// An edge list gives an error exactly where the node table is empty or a
/// line is at fault. Over a table with nodes, the error is what is wrong
/// with the first such line.
pub proof fn lemma_link_graph_error(names: Seq<Seq<char>>, lines: Seq<Seq<char>>)
    ensures
        link_graph(names, lines) is Err <==> names.len() == 0 || !links_sound(
            names.len(),
            lines,
            lines.len() as int,
        ),
        names.len() == 0 ==> link_graph(names, lines) == Err::<Seq<PageView>, LoadError>(
            LoadError::EmptyTable,
        ),
        names.len() > 0 ==> (link_graph(names, lines) matches Err(e) ==> exists|i: int|
            is_first_link_fault(names.len(), lines, i) && #[trigger] link_fault(
                names.len(),
                lines,
                i,
            ) == Some(e)),
{
    if names.len() > 0 && !links_sound(names.len(), lines, lines.len() as int) {
        let i = lemma_first_link_fault_exists(names.len(), lines, lines.len() as int);
        lemma_first_link_fault(names, lines, i);
    }
}

/// The number of lines among the first `n` that open a group.
pub open spec fn groups_opened(lines: Seq<Seq<char>>, n: nat) -> nat
    decreases n,
{
    if n == 0 {
        0
    } else {
        groups_opened(lines, (n - 1) as nat) + if opens_group(lines, n - 1) {
            1nat
        } else {
            0nat
        }
    }
}

/// The graph holds the node of id 0 and one node more for each line that
/// opens a group.
pub proof fn lemma_graph_prefix_len(names: Seq<Seq<char>>, lines: Seq<Seq<char>>, n: nat)
    ensures
        graph_prefix(names, lines, n).len() == 1 + groups_opened(lines, n),
    decreases n,
{
    if n > 0 {
        lemma_graph_prefix_len(names, lines, (n - 1) as nat);
    }
}

/// Each line that is read adds one edge to the graph: the edges of the
/// nodes, counted together, are as many as the lines.
pub proof fn lemma_graph_prefix_edge_total(names: Seq<Seq<char>>, lines: Seq<Seq<char>>, n: nat)
    ensures
        edge_total(graph_prefix(names, lines, n)) == n,
    decreases n,
{
    if n == 0 {
        lemma_edge_total_with_page(Seq::empty(), names[0]);
    } else {
        let before = graph_prefix(names, lines, (n - 1) as nat);
        lemma_graph_prefix_edge_total(names, lines, (n - 1) as nat);
        lemma_graph_prefix_len(names, lines, (n - 1) as nat);
        if opens_group(lines, n - 1) {
            let grouped = with_page(before, names[source(lines, n - 1) as int]);
            lemma_edge_total_with_page(before, names[source(lines, n - 1) as int]);
            lemma_edge_total_with_edge(grouped, target(lines, n - 1));
        } else {
            lemma_edge_total_with_edge(before, target(lines, n - 1));
        }
    }
}

/// A graph that was built holds as many edges as the edge list has lines.
pub proof fn lemma_link_graph_edge_total(names: Seq<Seq<char>>, lines: Seq<Seq<char>>)
    requires
        link_graph(names, lines) is Ok,
    ensures
        edge_total(link_graph(names, lines)->Ok_0) == lines.len(),
{
    lemma_graph_prefix_edge_total(names, lines, lines.len());
}

/// Some line up to line `i` is at fault where line `i` declares a source
/// that the node table does not hold.
proof fn lemma_fault_before_unknown_source(nodes: nat, lines: Seq<Seq<char>>, i: int) -> (k: int)
    requires
        nodes > 0,
        0 <= i < lines.len(),
        link_line(lines[i]) is Some,
        source(lines, i) >= nodes,
    ensures
        0 <= k <= i,
        link_fault(nodes, lines, k) is Some,
    decreases i,
{
    if link_fault(nodes, lines, i) is Some {
        i
    } else if link_line(lines[i - 1]) is None {
        i - 1
    } else {
        lemma_fault_before_unknown_source(nodes, lines, i - 1)
    }
}

/// An edge list with a line whose source the node table does not hold
/// builds no graph.
pub proof fn lemma_unknown_source_is_rejected(
    names: Seq<Seq<char>>,
    lines: Seq<Seq<char>>,
    i: int,
)
    requires
        0 <= i < lines.len(),
        link_line(lines[i]) is Some,
        source(lines, i) >= names.len(),
    ensures
        link_graph(names, lines) is Err,
{
    if names.len() > 0 {
        let k = lemma_fault_before_unknown_source(names.len(), lines, i);
        assert(!links_sound(names.len(), lines, lines.len() as int));
    }
}

/// While nothing is wrong, the source whose group is open is one that the
/// node table holds.
pub proof fn lemma_open_source_is_known(nodes: nat, lines: Seq<Seq<char>>, n: int)
    requires
        nodes > 0,
        0 <= n,
        links_sound(nodes, lines, n),
    ensures
        0 <= source_before(lines, n) < nodes,
    decreases n,
{
    if n > 0 {
        assert(link_fault(nodes, lines, n - 1) is None);
        lemma_open_source_is_known(nodes, lines, n - 1);
    }
}

/// Whether the sources of the first `n` lines never fall from one line to
/// the next.
pub open spec fn sources_ascend(lines: Seq<Seq<char>>, n: int) -> bool {
    forall|i: int| 0 < i < n ==> source(lines, i - 1) <= #[trigger] source(lines, i)
}

/// Where the sources never fall, the graph has no more nodes than the id
/// of the last source and one: no more than the node table.
pub proof fn lemma_ascending_sources_bound_graph(
    names: Seq<Seq<char>>,
    lines: Seq<Seq<char>>,
    n: nat,
)
    requires
        names.len() > 0,
        links_sound(names.len(), lines, n as int),
        sources_ascend(lines, n as int),
    ensures
        graph_prefix(names, lines, n).len() <= source_before(lines, n as int) + 1,
        graph_prefix(names, lines, n).len() <= names.len(),
    decreases n,
{
    lemma_open_source_is_known(names.len(), lines, n as int);
    lemma_graph_prefix_len(names, lines, n);
    if n > 0 {
        lemma_graph_prefix_len(names, lines, (n - 1) as nat);
        assert(link_fault(names.len(), lines, n - 1) is None);
        lemma_ascending_sources_bound_graph(names, lines, (n - 1) as nat);
        lemma_open_source_is_known(names.len(), lines, n - 1);
        if n > 1 {
            assert(source(lines, n - 2) <= source(lines, n - 1));
        }
    }
}

/// Whether the sources of the first `n` lines begin at 0 and rise by one
/// wherever they change.
pub open spec fn sources_step(lines: Seq<Seq<char>>, n: int) -> bool {
    forall|i: int|
        0 <= i < n ==> #[trigger] source(lines, i) == source_before(lines, i) || source(lines, i)
            == source_before(lines, i) + 1
}

/// Where the sources begin at 0 and rise by one wherever they change, the
/// graph holds the nodes of the table from id 0 up to the last source, each
/// at the position of its id and under its own name.
pub proof fn lemma_stepping_sources_follow_table(
    names: Seq<Seq<char>>,
    lines: Seq<Seq<char>>,
    n: nat,
)
    requires
        sources_step(lines, n as int),
    ensures
        graph_prefix(names, lines, n).len() == source_before(lines, n as int) + 1,
        forall|k: int|
            0 <= k < graph_prefix(names, lines, n).len() ==> (#[trigger] graph_prefix(
                names,
                lines,
                n,
            )[k]).name == names[k],
    decreases n,
{
    let graph = graph_prefix(names, lines, n);
    if n > 0 {
        let before = graph_prefix(names, lines, (n - 1) as nat);
        lemma_stepping_sources_follow_table(names, lines, (n - 1) as nat);
        lemma_graph_prefix_len(names, lines, n);
        lemma_graph_prefix_len(names, lines, (n - 1) as nat);
        assert(source(lines, n - 1) == source_before(lines, n - 1) || source(lines, n - 1)
            == source_before(lines, n - 1) + 1);
        assert forall|k: int| 0 <= k < graph.len() implies (#[trigger] graph[k]).name
            == names[k] by {
            if k < before.len() {
                assert(graph[k].name == before[k].name);
            }
        }
    }
}

/// The targets of the first `n` lines, in the order of the lines.
pub open spec fn targets(lines: Seq<Seq<char>>, n: nat) -> Seq<i32> {
    Seq::new(n, |i: int| target(lines, i))
}

/// The edges of a graph, node after node.
pub open spec fn all_edges(graph: Seq<PageView>) -> Seq<i32>
    decreases graph.len(),
{
    if graph.len() == 0 {
        Seq::empty()
    } else {
        all_edges(graph.drop_last()) + graph.last().edges
    }
}

/// The edges of the graph, read node after node, are the targets of the
/// lines in the order of the lines.
pub proof fn lemma_edges_in_line_order(names: Seq<Seq<char>>, lines: Seq<Seq<char>>, n: nat)
    ensures
        all_edges(graph_prefix(names, lines, n)) == targets(lines, n),
    decreases n,
{
    if n == 0 {
        let first = with_page(Seq::empty(), names[0]);
        assert(first.drop_last() == Seq::<PageView>::empty());
        assert(all_edges(first.drop_last()) == Seq::<i32>::empty());
        assert(all_edges(first) =~= targets(lines, 0));
    } else {
        let before = graph_prefix(names, lines, (n - 1) as nat);
        lemma_edges_in_line_order(names, lines, (n - 1) as nat);
        lemma_graph_prefix_len(names, lines, (n - 1) as nat);
        let grouped = if opens_group(lines, n - 1) {
            with_page(before, names[source(lines, n - 1) as int])
        } else {
            before
        };
        if opens_group(lines, n - 1) {
            assert(grouped.drop_last() == before);
            assert(all_edges(grouped) =~= all_edges(before));
        }
        let after = with_edge(grouped, target(lines, n - 1));
        assert(after.drop_last() == grouped.drop_last());
        assert(all_edges(after) =~= all_edges(grouped).push(target(lines, n - 1)));
        assert(targets(lines, n) =~= targets(lines, (n - 1) as nat).push(target(lines, n - 1)));
    }
}

/// Loading is repeatable: what two runs build from the same lines of a
/// node table and the same lines of an edge list is equal, node for node
/// and edge for edge.
pub proof fn lemma_loading_is_repeatable(
    node_lines: Seq<Seq<char>>,
    edge_lines: Seq<Seq<char>>,
    names_a: Vec<String>,
    names_b: Vec<String>,
    graph_a: Result<Vec<Page>, LoadError>,
    graph_b: Result<Vec<Page>, LoadError>,
)
    requires
        table_outcome(Ok(names_a)) == page_table(node_lines),
        table_outcome(Ok(names_b)) == page_table(node_lines),
        graph_outcome(graph_a) == link_graph(names_a.deep_view(), edge_lines),
        graph_outcome(graph_b) == link_graph(names_b.deep_view(), edge_lines),
    ensures
        graph_outcome(graph_a) == graph_outcome(graph_b),
        graph_a is Ok ==> graph_b is Ok && graph_a->Ok_0.deep_view() == graph_b->Ok_0.deep_view(),
{
}

/// Reads one line of an edge list.
pub fn parse_link_line(line: &str) -> (r: Option<(i32, i32)>)
    ensures
        r == link_line(line@),
        r matches Some((from, to)) ==> from >= 0 && to >= 0,
{
    let chars = to_chars(line);
    match first_two_fields(chars.as_slice()) {
        None => None,
        Some(t) => match parse_id(&chars.as_slice()[t.first.0..t.first.1]) {
            None => None,
            Some(from) => match parse_id(&chars.as_slice()[t.second.0..t.second.1]) {
                None => None,
                Some(to) => Some((from, to)),
            },
        },
    }
}

/// Builds the graph from the lines of an edge list and the names of the
/// node table. Where the table is empty or a line is at fault nothing is
/// built, and the error tells which of the two it is, and what is wrong
/// with the first such line.
pub fn read_links(lines: &[String], names: Vec<String>) -> (r: Result<Vec<Page>, LoadError>)
    ensures
        graph_outcome(r) == link_graph(names.deep_view(), lines.deep_view()),
        r is Ok <==> names.len() > 0 && links_sound(
            names.len() as nat,
            lines.deep_view(),
            lines.len() as int,
        ),
        r matches Ok(pages) ==> pages.len() == 1 + groups_opened(
            lines.deep_view(),
            lines.len() as nat,
        ),
        r matches Ok(pages) ==> edge_total(pages.deep_view()) == lines.len(),
{
    let ghost table = names.deep_view();
    let ghost list = lines.deep_view();
    if names.len() == 0 {
        return Err(LoadError::EmptyTable);
    }
    let mut pages: Vec<Page> = Vec::new();
    pages.push(Page::new(names[0].clone()));
    assert(pages.deep_view() =~= graph_prefix(table, list, 0));
    let mut cursor: i32 = 0;
    let mut i: usize = 0;
    while i < lines.len()
        invariant
            i <= lines.len(),
            table == names.deep_view(),
            list == lines.deep_view(),
            names.len() > 0,
            links_sound(table.len(), list, i as int),
            pages.deep_view() == graph_prefix(table, list, i as nat),
            cursor == source_before(list, i as int),
        decreases lines.len() - i,
    {
        assert(list[i as int] == lines[i as int]@);
        match parse_link_line(lines[i].as_str()) {
            None => {
                proof {
                    lemma_first_link_fault(table, list, i as int);
                }
                return Err(LoadError::Format { line: i });
            },
            Some((from, to)) => {
                if from != cursor {
                    if from as usize >= names.len() {
                        proof {
                            lemma_first_link_fault(table, list, i as int);
                        }
                        return Err(LoadError::Index { line: i });
                    }
                    pages.push(Page::new(names[from as usize].clone()));
                    cursor = from;
                }
                let ghost grouped = pages.deep_view();
                proof {
                    lemma_graph_prefix_len(table, list, i as nat);
                    if opens_group(list, i as int) {
                        assert(table[from as int] == names[from as int]@);
                    }
                    assert(grouped =~= if opens_group(list, i as int) {
                        with_page(graph_prefix(table, list, i as nat), table[from as int])
                    } else {
                        graph_prefix(table, list, i as nat)
                    });
                }
                let last = pages.len() - 1;
                pages[last].add_edge(to);
                assert(pages.deep_view() =~= with_edge(grouped, to));
                i += 1;
            },
        }
    }
    proof {
        lemma_graph_prefix_edge_total(table, list, lines.len() as nat);
        lemma_graph_prefix_len(table, list, lines.len() as nat);
        assert(pages.deep_view().len() == pages.len());
    }
    Ok(pages)
}

} // verus!
