use graph_loader::links::parse_link_line;
use graph_loader::{count_edges, read_links, read_pages, LoadError, Page};

fn lines(text: &[&str]) -> Vec<String> {
    text.iter().map(|l| l.to_string()).collect()
}

fn page(name: &str, edges: &[i32]) -> Page {
    let mut page = Page::new(name.to_string());
    for edge in edges {
        page.add_edge(*edge);
    }
    page
}

fn abc() -> Vec<String> {
    lines(&["Alice", "Bob", "Carol"])
}

#[test]
fn edges_are_grouped_by_source() {
    let graph = read_links(&lines(&["0 1", "0 2", "1 2", "2 0"]), abc());
    assert_eq!(
        graph,
        Ok(vec![page("Alice", &[1, 2]), page("Bob", &[2]), page("Carol", &[0])])
    );
}

#[test]
fn edge_count_is_the_number_of_lines() {
    let list = lines(&["0 1", "0 2", "1 2", "2 0"]);
    let graph = read_links(&list, abc()).unwrap();
    assert_eq!(count_edges(&graph), 4);
    let by_hand: usize = graph.iter().map(|p| p.edges().len()).sum();
    assert_eq!(count_edges(&graph), by_hand);
    assert_eq!(by_hand, list.len());
}

#[test]
fn edge_count_of_a_graph_built_by_hand() {
    let graph = vec![page("a", &[1, 1, 1]), page("b", &[]), page("c", &[0, 5])];
    assert_eq!(count_edges(&graph), 5);
    assert_eq!(count_edges(&[]), 0);
}

#[test]
fn source_beyond_the_table_is_rejected() {
    let graph = read_links(&lines(&["0 1", "3 0"]), abc());
    assert_eq!(graph, Err(LoadError::Index { line: 1 }));
    let graph = read_links(&lines(&["0 1", "1 2", "2 0", "40 0"]), abc());
    assert_eq!(graph, Err(LoadError::Index { line: 3 }));
    let graph = read_links(&lines(&["3 1"]), abc());
    assert_eq!(graph, Err(LoadError::Index { line: 0 }));
}

#[test]
fn source_beyond_the_table_is_rejected_after_its_first_line_too() {
    let graph = read_links(&lines(&["0 1", "5 0", "5 1", "5 2"]), abc());
    assert_eq!(graph, Err(LoadError::Index { line: 1 }));
}

#[test]
fn last_id_of_the_table_is_a_source() {
    let graph = read_links(&lines(&["2 1"]), abc());
    assert_eq!(graph, Ok(vec![page("Alice", &[]), page("Carol", &[1])]));
}

#[test]
fn loading_twice_gives_equal_graphs() {
    let node_lines = lines(&["0 Alice", "1 Bob", "2 Carol"]);
    let edge_lines = lines(&["0 1", "0 2", "1 2", "2 0"]);
    let first = read_links(&edge_lines, read_pages(&node_lines).unwrap());
    let second = read_links(&edge_lines, read_pages(&node_lines).unwrap());
    assert!(first.is_ok());
    assert_eq!(first, second);
}

#[test]
fn table_feeds_the_graph() {
    let names = read_pages(&lines(&["0 Alice", "1 Bob", "2 Carol"])).unwrap();
    let graph = read_links(&lines(&["0 1", "0 2", "1 2", "2 0"]), names).unwrap();
    assert_eq!(graph.len(), 3);
    assert_eq!(graph[0].name(), "Alice");
    assert_eq!(graph[0].edges(), &vec![1, 2]);
    assert_eq!(graph[2].name(), "Carol");
    assert_eq!(graph[2].edges(), &vec![0]);
}

#[test]
fn empty_table_builds_nothing() {
    assert_eq!(read_links(&lines(&["0 1"]), vec![]), Err(LoadError::EmptyTable));
    assert_eq!(read_links(&[], vec![]), Err(LoadError::EmptyTable));
    assert_eq!(read_links(&lines(&["nonsense"]), vec![]), Err(LoadError::EmptyTable));
}

#[test]
fn edge_list_without_lines_gives_the_first_node() {
    assert_eq!(read_links(&[], abc()), Ok(vec![page("Alice", &[])]));
}

#[test]
fn malformed_edge_line_is_rejected() {
    let graph = read_links(&lines(&["0 1", "0"]), abc());
    assert_eq!(graph, Err(LoadError::Format { line: 1 }));
    let graph = read_links(&lines(&["0 one"]), abc());
    assert_eq!(graph, Err(LoadError::Format { line: 0 }));
    let graph = read_links(&lines(&["0 1", "1 2", ""]), abc());
    assert_eq!(graph, Err(LoadError::Format { line: 2 }));
    let graph = read_links(&lines(&["0 -1"]), abc());
    assert_eq!(graph, Err(LoadError::Format { line: 0 }));
    let graph = read_links(&lines(&["-1 0"]), abc());
    assert_eq!(graph, Err(LoadError::Format { line: 0 }));
}

#[test]
fn first_faulty_edge_line_decides() {
    let graph = read_links(&lines(&["0 1", "9 1", "nonsense"]), abc());
    assert_eq!(graph, Err(LoadError::Index { line: 1 }));
    let graph = read_links(&lines(&["0 1", "nonsense", "9 1"]), abc());
    assert_eq!(graph, Err(LoadError::Format { line: 1 }));
}

#[test]
fn targets_are_not_looked_up() {
    let graph = read_links(&lines(&["0 99", "0 2147483647"]), abc());
    assert_eq!(graph, Ok(vec![page("Alice", &[99, 2147483647])]));
}

#[test]
fn repeated_edges_and_loops_are_kept() {
    let graph = read_links(&lines(&["0 0", "0 1", "0 1", "1 1"]), abc());
    assert_eq!(graph, Ok(vec![page("Alice", &[0, 1, 1]), page("Bob", &[1])]));
}

#[test]
fn node_without_edges_gets_no_entry() {
    let graph = read_links(&lines(&["0 1", "2 0"]), abc());
    assert_eq!(graph, Ok(vec![page("Alice", &[1]), page("Carol", &[0])]));
}

#[test]
fn edge_list_that_skips_the_first_node_keeps_it() {
    let graph = read_links(&lines(&["1 0", "1 2"]), abc());
    assert_eq!(graph, Ok(vec![page("Alice", &[]), page("Bob", &[0, 2])]));
}

#[test]
fn source_that_comes_back_opens_a_group_again() {
    let graph = read_links(&lines(&["0 1", "1 0", "0 2", "2 2", "1 1"]), abc());
    assert_eq!(
        graph,
        Ok(vec![
            page("Alice", &[1]),
            page("Bob", &[0]),
            page("Alice", &[2]),
            page("Carol", &[2]),
            page("Bob", &[1]),
        ])
    );
}

#[test]
fn stepping_sources_follow_the_table() {
    let names: Vec<String> = (0..20).map(|i| format!("n{}", i)).collect();
    let mut list = Vec::new();
    for from in 0..20 {
        for to in 0..from {
            list.push(format!("{} {}", from, to));
        }
        list.push(format!("{} {}", from, from));
    }
    let graph = read_links(&list, names.clone()).unwrap();
    assert_eq!(graph.len(), 20);
    for (i, node) in graph.iter().enumerate() {
        assert_eq!(node.name(), names[i]);
        assert_eq!(node.edges().len(), i + 1);
    }
    assert_eq!(count_edges(&graph), list.len());
}

#[test]
fn edges_keep_the_order_of_the_lines() {
    let graph = read_links(&lines(&["0 2", "0 1", "0 2", "1 0", "1 2", "2 1"]), abc()).unwrap();
    let flat: Vec<i32> = graph.iter().flat_map(|p| p.edges().iter().copied()).collect();
    assert_eq!(flat, vec![2, 1, 2, 0, 2, 1]);
}

#[test]
fn further_edge_fields_are_passed_over() {
    let graph = read_links(&lines(&["0 1 weight 3", "\t1   2\r"]), abc());
    assert_eq!(graph, Ok(vec![page("Alice", &[1]), page("Bob", &[2])]));
}

#[test]
fn link_line_gives_source_and_target() {
    assert_eq!(parse_link_line("3 4"), Some((3, 4)));
    assert_eq!(parse_link_line(" +3\t004 "), Some((3, 4)));
    assert_eq!(parse_link_line("2147483647 0"), Some((2147483647, 0)));
}

#[test]
fn link_line_with_a_fault_gives_nothing() {
    assert_eq!(parse_link_line(""), None);
    assert_eq!(parse_link_line("3"), None);
    assert_eq!(parse_link_line("3 x"), None);
    assert_eq!(parse_link_line("x 3"), None);
    assert_eq!(parse_link_line("3 2147483648"), None);
    assert_eq!(parse_link_line("3,4"), None);
}

#[test]
fn new_page_has_a_name_and_no_edges() {
    let p = Page::new("Alice".to_string());
    assert_eq!(p.name(), "Alice");
    assert!(p.edges().is_empty());
}

#[test]
fn added_edges_come_last() {
    let mut p = Page::new("Alice".to_string());
    p.add_edge(2);
    p.add_edge(0);
    p.add_edge(2);
    assert_eq!(p.edges(), &vec![2, 0, 2]);
    assert_eq!(p.name(), "Alice");
}
