use graph_loader::pages::parse_page_line;
use graph_loader::{read_pages, LoadError};

fn lines(text: &[&str]) -> Vec<String> {
    text.iter().map(|l| l.to_string()).collect()
}

#[test]
fn sequential_table_loads_in_order() {
    let names = read_pages(&lines(&["0 Alice", "1 Bob"]));
    assert_eq!(names, Ok(vec!["Alice".to_string(), "Bob".to_string()]));
}

#[test]
fn table_has_one_name_for_each_line() {
    let text: Vec<String> = (0..50).map(|i| format!("{} node{}", i, i)).collect();
    let names = read_pages(&text).unwrap();
    assert_eq!(names.len(), 50);
    for (i, name) in names.iter().enumerate() {
        assert_eq!(name, &format!("node{}", i));
    }
}

#[test]
fn table_without_lines_is_empty() {
    assert_eq!(read_pages(&[]), Ok(vec![]));
}

#[test]
fn gap_in_ids_gives_no_table() {
    let names = read_pages(&lines(&["0 Alice", "1 Bob", "3 Carol"]));
    assert_eq!(names, Err(LoadError::Index { line: 2 }));
}

#[test]
fn ids_out_of_order_give_no_table() {
    let names = read_pages(&lines(&["0 Alice", "2 Carol", "1 Bob"]));
    assert_eq!(names, Err(LoadError::Index { line: 1 }));
}

#[test]
fn table_that_starts_at_one_gives_no_table() {
    let names = read_pages(&lines(&["1 Alice", "2 Bob"]));
    assert_eq!(names, Err(LoadError::Index { line: 0 }));
}

#[test]
fn repeated_id_gives_no_table() {
    let names = read_pages(&lines(&["0 Alice", "0 Bob"]));
    assert_eq!(names, Err(LoadError::Index { line: 1 }));
}

#[test]
fn line_without_name_is_malformed() {
    let names = read_pages(&lines(&["0 Alice", "1"]));
    assert_eq!(names, Err(LoadError::Format { line: 1 }));
}

#[test]
fn empty_line_is_malformed() {
    let names = read_pages(&lines(&["0 Alice", "", "2 Carol"]));
    assert_eq!(names, Err(LoadError::Format { line: 1 }));
}

#[test]
fn blank_line_is_malformed() {
    let names = read_pages(&lines(&[" \t "]));
    assert_eq!(names, Err(LoadError::Format { line: 0 }));
}

#[test]
fn id_that_is_no_number_is_malformed() {
    let names = read_pages(&lines(&["zero Alice"]));
    assert_eq!(names, Err(LoadError::Format { line: 0 }));
}

#[test]
fn negative_id_is_malformed() {
    let names = read_pages(&lines(&["0 Alice", "-1 Bob"]));
    assert_eq!(names, Err(LoadError::Format { line: 1 }));
}

#[test]
fn missing_name_comes_before_wrong_id() {
    let names = read_pages(&lines(&["7"]));
    assert_eq!(names, Err(LoadError::Format { line: 0 }));
}

#[test]
fn first_fault_decides() {
    let names = read_pages(&lines(&["0 Alice", "5 Bob", "nonsense"]));
    assert_eq!(names, Err(LoadError::Index { line: 1 }));
    let names = read_pages(&lines(&["0 Alice", "nonsense", "5 Bob"]));
    assert_eq!(names, Err(LoadError::Format { line: 1 }));
}

#[test]
fn further_fields_are_passed_over() {
    let names = read_pages(&lines(&["0 Alice in Wonderland", "1 Bob 17"]));
    assert_eq!(names, Ok(vec!["Alice".to_string(), "Bob".to_string()]));
}

#[test]
fn fields_may_be_spaced_out() {
    let names = read_pages(&lines(&["  0\tAlice  ", "1 \u{3000}Bob\r", "\u{a0}2\u{2003}Carol"]));
    assert_eq!(
        names,
        Ok(vec!["Alice".to_string(), "Bob".to_string(), "Carol".to_string()])
    );
}

#[test]
fn name_is_kept_as_written() {
    let names = read_pages(&lines(&["0 \u{e9}t\u{e9}/\u{4e2d}\u{6587}_42", "1 1"]));
    assert_eq!(
        names,
        Ok(vec!["\u{e9}t\u{e9}/\u{4e2d}\u{6587}_42".to_string(), "1".to_string()])
    );
}

#[test]
fn id_may_have_a_plus_and_leading_zeros() {
    let names = read_pages(&lines(&["+0 Alice", "001 Bob", "+02 Carol"]));
    assert_eq!(
        names,
        Ok(vec!["Alice".to_string(), "Bob".to_string(), "Carol".to_string()])
    );
}

#[test]
fn page_line_gives_id_and_name() {
    assert_eq!(parse_page_line("12 Twelve"), Some((12, "Twelve".to_string())));
    assert_eq!(parse_page_line("2147483647 Last"), Some((2147483647, "Last".to_string())));
}

#[test]
fn page_line_with_a_fault_gives_nothing() {
    assert_eq!(parse_page_line(""), None);
    assert_eq!(parse_page_line("12"), None);
    assert_eq!(parse_page_line("Twelve 12"), None);
    assert_eq!(parse_page_line("1.5 Half"), None);
    assert_eq!(parse_page_line("2147483648 Beyond"), None);
    assert_eq!(parse_page_line("+ Plus"), None);
    assert_eq!(parse_page_line("-0 Minus"), None);
    assert_eq!(parse_page_line("\u{0661} Digit"), None);
}
