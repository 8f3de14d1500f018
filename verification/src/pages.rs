//! The node table: one line for each node, which holds the node's id and
//! its name. The ids count up from zero, line by line, so that the name of
//! node `i` stands on line `i`.

use crate::error::LoadError;
use crate::number::{id_of, parse_id};
use crate::text::{fields, first_two_fields, to_chars};
use vstd::prelude::*;

verus! {

/// The id and the name that a line of a node table declares: its first two
/// fields, of which the first must denote an id. Further fields are passed
/// over. `None` where the line declares nothing.
pub open spec fn page_line(line: Seq<char>) -> Option<(i32, Seq<char>)> {
    let f = fields(line);
    if f.len() >= 2 && id_of(f[0]) is Some {
        Some((id_of(f[0])->0, f[1]))
    } else {
        None
    }
}

/// What is wrong with line `i` of a node table, if anything is.
pub open spec fn page_fault(lines: Seq<Seq<char>>, i: int) -> Option<LoadError> {
    match page_line(lines[i]) {
        None => Some(LoadError::Format { line: i as usize }),
        Some((id, _)) => if id == i {
            None
        } else {
            Some(LoadError::Index { line: i as usize })
        },
    }
}

/// Whether nothing is wrong with the first `n` lines of a node table.
pub open spec fn pages_sound(lines: Seq<Seq<char>>, n: int) -> bool {
    forall|i: int| 0 <= i < n ==> (#[trigger] page_fault(lines, i)) is None
}

/// Whether `i` is the first line of a node table with which something is
/// wrong.
pub open spec fn is_first_page_fault(lines: Seq<Seq<char>>, i: int) -> bool {
    &&& 0 <= i < lines.len()
    &&& pages_sound(lines, i)
    &&& page_fault(lines, i) is Some
}

/// The names that a node table declares, in the order of their ids, or
/// what is wrong with the first line that is at fault.
pub open spec fn page_table(lines: Seq<Seq<char>>) -> Result<Seq<Seq<char>>, LoadError> {
    if pages_sound(lines, lines.len() as int) {
        Ok(Seq::new(lines.len(), |i: int| (page_line(lines[i])->0).1))
    } else {
        let first = choose|i: int| is_first_page_fault(lines, i);
        Err(page_fault(lines, first)->0)
    }
}

/// What the outcome of reading a node table holds: the names, character
/// by character, or the error.
pub open spec fn table_outcome(r: Result<Vec<String>, LoadError>) -> Result<
    Seq<Seq<char>>,
    LoadError,
> {
    match r {
        Ok(names) => Ok(names.deep_view()),
        Err(e) => Err(e),
    }
}

/// The first faulty line decides the outcome.
pub proof fn lemma_first_page_fault(lines: Seq<Seq<char>>, i: int)
    requires
        is_first_page_fault(lines, i),
    ensures
        page_table(lines) == Err::<Seq<Seq<char>>, LoadError>(page_fault(lines, i)->0),
{
    let first = choose|k: int| is_first_page_fault(lines, k);
    assert(is_first_page_fault(lines, first));
    if first < i {
        assert(page_fault(lines, first) is None);
    }
    if i < first {
        assert(page_fault(lines, i) is None);
    }
}

/// Where something is wrong with the first `n` lines, one of them is the
/// first with which something is wrong.
pub proof fn lemma_first_page_fault_exists(lines: Seq<Seq<char>>, n: int) -> (i: int)
    requires
        0 <= n <= lines.len(),
        !pages_sound(lines, n),
    ensures
        i < n,
        is_first_page_fault(lines, i),
    decreases n,
{
    if pages_sound(lines, n - 1) {
        n - 1
    } else {
        lemma_first_page_fault_exists(lines, n - 1)
    }
}

/// A table gives an error exactly where a line is at fault, and the error
/// is what is wrong with the first such line.
pub proof fn lemma_page_table_error(lines: Seq<Seq<char>>)
    ensures
        page_table(lines) is Err <==> !pages_sound(lines, lines.len() as int),
        page_table(lines) matches Err(e) ==> exists|i: int|
            is_first_page_fault(lines, i) && #[trigger] page_fault(lines, i) == Some(e),
{
    if !pages_sound(lines, lines.len() as int) {
        let i = lemma_first_page_fault_exists(lines, lines.len() as int);
        lemma_first_page_fault(lines, i);
    }
}

/// A table whose lines each declare a name under the line's own number
/// loads: it gives as many names as it has lines, in the order of the
/// lines.
pub proof fn lemma_sequential_table_loads(lines: Seq<Seq<char>>)
    requires
        forall|i: int|
            0 <= i < lines.len() ==> ((#[trigger] page_line(lines[i])) matches Some((id, _))
                && id == i),
    ensures
        page_table(lines) is Ok,
        page_table(lines)->Ok_0.len() == lines.len(),
        forall|i: int|
            0 <= i < lines.len() ==> #[trigger] page_table(lines)->Ok_0[i] == (page_line(
                lines[i],
            )->0).1,
{
    assert forall|i: int| 0 <= i < lines.len() implies (#[trigger] page_fault(lines, i)) is None by {
        assert(page_line(lines[i]) is Some);
    }
}

/// A table loads only if each line declares a name under the line's own
/// number. A table with a gap in its ids, or with ids out of order, does
/// not load.
pub proof fn lemma_loaded_table_is_sequential(lines: Seq<Seq<char>>)
    requires
        page_table(lines) is Ok,
    ensures
        page_table(lines)->Ok_0.len() == lines.len(),
        forall|i: int|
            0 <= i < lines.len() ==> ((#[trigger] page_line(lines[i])) matches Some((id, name))
                && id == i && name == page_table(lines)->Ok_0[i]),
{
    assert forall|i: int| 0 <= i < lines.len() implies ((#[trigger] page_line(lines[i])) matches Some(
        (id, name),
    ) && id == i && name == page_table(lines)->Ok_0[i]) by {
        assert(page_fault(lines, i) is None);
    }
}

/// Reads one line of a node table.
pub fn parse_page_line(line: &str) -> (r: Option<(i32, String)>)
    ensures
        r.deep_view() == page_line(line@),
        r matches Some((id, _)) ==> id >= 0,
{
    let chars = to_chars(line);
    match first_two_fields(chars.as_slice()) {
        None => None,
        Some(t) => match parse_id(&chars.as_slice()[t.first.0..t.first.1]) {
            None => None,
            Some(id) => {
                let name = line.substring_char(t.second.0, t.second.1).to_owned();
                Some((id, name))
            },
        },
    }
}

/// Reads a node table from its lines. The result holds the name of node
/// `i` at position `i`. Where a line is at fault nothing is loaded, and the
/// error tells what is wrong with the first such line.
pub fn read_pages(lines: &[String]) -> (r: Result<Vec<String>, LoadError>)
    ensures
        table_outcome(r) == page_table(lines.deep_view()),
        r is Ok <==> pages_sound(lines.deep_view(), lines.len() as int),
        r matches Ok(names) ==> names.len() == lines.len(),
{
    let ghost table = lines.deep_view();
    let mut names: Vec<String> = Vec::new();
    let mut i: usize = 0;
    while i < lines.len()
        invariant
            i <= lines.len(),
            table == lines.deep_view(),
            names.len() == i,
            pages_sound(table, i as int),
            forall|k: int| 0 <= k < i ==> (#[trigger] names[k])@ == (page_line(table[k])->0).1,
        decreases lines.len() - i,
    {
        assert(table[i as int] == lines[i as int]@);
        match parse_page_line(lines[i].as_str()) {
            None => {
                proof {
                    lemma_first_page_fault(table, i as int);
                }
                return Err(LoadError::Format { line: i });
            },
            Some((id, name)) => {
                if id as usize != i {
                    proof {
                        lemma_first_page_fault(table, i as int);
                    }
                    return Err(LoadError::Index { line: i });
                }
                names.push(name);
                i += 1;
            },
        }
    }
    assert(names.deep_view() =~= page_table(table)->Ok_0);
    Ok(names)
}

} // verus!
