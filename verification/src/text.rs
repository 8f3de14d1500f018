//! Splitting a line of text into whitespace-delimited fields.
//!
//! A line is a sequence of characters. Its fields are the maximal runs of
//! characters that are not separators, in the order in which they occur.

use vstd::prelude::*;

verus! {

/// Whether `c` separates fields: the code points with the Unicode
/// `White_Space` property.
pub open spec fn is_space(c: char) -> bool {
    let n = c as u32;
    ||| 0x09 <= n <= 0x0D
    ||| n == 0x20
    ||| n == 0x85
    ||| n == 0xA0
    ||| n == 0x1680
    ||| 0x2000 <= n <= 0x200A
    ||| n == 0x2028
    ||| n == 0x2029
    ||| n == 0x202F
    ||| n == 0x205F
    ||| n == 0x3000
}

/// The first position at or after `from` that holds no separator, or the
/// length of `s` where only separators follow.
pub open spec fn field_start(s: Seq<char>, from: int) -> int
    decreases s.len() - from,
{
    if 0 <= from < s.len() && is_space(s[from]) {
        field_start(s, from + 1)
    } else {
        from
    }
}

/// The first position at or after `from` that holds a separator, or the
/// length of `s` where none follows.
pub open spec fn field_end(s: Seq<char>, from: int) -> int
    decreases s.len() - from,
{
    if 0 <= from < s.len() && !is_space(s[from]) {
        field_end(s, from + 1)
    } else {
        from
    }
}

/// The fields of `s` that begin at or after position `from`.
pub open spec fn fields_from(s: Seq<char>, from: int) -> Seq<Seq<char>>
    decreases s.len() - from,
    via fields_from_decreases
{
    let start = field_start(s, from);
    let end = field_end(s, start);
    if 0 <= from && start < s.len() {
        seq![s.subrange(start, end)] + fields_from(s, end)
    } else {
        Seq::empty()
    }
}

#[via_fn]
proof fn fields_from_decreases(s: Seq<char>, from: int) {
    let start = field_start(s, from);
    if 0 <= from && start < s.len() {
        lemma_field_start(s, from);
        lemma_field_end(s, start);
    }
}

/// The whitespace-delimited fields of `s`, in order.
pub open spec fn fields(s: Seq<char>) -> Seq<Seq<char>> {
    fields_from(s, 0)
}

/// `field_start` stays within the line, passes over separators only, and
/// stops at a character that is none.
pub proof fn lemma_field_start(s: Seq<char>, from: int)
    requires
        0 <= from <= s.len(),
    ensures
        from <= field_start(s, from) <= s.len(),
        forall|i: int| from <= i < field_start(s, from) ==> is_space(#[trigger] s[i]),
        field_start(s, from) < s.len() ==> !is_space(s[field_start(s, from)]),
    decreases s.len() - from,
{
    if from < s.len() && is_space(s[from]) {
        lemma_field_start(s, from + 1);
    }
}

/// `field_end` stays within the line, passes over no separator, and stops
/// at one. Where it starts at a character that is no separator, it moves.
pub proof fn lemma_field_end(s: Seq<char>, from: int)
    requires
        0 <= from <= s.len(),
    ensures
        from <= field_end(s, from) <= s.len(),
        forall|i: int| from <= i < field_end(s, from) ==> !is_space(#[trigger] s[i]),
        field_end(s, from) < s.len() ==> is_space(s[field_end(s, from)]),
        from < s.len() && !is_space(s[from]) ==> from < field_end(s, from),
    decreases s.len() - from,
{
    if from < s.len() && !is_space(s[from]) {
        lemma_field_end(s, from + 1);
    }
}

/// Every field is a run of the line that is not empty and holds no
/// separator.
pub proof fn lemma_fields_hold_no_space(s: Seq<char>, from: int)
    requires
        0 <= from <= s.len(),
    ensures
        forall|k: int|
            0 <= k < fields_from(s, from).len() ==> {
                let f = #[trigger] fields_from(s, from)[k];
                &&& f.len() > 0
                &&& forall|i: int| 0 <= i < f.len() ==> !is_space(#[trigger] f[i])
            },
    decreases s.len() - from,
{
    let start = field_start(s, from);
    let end = field_end(s, start);
    lemma_field_start(s, from);
    if start < s.len() {
        lemma_field_end(s, start);
        lemma_fields_hold_no_space(s, end);
        let head = s.subrange(start, end);
        let rest = fields_from(s, end);
        assert forall|k: int| 0 <= k < fields_from(s, from).len() implies {
            let f = #[trigger] fields_from(s, from)[k];
            &&& f.len() > 0
            &&& forall|i: int| 0 <= i < f.len() ==> !is_space(#[trigger] f[i])
        } by {
            if k == 0 {
                assert(fields_from(s, from)[k] == head);
                assert forall|i: int| 0 <= i < head.len() implies !is_space(#[trigger] head[i]) by {
                    assert(head[i] == s[start + i]);
                }
            } else {
                assert(fields_from(s, from)[k] == rest[k - 1]);
            }
        }
    }
}

/// Tells whether `c` separates fields.
pub fn char_is_space(c: char) -> (b: bool)
    ensures
        b == is_space(c),
{
    let n: u32 = c as u32;
    (0x09 <= n && n <= 0x0D) || n == 0x20 || n == 0x85 || n == 0xA0 || n == 0x1680 || (0x2000 <= n
        && n <= 0x200A) || n == 0x2028 || n == 0x2029 || n == 0x202F || n == 0x205F || n == 0x3000
}

/// The characters of `line`, in order.
pub fn to_chars(line: &str) -> (chars: Vec<char>)
    ensures
        chars@ == line@,
{
    let mut chars: Vec<char> = Vec::new();
    for c in it: line.chars()
        invariant
            chars@ == it.seq().take(it.index() as int),
            it.seq() == line@,
    {
        chars.push(c);
    }
    chars
}

/// Finds where the next field begins, from position `from` on.
pub fn scan_field_start(s: &[char], from: usize) -> (start: usize)
    ensures
        start == field_start(s@, from as int),
        from <= start,
        from <= s.len() ==> start <= s.len(),
{
    let mut i: usize = from;
    while i < s.len() && char_is_space(s[i])
        invariant
            from <= i,
            from <= s.len() ==> i <= s.len(),
            field_start(s@, from as int) == field_start(s@, i as int),
        decreases s.len() - i,
    {
        i += 1;
    }
    i
}

/// Finds where the field that begins at `from` ends.
pub fn scan_field_end(s: &[char], from: usize) -> (end: usize)
    ensures
        end == field_end(s@, from as int),
        from <= end,
        from <= s.len() ==> end <= s.len(),
{
    let mut i: usize = from;
    while i < s.len() && !char_is_space(s[i])
        invariant
            from <= i,
            from <= s.len() ==> i <= s.len(),
            field_end(s@, from as int) == field_end(s@, i as int),
        decreases s.len() - i,
    {
        i += 1;
    }
    i
}

/// Where the first two fields of a line stand: the first runs from
/// `first.0` up to `first.1`, the second from `second.0` up to `second.1`.
pub struct TwoFields {
    pub first: (usize, usize),
    pub second: (usize, usize),
}

/// Locates the first two fields of `s`. The result is `None` exactly where
/// `s` has fewer than two fields.
pub fn first_two_fields(s: &[char]) -> (r: Option<TwoFields>)
    ensures
        r is None <==> fields(s@).len() < 2,
        r matches Some(t) ==> {
            &&& t.first.0 == field_start(s@, 0)
            &&& t.first.1 == field_end(s@, t.first.0 as int)
            &&& t.second.0 == field_start(s@, t.first.1 as int)
            &&& t.second.1 == field_end(s@, t.second.0 as int)
            &&& t.first.0 < t.first.1 < t.second.0 < t.second.1 <= s.len()
            &&& fields(s@)[0] == s@.subrange(t.first.0 as int, t.first.1 as int)
            &&& fields(s@)[1] == s@.subrange(t.second.0 as int, t.second.1 as int)
        },
{
    let a = scan_field_start(s, 0);
    if a >= s.len() {
        return None;
    }
    let b = scan_field_end(s, a);
    let c = scan_field_start(s, b);
    proof {
        lemma_field_start(s@, 0);
        lemma_field_end(s@, a as int);
        lemma_field_start(s@, b as int);
        assert(fields(s@) == seq![s@.subrange(a as int, b as int)] + fields_from(s@, b as int));
    }
    if c >= s.len() {
        return None;
    }
    let d = scan_field_end(s, c);
    proof {
        lemma_field_end(s@, c as int);
        assert(fields_from(s@, b as int) == seq![s@.subrange(c as int, d as int)] + fields_from(
            s@,
            d as int,
        ));
    }
    Some(TwoFields { first: (a, b), second: (c, d) })
}

} // verus!
