//! Reading a node id from a field.
//!
//! An id is written as a decimal numeral: one or more of the digits `0` to
//! `9`, which a single `+` may precede. Leading zeros are accepted. The
//! numeral denotes an id where its value is at most `i32::MAX`.

use vstd::prelude::*;

verus! {

/// Whether `c` is one of the digits `0` to `9`.
pub open spec fn is_digit(c: char) -> bool {
    0x30 <= c as u32 <= 0x39
}

/// The value of the digit `c`.
pub open spec fn digit_value(c: char) -> nat {
    if is_digit(c) {
        (c as u32 - 0x30) as nat
    } else {
        0
    }
}

/// Whether `s` holds digits only.
pub open spec fn all_digits(s: Seq<char>) -> bool {
    forall|i: int| 0 <= i < s.len() ==> is_digit(#[trigger] s[i])
}

/// The number that the digits of `s` denote in base ten.
pub open spec fn digits_value(s: Seq<char>) -> nat
    decreases s.len(),
{
    if s.len() == 0 {
        0
    } else {
        10 * digits_value(s.drop_last()) + digit_value(s.last())
    }
}

/// What is left of `field` without the `+` that it may begin with.
pub open spec fn unsigned_part(field: Seq<char>) -> Seq<char> {
    if field.len() > 0 && field[0] == '+' {
        field.drop_first()
    } else {
        field
    }
}

/// The id that `field` denotes, if it denotes one.
pub open spec fn id_of(field: Seq<char>) -> Option<i32> {
    let digits = unsigned_part(field);
    if digits.len() > 0 && all_digits(digits) && digits_value(digits) <= i32::MAX {
        Some(digits_value(digits) as i32)
    } else {
        None
    }
}

/// A numeral is worth at least as much as each of its prefixes.
pub proof fn lemma_digits_value_prefix(s: Seq<char>, k: int)
    requires
        0 <= k <= s.len(),
    ensures
        digits_value(s.take(k)) <= digits_value(s),
    decreases s.len(),
{
    if k == s.len() {
        assert(s.take(k) == s);
    } else {
        assert(s.drop_last().take(k) == s.take(k));
        lemma_digits_value_prefix(s.drop_last(), k);
    }
}

/// An id is never negative.
pub proof fn lemma_id_not_negative(field: Seq<char>)
    ensures
        id_of(field) matches Some(id) ==> id >= 0,
{
}

/// Reads the id that `field` denotes.
pub fn parse_id(field: &[char]) -> (r: Option<i32>)
    ensures
        r == id_of(field@),
        r matches Some(id) ==> id >= 0,
{
    let mut i: usize = 0;
    if i < field.len() && field[i] == '+' {
        i += 1;
    }
    let start: usize = i;
    let ghost digits = field@.subrange(start as int, field.len() as int);
    assert(digits == unsigned_part(field@));
    if i == field.len() {
        return None;
    }
    let mut acc: i32 = 0;
    while i < field.len()
        invariant
            start <= i <= field.len(),
            digits == field@.subrange(start as int, field.len() as int),
            digits == unsigned_part(field@),
            all_digits(digits.take(i - start)),
            0 <= acc == digits_value(digits.take(i - start)),
        decreases field.len() - i,
    {
        let n: u32 = field[i] as u32;
        if n < 0x30 || n > 0x39 {
            assert(!is_digit(digits[i - start]));
            return None;
        }
        let ghost longer = digits.take(i - start + 1);
        assert(longer.drop_last() == digits.take(i - start));
        assert(longer.last() == field@[i as int]);
        let next: i64 = (acc as i64) * 10 + ((n - 0x30) as i64);
        assert(next == digits_value(longer));
        if next > i32::MAX as i64 {
            proof {
                lemma_digits_value_prefix(digits, i - start + 1);
            }
            return None;
        }
        acc = next as i32;
        i += 1;
    }
    assert(digits.take(i - start) == digits);
    Some(acc)
}

} // verus!
