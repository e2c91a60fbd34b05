//! Detection of the `TODO` marker in a line of text.
//!
//! A line is of interest when its uppercased form contains the four
//! characters `TODO` as a contiguous substring. Uppercasing is done by the
//! standard library; its result is named by the uninterpreted function
//! [`upper_of`], and everything after it is verified.

use vstd::prelude::*;

use crate::text::spec_split;
use crate::text::split_char;

verus! {

/// The marker `TODO` occurs in `s` starting at position `i`.
pub open spec fn marker_at(s: Seq<char>, i: int) -> bool {
    &&& 0 <= i
    &&& i + 4 <= s.len()
    &&& s[i] == 'T'
    &&& s[i + 1] == 'O'
    &&& s[i + 2] == 'D'
    &&& s[i + 3] == 'O'
}

/// The marker `TODO` occurs somewhere in `s`.
pub open spec fn has_marker(s: Seq<char>) -> bool {
    exists|i: int| marker_at(s, i)
}

/// The sequence of characters that `str::to_uppercase` returns for `s`.
pub uninterp spec fn upper_of(s: Seq<char>) -> Seq<char>;

/// Relies on `str::to_uppercase`: the result depends on the characters of
/// the input alone.
#[verifier::external_body]
fn to_upper(s: &str) -> (r: String)
    ensures
        r@ == upper_of(s@),
{
    s.to_uppercase()
}

/// A line is flagged when its uppercased form contains the marker.
pub open spec fn line_marked(l: Seq<char>) -> bool {
    has_marker(upper_of(l))
}

/// Uppercases `line` and scans it for the marker.
pub fn line_has_marker(line: &str) -> (r: bool)
    ensures
        r == line_marked(line@),
{
    let u = to_upper(line);
    let us = u.as_str();
    let n = us.unicode_len();
    if n < 4 {
        assert(forall|j: int| !marker_at(u@, j));
        return false;
    }
    let mut i: usize = 0;
    loop
        invariant
            u@ == upper_of(line@),
            us@ == u@,
            n == u@.len(),
            4 <= n,
            i + 4 <= n,
            forall|j: int| 0 <= j < i ==> !marker_at(u@, j),
        decreases n - i,
    {
        if us.get_char(i) == 'T' && us.get_char(i + 1) == 'O' && us.get_char(i + 2) == 'D'
            && us.get_char(i + 3) == 'O' {
            assert(marker_at(u@, i as int));
            return true;
        }
        i = i + 1;
        if i > n - 4 {
            assert(forall|j: int| i <= j ==> !marker_at(u@, j));
            return false;
        }
    }
}

/// At least one line of `contents`, split on newlines, is flagged.
pub open spec fn spec_contains_todos(contents: Seq<char>) -> bool {
    exists|k: int|
        0 <= k < spec_split(contents, '\n').len() && line_marked(spec_split(contents, '\n')[k])
}

/// The prefilter: reports whether any line of a file's text carries the
/// marker, so that clean files can be skipped without an attribution query.
pub fn contains_todos(contents: &str) -> (r: bool)
    ensures
        r == spec_contains_todos(contents@),
{
    let lines = split_char(contents, '\n');
    let n = lines.len();
    let mut i: usize = 0;
    while i < n
        invariant
            n == lines.len(),
            i <= n,
            lines.deep_view() == spec_split(contents@, '\n'),
            forall|k: int| 0 <= k < i ==> !line_marked(lines.deep_view()[k]),
        decreases n - i,
    {
        let line = &lines[i];
        if line_has_marker(line.as_str()) {
            assert(line_marked(lines.deep_view()[i as int]));
            return true;
        }
        i = i + 1;
    }
    false
}

} // verus!
