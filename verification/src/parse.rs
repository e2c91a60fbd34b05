//! Parsing of line-attribution output.
//!
//! Each attribution line is tab-separated; field 2 (zero-indexed) is the
//! author-date and field 3 carries a revision-summary parenthetical followed
//! by the original source line. Lines whose uppercased form lacks the
//! marker are discarded; a flagged line with fewer than four fields is
//! malformed and reported as an error instead of being read out of bounds.

use vstd::prelude::*;

use crate::marker::line_has_marker;
use crate::marker::line_marked;
use crate::text::find_char;
use crate::text::find_pos;
use crate::text::spec_split;
use crate::text::spec_trim;
use crate::text::split_char;
use crate::text::trim_str;

verus! {

/// A flagged attribution line that does not have the four tab-separated
/// fields the format promises; `line` is its index in the captured output.
#[derive(Clone, Copy, Debug, PartialEq, Eq, Structural)]
pub struct ParseError {
    pub line: usize,
}

/// The tab-separated fields of an attribution line.
pub open spec fn line_fields(l: Seq<char>) -> Seq<Seq<char>> {
    spec_split(l, '\t')
}

/// A line is well-formed when it is either unflagged or has at least the
/// four fields the parser reads.
pub open spec fn line_ok(l: Seq<char>) -> bool {
    line_marked(l) ==> line_fields(l).len() >= 4
}

/// The comment in the free-text field: everything after the first `)`, or
/// the whole field when there is none, without surrounding whitespace.
pub open spec fn spec_extract(f: Seq<char>) -> Seq<char> {
    if find_pos(f, ')') < f.len() {
        spec_trim(f.skip(find_pos(f, ')') + 1))
    } else {
        spec_trim(f)
    }
}

/// The (date, comment) pair a well-formed flagged line yields.
pub open spec fn pair_of(l: Seq<char>) -> (Seq<char>, Seq<char>) {
    (line_fields(l)[2], spec_extract(line_fields(l)[3]))
}

/// The (date, comment) pairs of the flagged lines of `ls`, in order.
pub open spec fn spec_blame(ls: Seq<Seq<char>>) -> Seq<(Seq<char>, Seq<char>)>
    decreases ls.len(),
{
    if ls.len() == 0 {
        Seq::empty()
    } else if line_marked(ls.last()) {
        spec_blame(ls.drop_last()).push(pair_of(ls.last()))
    } else {
        spec_blame(ls.drop_last())
    }
}

/// Extracts the comment text from the free-text field of an attribution
/// line: the part after the first `)` — the close of the revision-summary
/// parenthetical — or the whole field when no `)` occurs, trimmed of
/// leading and trailing whitespace.
pub fn extract_comment(field: &str) -> (r: String)
    ensures
        r@ == spec_extract(field@),
{
    let n = field.unicode_len();
    let p = find_char(field, ')');
    if p < n {
        let rest = field.substring_char(p + 1, n);
        proof {
            assert(rest@ =~= field@.skip(p + 1));
        }
        trim_str(rest)
    } else {
        trim_str(field)
    }
}

/// Parses captured attribution output: keeps the flagged lines, and reads
/// the author-date (field 2) and the extracted comment (field 3) of each.
/// Returns the pairs in output order, or the index of the first flagged
/// line that lacks the four fields the format promises.
pub fn blame(lines: &Vec<String>) -> (r: Result<Vec<(String, String)>, ParseError>)
    ensures
        match r {
            Ok(pairs) => {
                &&& forall|k: int| 0 <= k < lines@.len() ==> line_ok(lines.deep_view()[k])
                &&& pairs.deep_view() == spec_blame(lines.deep_view())
            },
            Err(e) => {
                &&& e.line < lines@.len()
                &&& !line_ok(lines.deep_view()[e.line as int])
                &&& forall|k: int| 0 <= k < e.line ==> line_ok(lines.deep_view()[k])
            },
        },
{
    let n = lines.len();
    let mut out: Vec<(String, String)> = Vec::new();
    let mut i: usize = 0;
    proof {
        assert(lines.deep_view().take(0) =~= Seq::<Seq<char>>::empty());
    }
    while i < n
        invariant
            n == lines.len(),
            i <= n,
            forall|k: int| 0 <= k < i ==> line_ok(lines.deep_view()[k]),
            out.deep_view() == spec_blame(lines.deep_view().take(i as int)),
        decreases n - i,
    {
        let ghost dv = lines.deep_view();
        proof {
            assert(dv.take(i as int + 1).drop_last() =~= dv.take(i as int));
            assert(dv.take(i as int + 1).last() == dv[i as int]);
        }
        let line = &lines[i];
        if line_has_marker(line.as_str()) {
            let fields = split_char(line.as_str(), '\t');
            proof {
                assert(fields.deep_view() == line_fields(dv[i as int]));
            }
            if fields.len() < 4 {
                assert(!line_ok(dv[i as int]));
                return Err(ParseError { line: i });
            }
            let date = fields[2].clone();
            let comment = extract_comment(fields[3].as_str());
            let ghost pre = out.deep_view();
            proof {
                assert(fields.deep_view()[2] == fields@[2]@);
                assert(fields.deep_view()[3] == fields@[3]@);
            }
            out.push((date, comment));
            proof {
                assert(out.deep_view() =~~= pre.push((date@, comment@)));
                assert((date@, comment@) == pair_of(dv[i as int]));
            }
        }
        i = i + 1;
    }
    proof {
        assert(lines.deep_view().take(n as int) =~= lines.deep_view());
    }
    Ok(out)
}

} // verus!
