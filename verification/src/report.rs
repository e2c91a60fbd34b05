//! Assembly of the report: the record type, insertion sort by date under
//! lexicographic string order, and rendering to output lines.

use vstd::prelude::*;

use crate::text::lemma_lex_irreflexive;
use crate::text::lemma_lex_le_transitive;
use crate::text::lemma_lex_transitive;
use crate::text::lex_le;
use crate::text::lex_lt;
use crate::text::str_lt;

verus! {

/// One work item found in the workspace: the file it lives in, the
/// author-date of the revision that last touched its line, and the comment
/// text after the marker's revision-summary prefix.
#[derive(Debug)]
pub struct TodoRecord {
    pub file: String,
    pub date: String,
    pub comment: String,
}

/// The mathematical shadow of a [`TodoRecord`]: its three fields as
/// character sequences.
pub struct Rec {
    pub file: Seq<char>,
    pub date: Seq<char>,
    pub comment: Seq<char>,
}

impl View for TodoRecord {
    type V = Rec;

    open spec fn view(&self) -> Rec {
        Rec { file: self.file@, date: self.date@, comment: self.comment@ }
    }
}

impl DeepView for TodoRecord {
    type V = Rec;

    open spec fn deep_view(&self) -> Rec {
        self.view()
    }
}

/// Records in date order: every record's date is lexicographically at most
/// its successor's.
pub open spec fn report_sorted(s: Seq<Rec>) -> bool {
    forall|i: int| 0 <= i && i + 1 < s.len() ==> lex_le(#[trigger] s[i].date, s[i + 1].date)
}

/// Inserts `x` before the first record whose date is strictly greater.
pub open spec fn spec_insert_rec(x: Rec, s: Seq<Rec>) -> Seq<Rec>
    decreases s.len(),
{
    if s.len() == 0 {
        seq![x]
    } else if lex_lt(x.date, s.first().date) {
        seq![x] + s
    } else {
        seq![s.first()] + spec_insert_rec(x, s.drop_first())
    }
}

/// Insertion sort of records by date. Records with equal dates keep their
/// relative input order, though callers should not rely on that.
pub open spec fn spec_sort_recs(s: Seq<Rec>) -> Seq<Rec>
    decreases s.len(),
{
    if s.len() == 0 {
        Seq::empty()
    } else {
        spec_insert_rec(s.last(), spec_sort_recs(s.drop_last()))
    }
}

proof fn lemma_insert_rec_sorted(x: Rec, s: Seq<Rec>)
    requires
        report_sorted(s),
    ensures
        report_sorted(spec_insert_rec(x, s)),
    decreases s.len(),
{
    if s.len() == 0 {
    } else if lex_lt(x.date, s.first().date) {
        let r = seq![x] + s;
        assert forall|i: int| 0 <= i && i + 1 < r.len() implies lex_le(
            #[trigger] r[i].date,
            r[i + 1].date,
        ) by {
            if i == 0 {
                if lex_lt(s.first().date, x.date) {
                    lemma_lex_transitive(x.date, s.first().date, x.date);
                    lemma_lex_irreflexive(x.date);
                }
            } else {
                assert(r[i] == s[i - 1] && r[i + 1] == s[i]);
            }
        }
    } else {
        let rest = s.drop_first();
        assert forall|i: int| 0 <= i && i + 1 < rest.len() implies lex_le(
            #[trigger] rest[i].date,
            rest[i + 1].date,
        ) by {
            assert(rest[i] == s[i + 1] && rest[i + 1] == s[i + 2]);
            assert(lex_le(s[i + 1].date, s[i + 2].date));
        }
        lemma_insert_rec_sorted(x, rest);
        let ins = spec_insert_rec(x, rest);
        let r = seq![s.first()] + ins;
        assert forall|i: int| 0 <= i && i + 1 < r.len() implies lex_le(
            #[trigger] r[i].date,
            r[i + 1].date,
        ) by {
            if i == 0 {
                if rest.len() == 0 {
                    assert(r[1] == x);
                } else if lex_lt(x.date, rest.first().date) {
                    assert(r[1] == x);
                } else {
                    assert(r[1] == rest.first());
                    assert(rest.first() == s[1]);
                    assert(lex_le(s[0].date, s[1].date));
                }
            } else {
                assert(r[i] == ins[i - 1] && r[i + 1] == ins[i]);
            }
        }
    }
}

/// The report the sort returns holds exactly the records it was given.
pub proof fn lemma_insert_rec_multiset(x: Rec, s: Seq<Rec>)
    ensures
        spec_insert_rec(x, s).to_multiset() =~= s.to_multiset().insert(x),
    decreases s.len(),
{
    broadcast use vstd::seq_lib::group_to_multiset_ensures;

    if s.len() == 0 {
        assert(seq![x] =~= Seq::<Rec>::empty().push(x));
    } else if lex_lt(x.date, s.first().date) {
        assert(seq![x] + s =~= (seq![x] + s.drop_last()).push(s.last()));
        lemma_concat_first_multiset(x, s);
    } else {
        let rest = s.drop_first();
        lemma_insert_rec_multiset(x, rest);
        vstd::seq_lib::lemma_multiset_commutative(seq![s.first()], spec_insert_rec(x, rest));
        vstd::seq_lib::lemma_multiset_commutative(seq![s.first()], rest);
        assert(s =~= seq![s.first()] + rest);
        assert(seq![s.first()].to_multiset().add(rest.to_multiset().insert(x)) =~= (seq![
            s.first(),
        ].to_multiset().add(rest.to_multiset())).insert(x));
    }
}

proof fn lemma_concat_first_multiset(x: Rec, s: Seq<Rec>)
    ensures
        (seq![x] + s).to_multiset() =~= s.to_multiset().insert(x),
    decreases s.len(),
{
    broadcast use vstd::seq_lib::group_to_multiset_ensures;

    if s.len() == 0 {
        assert(seq![x] + s =~= Seq::<Rec>::empty().push(x));
    } else {
        lemma_concat_first_multiset(x, s.drop_last());
        assert(seq![x] + s =~= (seq![x] + s.drop_last()).push(s.last()));
        assert(s =~= s.drop_last().push(s.last()));
    }
}

/// Sorting keeps exactly the given records.
pub proof fn lemma_sort_recs_multiset(s: Seq<Rec>)
    ensures
        spec_sort_recs(s).to_multiset() =~= s.to_multiset(),
    decreases s.len(),
{
    broadcast use vstd::seq_lib::group_to_multiset_ensures;

    if s.len() > 0 {
        lemma_sort_recs_multiset(s.drop_last());
        lemma_insert_rec_multiset(s.last(), spec_sort_recs(s.drop_last()));
        assert(s =~= s.drop_last().push(s.last()));
    }
}

/// The sorted report is in ascending date order.
pub proof fn lemma_sort_recs_sorted(s: Seq<Rec>)
    ensures
        report_sorted(spec_sort_recs(s)),
    decreases s.len(),
{
    if s.len() > 0 {
        lemma_sort_recs_sorted(s.drop_last());
        lemma_insert_rec_sorted(s.last(), spec_sort_recs(s.drop_last()));
    }
}

/// In a sorted report every record's date is at most that of every record
/// after it, not only its neighbour's.
pub proof fn lemma_report_sorted_total(s: Seq<Rec>, i: int, j: int)
    requires
        report_sorted(s),
        0 <= i <= j < s.len(),
    ensures
        lex_le(s[i].date, s[j].date),
    decreases j - i,
{
    if i == j {
        lemma_lex_irreflexive(s[i].date);
    } else {
        lemma_report_sorted_total(s, i, j - 1);
        lemma_lex_le_transitive(s[i].date, s[j - 1].date, s[j].date);
    }
}

proof fn lemma_insert_rec_position(x: Rec, s: Seq<Rec>, p: int)
    requires
        0 <= p <= s.len(),
        forall|k: int| 0 <= k < p ==> !lex_lt(x.date, (#[trigger] s[k]).date),
        p < s.len() ==> lex_lt(x.date, s[p].date),
    ensures
        spec_insert_rec(x, s) == s.take(p) + seq![x] + s.skip(p),
    decreases p,
{
    if p == 0 {
        if s.len() == 0 {
            assert(spec_insert_rec(x, s) =~= s.take(0) + seq![x] + s.skip(0));
        } else {
            assert(lex_lt(x.date, s.first().date));
            assert(s.take(0) + seq![x] + s.skip(0) =~= seq![x] + s);
        }
    } else {
        assert(!lex_lt(x.date, s[0].date));
        let rest = s.drop_first();
        assert(forall|k: int| 0 <= k < p - 1 ==> !lex_lt(x.date, (#[trigger] rest[k]).date));
        assert(p - 1 < rest.len() ==> lex_lt(x.date, rest[p - 1].date));
        lemma_insert_rec_position(x, rest, p - 1);
        assert(seq![s.first()] + (rest.take(p - 1) + seq![x] + rest.skip(p - 1)) =~= s.take(p)
            + seq![x] + s.skip(p));
    }
}

/// Inserts `x` into the date-ordered vector `v`, before the first record
/// whose date is strictly greater.
fn insert_record(v: &mut Vec<TodoRecord>, x: TodoRecord)
    ensures
        final(v).deep_view() == spec_insert_rec(x@, old(v).deep_view()),
{
    let n = v.len();
    let mut p: usize = 0;
    while p < n && !str_lt(x.date.as_str(), v[p].date.as_str())
        invariant
            v@ == old(v)@,
            n == v.len(),
            p <= n,
            forall|k: int| 0 <= k < p ==> !lex_lt(x@.date, (#[trigger] v.deep_view()[k]).date),
        decreases n - p,
    {
        p = p + 1;
    }
    proof {
        lemma_insert_rec_position(x@, v.deep_view(), p as int);
    }
    let ghost pre = v.deep_view();
    v.insert(p, x);
    proof {
        assert(v.deep_view() =~= pre.take(p as int) + seq![x@] + pre.skip(p as int));
    }
}

/// Sorts the collected records by date, lexicographically on the date
/// string; ties keep their input order, which callers should not rely on.
pub fn sort_records(records: Vec<TodoRecord>) -> (r: Vec<TodoRecord>)
    ensures
        r.deep_view() == spec_sort_recs(records.deep_view()),
        report_sorted(r.deep_view()),
{
    let ghost g0 = records.deep_view();
    let mut rest = records;
    let mut out: Vec<TodoRecord> = Vec::new();
    proof {
        assert(rest.deep_view() =~= g0.skip(0));
        assert(out.deep_view() =~= spec_sort_recs(g0.take(0)));
    }
    let ghost mut i: int = 0;
    while rest.len() > 0
        invariant
            0 <= i <= g0.len(),
            i + rest.deep_view().len() == g0.len(),
            rest.deep_view() == g0.skip(i),
            out.deep_view() == spec_sort_recs(g0.take(i)),
        decreases rest.len(),
    {
        let ghost pre = rest.deep_view();
        let x = rest.remove(0);
        proof {
            assert(rest.deep_view() =~= pre.drop_first());
            assert(pre.drop_first() =~= g0.skip(i + 1));
            assert(x@ == pre[0]);
            assert(pre[0] == g0[i]);
            assert(g0.take(i + 1).drop_last() =~= g0.take(i));
            assert(g0.take(i + 1).last() == g0[i]);
        }
        insert_record(&mut out, x);
        proof {
            i = i + 1;
        }
    }
    proof {
        assert(i == g0.len());
        assert(g0.take(g0.len() as int) =~= g0);
        lemma_sort_recs_sorted(g0);
    }
    out
}

/// The records a file contributes: one per extracted (date, comment) pair,
/// all naming that file.
pub open spec fn recs_of_pairs(file: Seq<char>, pairs: Seq<(Seq<char>, Seq<char>)>) -> Seq<Rec> {
    pairs.map_values(|p: (Seq<char>, Seq<char>)| Rec { file: file, date: p.0, comment: p.1 })
}

/// Appends one record per (date, comment) pair of `pairs`, each naming
/// `file`, to the collected records.
pub fn assemble_records(file: &String, pairs: &Vec<(String, String)>, out: &mut Vec<TodoRecord>)
    ensures
        final(out).deep_view() == old(out).deep_view() + recs_of_pairs(file@, pairs.deep_view()),
{
    let n = pairs.len();
    let mut i: usize = 0;
    proof {
        assert(out.deep_view() =~~= old(out).deep_view() + recs_of_pairs(
            file@,
            pairs.deep_view().take(0),
        ));
    }
    while i < n
        invariant
            n == pairs.len(),
            i <= n,
            out.deep_view() == old(out).deep_view() + recs_of_pairs(
                file@,
                pairs.deep_view().take(i as int),
            ),
        decreases n - i,
    {
        let ghost pre = out.deep_view();
        let rec = TodoRecord {
            file: file.clone(),
            date: pairs[i].0.clone(),
            comment: pairs[i].1.clone(),
        };
        out.push(rec);
        proof {
            assert(out.deep_view() =~= pre.push(
                Rec { file: file@, date: pairs.deep_view()[i as int].0, comment: pairs.deep_view()[i as int].1 },
            ));
            assert(out.deep_view() =~= old(out).deep_view() + recs_of_pairs(
                file@,
                pairs.deep_view().take(i as int + 1),
            ));
        }
        i = i + 1;
    }
    proof {
        assert(pairs.deep_view().take(n as int) =~= pairs.deep_view());
    }
}

/// The two output lines of one record: the date and the comment separated
/// by a tab, then the file path indented by two spaces.
pub open spec fn spec_render_rec(r: Rec) -> Seq<Seq<char>> {
    seq![r.date + seq!['\t'] + r.comment, seq![' ', ' '] + r.file]
}

/// The rendered report: two lines per record, in record order.
pub open spec fn spec_render(s: Seq<Rec>) -> Seq<Seq<char>>
    decreases s.len(),
{
    if s.len() == 0 {
        Seq::empty()
    } else {
        spec_render(s.drop_last()) + spec_render_rec(s.last())
    }
}

pub proof fn lemma_spec_render_len(s: Seq<Rec>)
    ensures
        spec_render(s).len() == 2 * s.len(),
    decreases s.len(),
{
    if s.len() > 0 {
        lemma_spec_render_len(s.drop_last());
    }
}

/// Renders the report: for each record, in order, a line holding its date
/// and comment separated by a tab, then a line holding its file path
/// indented by two spaces.
pub fn render_report(records: &Vec<TodoRecord>) -> (r: Vec<String>)
    ensures
        r.deep_view() == spec_render(records.deep_view()),
        r@.len() == 2 * records@.len(),
{
    let n = records.len();
    let mut out: Vec<String> = Vec::new();
    proof {
        assert(out.deep_view() =~~= spec_render(records.deep_view().take(0)));
    }
    let mut i: usize = 0;
    while i < n
        invariant
            n == records.len(),
            i <= n,
            out.deep_view() == spec_render(records.deep_view().take(i as int)),
        decreases n - i,
    {
        let ghost pre = out.deep_view();
        let ghost dv = records.deep_view();
        proof {
            reveal_strlit("\t");
            reveal_strlit("  ");
            assert("\t"@ =~= seq!['\t']);
            assert("  "@ =~= seq![' ', ' ']);
        }
        let mut date_line = records[i].date.clone();
        date_line.append("\t");
        date_line.append(records[i].comment.as_str());
        let mut file_line = "  ".to_owned();
        file_line.append(records[i].file.as_str());
        out.push(date_line);
        out.push(file_line);
        proof {
            assert(out.deep_view() =~~= pre + spec_render_rec(dv[i as int]));
            assert(dv.take(i as int + 1).drop_last() =~= dv.take(i as int));
            assert(dv.take(i as int + 1).last() == dv[i as int]);
            assert(out.deep_view() =~~= spec_render(dv.take(i as int + 1)));
        }
        i = i + 1;
    }
    proof {
        assert(records.deep_view().take(n as int) =~= records.deep_view());
        lemma_spec_render_len(records.deep_view());
    }
    out
}

} // verus!
