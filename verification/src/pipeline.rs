//! A mathematical model of the whole run, and the laws that hold of it.
//!
//! A run observes, for each tracked file, its path, its on-disk contents,
//! and the lines the attribution tool printed for it. The report the run
//! prints is a function of those observations alone: gather the records of
//! the files the prefilter flags, then sort them by date. The executable
//! pieces — [`crate::marker::contains_todos`], [`crate::parse::blame`],
//! [`crate::report::assemble_records`], [`crate::report::sort_records`] and
//! [`crate::report::render_report`] — each carry an exact contract over the
//! same spec functions, so a run that wires them together step by step
//! computes exactly [`spec_report`] of what it observed.

use vstd::prelude::*;

use crate::marker::spec_contains_todos;
use crate::parse::spec_blame;
use crate::report::Rec;
use crate::report::lemma_sort_recs_multiset;
use crate::report::lemma_sort_recs_sorted;
use crate::report::recs_of_pairs;
use crate::report::report_sorted;
use crate::report::spec_sort_recs;

verus! {

/// What one run observes of one tracked file: its relative path, its
/// on-disk text, and the attribution lines the version-control tool
/// prints for it.
pub struct FileView {
    pub path: Seq<char>,
    pub contents: Seq<char>,
    pub attribution: Seq<Seq<char>>,
}

/// The records one file contributes to the report: none when the
/// prefilter finds no marker in its contents, else one per flagged
/// attribution line.
pub open spec fn file_contribution(f: FileView) -> Seq<Rec> {
    if spec_contains_todos(f.contents) {
        recs_of_pairs(f.path, spec_blame(f.attribution))
    } else {
        Seq::empty()
    }
}

/// All records gathered over the files of a run, in file order.
pub open spec fn gathered(files: Seq<FileView>) -> Seq<Rec>
    decreases files.len(),
{
    if files.len() == 0 {
        Seq::empty()
    } else {
        gathered(files.drop_last()) + file_contribution(files.last())
    }
}

/// The report of a run: the gathered records in ascending date order.
pub open spec fn spec_report(files: Seq<FileView>) -> Seq<Rec> {
    spec_sort_recs(gathered(files))
}

/// A file with no flagged line contributes no record to the report, and
/// its attribution output is never consulted: the contribution is the
/// same whatever the attribution tool would have printed.
pub proof fn lemma_clean_file_contributes_nothing(f: FileView, g: FileView)
    requires
        !spec_contains_todos(f.contents),
        g.path == f.path,
        g.contents == f.contents,
    ensures
        file_contribution(f) == Seq::<Rec>::empty(),
        file_contribution(f) == file_contribution(g),
{
}

/// The report is sorted by date ascending, under plain lexicographic
/// string comparison: each record's date is at most its successor's.
pub proof fn lemma_report_sorted(files: Seq<FileView>)
    ensures
        report_sorted(spec_report(files)),
{
    lemma_sort_recs_sorted(gathered(files));
}

/// Sorting neither loses nor invents records: the report holds exactly
/// the records gathered over the files, interleaved by date.
pub proof fn lemma_report_complete(files: Seq<FileView>)
    ensures
        spec_report(files).to_multiset() == gathered(files).to_multiset(),
{
    lemma_sort_recs_multiset(gathered(files));
}

/// Running the pipeline twice over an unchanged workspace and history
/// yields the identical report: the report is a function of the observed
/// files alone.
pub proof fn lemma_report_deterministic(run1: Seq<FileView>, run2: Seq<FileView>)
    requires
        run1 == run2,
    ensures
        spec_report(run1) == spec_report(run2),
{
}

} // verus!
