//! Apply engine: for each candidate file, wraps the rendered header in
//! the file's comment style, matches the file's leading bytes, decides
//! the action for the requested mode, computes the rewritten content,
//! and aggregates a per-file report with outcome counts.

use vstd::prelude::*;
use crate::bytes::{LF, copy_range, push_all, push_range};
use crate::matcher::{BOM0, BOM1, BOM2, MatchResult, bom_skip, header_start, header_start_spec,
    match_header, match_spec};
use crate::style::{CommentStyle, StyleView, style_for, style_for_spec, wrap_header, wrap_spec};

verus! {

/// What a run is asked to do: only report, or also rewrite files.
#[derive(Clone, Copy, Debug, PartialEq, Eq, Structural)]
pub enum Mode {
    Check,
    Write,
}

/// Why a file was skipped rather than processed.
#[derive(Clone, Copy, Debug, PartialEq, Eq, Structural)]
pub enum SkipReason {
    /// A foreign comment block owns the top of the file.
    Foreign,
    /// The file's kind is not in the comment syntax table.
    Unsupported,
}

/// The per-file outcome of a run.
#[derive(Clone, Copy, Debug, PartialEq, Eq, Structural)]
pub enum Outcome {
    /// Write mode: the header was missing and has been inserted.
    Inserted,
    /// Write mode: a stale header has been replaced.
    Updated,
    /// Write mode: the expected header was already in place.
    AlreadyCompliant,
    /// Check mode: the expected header is in place.
    Compliant,
    /// Check mode: the header is missing or stale.
    NonCompliant,
    /// The file was left alone, for the recorded reason.
    Skipped(SkipReason),
    /// The file's content could not be read.
    Failed,
}

/// Whether writing a header at `start` must first close the previous
/// line: only when a shebang line precedes it that no line feed ends.
pub open spec fn needs_pad(c: Seq<u8>, start: int) -> bool {
    start > bom_skip(c) && c[start - 1] != LF
}

/// The file content with `c[start..end]` replaced by `h`, preceded by a
/// line feed where one is needed to close an unterminated shebang line.
pub open spec fn splice_spec(c: Seq<u8>, start: int, end: int, h: Seq<u8>) -> Seq<u8> {
    c.take(start) + (if needs_pad(c, start) {
        seq![LF]
    } else {
        Seq::empty()
    }) + h + c.skip(end)
}

/// Builds the content with `c[start..end]` replaced by `h`.
fn splice(c: &Vec<u8>, start: usize, end: usize, h: &Vec<u8>) -> (r: Vec<u8>)
    requires
        start <= end <= c@.len(),
    ensures
        r@ == splice_spec(c@, start as int, end as int, h@),
{
    let mut out: Vec<u8> = Vec::new();
    push_range(&mut out, c, 0, start);
    let bom: usize = if c.len() >= 3 && c[0] == BOM0 && c[1] == BOM1 && c[2] == BOM2 {
        3
    } else {
        0
    };
    if start > bom && c[start - 1] != LF {
        out.push(LF);
    }
    push_all(&mut out, h);
    push_range(&mut out, c, end, c.len());
    proof {
        assert(c@.subrange(0, start as int) =~= c@.take(start as int));
        assert(c@.subrange(end as int, c@.len() as int) =~= c@.skip(end as int));
        assert(out@ =~= splice_spec(c@, start as int, end as int, h@));
    }
    out
}

/// The decision table of the engine, applied to one file: the outcome
/// for the requested mode, and the rewritten content where the mode
/// writes one.
pub open spec fn process_spec(
    c: Seq<u8>,
    expected: Seq<u8>,
    style: StyleView,
    id: Seq<u8>,
    mode: Mode,
) -> (Outcome, Option<Seq<u8>>) {
    match match_spec(c, expected, style, id) {
        MatchResult::Correct => (
            if mode is Check {
                Outcome::Compliant
            } else {
                Outcome::AlreadyCompliant
            },
            None,
        ),
        MatchResult::Absent => if mode is Check {
            (Outcome::NonCompliant, None)
        } else {
            (
                Outcome::Inserted,
                Some(splice_spec(c, header_start_spec(c), header_start_spec(c), expected)),
            )
        },
        MatchResult::Stale { start, end } => if mode is Check {
            (Outcome::NonCompliant, None)
        } else {
            (Outcome::Updated, Some(splice_spec(c, start as int, end as int, expected)))
        },
        MatchResult::Foreign => (Outcome::Skipped(SkipReason::Foreign), None),
    }
}

/// Processes one file's content: matches it against the expected
/// wrapped header and, in write mode, computes the rewritten content
/// for a missing or stale header. Foreign blocks are never rewritten.
pub fn process_file(
    c: &Vec<u8>,
    expected: &Vec<u8>,
    style: &CommentStyle,
    id: &Vec<u8>,
    mode: Mode,
) -> (r: (Outcome, Option<Vec<u8>>))
    ensures
        r.0 == process_spec(c@, expected@, style@, id@, mode).0,
        (r.1 is Some) == (process_spec(c@, expected@, style@, id@, mode).1 is Some),
        r.1 matches Some(v) ==> process_spec(c@, expected@, style@, id@, mode).1 == Some(v@),
{
    match match_header(c, expected, style, id) {
        MatchResult::Correct => {
            match mode {
                Mode::Check => (Outcome::Compliant, None),
                Mode::Write => (Outcome::AlreadyCompliant, None),
            }
        },
        MatchResult::Absent => {
            match mode {
                Mode::Check => (Outcome::NonCompliant, None),
                Mode::Write => {
                    let k = header_start(c);
                    let out = splice(c, k, k, expected);
                    (Outcome::Inserted, Some(out))
                },
            }
        },
        MatchResult::Stale { start, end } => {
            match mode {
                Mode::Check => (Outcome::NonCompliant, None),
                Mode::Write => {
                    let out = splice(c, start, end, expected);
                    (Outcome::Updated, Some(out))
                },
            }
        },
        MatchResult::Foreign => (Outcome::Skipped(SkipReason::Foreign), None),
    }
}

/// One candidate file handed to the engine: its path and its content,
/// or `None` when reading it failed.
pub struct WorkItem {
    pub path: Vec<u8>,
    pub content: Option<Vec<u8>>,
}

/// The engine's verdict on one file: its outcome and, in write mode,
/// the content to write back, if any.
pub struct FileReport {
    pub path: Vec<u8>,
    pub outcome: Outcome,
    pub new_content: Option<Vec<u8>>,
}

/// A category of outcomes, for the report's counters.
pub enum Category {
    Inserted,
    Updated,
    Compliant,
    NonCompliant,
    Skipped,
    Failed,
}

/// Whether an outcome falls in a counter's category. Compliance in
/// check mode and in write mode count together.
pub open spec fn in_category(o: Outcome, cat: Category) -> bool {
    match cat {
        Category::Inserted => o is Inserted,
        Category::Updated => o is Updated,
        Category::Compliant => o is Compliant || o is AlreadyCompliant,
        Category::NonCompliant => o is NonCompliant,
        Category::Skipped => o is Skipped,
        Category::Failed => o is Failed,
    }
}

/// How many outcomes of `s` fall in `cat`.
pub open spec fn count_cat(s: Seq<Outcome>, cat: Category) -> int
    decreases s.len(),
{
    if s.len() == 0 {
        0
    } else {
        count_cat(s.drop_last(), cat) + (if in_category(s.last(), cat) {
            1int
        } else {
            0int
        })
    }
}

/// A category's count never exceeds the number of outcomes.
pub proof fn lemma_count_le(s: Seq<Outcome>, cat: Category)
    ensures
        0 <= count_cat(s, cat) <= s.len(),
    decreases s.len(),
{
    if s.len() > 0 {
        lemma_count_le(s.drop_last(), cat);
    }
}

/// Appending one outcome raises exactly its categories' counts by one.
pub proof fn lemma_count_push(s: Seq<Outcome>, o: Outcome, cat: Category)
    ensures
        count_cat(s.push(o), cat) == count_cat(s, cat) + (if in_category(o, cat) {
            1int
        } else {
            0int
        }),
{
    assert(s.push(o).drop_last() =~= s);
    assert(s.push(o).last() == o);
}

/// The outcomes of a sequence of per-file reports, in order.
pub open spec fn outcomes_of(rs: Seq<FileReport>) -> Seq<Outcome> {
    rs.map_values(|r: FileReport| r.outcome)
}

/// The engine's verdict on one work item: a file whose content could
/// not be read fails; a file of an unsupported kind is skipped; any
/// other file is processed against the rendered header wrapped in the
/// file's own comment style.
pub open spec fn file_result_spec(
    item: WorkItem,
    rendered: Seq<u8>,
    id: Seq<u8>,
    mode: Mode,
) -> (Outcome, Option<Seq<u8>>) {
    match item.content {
        None => (Outcome::Failed, None),
        Some(c) => match style_for_spec(item.path@) {
            None => (Outcome::Skipped(SkipReason::Unsupported), None),
            Some(st) => process_spec(c@, wrap_spec(st, rendered), st, id, mode),
        },
    }
}

/// What the engine guarantees of a report: one result per work item in
/// input order, each the engine's verdict on its item, and one counter
/// per outcome category.
pub open spec fn report_matches(
    r: RunReport,
    items: Seq<WorkItem>,
    rendered: Seq<u8>,
    id: Seq<u8>,
    mode: Mode,
) -> bool {
    &&& r.results@.len() == items.len()
    &&& forall|i: int|
        0 <= i < items.len() ==> {
            &&& (#[trigger] r.results@[i]).path@ == items[i].path@
            &&& r.results@[i].outcome == file_result_spec(items[i], rendered, id, mode).0
            &&& (r.results@[i].new_content is Some) == (file_result_spec(
                items[i],
                rendered,
                id,
                mode,
            ).1 is Some)
            &&& (match r.results@[i].new_content {
                Some(v) => file_result_spec(items[i], rendered, id, mode).1 == Some(v@),
                None => true,
            })
        }
    &&& r.inserted == count_cat(outcomes_of(r.results@), Category::Inserted)
    &&& r.updated == count_cat(outcomes_of(r.results@), Category::Updated)
    &&& r.compliant == count_cat(outcomes_of(r.results@), Category::Compliant)
    &&& r.noncompliant == count_cat(outcomes_of(r.results@), Category::NonCompliant)
    &&& r.skipped == count_cat(outcomes_of(r.results@), Category::Skipped)
    &&& r.failed == count_cat(outcomes_of(r.results@), Category::Failed)
}

/// The aggregated result of one run: a per-file report in input order,
/// and a count per outcome category.
pub struct RunReport {
    pub results: Vec<FileReport>,
    pub inserted: usize,
    pub updated: usize,
    pub compliant: usize,
    pub noncompliant: usize,
    pub skipped: usize,
    pub failed: usize,
}

/// The paths of the files that failed, in report order.
pub open spec fn failed_paths_spec(rs: Seq<FileReport>) -> Seq<Seq<u8>>
    decreases rs.len(),
{
    if rs.len() == 0 {
        Seq::empty()
    } else {
        failed_paths_spec(rs.drop_last()) + (if rs.last().outcome is Failed {
            seq![rs.last().path@]
        } else {
            Seq::empty()
        })
    }
}

impl RunReport {
    /// The ordered list of failures: the paths of the files whose
    /// content could not be read, in report order.
    pub fn failed_paths(&self) -> (r: Vec<Vec<u8>>)
        ensures
            crate::scanner::views_of(r@) == failed_paths_spec(self.results@),
    {
        let mut out: Vec<Vec<u8>> = Vec::new();
        let mut i: usize = 0;
        proof {
            assert(self.results@.take(0) =~= Seq::<FileReport>::empty());
            assert(crate::scanner::views_of(out@) =~= Seq::<Seq<u8>>::empty());
        }
        while i < self.results.len()
            invariant
                0 <= i <= self.results@.len(),
                crate::scanner::views_of(out@) == failed_paths_spec(self.results@.take(i as int)),
            decreases self.results@.len() - i,
        {
            let ghost out0 = out@;
            proof {
                assert(self.results@.take(i + 1).drop_last() =~= self.results@.take(i as int));
                assert(self.results@.take(i + 1).last() == self.results@[i as int]);
            }
            match self.results[i].outcome {
                Outcome::Failed => {
                    let p = copy_range(&self.results[i].path, 0, self.results[i].path.len());
                    proof {
                        assert(p@ =~= self.results@[i as int].path@);
                    }
                    out.push(p);
                    proof {
                        assert(crate::scanner::views_of(out@) =~= crate::scanner::views_of(out0)
                            + seq![self.results@[i as int].path@]);
                    }
                },
                _ => {
                    proof {
                        assert(crate::scanner::views_of(out@) =~= crate::scanner::views_of(out0)
                            + Seq::<Seq<u8>>::empty());
                    }
                },
            }
            i += 1;
        }
        proof {
            assert(self.results@.take(self.results@.len() as int) =~= self.results@);
        }
        out
    }
}

/// Processes every work item in order against the rendered header
/// `rendered` and license identifier token `id`, and aggregates the
/// outcomes. One failing file never stops the batch.
pub fn apply_all(items: &Vec<WorkItem>, rendered: &Vec<u8>, id: &Vec<u8>, mode: Mode) -> (r:
    RunReport)
    ensures
        report_matches(r, items@, rendered@, id@, mode),
{
    let mut results: Vec<FileReport> = Vec::new();
    let mut inserted: usize = 0;
    let mut updated: usize = 0;
    let mut compliant: usize = 0;
    let mut noncompliant: usize = 0;
    let mut skipped: usize = 0;
    let mut failed: usize = 0;
    let mut idx: usize = 0;
    while idx < items.len()
        invariant
            0 <= idx <= items@.len(),
            results@.len() == idx,
            forall|i: int|
                0 <= i < idx ==> {
                    &&& (#[trigger] results@[i]).path@ == items@[i].path@
                    &&& results@[i].outcome == file_result_spec(items@[i], rendered@, id@, mode).0
                    &&& (results@[i].new_content is Some) == (file_result_spec(
                        items@[i],
                        rendered@,
                        id@,
                        mode,
                    ).1 is Some)
                    &&& (match results@[i].new_content {
                        Some(v) => file_result_spec(items@[i], rendered@, id@, mode).1 == Some(v@),
                        None => true,
                    })
                },
            inserted == count_cat(outcomes_of(results@), Category::Inserted),
            updated == count_cat(outcomes_of(results@), Category::Updated),
            compliant == count_cat(outcomes_of(results@), Category::Compliant),
            noncompliant == count_cat(outcomes_of(results@), Category::NonCompliant),
            skipped == count_cat(outcomes_of(results@), Category::Skipped),
            failed == count_cat(outcomes_of(results@), Category::Failed),
        decreases items@.len() - idx,
    {
        let item = &items[idx];
        let (outcome, new_content): (Outcome, Option<Vec<u8>>) = match &item.content {
            None => (Outcome::Failed, None),
            Some(content) => {
                match style_for(&item.path) {
                    None => (Outcome::Skipped(SkipReason::Unsupported), None),
                    Some(st) => {
                        let expected = wrap_header(&st, rendered);
                        process_file(content, &expected, &st, id, mode)
                    },
                }
            },
        };
        let path = copy_range(&item.path, 0, item.path.len());
        proof {
            assert(path@ =~= items@[idx as int].path@);
            lemma_count_le(outcomes_of(results@), Category::Inserted);
            lemma_count_le(outcomes_of(results@), Category::Updated);
            lemma_count_le(outcomes_of(results@), Category::Compliant);
            lemma_count_le(outcomes_of(results@), Category::NonCompliant);
            lemma_count_le(outcomes_of(results@), Category::Skipped);
            lemma_count_le(outcomes_of(results@), Category::Failed);
        }
        match outcome {
            Outcome::Inserted => {
                inserted += 1;
            },
            Outcome::Updated => {
                updated += 1;
            },
            Outcome::AlreadyCompliant => {
                compliant += 1;
            },
            Outcome::Compliant => {
                compliant += 1;
            },
            Outcome::NonCompliant => {
                noncompliant += 1;
            },
            Outcome::Skipped(_) => {
                skipped += 1;
            },
            Outcome::Failed => {
                failed += 1;
            },
        }
        let ghost results0 = results@;
        results.push(FileReport { path, outcome, new_content });
        proof {
            assert(results@ =~= results0.push(results@[idx as int]));
            assert(outcomes_of(results@) =~= outcomes_of(results0).push(outcome));
            lemma_count_push(outcomes_of(results0), outcome, Category::Inserted);
            lemma_count_push(outcomes_of(results0), outcome, Category::Updated);
            lemma_count_push(outcomes_of(results0), outcome, Category::Compliant);
            lemma_count_push(outcomes_of(results0), outcome, Category::NonCompliant);
            lemma_count_push(outcomes_of(results0), outcome, Category::Skipped);
            lemma_count_push(outcomes_of(results0), outcome, Category::Failed);
        }
        idx += 1;
    }
    RunReport { results, inserted, updated, compliant, noncompliant, skipped, failed }
}

} // verus!
