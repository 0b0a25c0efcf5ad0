//! The engine's global guarantees, stated and proved over the same
//! specifications its functions promise: writing is idempotent, foreign
//! comment blocks are never touched, a byte-order mark and a shebang
//! line survive every write, and a run is a function of its inputs.

use vstd::prelude::*;
use crate::bytes::{BANG, HASH, LF, find_byte_spec, lemma_find_byte_first, lemma_find_byte_is,
    matches_at_spec};
use crate::engine::{Mode, Outcome, RunReport, SkipReason, WorkItem, needs_pad, outcomes_of,
    process_spec, report_matches, splice_spec};
use crate::matcher::{BOM0, MatchResult, block_extent, bom_skip, has_bom, has_shebang,
    has_shebang_at, header_start_spec, lemma_block_extent_bounds, lemma_header_start_bounds,
    match_spec};
use crate::style::StyleView;

verus! {

/// Splicing the expected header over a span that begins at the header
/// start position leaves the prefix before it untouched and produces
/// content that matches the header exactly — provided the header itself
/// could not be mistaken for a byte-order mark or a shebang line.
proof fn lemma_splice_header(c: Seq<u8>, exp: Seq<u8>, st: StyleView, id: Seq<u8>, end: int)
    requires
        exp.len() >= 2,
        !(exp[0] == HASH && exp[1] == BANG),
        exp[0] != BOM0,
        header_start_spec(c) <= end <= c.len(),
    ensures
        ({
            let k = header_start_spec(c);
            let c2 = splice_spec(c, k, end, exp);
            &&& c2.take(k) == c.take(k)
            &&& has_bom(c2) == has_bom(c)
            &&& has_shebang(c2) == has_shebang(c)
            &&& matches_at_spec(c2, header_start_spec(c2), exp)
            &&& match_spec(c2, exp, st, id) is Correct
        }),
{
    lemma_header_start_bounds(c);
    let b = bom_skip(c);
    lemma_find_byte_first(c, b, LF);
    let k = header_start_spec(c);
    let pad: Seq<u8> = if needs_pad(c, k) {
        seq![LF]
    } else {
        Seq::empty()
    };
    let c2 = splice_spec(c, k, end, exp);
    assert(c2 == c.take(k) + pad + exp + c.skip(end));
    let kk = k + pad.len();
    assert(forall|j: int| 0 <= j < k ==> c2[j] == c[j]);
    assert(forall|j: int| 0 <= j < exp.len() ==> c2[kk + j] == exp[j]);
    assert(c2.take(k) =~= c.take(k));
    if has_bom(c) {
        assert(has_bom(c2));
    } else {
        if k == 0 {
            assert(c2[0] == exp[0]);
            assert(!has_bom(c2));
        } else {
            assert(has_shebang_at(c, 0));
            assert(c2[0] == HASH);
            assert(!has_bom(c2));
        }
    }
    assert(bom_skip(c2) == b);
    if !has_shebang_at(c, b) {
        assert(k == b);
        assert(!needs_pad(c, k));
        assert(pad.len() == 0 && kk == b);
        assert(c2[b] == exp[0] && c2[b + 1] == exp[1]);
        assert(!has_shebang_at(c2, b));
        assert(header_start_spec(c2) == b);
    } else {
        match find_byte_spec(c, b, LF) {
            Some(i) => {
                assert(k == i + 1);
                assert(c[i] == LF);
                assert(i >= b + 2);
                assert(!needs_pad(c, k));
                assert(pad.len() == 0);
                assert(c2[k - 1] == LF);
                assert(forall|j: int| b <= j < k - 1 ==> c2[j] != LF);
                assert(has_shebang_at(c2, b));
                lemma_find_byte_is(c2, b, LF, k - 1);
                assert(header_start_spec(c2) == k);
            },
            None => {
                assert(k == c.len());
                assert(forall|j: int| b <= j < c.len() ==> c[j] != LF);
                assert(needs_pad(c, k));
                assert(pad.len() == 1);
                assert(c2[k] == LF);
                assert(forall|j: int| b <= j < k ==> c2[j] != LF);
                assert(has_shebang_at(c2, b));
                lemma_find_byte_is(c2, b, LF, k);
                assert(header_start_spec(c2) == k + 1);
            },
        }
        assert(header_start_spec(c2) == kk);
    }
    assert(c2.subrange(kk, kk + exp.len()) =~= exp);
    assert(matches_at_spec(c2, kk, exp));
}

/// Idempotence of write mode: whenever a write-mode pass rewrites a
/// file, a second write-mode pass over the rewritten content reports it
/// already compliant and changes nothing; a pass that wrote nothing had
/// found the file compliant or skipped it. Holds for every expected
/// header that does not itself begin like a shebang line or a
/// byte-order mark.
pub proof fn lemma_write_idempotent(c: Seq<u8>, exp: Seq<u8>, st: StyleView, id: Seq<u8>)
    requires
        exp.len() >= 2,
        !(exp[0] == HASH && exp[1] == BANG),
        exp[0] != BOM0,
        c.len() <= usize::MAX,
    ensures
        ({
            let r1 = process_spec(c, exp, st, id, Mode::Write);
            &&& (match r1.1 {
                Some(c2) => process_spec(c2, exp, st, id, Mode::Write) == (
                    Outcome::AlreadyCompliant,
                    None::<Seq<u8>>,
                ),
                None => true,
            })
            &&& (r1.1 is None ==> r1.0 is AlreadyCompliant || r1.0 is Skipped)
        }),
{
    lemma_header_start_bounds(c);
    let k = header_start_spec(c);
    match match_spec(c, exp, st, id) {
        MatchResult::Correct => {},
        MatchResult::Absent => {
            lemma_splice_header(c, exp, st, id, k);
        },
        MatchResult::Stale { start, end } => {
            lemma_block_extent_bounds(c, k, st);
            match block_extent(c, k, st) {
                Some(e) => {
                    assert(start as int == k);
                    assert(end as int == e);
                    lemma_splice_header(c, exp, st, id, e);
                },
                None => {
                    assert(false);
                },
            }
        },
        MatchResult::Foreign => {},
    }
}

/// Non-destructive matching: a file whose top is owned by a foreign
/// comment block — same delimiters, no recognized license token — is
/// reported skipped and never modified, in either mode; repeated runs
/// therefore leave it unchanged forever.
pub proof fn lemma_foreign_untouched(
    c: Seq<u8>,
    exp: Seq<u8>,
    st: StyleView,
    id: Seq<u8>,
    mode: Mode,
)
    requires
        match_spec(c, exp, st, id) is Foreign,
    ensures
        process_spec(c, exp, st, id, mode) == (
            Outcome::Skipped(SkipReason::Foreign),
            None::<Seq<u8>>,
        ),
{
}

/// Shebang preservation: whenever a write-mode pass rewrites a file
/// that begins with a shebang line, everything up to the end of that
/// line — a byte-order mark included — is byte-identical afterwards,
/// the rewritten file still begins with the shebang, and the header
/// stands immediately after the (newline-terminated) shebang line.
pub proof fn lemma_shebang_preserved(c: Seq<u8>, exp: Seq<u8>, st: StyleView, id: Seq<u8>)
    requires
        has_shebang(c),
        exp.len() >= 2,
        !(exp[0] == HASH && exp[1] == BANG),
        exp[0] != BOM0,
        c.len() <= usize::MAX,
    ensures
        ({
            let r1 = process_spec(c, exp, st, id, Mode::Write);
            let k = header_start_spec(c);
            match r1.1 {
                Some(c2) => c2.take(k) == c.take(k) && has_shebang(c2) && matches_at_spec(
                    c2,
                    header_start_spec(c2),
                    exp,
                ),
                None => true,
            }
        }),
{
    lemma_header_start_bounds(c);
    let k = header_start_spec(c);
    match match_spec(c, exp, st, id) {
        MatchResult::Correct => {},
        MatchResult::Absent => {
            lemma_splice_header(c, exp, st, id, k);
        },
        MatchResult::Stale { start, end } => {
            lemma_block_extent_bounds(c, k, st);
            match block_extent(c, k, st) {
                Some(e) => {
                    assert(end as int == e);
                    lemma_splice_header(c, exp, st, id, e);
                },
                None => {
                    assert(false);
                },
            }
        },
        MatchResult::Foreign => {},
    }
}

/// Determinism: any two reports the engine guarantees for the same
/// items, rendered header, identifier and mode agree file by file — on
/// paths, outcomes and rewritten contents — and on every counter.
pub proof fn lemma_report_deterministic(
    r1: RunReport,
    r2: RunReport,
    items: Seq<WorkItem>,
    rendered: Seq<u8>,
    id: Seq<u8>,
    mode: Mode,
)
    requires
        report_matches(r1, items, rendered, id, mode),
        report_matches(r2, items, rendered, id, mode),
    ensures
        r1.results@.len() == r2.results@.len(),
        forall|i: int|
            0 <= i < r1.results@.len() ==> (#[trigger] r1.results@[i]).path@
                == r2.results@[i].path@,
        forall|i: int|
            0 <= i < r1.results@.len() ==> (#[trigger] r1.results@[i]).outcome
                == r2.results@[i].outcome,
        forall|i: int|
            0 <= i < r1.results@.len() ==> ((#[trigger] r1.results@[i]).new_content is Some) == (
            r2.results@[i].new_content is Some),
        forall|i: int|
            0 <= i < r1.results@.len() ==> (match (
                (#[trigger] r1.results@[i]).new_content,
                r2.results@[i].new_content,
            ) {
                (Some(a), Some(b)) => a@ == b@,
                _ => true,
            }),
        r1.inserted == r2.inserted,
        r1.updated == r2.updated,
        r1.compliant == r2.compliant,
        r1.noncompliant == r2.noncompliant,
        r1.skipped == r2.skipped,
        r1.failed == r2.failed,
{
    assert(outcomes_of(r1.results@) =~= outcomes_of(r2.results@));
}

} // verus!
