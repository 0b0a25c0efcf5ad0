//! Header matcher: reads the top of a file and decides whether the
//! expected header is absent, present and correct, present but stale,
//! or whether an unrelated (foreign) comment block owns that spot.
//!
//! Matching is tiered so that false positives are impossible: an exact
//! byte match wins; otherwise a leading comment block in the same style
//! is stale only when it carries the expected license identifier token,
//! and is left alone as foreign otherwise.

use vstd::prelude::*;
use crate::bytes::{BANG, HASH, LF, find_byte, find_byte_spec, find_sub, find_sub_spec,
    lemma_find_byte_first, lemma_find_sub_first, matches_at, matches_at_spec};
use crate::style::{CommentStyle, StyleView};

verus! {

/// First byte of a UTF-8 byte-order mark.
pub const BOM0: u8 = 239;
/// Second byte of a UTF-8 byte-order mark.
pub const BOM1: u8 = 187;
/// Third byte of a UTF-8 byte-order mark.
pub const BOM2: u8 = 191;

/// Whether the file begins with a UTF-8 byte-order mark.
pub open spec fn has_bom(c: Seq<u8>) -> bool {
    c.len() >= 3 && c[0] == BOM0 && c[1] == BOM1 && c[2] == BOM2
}

/// The position right after a leading byte-order mark, or `0`.
pub open spec fn bom_skip(c: Seq<u8>) -> int {
    if has_bom(c) {
        3
    } else {
        0
    }
}

/// Whether a shebang line begins at position `at`.
pub open spec fn has_shebang_at(c: Seq<u8>, at: int) -> bool {
    0 <= at && at + 2 <= c.len() && c[at] == HASH && c[at + 1] == BANG
}

/// Whether a shebang line begins at the file's (BOM-adjusted) top.
pub open spec fn has_shebang(c: Seq<u8>) -> bool {
    has_shebang_at(c, bom_skip(c))
}

/// Where the header is expected to start: right after a leading
/// byte-order mark and, when a shebang line follows, right after that
/// line. Both are preserved untouched by every operation.
pub open spec fn header_start_spec(c: Seq<u8>) -> int {
    let b = bom_skip(c);
    if has_shebang_at(c, b) {
        match find_byte_spec(c, b, LF) {
            Some(i) => i + 1,
            None => c.len() as int,
        }
    } else {
        b
    }
}

/// The header start position never leaves the file.
pub proof fn lemma_header_start_bounds(c: Seq<u8>)
    ensures
        bom_skip(c) <= header_start_spec(c) <= c.len(),
        0 <= bom_skip(c) <= c.len(),
{
    if has_shebang_at(c, bom_skip(c)) {
        lemma_find_byte_first(c, bom_skip(c), LF);
    }
}

/// Where the header is expected to start: after a leading byte-order
/// mark and a shebang line, when the file has them.
pub fn header_start(c: &Vec<u8>) -> (r: usize)
    ensures
        r as int == header_start_spec(c@),
        r <= c@.len(),
{
    let b: usize = if c.len() >= 3 && c[0] == BOM0 && c[1] == BOM1 && c[2] == BOM2 {
        3
    } else {
        0
    };
    if c.len() - b >= 2 && c[b] == HASH && c[b + 1] == BANG {
        match find_byte(c, b, LF) {
            Some(i) => i + 1,
            None => c.len(),
        }
    } else {
        b
    }
}

/// The end of the run of lines starting at `from` that all begin with
/// `prefix`: the position right after the last such line.
pub open spec fn line_block_end(c: Seq<u8>, from: int, prefix: Seq<u8>) -> int
    decreases c.len() - from,
    via line_block_end_decreases
{
    if !matches_at_spec(c, from, prefix) {
        from
    } else {
        match find_byte_spec(c, from, LF) {
            None => c.len() as int,
            Some(i) => line_block_end(c, i + 1, prefix),
        }
    }
}

#[via_fn]
proof fn line_block_end_decreases(c: Seq<u8>, from: int, prefix: Seq<u8>) {
    if matches_at_spec(c, from, prefix) {
        lemma_find_byte_first(c, from, LF);
    }
}

/// A line block's end stays within the file and after its start.
pub proof fn lemma_line_block_end_bounds(c: Seq<u8>, from: int, prefix: Seq<u8>)
    requires
        0 <= from <= c.len(),
    ensures
        from <= line_block_end(c, from, prefix) <= c.len(),
    decreases c.len() - from,
{
    if matches_at_spec(c, from, prefix) {
        lemma_find_byte_first(c, from, LF);
        match find_byte_spec(c, from, LF) {
            None => (),
            Some(i) => lemma_line_block_end_bounds(c, i + 1, prefix),
        }
    }
}

/// The end of the run of lines starting at `from` that begin with `prefix`.
fn line_block_end_exec(c: &Vec<u8>, from: usize, prefix: &Vec<u8>) -> (r: usize)
    requires
        from <= c@.len(),
    ensures
        r as int == line_block_end(c@, from as int, prefix@),
        r <= c@.len(),
{
    let n = c.len();
    let mut pos: usize = from;
    loop
        invariant
            c@.len() == n,
            0 <= pos <= c@.len(),
            line_block_end(c@, from as int, prefix@) == line_block_end(c@, pos as int, prefix@),
        decreases c@.len() - pos,
    {
        if !matches_at(c, pos, prefix) {
            return pos;
        }
        match find_byte(c, pos, LF) {
            None => {
                return c.len();
            },
            Some(i) => {
                pos = i + 1;
            },
        }
    }
}

/// The extent of a leading comment block in `style` at `from`: `None`
/// when no block in that style starts there, else the position right
/// after the block. A line block runs while lines carry the prefix; a
/// block comment runs to its closing marker (its trailing line feed
/// included), and an unterminated one counts as no block.
pub open spec fn block_extent(c: Seq<u8>, from: int, style: StyleView) -> Option<int> {
    match style {
        StyleView::Line { prefix } => if matches_at_spec(c, from, prefix) {
            Some(line_block_end(c, from, prefix))
        } else {
            None
        },
        StyleView::Block { open, cont, close } => if matches_at_spec(c, from, open) {
            match find_sub_spec(c, from + open.len(), close) {
                None => None,
                Some(j) => if j + close.len() < c.len() && c[j + close.len()] == LF {
                    Some(j + close.len() + 1)
                } else {
                    Some(j + close.len())
                },
            }
        } else {
            None
        },
    }
}

/// A block's extent stays within the file and after its start.
pub proof fn lemma_block_extent_bounds(c: Seq<u8>, from: int, style: StyleView)
    requires
        0 <= from <= c.len(),
    ensures
        match block_extent(c, from, style) {
            Some(e) => from <= e <= c.len(),
            None => true,
        },
{
    match style {
        StyleView::Line { prefix } => {
            lemma_line_block_end_bounds(c, from, prefix);
        },
        StyleView::Block { open, cont, close } => {
            if matches_at_spec(c, from, open) {
                lemma_find_sub_first(c, from + open.len(), close);
            }
        },
    }
}

/// The extent of a leading comment block in `style` at `from`.
fn block_extent_exec(c: &Vec<u8>, from: usize, style: &CommentStyle) -> (r: Option<usize>)
    requires
        from <= c@.len(),
    ensures
        match r {
            Some(e) => block_extent(c@, from as int, style@) == Some(e as int) && from <= e
                <= c@.len(),
            None => block_extent(c@, from as int, style@) is None,
        },
{
    match style {
        CommentStyle::Line { prefix } => {
            if matches_at(c, from, prefix) {
                proof {
                    lemma_line_block_end_bounds(c@, from as int, prefix@);
                }
                Some(line_block_end_exec(c, from, prefix))
            } else {
                None
            }
        },
        CommentStyle::Block { open, cont, close } => {
            let n = c.len();
            if matches_at(c, from, open) {
                match find_sub(c, from + open.len(), close) {
                    None => None,
                    Some(j) => {
                        let e = j + close.len();
                        if e < c.len() && c[e] == LF {
                            Some(e + 1)
                        } else {
                            Some(e)
                        }
                    },
                }
            } else {
                None
            }
        },
    }
}

/// `needle` occurs somewhere in `c[from..to]`.
pub open spec fn contains_in(c: Seq<u8>, from: int, to: int, needle: Seq<u8>) -> bool {
    exists|i: int| from <= i && i + needle.len() <= to && matches_at_spec(c, i, needle)
}

/// Whether `needle` occurs somewhere in `c[from..to]`.
fn contains_in_exec(c: &Vec<u8>, from: usize, to: usize, needle: &Vec<u8>) -> (r: bool)
    requires
        from <= to <= c@.len(),
    ensures
        r == contains_in(c@, from as int, to as int, needle@),
{
    if to - from < needle.len() {
        proof {
            assert forall|i: int|
                from <= i && i + needle@.len() <= to implies !matches_at_spec(c@, i, needle@) by {
                assert(i + needle@.len() > to);
            }
        }
        return false;
    }
    let last = to - needle.len();
    let mut i: usize = from;
    while i <= last
        invariant
            from <= i <= last + 1,
            last == to - needle@.len(),
            from <= to <= c@.len(),
            needle@.len() <= to - from,
            forall|j: int| from <= j < i ==> !matches_at_spec(c@, j, needle@),
        decreases last + 1 - i,
    {
        if matches_at(c, i, needle) {
            proof {
                assert(from <= i as int && i as int + needle@.len() <= to as int
                    && matches_at_spec(c@, i as int, needle@));
            }
            return true;
        }
        if i == last {
            proof {
                assert forall|j: int|
                    from <= j && j + needle@.len() <= to implies !matches_at_spec(
                    c@,
                    j,
                    needle@,
                ) by {
                    assert(j <= last as int);
                }
            }
            return false;
        }
        i += 1;
    }
    proof {
        assert forall|j: int|
            from <= j && j + needle@.len() <= to implies !matches_at_spec(c@, j, needle@) by {
            assert(j <= last as int);
        }
    }
    false
}

/// The tiered verdict on a file's top: the expected header is absent,
/// exactly present, present but stale (same style and license token,
/// different text; `start..end` is the byte span to replace), or the
/// spot is owned by a foreign comment block that must not be touched.
#[derive(Clone, Copy, Debug, PartialEq, Eq, Structural)]
pub enum MatchResult {
    Absent,
    Correct,
    Stale { start: usize, end: usize },
    Foreign,
}

/// The match verdict for content `c` against the expected wrapped
/// header, the comment style it is wrapped in, and the license
/// identifier token: exact match at the header start position is
/// `Correct`; else a same-style block there carrying the identifier is
/// `Stale` over its span; else such a block without the identifier is
/// `Foreign`; else `Absent`.
pub open spec fn match_spec(c: Seq<u8>, expected: Seq<u8>, style: StyleView, id: Seq<u8>) -> MatchResult {
    let k = header_start_spec(c);
    if matches_at_spec(c, k, expected) {
        MatchResult::Correct
    } else {
        match block_extent(c, k, style) {
            None => MatchResult::Absent,
            Some(e) => if contains_in(c, k, e, id) {
                MatchResult::Stale { start: k as usize, end: e as usize }
            } else {
                MatchResult::Foreign
            },
        }
    }
}

/// Matches the leading bytes of `c` against the expected wrapped header.
pub fn match_header(c: &Vec<u8>, expected: &Vec<u8>, style: &CommentStyle, id: &Vec<u8>) -> (r:
    MatchResult)
    ensures
        r == match_spec(c@, expected@, style@, id@),
        r matches MatchResult::Stale { start, end } ==> start <= end <= c@.len(),
{
    let k = header_start(c);
    if matches_at(c, k, expected) {
        MatchResult::Correct
    } else {
        match block_extent_exec(c, k, style) {
            None => MatchResult::Absent,
            Some(e) => {
                if contains_in_exec(c, k, e, id) {
                    MatchResult::Stale { start: k, end: e }
                } else {
                    MatchResult::Foreign
                }
            },
        }
    }
}

} // verus!
