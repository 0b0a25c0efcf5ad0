//! Byte-sequence primitives shared by the engine: anchored match,
//! substring search, line scanning, and range copying, each with an
//! exact specification.

use vstd::prelude::*;

verus! {

/// Line feed, the only line terminator the engine recognizes.
pub const LF: u8 = 10;
/// `#`, first byte of a shebang line.
pub const HASH: u8 = 35;
/// `!`, second byte of a shebang line and the ignore-negation marker.
pub const BANG: u8 = 33;

/// `needle` occurs in `hay` exactly at position `at`.
pub open spec fn matches_at_spec(hay: Seq<u8>, at: int, needle: Seq<u8>) -> bool {
    &&& 0 <= at
    &&& at + needle.len() <= hay.len()
    &&& hay.subrange(at, at + needle.len()) == needle
}

/// Position of the first occurrence of byte `b` in `hay` at or after `from`.
pub open spec fn find_byte_spec(hay: Seq<u8>, from: int, b: u8) -> Option<int>
    decreases hay.len() - from,
{
    if from < 0 || from >= hay.len() {
        None
    } else if hay[from] == b {
        Some(from)
    } else {
        find_byte_spec(hay, from + 1, b)
    }
}

/// Position of the first occurrence of `needle` in `hay` at or after `from`.
pub open spec fn find_sub_spec(hay: Seq<u8>, from: int, needle: Seq<u8>) -> Option<int>
    decreases hay.len() - from,
{
    if from < 0 || from + needle.len() > hay.len() {
        None
    } else if needle.len() == 0 {
        Some(from)
    } else if matches_at_spec(hay, from, needle) {
        Some(from)
    } else {
        find_sub_spec(hay, from + 1, needle)
    }
}

/// A position that holds `b`, with no earlier occurrence, is the one
/// `find_byte_spec` returns.
pub proof fn lemma_find_byte_is(hay: Seq<u8>, from: int, b: u8, i: int)
    requires
        0 <= from <= i < hay.len(),
        hay[i] == b,
        forall|j: int| from <= j < i ==> hay[j] != b,
    ensures
        find_byte_spec(hay, from, b) == Some(i),
    decreases i - from,
{
    if from < i {
        lemma_find_byte_is(hay, from + 1, b, i);
    }
}

/// When no position at or after `from` holds `b`, `find_byte_spec` is `None`.
pub proof fn lemma_find_byte_none(hay: Seq<u8>, from: int, b: u8)
    requires
        0 <= from,
        forall|j: int| from <= j < hay.len() ==> hay[j] != b,
    ensures
        find_byte_spec(hay, from, b) is None,
    decreases hay.len() - from,
{
    if from < hay.len() {
        lemma_find_byte_none(hay, from + 1, b);
    }
}

/// What `find_byte_spec` returns is a first occurrence.
pub proof fn lemma_find_byte_first(hay: Seq<u8>, from: int, b: u8)
    requires
        0 <= from,
    ensures
        match find_byte_spec(hay, from, b) {
            Some(i) => from <= i < hay.len() && hay[i] == b && forall|j: int|
                from <= j < i ==> hay[j] != b,
            None => forall|j: int| from <= j < hay.len() ==> hay[j] != b,
        },
    decreases hay.len() - from,
{
    if from < hay.len() && hay[from] != b {
        lemma_find_byte_first(hay, from + 1, b);
    }
}

/// A match position with no earlier match is the one `find_sub_spec` returns.
pub proof fn lemma_find_sub_is(hay: Seq<u8>, from: int, needle: Seq<u8>, i: int)
    requires
        0 <= from <= i,
        matches_at_spec(hay, i, needle),
        forall|j: int| from <= j < i ==> !matches_at_spec(hay, j, needle),
    ensures
        find_sub_spec(hay, from, needle) == Some(i),
    decreases i - from,
{
    if needle.len() == 0 {
        assert(hay.subrange(from, from) =~= needle);
        assert(matches_at_spec(hay, from, needle));
        assert(i == from);
    } else if from < i {
        lemma_find_sub_is(hay, from + 1, needle, i);
    }
}

/// When nothing at or after `from` matches, `find_sub_spec` is `None`.
pub proof fn lemma_find_sub_none(hay: Seq<u8>, from: int, needle: Seq<u8>)
    requires
        0 <= from,
        forall|j: int| from <= j ==> !matches_at_spec(hay, j, needle),
    ensures
        find_sub_spec(hay, from, needle) is None,
    decreases hay.len() - from,
{
    if needle.len() == 0 && from <= hay.len() {
        assert(hay.subrange(from, from) =~= needle);
        assert(matches_at_spec(hay, from, needle));
    }
    if from + needle.len() <= hay.len() {
        lemma_find_sub_none(hay, from + 1, needle);
    }
}

/// What `find_sub_spec` returns is a first match.
pub proof fn lemma_find_sub_first(hay: Seq<u8>, from: int, needle: Seq<u8>)
    requires
        0 <= from,
    ensures
        match find_sub_spec(hay, from, needle) {
            Some(i) => from <= i && matches_at_spec(hay, i, needle) && forall|j: int|
                from <= j < i ==> !matches_at_spec(hay, j, needle),
            None => forall|j: int| from <= j ==> !matches_at_spec(hay, j, needle),
        },
    decreases hay.len() - from,
{
    if from + needle.len() > hay.len() {
        assert forall|j: int| from <= j implies !matches_at_spec(hay, j, needle) by {}
    } else if needle.len() == 0 {
        assert(hay.subrange(from, from) =~= needle);
    } else if !matches_at_spec(hay, from, needle) {
        lemma_find_sub_first(hay, from + 1, needle);
    }
}

/// Position of the last occurrence of byte `b` in `hay`.
pub open spec fn rfind_byte_spec(hay: Seq<u8>, b: u8) -> Option<int>
    decreases hay.len(),
{
    if hay.len() == 0 {
        None
    } else if hay.last() == b {
        Some(hay.len() - 1)
    } else {
        rfind_byte_spec(hay.drop_last(), b)
    }
}

/// Position of the last occurrence of byte `b` in `hay`.
pub fn rfind_byte(hay: &Vec<u8>, b: u8) -> (r: Option<usize>)
    ensures
        match r {
            Some(i) => i < hay@.len() && rfind_byte_spec(hay@, b) == Some(i as int),
            None => rfind_byte_spec(hay@, b) is None,
        },
{
    let mut i: usize = hay.len();
    proof {
        assert(hay@.take(i as int) =~= hay@);
    }
    while i > 0
        invariant
            i <= hay@.len(),
            rfind_byte_spec(hay@, b) == rfind_byte_spec(hay@.take(i as int), b),
        decreases i,
    {
        proof {
            assert(hay@.take(i as int).last() == hay@[i - 1]);
            assert(hay@.take(i as int).drop_last() =~= hay@.take(i - 1));
        }
        if hay[i - 1] == b {
            return Some(i - 1);
        }
        i -= 1;
    }
    proof {
        assert(hay@.take(0) =~= Seq::<u8>::empty());
    }
    None
}

/// Whether `needle` occurs in `hay` exactly at position `at`.
pub fn matches_at(hay: &Vec<u8>, at: usize, needle: &Vec<u8>) -> (r: bool)
    ensures
        r == matches_at_spec(hay@, at as int, needle@),
{
    if at > hay.len() || hay.len() - at < needle.len() {
        return false;
    }
    let hn = hay.len();
    let mut j: usize = 0;
    while j < needle.len()
        invariant
            hay@.len() == hn,
            at + needle@.len() <= hay@.len(),
            0 <= j <= needle@.len(),
            forall|k: int| 0 <= k < j ==> hay@[at + k] == needle@[k],
        decreases needle@.len() - j,
    {
        if hay[at + j] != needle[j] {
            proof {
                assert(hay@.subrange(at as int, at + needle@.len())[j as int] == hay@[at + j]);
            }
            return false;
        }
        j += 1;
    }
    proof {
        assert(hay@.subrange(at as int, at + needle@.len()) =~= needle@);
    }
    true
}

/// First occurrence of byte `b` in `hay` at or after `from`.
pub fn find_byte(hay: &Vec<u8>, from: usize, b: u8) -> (r: Option<usize>)
    ensures
        match r {
            Some(i) => from <= i < hay@.len() && find_byte_spec(hay@, from as int, b) == Some(
                i as int,
            ),
            None => find_byte_spec(hay@, from as int, b) is None,
        },
{
    let mut i: usize = from;
    while i < hay.len()
        invariant
            from <= i,
            forall|j: int| from <= j < i ==> hay@[j] != b,
        decreases hay@.len() - i,
    {
        if hay[i] == b {
            proof {
                lemma_find_byte_is(hay@, from as int, b, i as int);
            }
            return Some(i);
        }
        i += 1;
    }
    proof {
        lemma_find_byte_none(hay@, from as int, b);
    }
    None
}

/// First occurrence of `needle` in `hay` at or after `from`.
pub fn find_sub(hay: &Vec<u8>, from: usize, needle: &Vec<u8>) -> (r: Option<usize>)
    ensures
        match r {
            Some(i) => from <= i && i + needle@.len() <= hay@.len() && find_sub_spec(
                hay@,
                from as int,
                needle@,
            ) == Some(i as int),
            None => find_sub_spec(hay@, from as int, needle@) is None,
        },
{
    let mut i: usize = from;
    loop
        invariant
            from <= i,
            forall|j: int| from <= j < i ==> !matches_at_spec(hay@, j, needle@),
        decreases hay@.len() + 1 - i,
    {
        if i > hay.len() || hay.len() - i < needle.len() {
            proof {
                assert forall|j: int| from <= j implies !matches_at_spec(hay@, j, needle@) by {
                    if j < i {
                    } else {
                        assert(j + needle@.len() > hay@.len());
                    }
                }
                lemma_find_sub_none(hay@, from as int, needle@);
            }
            return None;
        }
        if matches_at(hay, i, needle) {
            proof {
                lemma_find_sub_is(hay@, from as int, needle@, i as int);
            }
            return Some(i);
        }
        proof {
            if needle@.len() == 0 {
                assert(hay@.subrange(i as int, i as int) =~= needle@);
                assert(false);
            }
        }
        i += 1;
    }
}

/// Appends `src[from..to]` to `out`.
pub fn push_range(out: &mut Vec<u8>, src: &Vec<u8>, from: usize, to: usize)
    requires
        from <= to <= src@.len(),
    ensures
        final(out)@ == old(out)@ + src@.subrange(from as int, to as int),
{
    let mut i: usize = from;
    while i < to
        invariant
            from <= i <= to <= src@.len(),
            out@ == old(out)@ + src@.subrange(from as int, i as int),
        decreases to - i,
    {
        out.push(src[i]);
        proof {
            assert(src@.subrange(from as int, i + 1 as int) =~= src@.subrange(
                from as int,
                i as int,
            ).push(src@[i as int]));
        }
        i += 1;
    }
}

/// Appends the whole of `src` to `out`.
pub fn push_all(out: &mut Vec<u8>, src: &Vec<u8>)
    ensures
        final(out)@ == old(out)@ + src@,
{
    push_range(out, src, 0, src.len());
    proof {
        assert(src@.subrange(0, src@.len() as int) =~= src@);
    }
}

/// A fresh copy of `src[from..to]`.
pub fn copy_range(src: &Vec<u8>, from: usize, to: usize) -> (r: Vec<u8>)
    requires
        from <= to <= src@.len(),
    ensures
        r@ == src@.subrange(from as int, to as int),
{
    let mut out: Vec<u8> = Vec::new();
    push_range(&mut out, src, from, to);
    out
}

/// Whether two byte vectors hold the same bytes.
pub fn eq_bytes(a: &Vec<u8>, b: &Vec<u8>) -> (r: bool)
    ensures
        r == (a@ == b@),
{
    if a.len() != b.len() {
        return false;
    }
    let r = matches_at(a, 0, b);
    proof {
        if r {
            assert(a@.subrange(0, b@.len() as int) =~= a@);
        } else {
            assert(a@.subrange(0, b@.len() as int) =~= a@);
        }
    }
    r
}

} // verus!
