//! Workspace scanner rules: glob matching over paths, ignore-pattern
//! exclusion with gitignore-style precedence (the last matching pattern
//! wins, a leading `!` re-includes), parsing of version-control ignore
//! files into patterns, order-preserving filtering of candidate paths,
//! and their deterministic lexicographic ordering.
//!
//! Directory traversal itself is I/O and lives with the caller; these
//! rules decide, for any path the traversal yields, whether the engine
//! may see it and in which order.

use vstd::prelude::*;
use crate::bytes::{BANG, HASH, LF, copy_range, find_byte, find_byte_spec, lemma_find_byte_first};

verus! {

/// `*`, which matches any run of bytes.
pub const STAR: u8 = 42;
/// `?`, which matches any single byte.
pub const QMARK: u8 = 63;

/// Whether glob pattern `p` matches the whole of `s`: `*` matches any
/// run of bytes, `?` any single byte, every other byte only itself.
pub open spec fn glob_match(p: Seq<u8>, s: Seq<u8>) -> bool
    decreases p.len(), s.len(),
{
    if p.len() == 0 {
        s.len() == 0
    } else if p[0] == STAR {
        glob_match(p.drop_first(), s) || (s.len() > 0 && glob_match(p, s.drop_first()))
    } else {
        s.len() > 0 && (p[0] == QMARK || p[0] == s[0]) && glob_match(
            p.drop_first(),
            s.drop_first(),
        )
    }
}

/// Whether the pattern suffix `p[pi..]` matches the path suffix `s[si..]`.
fn glob_match_at(p: &Vec<u8>, pi: usize, s: &Vec<u8>, si: usize) -> (r: bool)
    requires
        pi <= p@.len(),
        si <= s@.len(),
    ensures
        r == glob_match(p@.skip(pi as int), s@.skip(si as int)),
    decreases p@.len() - pi, s@.len() - si,
{
    proof {
        assert(p@.skip(pi as int).len() == p@.len() - pi);
        assert(s@.skip(si as int).len() == s@.len() - si);
        if pi < p@.len() {
            assert(p@.skip(pi as int)[0] == p@[pi as int]);
            assert(p@.skip(pi as int).drop_first() =~= p@.skip(pi + 1));
        }
        if si < s@.len() {
            assert(s@.skip(si as int)[0] == s@[si as int]);
            assert(s@.skip(si as int).drop_first() =~= s@.skip(si + 1));
        }
    }
    if pi == p.len() {
        si == s.len()
    } else if p[pi] == STAR {
        if glob_match_at(p, pi + 1, s, si) {
            true
        } else if si < s.len() {
            glob_match_at(p, pi, s, si + 1)
        } else {
            false
        }
    } else if si < s.len() && (p[pi] == QMARK || p[pi] == s[si]) {
        glob_match_at(p, pi + 1, s, si + 1)
    } else {
        false
    }
}

/// Whether glob pattern `p` matches the whole of path `s`.
pub fn glob_matches(p: &Vec<u8>, s: &Vec<u8>) -> (r: bool)
    ensures
        r == glob_match(p@, s@),
{
    proof {
        assert(p@.skip(0) =~= p@);
        assert(s@.skip(0) =~= s@);
    }
    glob_match_at(p, 0, s, 0)
}

/// The views of a sequence of byte vectors.
pub open spec fn views_of(s: Seq<Vec<u8>>) -> Seq<Seq<u8>> {
    Seq::new(s.len(), |i: int| s[i]@)
}

/// Whether `path` is excluded by the patterns, the last matching
/// pattern deciding: a pattern starting with `!` that matches
/// re-includes the path, any other matching pattern excludes it, and a
/// path no pattern matches is included.
pub open spec fn excluded(path: Seq<u8>, patterns: Seq<Seq<u8>>) -> bool
    decreases patterns.len(),
{
    if patterns.len() == 0 {
        false
    } else {
        let p = patterns.last();
        if p.len() > 0 && p[0] == BANG {
            if glob_match(p.drop_first(), path) {
                false
            } else {
                excluded(path, patterns.drop_last())
            }
        } else {
            if glob_match(p, path) {
                true
            } else {
                excluded(path, patterns.drop_last())
            }
        }
    }
}

/// Whether `path` is excluded by the ignore patterns.
pub fn is_excluded(path: &Vec<u8>, patterns: &Vec<Vec<u8>>) -> (r: bool)
    ensures
        r == excluded(path@, views_of(patterns@)),
{
    let mut i: usize = patterns.len();
    proof {
        assert(views_of(patterns@).take(i as int) =~= views_of(patterns@));
    }
    while i > 0
        invariant
            i <= patterns@.len(),
            excluded(path@, views_of(patterns@)) == excluded(
                path@,
                views_of(patterns@).take(i as int),
            ),
        decreases i,
    {
        proof {
            assert(views_of(patterns@).take(i as int).last() == patterns@[i - 1]@);
            assert(views_of(patterns@).take(i as int).drop_last() =~= views_of(patterns@).take(
                i - 1,
            ));
        }
        let p = &patterns[i - 1];
        if p.len() > 0 && p[0] == BANG {
            let neg = crate::bytes::copy_range(p, 1, p.len());
            proof {
                assert(neg@ =~= p@.drop_first());
            }
            if glob_matches(&neg, path) {
                return false;
            }
        } else {
            if glob_matches(p, path) {
                return true;
            }
        }
        i -= 1;
    }
    false
}

/// Space, horizontal tab or carriage return: the bytes trimmed from the
/// ends of an ignore-file line.
pub open spec fn is_blank(b: u8) -> bool {
    b == 32 || b == 9 || b == 13
}

/// `s` without its leading blanks.
pub open spec fn trim_front(s: Seq<u8>) -> Seq<u8>
    decreases s.len(),
{
    if s.len() > 0 && is_blank(s[0]) {
        trim_front(s.drop_first())
    } else {
        s
    }
}

/// `s` without its trailing blanks.
pub open spec fn trim_back(s: Seq<u8>) -> Seq<u8>
    decreases s.len(),
{
    if s.len() > 0 && is_blank(s.last()) {
        trim_back(s.drop_last())
    } else {
        s
    }
}

/// `s` without its leading and trailing blanks.
pub open spec fn trim_spec(s: Seq<u8>) -> Seq<u8> {
    trim_back(trim_front(s))
}

/// Dropping `t` leading blanks, up to the first non-blank byte, is what
/// `trim_front` does.
proof fn lemma_trim_front_at(s: Seq<u8>, t: int)
    requires
        0 <= t <= s.len(),
        forall|j: int| 0 <= j < t ==> is_blank(s[j]),
        t < s.len() ==> !is_blank(s[t]),
    ensures
        trim_front(s) == s.skip(t),
    decreases t,
{
    if t == 0 {
        assert(s.skip(0) =~= s);
    } else {
        assert(s.drop_first() =~= s.skip(1));
        lemma_trim_front_at(s.skip(1), t - 1);
        assert(s.skip(1).skip(t - 1) =~= s.skip(t));
    }
}

/// Dropping everything from the last non-blank byte on is what
/// `trim_back` does.
proof fn lemma_trim_back_at(s: Seq<u8>, t: int)
    requires
        0 <= t <= s.len(),
        forall|j: int| t <= j < s.len() ==> is_blank(s[j]),
        t > 0 ==> !is_blank(s[t - 1]),
    ensures
        trim_back(s) == s.take(t),
    decreases s.len() - t,
{
    if s.len() == t {
        assert(s.take(t) =~= s);
    } else {
        assert(is_blank(s.last()));
        assert(s.drop_last() =~= s.take(s.len() - 1));
        lemma_trim_back_at(s.take(s.len() - 1), t);
        assert(s.take(s.len() - 1).take(t) =~= s.take(t));
    }
}

/// The glob patterns of a version-control ignore file's text starting
/// at `from`: one pattern per line, trimmed of surrounding blanks, with
/// blank lines and comment lines (leading `#`) dropped.
pub open spec fn ignore_lines_spec(c: Seq<u8>, from: int) -> Seq<Seq<u8>>
    decreases c.len() - from,
    via ignore_lines_decreases
{
    if from < 0 || from >= c.len() {
        Seq::empty()
    } else {
        let e = match find_byte_spec(c, from, LF) {
            Some(i) => i,
            None => c.len() as int,
        };
        let line = trim_spec(c.subrange(from, e));
        let rest = if e < c.len() {
            ignore_lines_spec(c, e + 1)
        } else {
            Seq::empty()
        };
        if line.len() > 0 && line[0] != HASH {
            seq![line] + rest
        } else {
            rest
        }
    }
}

#[via_fn]
proof fn ignore_lines_decreases(c: Seq<u8>, from: int) {
    if 0 <= from < c.len() {
        lemma_find_byte_first(c, from, LF);
    }
}

/// Whether an ignore-file byte is trimmed as blank.
fn blank(b: u8) -> (r: bool)
    ensures
        r == is_blank(b),
{
    b == 32 || b == 9 || b == 13
}

/// Parses the text of a version-control ignore file into glob patterns:
/// one per line, trimmed, with blank and comment lines dropped.
pub fn parse_ignore_file(c: &Vec<u8>) -> (r: Vec<Vec<u8>>)
    ensures
        views_of(r@) == ignore_lines_spec(c@, 0),
{
    let mut out: Vec<Vec<u8>> = Vec::new();
    let mut pos: usize = 0;
    proof {
        assert(views_of(out@) =~= Seq::<Seq<u8>>::empty());
        assert(views_of(out@) + ignore_lines_spec(c@, 0) =~= ignore_lines_spec(c@, 0));
    }
    loop
        invariant
            0 <= pos,
            ignore_lines_spec(c@, 0) == views_of(out@) + ignore_lines_spec(c@, pos as int),
        decreases c@.len() + 1 - pos,
    {
        if pos >= c.len() {
            proof {
                assert(views_of(out@) + ignore_lines_spec(c@, pos as int) =~= views_of(out@));
            }
            return out;
        }
        let e = match find_byte(c, pos, LF) {
            Some(i) => i,
            None => c.len(),
        };
        let mut f = pos;
        while f < e && blank(c[f])
            invariant
                pos <= f <= e <= c@.len(),
                forall|j: int| pos <= j < f ==> is_blank(c@[j]),
            decreases e - f,
        {
            f += 1;
        }
        let mut l = e;
        while l > f && blank(c[l - 1])
            invariant
                f <= l <= e <= c@.len(),
                forall|j: int| l <= j < e ==> is_blank(c@[j]),
            decreases l,
        {
            l -= 1;
        }
        let ghost line = c@.subrange(pos as int, e as int);
        proof {
            lemma_trim_front_at(line, f - pos);
            assert(line.skip(f - pos) =~= c@.subrange(f as int, e as int));
            lemma_trim_back_at(c@.subrange(f as int, e as int), l - f);
            assert(c@.subrange(f as int, e as int).take(l - f) =~= c@.subrange(
                f as int,
                l as int,
            ));
            assert(trim_spec(line) == c@.subrange(f as int, l as int));
        }
        let ghost out0 = out@;
        if l > f && c[f] != HASH {
            let p = copy_range(c, f, l);
            out.push(p);
            proof {
                assert(views_of(out@) =~= views_of(out0) + seq![c@.subrange(f as int, l as int)]);
            }
        }
        proof {
            let rest = if e < c@.len() {
                ignore_lines_spec(c@, e + 1)
            } else {
                Seq::<Seq<u8>>::empty()
            };
            assert(views_of(out@) + rest =~= views_of(out0) + ignore_lines_spec(c@, pos as int));
        }
        if e < c.len() {
            pos = e + 1;
        } else {
            proof {
                assert(views_of(out@) =~= views_of(out@) + Seq::<Seq<u8>>::empty());
            }
            return out;
        }
    }
}

/// Lexicographic byte order on paths: the order in which candidate
/// paths are handed to the engine, so that repeated runs over an
/// unchanged tree produce identically ordered reports.
pub open spec fn lex_le(a: Seq<u8>, b: Seq<u8>) -> bool
    decreases a.len(),
{
    if a.len() == 0 {
        true
    } else if b.len() == 0 {
        false
    } else if a[0] < b[0] {
        true
    } else if a[0] > b[0] {
        false
    } else {
        lex_le(a.drop_first(), b.drop_first())
    }
}

/// Lexicographic order is reflexive.
pub proof fn lemma_lex_refl(a: Seq<u8>)
    ensures
        lex_le(a, a),
    decreases a.len(),
{
    if a.len() > 0 {
        lemma_lex_refl(a.drop_first());
    }
}

/// Lexicographic order is total.
pub proof fn lemma_lex_total(a: Seq<u8>, b: Seq<u8>)
    ensures
        lex_le(a, b) || lex_le(b, a),
    decreases a.len(),
{
    if a.len() > 0 && b.len() > 0 && a[0] == b[0] {
        lemma_lex_total(a.drop_first(), b.drop_first());
    }
}

/// Lexicographic order is transitive.
pub proof fn lemma_lex_trans(a: Seq<u8>, b: Seq<u8>, c: Seq<u8>)
    requires
        lex_le(a, b),
        lex_le(b, c),
    ensures
        lex_le(a, c),
    decreases a.len(),
{
    if a.len() > 0 && b.len() > 0 && c.len() > 0 && a[0] == b[0] && b[0] == c[0] {
        lemma_lex_trans(a.drop_first(), b.drop_first(), c.drop_first());
    }
}

/// Whether `a` comes no later than `b` in lexicographic byte order.
pub fn lex_leq(a: &Vec<u8>, b: &Vec<u8>) -> (r: bool)
    ensures
        r == lex_le(a@, b@),
{
    let mut i: usize = 0;
    proof {
        assert(a@.skip(0) =~= a@);
        assert(b@.skip(0) =~= b@);
    }
    loop
        invariant
            i <= a@.len(),
            i <= b@.len(),
            lex_le(a@, b@) == lex_le(a@.skip(i as int), b@.skip(i as int)),
        decreases a@.len() - i,
    {
        proof {
            if i < a@.len() {
                assert(a@.skip(i as int)[0] == a@[i as int]);
                assert(a@.skip(i as int).drop_first() =~= a@.skip(i + 1));
            }
            if i < b@.len() {
                assert(b@.skip(i as int)[0] == b@[i as int]);
                assert(b@.skip(i as int).drop_first() =~= b@.skip(i + 1));
            }
        }
        if i == a.len() {
            return true;
        }
        if i == b.len() {
            return false;
        }
        if a[i] < b[i] {
            return true;
        }
        if a[i] > b[i] {
            return false;
        }
        i += 1;
    }
}

/// The paths stand in lexicographic order.
pub open spec fn sorted_paths(s: Seq<Seq<u8>>) -> bool {
    forall|i: int, j: int| 0 <= i < j < s.len() ==> lex_le(#[trigger] s[i], #[trigger] s[j])
}

/// Sorts candidate paths into lexicographic byte order. The result
/// holds exactly the given paths.
pub fn sort_paths(paths: Vec<Vec<u8>>) -> (r: Vec<Vec<u8>>)
    ensures
        sorted_paths(views_of(r@)),
        views_of(r@).to_multiset() == views_of(paths@).to_multiset(),
{
    broadcast use vstd::seq_lib::group_to_multiset_ensures;
    broadcast use vstd::multiset::group_multiset_axioms;

    let mut rest = paths;
    let mut out: Vec<Vec<u8>> = Vec::new();
    let ghost orig = views_of(rest@);
    proof {
        assert(views_of(out@) =~= Seq::<Seq<u8>>::empty());
        assert(views_of(out@).to_multiset().add(views_of(rest@).to_multiset()) =~= orig
            .to_multiset());
    }
    while rest.len() > 0
        invariant
            sorted_paths(views_of(out@)),
            views_of(out@).to_multiset().add(views_of(rest@).to_multiset()) == orig.to_multiset(),
            forall|i: int, j: int|
                0 <= i < out@.len() && 0 <= j < rest@.len() ==> lex_le(
                    #[trigger] views_of(out@)[i],
                    #[trigger] views_of(rest@)[j],
                ),
        decreases rest@.len(),
    {
        let mut mi: usize = 0;
        let mut k: usize = 1;
        proof {
            lemma_lex_refl(rest@[0]@);
        }
        while k < rest.len()
            invariant
                mi < k <= rest@.len(),
                forall|j: int| 0 <= j < k ==> lex_le(views_of(rest@)[mi as int], #[trigger] views_of(rest@)[j]),
            decreases rest@.len() - k,
        {
            proof {
                lemma_lex_total(rest@[mi as int]@, rest@[k as int]@);
            }
            if lex_leq(&rest[k], &rest[mi]) {
                proof {
                    assert forall|j: int| 0 <= j < k + 1 implies lex_le(
                        views_of(rest@)[k as int],
                        #[trigger] views_of(rest@)[j],
                    ) by {
                        assert(views_of(rest@)[j] == rest@[j]@);
                        if j < k {
                            assert(lex_le(rest@[mi as int]@, rest@[j]@));
                            lemma_lex_trans(rest@[k as int]@, rest@[mi as int]@, rest@[j]@);
                        } else {
                            lemma_lex_refl(rest@[k as int]@);
                        }
                    }
                }
                mi = k;
            } else {
                proof {
                    lemma_lex_refl(rest@[k as int]@);
                }
            }
            k += 1;
        }
        let ghost rest0 = rest@;
        let ghost out0 = out@;
        let x = rest.remove(mi);
        proof {
            assert(views_of(rest@) =~= views_of(rest0).remove(mi as int));
            assert(x@ == views_of(rest0)[mi as int]);
        }
        out.push(x);
        proof {
            assert(views_of(out@) =~= views_of(out0).push(x@));
            assert(views_of(rest0).contains(x@));
            vstd::seq_lib::to_multiset_contains(views_of(rest0), x@);
            vstd::seq_lib::to_multiset_remove(views_of(rest0), mi as int);
            vstd::seq_lib::to_multiset_build(views_of(out0), x@);
            assert(views_of(rest0).to_multiset().count(x@) > 0);
            assert(views_of(out0).to_multiset().insert(x@).add(
                views_of(rest0).remove(mi as int).to_multiset(),
            ) =~= views_of(out0).to_multiset().add(views_of(rest0).to_multiset()));
            assert forall|i: int, j: int|
                0 <= i < out@.len() && 0 <= j < rest@.len() implies lex_le(
                #[trigger] views_of(out@)[i],
                #[trigger] views_of(rest@)[j],
            ) by {
                let rj = if j < mi as int {
                    j
                } else {
                    j + 1
                };
                assert(views_of(rest@)[j] == views_of(rest0)[rj]);
                if i < out0.len() {
                    assert(lex_le(views_of(out0)[i], views_of(rest0)[rj]));
                } else {
                    assert(views_of(out@)[i] == x@);
                    assert(lex_le(views_of(rest0)[mi as int], views_of(rest0)[rj]));
                }
            }
            assert forall|i: int, j: int|
                0 <= i < j < out@.len() implies lex_le(
                #[trigger] views_of(out@)[i],
                #[trigger] views_of(out@)[j],
            ) by {
                if j < out0.len() {
                    assert(lex_le(views_of(out0)[i], views_of(out0)[j]));
                } else {
                    assert(views_of(out@)[j] == x@);
                    assert(lex_le(views_of(out0)[i], views_of(rest0)[mi as int]));
                }
            }
        }
    }
    proof {
        assert(views_of(rest@) =~= Seq::<Seq<u8>>::empty());
        assert(views_of(out@).to_multiset().add(views_of(rest@).to_multiset()) =~= views_of(
            out@,
        ).to_multiset());
    }
    out
}

/// The paths of `paths` that the patterns do not exclude, in order.
pub open spec fn keep_spec(paths: Seq<Seq<u8>>, patterns: Seq<Seq<u8>>) -> Seq<Seq<u8>>
    decreases paths.len(),
{
    if paths.len() == 0 {
        Seq::empty()
    } else {
        keep_spec(paths.drop_last(), patterns) + (if excluded(paths.last(), patterns) {
            Seq::empty()
        } else {
            seq![paths.last()]
        })
    }
}

/// A path that the patterns exclude never appears among the kept paths,
/// whatever the candidate list.
pub proof fn lemma_excluded_never_kept(paths: Seq<Seq<u8>>, patterns: Seq<Seq<u8>>, p: Seq<u8>)
    requires
        excluded(p, patterns),
    ensures
        !keep_spec(paths, patterns).contains(p),
    decreases paths.len(),
{
    if paths.len() > 0 {
        lemma_excluded_never_kept(paths.drop_last(), patterns, p);
        if keep_spec(paths, patterns).contains(p) {
            let i = choose|i: int|
                0 <= i < keep_spec(paths, patterns).len() && keep_spec(paths, patterns)[i] == p;
            if i < keep_spec(paths.drop_last(), patterns).len() {
                assert(keep_spec(paths.drop_last(), patterns).contains(p));
            } else {
                assert(!excluded(paths.last(), patterns));
                assert(p == paths.last());
            }
        }
    }
}

/// Filters candidate paths by the ignore patterns, preserving their
/// order. The result holds exactly the paths the patterns do not
/// exclude.
pub fn filter_paths(paths: &Vec<Vec<u8>>, patterns: &Vec<Vec<u8>>) -> (r: Vec<Vec<u8>>)
    ensures
        views_of(r@) == keep_spec(views_of(paths@), views_of(patterns@)),
        forall|i: int|
            0 <= i < r@.len() ==> !excluded(#[trigger] r@[i]@, views_of(patterns@)),
{
    let mut out: Vec<Vec<u8>> = Vec::new();
    let mut idx: usize = 0;
    proof {
        assert(views_of(paths@).take(0) =~= Seq::<Seq<u8>>::empty());
        assert(views_of(out@) =~= Seq::<Seq<u8>>::empty());
    }
    while idx < paths.len()
        invariant
            0 <= idx <= paths@.len(),
            views_of(out@) == keep_spec(views_of(paths@).take(idx as int), views_of(patterns@)),
            forall|i: int|
                0 <= i < out@.len() ==> !excluded(#[trigger] out@[i]@, views_of(patterns@)),
        decreases paths@.len() - idx,
    {
        let ghost out0 = out@;
        proof {
            assert(views_of(paths@).take(idx + 1).drop_last() =~= views_of(paths@).take(
                idx as int,
            ));
            assert(views_of(paths@).take(idx + 1).last() == paths@[idx as int]@);
        }
        if !is_excluded(&paths[idx], patterns) {
            let p = crate::bytes::copy_range(&paths[idx], 0, paths[idx].len());
            proof {
                assert(p@ =~= paths@[idx as int]@);
            }
            out.push(p);
            proof {
                assert(views_of(out@) =~= views_of(out0) + seq![paths@[idx as int]@]);
            }
        } else {
            proof {
                assert(views_of(out@) =~= views_of(out0) + Seq::<Seq<u8>>::empty());
            }
        }
        idx += 1;
    }
    proof {
        assert(views_of(paths@).take(paths@.len() as int) =~= views_of(paths@));
    }
    out
}

} // verus!
