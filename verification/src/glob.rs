//! Glob patterns over `/`-separated paths.
//!
//! A pattern and a path are both cut at `/` into segments. The pattern segment
//! `**` stands for any number of path segments, none included; a segment that
//! holds `*` stands for one path segment whose text fits it; any other
//! segment stands for itself.

use vstd::prelude::*;
use crate::text::{
    ends_with, find_in, lemma_find_from, lemma_split_whole, occurs_at, same, slice, split,
    split_on, starts_with, views,
};

verus! {

/// The path separator, as a pattern to split on.
pub open spec fn separator() -> Seq<char> {
    seq!['/']
}

/// The wildcard of a segment, as a pattern to split on.
pub open spec fn star() -> Seq<char> {
    seq!['*']
}

/// The pattern segment that stands for any number of path segments.
pub open spec fn double_star() -> Seq<char> {
    seq!['*', '*']
}

/// `p` without one leading `/`.
pub open spec fn normalized(p: Seq<char>) -> Seq<char> {
    if p.len() > 0 && p[0] == '/' {
        p.skip(1)
    } else {
        p
    }
}

/// The text that the literal parts `parts` make with the gaps `gaps` between
/// them: `parts[0] + gaps[0] + parts[1] + ... + gaps[k - 1] + parts[k]`.
pub open spec fn woven(parts: Seq<Seq<char>>, gaps: Seq<Seq<char>>) -> Seq<char>
    decreases parts.len(),
{
    if parts.len() == 0 {
        Seq::empty()
    } else if parts.len() == 1 {
        parts[0]
    } else {
        woven(parts.drop_last(), gaps.drop_last()) + gaps.last() + parts.last()
    }
}

/// Whether `seg` is made of the literal parts `parts`, in order, with some
/// text, possibly none, between each two of them.
pub open spec fn parts_fit(parts: Seq<Seq<char>>, seg: Seq<char>) -> bool {
    exists|gaps: Seq<Seq<char>>| gaps.len() + 1 == parts.len() && #[trigger] woven(parts, gaps) == seg
}

/// Whether the path segment `seg` fits the pattern segment `pat`.
///
/// Each `*` of the pattern stands for any text, the empty text too: with the
/// literal parts `l0, ..., lk` that the `*`s of the pattern cut it into, the
/// segment is `l0 + x1 + l1 + ... + xk + lk` for some texts `x1, ..., xk`. So
/// a pattern without `*` fits only itself, a pattern that does not begin with
/// `*` has to begin the segment, and one that does not end with `*` has to
/// end it.
pub open spec fn segment_fits(pat: Seq<char>, seg: Seq<char>) -> bool {
    parts_fit(split(pat, star()), seg)
}

/// With one more part behind one more gap, the text grows by the gap and the
/// part.
pub proof fn lemma_woven_push(
    parts: Seq<Seq<char>>,
    gaps: Seq<Seq<char>>,
    gap: Seq<char>,
    part: Seq<char>,
)
    requires
        parts.len() >= 1,
    ensures
        woven(parts.push(part), gaps.push(gap)) == woven(parts, gaps) + gap + part,
{
    assert(parts.push(part).drop_last() == parts);
    assert(gaps.push(gap).drop_last() == gaps);
}

/// The text of the first `k + 1` parts is the text of the first `k` parts,
/// the gap behind them and the part behind that gap.
pub proof fn lemma_woven_take(parts: Seq<Seq<char>>, gaps: Seq<Seq<char>>, k: int)
    requires
        gaps.len() + 1 == parts.len(),
        1 <= k < parts.len(),
    ensures
        woven(parts.take(k + 1), gaps.take(k)) == woven(parts.take(k), gaps.take(k - 1)) + gaps[k
            - 1] + parts[k],
{
    assert(parts.take(k + 1).drop_last() == parts.take(k));
    assert(gaps.take(k).drop_last() == gaps.take(k - 1));
    assert(parts.take(k + 1).last() == parts[k]);
    assert(gaps.take(k).last() == gaps[k - 1]);
}

/// The text of the first `k` parts begins the text of all parts.
pub proof fn lemma_woven_prefix(parts: Seq<Seq<char>>, gaps: Seq<Seq<char>>, k: int)
    requires
        gaps.len() + 1 == parts.len(),
        1 <= k <= parts.len(),
    ensures
        woven(parts.take(k), gaps.take(k - 1)).len() <= woven(parts, gaps).len(),
        woven(parts, gaps).take(woven(parts.take(k), gaps.take(k - 1)).len() as int) == woven(
            parts.take(k),
            gaps.take(k - 1),
        ),
    decreases parts.len() - k,
{
    let whole = woven(parts, gaps);
    if k == parts.len() {
        assert(parts.take(k) == parts);
        assert(gaps.take(k - 1) == gaps);
        assert(whole.take(whole.len() as int) == whole);
    } else {
        lemma_woven_prefix(parts, gaps, k + 1);
        lemma_woven_take(parts, gaps, k);
        let shorter = woven(parts.take(k), gaps.take(k - 1));
        let longer = woven(parts.take(k + 1), gaps.take(k));
        assert(longer.take(shorter.len() as int) == shorter);
        assert(whole.take(longer.len() as int).take(shorter.len() as int) == whole.take(
            shorter.len() as int,
        ));
    }
}

/// Whether the path segments `segs` fit the pattern segments `pats`: a
/// leading `**` either stands for nothing or takes the first path segment and
/// stays; any other pattern segment has to fit the first path segment.
pub open spec fn segments_fit(pats: Seq<Seq<char>>, segs: Seq<Seq<char>>) -> bool
    decreases pats.len(), segs.len(),
{
    if pats.len() == 0 {
        segs.len() == 0
    } else if pats[0] == double_star() {
        segments_fit(pats.skip(1), segs) || (segs.len() > 0 && segments_fit(pats, segs.skip(1)))
    } else {
        segs.len() > 0 && segment_fits(pats[0], segs[0]) && segments_fit(
            pats.skip(1),
            segs.skip(1),
        )
    }
}

/// Whether `path` fits `pattern`, both already without their leading `/`.
pub open spec fn glob_fits(pattern: Seq<char>, path: Seq<char>) -> bool {
    segments_fit(split(pattern, separator()), split(path, separator()))
}

/// Whether `path` fits `pattern`, a leading `/` on either set aside.
pub open spec fn path_fits(pattern: Seq<char>, path: Seq<char>) -> bool {
    glob_fits(normalized(pattern), normalized(path))
}

/// The pattern `**` alone fits every path.
pub proof fn lemma_double_star_fits_all(segs: Seq<Seq<char>>)
    ensures
        segments_fit(seq![double_star()], segs),
    decreases segs.len(),
{
    let pats = seq![double_star()];
    assert(pats[0] == double_star());
    assert(pats.skip(1).len() == 0);
    if segs.len() > 0 {
        lemma_double_star_fits_all(segs.skip(1));
        assert(segments_fit(pats, segs.skip(1)));
    } else {
        assert(segments_fit(pats.skip(1), segs));
    }
    assert(segments_fit(pats, segs));
}

/// A pattern segment without `*` fits only the segment that is equal to it.
pub proof fn lemma_literal_segment(pat: Seq<char>, seg: Seq<char>)
    requires
        !pat.contains('*'),
    ensures
        segment_fits(pat, seg) == (pat == seg),
{
    assert forall|j: int| 0 <= j implies !occurs_at(pat, star(), j) by {
        if occurs_at(pat, star(), j) {
            assert(pat.subrange(j, j + 1)[0] == star()[0]);
            assert(pat[j] == '*');
        }
    }
    lemma_split_whole(pat, star(), 0, 0);
    assert(pat.subrange(0, pat.len() as int) == pat);
    let parts = split(pat, star());
    assert(parts == seq![pat]);
    if pat == seg {
        assert(woven(parts, Seq::<Seq<char>>::empty()) == seg);
    }
}

/// The pattern segment `*` fits every segment.
pub proof fn lemma_star_fits_all(seg: Seq<char>)
    ensures
        segment_fits(star(), seg),
{
    let parts = split(star(), star());
    assert(occurs_at(star(), star(), 0)) by {
        assert(star().subrange(0, 1) == star());
    }
    assert(parts == seq![Seq::<char>::empty(), Seq::<char>::empty()]) by {
        reveal_with_fuel(crate::text::split_scan, 3);
        assert(star().subrange(0, 0) == Seq::<char>::empty());
        assert(star().subrange(1, 1) == Seq::<char>::empty());
    }
    let none = Seq::<char>::empty();
    lemma_woven_push(seq![none], Seq::empty(), seg, none);
    assert(seq![none].push(none) == parts);
    assert(woven(seq![none], Seq::<Seq<char>>::empty()) == none);
    assert(none + seg + none == seg);
    assert(woven(parts, Seq::<Seq<char>>::empty().push(seg)) == seg);
}

/// No text before a literal ending slips past a pattern: `*` followed by
/// the text `tail` fits `head + tail`, whatever `head` is and wherever else
/// `tail` occurs in it.
pub proof fn lemma_star_then_literal(head: Seq<char>, tail: Seq<char>)
    requires
        !tail.contains('*'),
    ensures
        segment_fits(star() + tail, head + tail),
{
    let pat = star() + tail;
    let none = Seq::<char>::empty();
    let parts = seq![none, tail];
    assert(occurs_at(pat, star(), 0)) by {
        assert(pat.subrange(0, 1) == star());
    }
    assert forall|j: int| 1 <= j implies !occurs_at(pat, star(), j) by {
        if occurs_at(pat, star(), j) {
            assert(pat.subrange(j, j + 1)[0] == star()[0]);
            assert(pat[j] == tail[j - 1]);
            assert(tail.contains(tail[j - 1]));
        }
    }
    lemma_split_whole(pat, star(), 1, 1);
    assert(split(pat, star()) == parts) by {
        assert(pat.subrange(0, 0) == none);
        assert(pat.subrange(1, pat.len() as int) == tail);
        assert(seq![none] + seq![tail] == parts);
    }
    lemma_woven_push(seq![none], Seq::empty(), head, tail);
    assert(seq![none].push(tail) == parts);
    assert(woven(seq![none], Seq::<Seq<char>>::empty()) == none);
    assert(none + head + tail == head + tail);
    assert(woven(parts, Seq::<Seq<char>>::empty().push(head)) == head + tail);
}

/// As a pattern of one segment, `*` followed by the text `tail` fits every
/// path of one segment that ends in `tail`.
pub proof fn lemma_ending_fits(head: Seq<char>, tail: Seq<char>)
    requires
        !tail.contains('*'),
        !tail.contains('/'),
        !head.contains('/'),
    ensures
        path_fits(star() + tail, head + tail),
{
    let pat = star() + tail;
    let path = head + tail;
    lemma_star_then_literal(head, tail);
    assert(pat[0] == '*');
    assert(normalized(pat) == pat);
    assert forall|j: int| 0 <= j < path.len() implies path[j] != '/' by {
        if j < head.len() {
            assert(head.contains(head[j]));
        } else {
            assert(tail.contains(tail[j - head.len()]));
        }
    }
    assert(normalized(path) == path);
    assert forall|j: int| 0 <= j implies !occurs_at(pat, separator(), j) by {
        if occurs_at(pat, separator(), j) {
            assert(pat.subrange(j, j + 1)[0] == separator()[0]);
            if j > 0 {
                assert(tail.contains(tail[j - 1]));
            }
        }
    }
    assert forall|j: int| 0 <= j implies !occurs_at(path, separator(), j) by {
        if occurs_at(path, separator(), j) {
            assert(path.subrange(j, j + 1)[0] == separator()[0]);
        }
    }
    lemma_split_whole(pat, separator(), 0, 0);
    lemma_split_whole(path, separator(), 0, 0);
    assert(pat.subrange(0, pat.len() as int) == pat);
    assert(path.subrange(0, path.len() as int) == path);
    let pats = seq![pat];
    let segs = seq![path];
    assert(pats[0] != double_star()) by {
        if pat == double_star() {
            assert(pat[1] == '*');
            assert(tail.contains(tail[0]));
        }
    }
    assert(pats.skip(1).len() == 0 && segs.skip(1).len() == 0);
    assert(segments_fit(pats.skip(1), segs.skip(1)));
    assert(segments_fit(pats, segs));
}

/// `p` without one leading `/`.
pub fn normalize(p: &Vec<char>) -> (out: Vec<char>)
    ensures
        out@ == normalized(p@),
{
    if p.len() > 0 && p[0] == '/' {
        slice(p, 1, p.len())
    } else {
        let out = slice(p, 0, p.len());
        assert(p@.subrange(0, p@.len() as int) == p@);
        out
    }
}

/// Whether the path segment `segment` fits the pattern segment `pattern`.
///
/// The first literal part has to begin the segment and the last one has to
/// end it behind the place that the parts before it have reached; each part
/// between them is taken at the first place where it stands behind the part
/// before, which leaves the most room for the parts that follow.
pub fn segment_match(pattern: &Vec<char>, segment: &Vec<char>) -> (r: bool)
    ensures
        r == segment_fits(pattern@, segment@),
{
    let mut sep: Vec<char> = Vec::new();
    sep.push('*');
    assert(sep@ =~= star());
    let parts = split_on(pattern, &sep);
    let ghost all = views(parts@);
    let ghost seg = segment@;
    let n = parts.len();
    assert(all[0] == parts@[0]@);
    if n == 1 {
        let r = same(&parts[0], segment);
        proof {
            if r {
                assert(woven(all, Seq::<Seq<char>>::empty()) == seg);
            }
        }
        return r;
    }
    if !starts_with(segment, &parts[0]) {
        proof {
            assert forall|g: Seq<Seq<char>>| g.len() + 1 == all.len() implies #[trigger] woven(
                all,
                g,
            ) != seg by {
                if woven(all, g) == seg {
                    lemma_woven_prefix(all, g, 1);
                    assert(all.take(1)[0] == all[0]);
                    assert(seg.take(all[0].len() as int) == all[0]);
                    assert(seg.subrange(0, all[0].len() as int) == all[0]);
                }
            }
        }
        return false;
    }
    let mut pos: usize = parts[0].len();
    let ghost mut gaps: Seq<Seq<char>> = Seq::empty();
    let mut i: usize = 1;
    proof {
        assert(all.take(1)[0] == all[0]);
        assert(woven(all.take(1), gaps) == all[0]);
        assert(seg.take(pos as int) == seg.subrange(0, pos as int));
        assert forall|g: Seq<Seq<char>>| g.len() + 1 == n && #[trigger] woven(all, g)
            == seg implies pos <= woven(all.take(1), g.take(0)).len() by {
            assert(woven(all.take(1), g.take(0)) == all[0]);
        }
    }
    while i < n - 1
        invariant
            1 <= i <= n - 1,
            n == parts.len(),
            all == views(parts@),
            all == split(pattern@, star()),
            seg == segment@,
            pos <= segment.len(),
            gaps.len() == i - 1,
            woven(all.take(i as int), gaps) == seg.take(pos as int),
            forall|g: Seq<Seq<char>>|
                g.len() + 1 == n && #[trigger] woven(all, g) == seg ==> pos <= woven(
                    all.take(i as int),
                    g.take(i - 1),
                ).len(),
        decreases n - i,
    {
        let part = &parts[i];
        assert(all[i as int] == part@);
        let ghost before = pos as int;
        proof {
            lemma_find_from(seg, part@, before);
        }
        match find_in(segment, part, pos) {
            Some(found) => {
                proof {
                    let gap = seg.subrange(before, found as int);
                    lemma_woven_push(all.take(i as int), gaps, gap, part@);
                    assert(all.take(i + 1) == all.take(i as int).push(part@));
                    assert(seg.take(before) + gap + part@ == seg.take(found + part.len()));
                    assert forall|g: Seq<Seq<char>>|
                        g.len() + 1 == n && #[trigger] woven(all, g) == seg implies found
                        + part.len() <= woven(all.take(i + 1), g.take(i as int)).len() by {
                        lemma_place_of_part(all, g, seg, i as int);
                        let at = woven(all.take(i as int), g.take(i - 1)).len() + g[i - 1].len();
                        assert(occurs_at(seg, part@, at as int));
                        assert(before <= at);
                        if at < found {
                            assert(!occurs_at(seg, part@, at as int));
                        }
                    }
                    gaps = gaps.push(gap);
                }
                pos = found + part.len();
            },
            None => {
                proof {
                    assert forall|g: Seq<Seq<char>>| g.len() + 1 == all.len() implies #[trigger] woven(
                        all,
                        g,
                    ) != seg by {
                        if woven(all, g) == seg {
                            lemma_place_of_part(all, g, seg, i as int);
                            let at = woven(all.take(i as int), g.take(i - 1)).len() + g[i
                                - 1].len();
                            assert(occurs_at(seg, part@, at as int));
                        }
                    }
                }
                return false;
            },
        }
        i = i + 1;
    }
    let last = &parts[n - 1];
    assert(all[n - 1] == last@);
    let r = last.len() <= segment.len() - pos && ends_with(segment, last);
    proof {
        if r {
            let at = seg.len() - last@.len();
            let gap = seg.subrange(pos as int, at);
            lemma_woven_push(all.take(n - 1), gaps, gap, last@);
            assert(all.take(n - 1).push(last@) == all);
            assert(seg.take(pos as int) + gap + last@ == seg);
            assert(woven(all, gaps.push(gap)) == seg);
        } else {
            assert forall|g: Seq<Seq<char>>| g.len() + 1 == all.len() implies #[trigger] woven(
                all,
                g,
            ) != seg by {
                if woven(all, g) == seg {
                    lemma_place_of_part(all, g, seg, n - 1);
                    let at = woven(all.take(n - 1), g.take(n - 2)).len() + g[n - 2].len();
                    assert(all.take(n as int) == all);
                    assert(g.take(n - 1) == g);
                    assert(at + last@.len() == seg.len());
                    assert(occurs_at(seg, last@, at as int));
                }
            }
        }
    }
    r
}

/// Where the parts with the gaps `gaps` make `seg`, the part `k` stands in
/// `seg` behind the first `k` parts and the gap that follows them, and the
/// first `k + 1` parts end where it ends.
pub proof fn lemma_place_of_part(
    parts: Seq<Seq<char>>,
    gaps: Seq<Seq<char>>,
    seg: Seq<char>,
    k: int,
)
    requires
        gaps.len() + 1 == parts.len(),
        1 <= k < parts.len(),
        woven(parts, gaps) == seg,
    ensures
        occurs_at(
            seg,
            parts[k],
            (woven(parts.take(k), gaps.take(k - 1)).len() + gaps[k - 1].len()) as int,
        ),
        woven(parts.take(k + 1), gaps.take(k)).len() == woven(parts.take(k), gaps.take(k - 1)).len()
            + gaps[k - 1].len() + parts[k].len(),
        woven(parts.take(k + 1), gaps.take(k)).len() <= seg.len(),
{
    lemma_woven_take(parts, gaps, k);
    lemma_woven_prefix(parts, gaps, k + 1);
    let shorter = woven(parts.take(k), gaps.take(k - 1));
    let longer = woven(parts.take(k + 1), gaps.take(k));
    let at = (shorter.len() + gaps[k - 1].len()) as int;
    assert(longer == shorter + gaps[k - 1] + parts[k]);
    assert(seg.take(longer.len() as int) == longer);
    assert(seg.subrange(at, at + parts[k].len()) =~= parts[k]) by {
        assert forall|j: int| 0 <= j < parts[k].len() implies seg.subrange(
            at,
            at + parts[k].len(),
        )[j] == parts[k][j] by {
            assert(seg.take(longer.len() as int)[at + j] == longer[at + j]);
        }
    }
}

/// Whether the path segments from `si` on fit the pattern segments from `pi`
/// on.
pub fn glob_match_impl(
    pattern_parts: &Vec<Vec<char>>,
    pi: usize,
    path_parts: &Vec<Vec<char>>,
    si: usize,
) -> (r: bool)
    requires
        pi <= pattern_parts.len(),
        si <= path_parts.len(),
    ensures
        r == segments_fit(
            views(pattern_parts@).skip(pi as int),
            views(path_parts@).skip(si as int),
        ),
    decreases pattern_parts.len() - pi, path_parts.len() - si,
{
    let ghost pats = views(pattern_parts@).skip(pi as int);
    let ghost segs = views(path_parts@).skip(si as int);
    if pi == pattern_parts.len() {
        return si == path_parts.len();
    }
    let pat = &pattern_parts[pi];
    assert(pats[0] == pat@);
    assert(pats.skip(1) == views(pattern_parts@).skip(pi + 1));
    if pat.len() == 2 && pat[0] == '*' && pat[1] == '*' {
        assert(pat@ =~= double_star());
        assert(segs.skip(0) == segs);
        let mut k: usize = 0;
        loop
            invariant
                pi < pattern_parts.len(),
                si <= path_parts.len(),
                k <= path_parts.len() - si,
                pats.len() > 0 && pats[0] == double_star(),
                pats == views(pattern_parts@).skip(pi as int),
                segs == views(path_parts@).skip(si as int),
                pats.skip(1) == views(pattern_parts@).skip(pi + 1),
                segs.len() == path_parts.len() - si,
                segments_fit(pats, segs) == segments_fit(pats, segs.skip(k as int)),
            decreases path_parts.len() - si - k,
        {
            assert(segs.skip(k as int) == views(path_parts@).skip(si + k));
            if glob_match_impl(pattern_parts, pi + 1, path_parts, si + k) {
                assert(0 <= k <= segs.len() && segments_fit(pats.skip(1), segs.skip(k as int)));
                return true;
            }
            if k == path_parts.len() - si {
                return false;
            }
            assert(segs.skip(k as int).skip(1) == segs.skip(k + 1));
            k = k + 1;
        }
    }
    assert(pat@ != double_star()) by {
        if pat@ == double_star() {
            assert(double_star().len() == 2 && double_star()[0] == '*' && double_star()[1]
                == '*');
        }
    }
    if si == path_parts.len() {
        return false;
    }
    assert(segs[0] == path_parts@[si as int]@);
    assert(segs.skip(1) == views(path_parts@).skip(si + 1));
    if segment_match(pat, &path_parts[si]) {
        glob_match_impl(pattern_parts, pi + 1, path_parts, si + 1)
    } else {
        false
    }
}

/// Whether `path` fits `pattern`, both already without their leading `/`.
pub fn glob_match(pattern: &Vec<char>, path: &Vec<char>) -> (r: bool)
    ensures
        r == glob_fits(pattern@, path@),
{
    let mut sep: Vec<char> = Vec::new();
    sep.push('/');
    assert(sep@ =~= separator());
    let pattern_parts = split_on(pattern, &sep);
    let path_parts = split_on(path, &sep);
    assert(views(pattern_parts@).skip(0) == views(pattern_parts@));
    assert(views(path_parts@).skip(0) == views(path_parts@));
    glob_match_impl(&pattern_parts, 0, &path_parts, 0)
}

} // verus!
