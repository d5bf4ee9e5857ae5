//! Where a playlist lies, as the browsers show it: its file name and its
//! directory relative to the playlists directory (`playlists/…`).
//!
//! Paths are read as `Path::components` reads them: components separated by
//! `/` (on Windows also by `\\`), a drive prefix `C:` first on Windows (a
//! drive letter in either case names the same drive), then a separator for
//! the root, a `.` kept only at the start of a relative path, empty pieces
//! and other `.` pieces skipped. The parent of a path and the part of a path
//! after a prefix are taken out of the text as `Path::parent` and
//! `Path::strip_prefix` do.
//!
//! The other Windows prefixes (`\\\\server\\share`, `\\\\?\\`, `\\\\.\\`) are read as a
//! root followed by names. Paths under one such prefix are compared and
//! labelled as `Path` does; how `Path` handles them otherwise is left unsaid.

use vstd::prelude::*;
use crate::text::{chars_of, string_of_range};

verus! {

/// The kind of a path component.
#[derive(Clone, Copy, Debug, PartialEq, Eq, Structural)]
pub enum Kind {
    Prefix,
    Root,
    Cur,
    Parent,
    Normal,
}

/// A component: its kind and where it lies in the text.
pub type Span = (Kind, int, int);

/// A separator: `/`, and on Windows also `\\`.
pub open spec fn is_sep(c: char, windows: bool) -> bool {
    c == '/' || (windows && c == '\\')
}

pub open spec fn is_ascii_alpha(c: char) -> bool {
    ('a' <= c && c <= 'z') || ('A' <= c && c <= 'Z')
}

pub open spec fn ascii_upper(c: char) -> char {
    if 'a' <= c && c <= 'z' {
        ((c as u32) - 32) as char
    } else {
        c
    }
}

/// A drive prefix (`C:`) starts the path, on Windows.
pub open spec fn has_drive(p: Seq<char>, windows: bool) -> bool {
    windows && p.len() >= 2 && is_ascii_alpha(p[0]) && p[1] == ':'
}

/// The pieces of `p` between separators, as ranges of the text.
pub open spec fn pieces_at(p: Seq<char>, windows: bool) -> Seq<(int, int)>
    decreases p.len(),
{
    if p.len() == 0 {
        seq![(0, 0)]
    } else {
        let r = pieces_at(p.drop_last(), windows);
        if is_sep(p.last(), windows) {
            r.push((p.len() as int, p.len() as int))
        } else {
            r.update(r.len() - 1, (r.last().0, p.len() as int))
        }
    }
}

/// The component a piece gives, if any.
pub open spec fn piece_span(p: Seq<char>, r: (int, int)) -> Seq<Span> {
    let t = p.subrange(r.0, r.1);
    if t.len() == 0 || t == seq!['.'] {
        Seq::empty()
    } else if t == seq!['.', '.'] {
        seq![(Kind::Parent, r.0, r.1)]
    } else {
        seq![(Kind::Normal, r.0, r.1)]
    }
}

pub open spec fn pieces_spans(p: Seq<char>, rs: Seq<(int, int)>) -> Seq<Span>
    decreases rs.len(),
{
    if rs.len() == 0 {
        Seq::empty()
    } else {
        pieces_spans(p, rs.drop_last()) + piece_span(p, rs.last())
    }
}

/// What follows a drive prefix: the root when a separator follows, `.` when
/// the first piece is `.`, else the component of the rest of the first piece.
pub open spec fn drive_head(p: Seq<char>, windows: bool, rs: Seq<(int, int)>) -> Seq<Span> {
    if p.len() > 2 && is_sep(p[2], windows) {
        seq![(Kind::Root, 2int, 3int)]
    } else if p.subrange(2, rs[0].1) == seq!['.'] {
        seq![(Kind::Cur, 2int, 3int)]
    } else {
        piece_span(p, (2, rs[0].1))
    }
}

/// The components of `p`, with where they lie.
pub open spec fn comp_spans(p: Seq<char>, windows: bool) -> Seq<Span> {
    let rs = pieces_at(p, windows);
    if has_drive(p, windows) {
        seq![(Kind::Prefix, 0int, 2int)] + drive_head(p, windows, rs) + pieces_spans(p, rs.drop_first())
    } else if p.len() > 0 && is_sep(p[0], windows) {
        seq![(Kind::Root, 0int, 1int)] + pieces_spans(p, rs)
    } else if p.subrange(rs[0].0, rs[0].1) == seq!['.'] {
        seq![(Kind::Cur, 0int, 1int)] + pieces_spans(p, rs.drop_first())
    } else {
        pieces_spans(p, rs)
    }
}

/// The text of a component.
pub open spec fn span_text(p: Seq<char>, s: Span) -> Seq<char> {
    p.subrange(s.1, s.2)
}

/// Two components are the same: same kind, same text for names, and the
/// same drive letter (in either case) for drive prefixes.
pub open spec fn same_comp(p: Seq<char>, a: Span, q: Seq<char>, b: Span) -> bool {
    &&& a.0 == b.0
    &&& a.0 == Kind::Normal ==> span_text(p, a) == span_text(q, b)
    &&& a.0 == Kind::Prefix ==> ascii_upper(p[a.1]) == ascii_upper(q[b.1])
}

/// `Path::parent`: the text up to the end of the component before the last
/// one (empty without one); none for an empty path, or one that ends in the
/// root or a prefix.
pub open spec fn parent_text(p: Seq<char>, windows: bool) -> Option<Seq<char>> {
    let cs = comp_spans(p, windows);
    if cs.len() == 0 || cs.last().0 == Kind::Root || cs.last().0 == Kind::Prefix {
        None
    } else if cs.len() >= 2 {
        Some(p.subrange(0, cs[cs.len() - 2].2))
    } else {
        Some(Seq::empty())
    }
}

/// `Path::strip_prefix`: when the components of `base` begin those of `p`,
/// the text of the components that follow.
pub open spec fn strip_text(p: Seq<char>, base: Seq<char>, windows: bool) -> Option<Seq<char>> {
    let ps = comp_spans(p, windows);
    let bs = comp_spans(base, windows);
    if bs.len() <= ps.len() && forall|i: int| 0 <= i < bs.len() ==> same_comp(p, #[trigger] ps[i], base, bs[i]) {
        if ps.len() == bs.len() {
            Some(Seq::empty())
        } else {
            Some(p.subrange(ps[bs.len() as int].1, ps.last().2))
        }
    } else {
        None
    }
}

/// `Path::file_name`: the last component when it is a name.
pub open spec fn file_name_text(p: Seq<char>, windows: bool) -> Option<Seq<char>> {
    let cs = comp_spans(p, windows);
    if cs.len() > 0 && cs.last().0 == Kind::Normal {
        Some(span_text(p, cs.last()))
    } else {
        None
    }
}

/// Where a playlist lies: `playlists/` plus its directory below the
/// playlists directory `root`, or its directory as it is when it is not
/// below it.
pub open spec fn location_text(root: Seq<char>, path: Seq<char>, windows: bool) -> Seq<char> {
    let parent = match parent_text(path, windows) {
        Some(t) => t,
        None => root,
    };
    match strip_text(parent, root, windows) {
        Some(rel) => if rel.len() == 0 {
            "playlists/"@
        } else {
            "playlists/"@ + rel
        },
        None => parent,
    }
}

/// The file name shown for a playlist, `<unknown>` without one.
pub open spec fn shown_name(path: Seq<char>, windows: bool) -> Seq<char> {
    match file_name_text(path, windows) {
        Some(n) => n,
        None => "<unknown>"@,
    }
}

// ---------------------------------------------------------------------------
// Parsing
// ---------------------------------------------------------------------------

pub open spec fn spans_view(v: Seq<(Kind, usize, usize)>) -> Seq<Span> {
    v.map_values(|s: (Kind, usize, usize)| (s.0, s.1 as int, s.2 as int))
}

proof fn lemma_pieces_bounds(p: Seq<char>, windows: bool)
    ensures
        pieces_at(p, windows).len() >= 1,
        forall|i: int| 0 <= i < pieces_at(p, windows).len() ==> 0 <= (#[trigger] pieces_at(p, windows)[i]).0 <= pieces_at(p, windows)[i].1 <= p.len(),
        pieces_at(p, windows)[0].0 == 0,
        pieces_at(p, windows).last().1 == p.len(),
    decreases p.len(),
{
    if p.len() > 0 {
        lemma_pieces_bounds(p.drop_last(), windows);
    }
}

/// The pieces of a path, as ranges.
fn piece_ranges(p: &Vec<char>, windows: bool) -> (out: Vec<(usize, usize)>)
    ensures
        out@.map_values(|r: (usize, usize)| (r.0 as int, r.1 as int)) == pieces_at(p@, windows),
{
    let mut out: Vec<(usize, usize)> = Vec::new();
    out.push((0, 0));
    let mut i: usize = 0;
    assert(p@.take(0) =~= Seq::<char>::empty());
    assert(out@.map_values(|r: (usize, usize)| (r.0 as int, r.1 as int)) =~= pieces_at(p@.take(0), windows));
    while i < p.len()
        invariant
            i <= p@.len(),
            out@.len() >= 1,
            out@.map_values(|r: (usize, usize)| (r.0 as int, r.1 as int)) == pieces_at(p@.take(i as int), windows),
        decreases p@.len() - i,
    {
        let ghost before = out@.map_values(|r: (usize, usize)| (r.0 as int, r.1 as int));
        proof {
            let nx = p@.take(i + 1);
            assert(nx.drop_last() =~= p@.take(i as int));
            assert(nx.last() == p@[i as int]);
        }
        if p[i] == '/' || (windows && p[i] == '\\') {
            out.push((i + 1, i + 1));
            assert(out@.map_values(|r: (usize, usize)| (r.0 as int, r.1 as int)) =~= before.push(
                ((i + 1) as int, (i + 1) as int),
            ));
        } else {
            let last = out.pop().unwrap();
            out.push((last.0, i + 1));
            assert(out@.map_values(|r: (usize, usize)| (r.0 as int, r.1 as int)) =~= before.update(
                before.len() - 1,
                (before.last().0, (i + 1) as int),
            ));
        }
        i = i + 1;
    }
    assert(p@.take(p@.len() as int) =~= p@);
    out
}

fn range_is(p: &Vec<char>, s: usize, e: usize, word: &[char]) -> (b: bool)
    requires
        s <= e <= p@.len(),
    ensures
        b == (p@.subrange(s as int, e as int) == word@),
{
    if e - s != word.len() {
        return false;
    }
    let mut k: usize = 0;
    while k < word.len()
        invariant
            k <= word@.len(),
            e - s == word@.len(),
            s <= e <= p@.len(),
            forall|j: int| 0 <= j < k ==> p@[s + j] == word@[j],
        decreases word@.len() - k,
    {
        if p[s + k] != word[k] {
            assert(p@.subrange(s as int, e as int)[k as int] != word@[k as int]);
            return false;
        }
        k = k + 1;
    }
    assert(p@.subrange(s as int, e as int) =~= word@);
    true
}

/// The components of a path, with where they lie.
pub(crate) fn spans_of(p: &Vec<char>, windows: bool) -> (out: Vec<(Kind, usize, usize)>)
    ensures
        spans_view(out@) == comp_spans(p@, windows),
        forall|i: int| 0 <= i < out@.len() ==> (#[trigger] out@[i]).1 <= out@[i].2 <= p@.len(),
        forall|a: int, b: int| 0 <= a < b < out@.len() ==> (#[trigger] out@[a]).2 <= (#[trigger] out@[b]).1,
        forall|i: int| 0 <= i < out@.len() ==> ((#[trigger] out@[i]).0 == Kind::Prefix ==> out@[i].1 < out@[i].2),
{
    let rs = piece_ranges(p, windows);
    let ghost rv = rs@.map_values(|r: (usize, usize)| (r.0 as int, r.1 as int));
    proof {
        lemma_pieces_bounds(p@, windows);
        lemma_pieces_adjacent(p@, windows);
        lemma_piece0(p@, windows);
        assert(rv.len() == rs@.len());
        assert forall|i: int| 0 <= i < rs@.len() implies #[trigger] rs@[i].0 <= rs@[i].1 <= p@.len() by {
            assert(rv[i] == pieces_at(p@, windows)[i]);
        }
        assert forall|m: int| 1 <= m < rs@.len() implies #[trigger] rs@[m].0 == rs@[m - 1].1 + 1 by {
            assert(rv[m] == pieces_at(p@, windows)[m]);
            assert(rv[m - 1] == pieces_at(p@, windows)[m - 1]);
        }
        assert(rv[0] == pieces_at(p@, windows)[0]);
    }
    let mut out: Vec<(Kind, usize, usize)> = Vec::new();
    let drive = windows && p.len() >= 2 && (('a' <= p[0] && p[0] <= 'z') || ('A' <= p[0] && p[0] <= 'Z'))
        && p[1] == ':';
    assert(drive == has_drive(p@, windows));
    let rooted = !drive && p.len() > 0 && (p[0] == '/' || (windows && p[0] == '\\'));
    let dot: [char; 1] = ['.'];
    let dotdot: [char; 2] = ['.', '.'];
    assert(dot@ =~= seq!['.']);
    assert(dotdot@ =~= seq!['.', '.']);
    let lead_cur = !drive && !rooted && range_is(p, rs[0].0, rs[0].1, &dot);
    proof {
        if rooted {
            assert(is_sep(p@[0], windows));
            assert(rs@[0].1 == 0) by {
                if rs@[0].1 > 0 {
                    assert(!is_sep(p@[0], windows));
                }
            }
            if rs@.len() == 1 {
                assert(rs@[0].1 == p@.len());
            }
        }
        if drive {
            assert(!is_sep(p@[0], windows) && !is_sep(p@[1], windows));
            assert(rs@[0].1 >= 2) by {
                if rs@[0].1 < 2 {
                    if rs@.len() > 1 {
                        assert(is_sep(p@[rs@[0].1 as int], windows));
                    } else {
                        assert(rs@[0].1 == p@.len());
                    }
                }
            }
        }
    }
    let ghost mut hi: int = 0;
    let start: usize = if drive {
        out.push((Kind::Prefix, 0, 2));
        let e0 = rs[0].1;
        if p.len() > 2 && (p[2] == '/' || (windows && p[2] == '\\')) {
            out.push((Kind::Root, 2, 3));
            proof {
                hi = 3;
                assert(e0 == 2) by {
                    if e0 > 2 {
                        assert(!is_sep(p@[2], windows));
                    }
                }
            }
        } else if range_is(p, 2, e0, &dot) {
            out.push((Kind::Cur, 2, 3));
            proof {
                hi = 3;
                assert(p@.subrange(2, e0 as int).len() == 1);
            }
        } else if e0 > 2 && range_is(p, 2, e0, &dotdot) {
            out.push((Kind::Parent, 2, e0));
            proof { hi = e0 as int; }
        } else if e0 > 2 {
            out.push((Kind::Normal, 2, e0));
            proof { hi = e0 as int; }
        } else {
            proof { hi = 2; }
        }
        proof {
            let dh = drive_head(p@, windows, rv);
            assert(rv[0].1 == e0);
            if p@.len() > 2 && is_sep(p@[2], windows) {
                assert(dh == seq![(Kind::Root, 2int, 3int)]);
            } else if p@.subrange(2, e0 as int) == seq!['.'] {
                assert(dh == seq![(Kind::Cur, 2int, 3int)]);
            } else {
                assert(dh == piece_span(p@, (2, e0 as int)));
                if e0 == 2 {
                    assert(p@.subrange(2, 2) =~= Seq::<char>::empty());
                }
            }
            assert(spans_view(out@) =~= seq![(Kind::Prefix, 0int, 2int)] + dh);
        }
        1
    } else if rooted {
        out.push((Kind::Root, 0, 1));
        proof { hi = 1; }
        0
    } else if lead_cur {
        out.push((Kind::Cur, 0, 1));
        assert(p@.subrange(0, rs@[0].1 as int) =~= seq!['.']);
        proof { hi = 1; }
        1
    } else {
        0
    };
    let ghost head = spans_view(out@);
    let ghost src = rv.subrange(start as int, rv.len() as int);
    proof {
        if lead_cur || drive {
            assert(src =~= rv.drop_first());
        } else {
            assert(src =~= rv);
        }
        assert(spans_view(out@) =~= head + pieces_spans(p@, src.take(0)));
    }
    let mut i: usize = start;
    while i < rs.len()
        invariant
            start <= i <= rs@.len(),
            rv == rs@.map_values(|r: (usize, usize)| (r.0 as int, r.1 as int)),
            src == rv.subrange(start as int, rv.len() as int),
            forall|k: int| 0 <= k < rs@.len() ==> #[trigger] rs@[k].0 <= rs@[k].1 <= p@.len(),
            forall|k: int| 0 <= k < out@.len() ==> (#[trigger] out@[k]).1 <= out@[k].2 <= p@.len(),
            dot@ == seq!['.'],
            dotdot@ == seq!['.', '.'],
            spans_view(out@) == head + pieces_spans(p@, src.take(i - start)),
            forall|m: int| 1 <= m < rs@.len() ==> (#[trigger] rs@[m]).0 == rs@[m - 1].1 + 1,
            rs@[0].0 == 0,
            rooted ==> rs@[0].1 == 0 && rs@.len() >= 2,
            start == 0 || (start == 1 && (lead_cur || drive)),
            forall|k: int| 0 <= k < out@.len() ==> (#[trigger] out@[k]).2 <= hi,
            forall|k: int| 0 <= k < out@.len() ==> ((#[trigger] out@[k]).0 == Kind::Prefix ==> out@[k].1 < out@[k].2),
            forall|a: int, b: int| 0 <= a < b < out@.len() ==> (#[trigger] out@[a]).2 <= (#[trigger] out@[b]).1,
            i < rs@.len() ==> hi <= rs@[i as int].0 || (i == 0 && rooted && hi == 1),
        decreases rs@.len() - i,
    {
        let (s, e) = rs[i];
        let ghost before = spans_view(out@);
        proof {
            let nx = src.take(i - start + 1);
            assert(nx.drop_last() =~= src.take(i - start));
            assert(nx.last() == rv[i as int]);
            assert(rv[i as int] == (s as int, e as int));
        }
        if s == e || range_is(p, s, e, &dot) {
            assert(piece_span(p@, (s as int, e as int)) =~= Seq::<Span>::empty());
            assert(spans_view(out@) =~= head + pieces_spans(p@, src.take(i - start + 1)));
        } else if range_is(p, s, e, &dotdot) {
            out.push((Kind::Parent, s, e));
            proof { hi = e as int; }
            assert(spans_view(out@) =~= before.push((Kind::Parent, s as int, e as int)));
            assert(spans_view(out@) =~= head + pieces_spans(p@, src.take(i - start + 1)));
        } else {
            out.push((Kind::Normal, s, e));
            proof { hi = e as int; }
            assert(spans_view(out@) =~= before.push((Kind::Normal, s as int, e as int)));
            assert(spans_view(out@) =~= head + pieces_spans(p@, src.take(i - start + 1)));
        }
        i = i + 1;
    }
    assert(src.take(src.len() as int) =~= src);
    proof {
        if !rooted && !lead_cur && !drive {
            assert(head =~= Seq::<Span>::empty());
            assert(spans_view(out@) =~= pieces_spans(p@, rv));
        }
    }
    out
}

fn same_component(
    p: &Vec<char>,
    a: (Kind, usize, usize),
    q: &Vec<char>,
    b: (Kind, usize, usize),
) -> (r: bool)
    requires
        a.1 <= a.2 <= p@.len(),
        b.1 <= b.2 <= q@.len(),
        a.0 == Kind::Prefix ==> a.1 < a.2,
        b.0 == Kind::Prefix ==> b.1 < b.2,
    ensures
        r == same_comp(p@, (a.0, a.1 as int, a.2 as int), q@, (b.0, b.1 as int, b.2 as int)),
{
    if a.0 != b.0 {
        return false;
    }
    match a.0 {
        Kind::Normal => {
            let n = a.2 - a.1;
            if n != b.2 - b.1 {
                assert(p@.subrange(a.1 as int, a.2 as int).len() != q@.subrange(b.1 as int, b.2 as int).len());
                return false;
            }
            let ghost sa = p@.subrange(a.1 as int, a.2 as int);
            let ghost sb = q@.subrange(b.1 as int, b.2 as int);
            let mut k: usize = 0;
            while k < n
                invariant
                    k <= n,
                    n == a.2 - a.1,
                    n == b.2 - b.1,
                    a.1 <= a.2 <= p@.len(),
                    b.1 <= b.2 <= q@.len(),
                    a.0 == Kind::Normal,
                    b.0 == Kind::Normal,
                    sa == p@.subrange(a.1 as int, a.2 as int),
                    sb == q@.subrange(b.1 as int, b.2 as int),
                    forall|j: int| 0 <= j < k ==> #[trigger] sa[j] == sb[j],
                decreases n - k,
            {
                assert(sa[k as int] == p@[a.1 + k]);
                assert(sb[k as int] == q@[b.1 + k]);
                if p[a.1 + k] != q[b.1 + k] {
                    assert(sa[k as int] != sb[k as int]);
                    assert(sa != sb);
                    return false;
                }
                k = k + 1;
            }
            assert(sa =~= sb);
            true
        },
        Kind::Prefix => upper_char(p[a.1]) == upper_char(q[b.1]),
        _ => true,
    }
}

pub(crate) fn upper_char(c: char) -> (r: char)
    ensures
        r == ascii_upper(c),
{
    if 'a' <= c && c <= 'z' {
        let b: u8 = c as u8;
        (b - 32) as char
    } else {
        c
    }
}

fn span_at(v: &Vec<(Kind, usize, usize)>, i: usize) -> (s: (Kind, usize, usize))
    requires
        i < v@.len(),
    ensures
        s == v@[i as int],
{
    v[i]
}

/// `Path::parent` of `p`, as text.
fn parent_of(p: &Vec<char>, windows: bool) -> (r: Option<Vec<char>>)
    ensures
        match r {
            Some(t) => parent_text(p@, windows) == Some(t@),
            None => parent_text(p@, windows) is None,
        },
{
    let cs = spans_of(p, windows);
    let n = cs.len();
    if n == 0 {
        return None;
    }
    let last = span_at(&cs, n - 1);
    assert(spans_view(cs@)[n - 1] == (last.0, last.1 as int, last.2 as int));
    if last.0 == Kind::Root || last.0 == Kind::Prefix {
        return None;
    }
    if n >= 2 {
        let prev = span_at(&cs, n - 2);
        assert(spans_view(cs@)[n - 2] == (prev.0, prev.1 as int, prev.2 as int));
        let mut t: Vec<char> = Vec::new();
        let mut k: usize = 0;
        while k < prev.2
            invariant
                k <= prev.2 <= p@.len(),
                t@ == p@.subrange(0, k as int),
            decreases prev.2 - k,
        {
            t.push(p[k]);
            k = k + 1;
            assert(t@ =~= p@.subrange(0, k as int));
        }
        Some(t)
    } else {
        Some(Vec::new())
    }
}

/// `Path::strip_prefix(p, base)`, as text.
fn strip_of(p: &Vec<char>, base: &Vec<char>, windows: bool) -> (r: Option<Vec<char>>)
    ensures
        match r {
            Some(t) => strip_text(p@, base@, windows) == Some(t@),
            None => strip_text(p@, base@, windows) is None,
        },
{
    let ps = spans_of(p, windows);
    let bs = spans_of(base, windows);
    let ghost pv = spans_view(ps@);
    let ghost bv = spans_view(bs@);
    if bs.len() > ps.len() {
        return None;
    }
    let mut i: usize = 0;
    while i < bs.len()
        invariant
            i <= bs@.len() <= ps@.len(),
            pv == spans_view(ps@),
            bv == spans_view(bs@),
            pv == comp_spans(p@, windows),
            bv == comp_spans(base@, windows),
            forall|k: int| 0 <= k < ps@.len() ==> (#[trigger] ps@[k]).1 <= ps@[k].2 <= p@.len(),
            forall|k: int| 0 <= k < bs@.len() ==> (#[trigger] bs@[k]).1 <= bs@[k].2 <= base@.len(),
            forall|a: int, b: int| 0 <= a < b < ps@.len() ==> (#[trigger] ps@[a]).2 <= (#[trigger] ps@[b]).1,
            forall|k: int| 0 <= k < ps@.len() ==> ((#[trigger] ps@[k]).0 == Kind::Prefix ==> ps@[k].1 < ps@[k].2),
            forall|k: int| 0 <= k < bs@.len() ==> ((#[trigger] bs@[k]).0 == Kind::Prefix ==> bs@[k].1 < bs@[k].2),
            forall|k: int| 0 <= k < i ==> same_comp(p@, #[trigger] pv[k], base@, bv[k]),
        decreases bs@.len() - i,
    {
        let a = span_at(&ps, i);
        let b = span_at(&bs, i);
        assert(pv[i as int] == (a.0, a.1 as int, a.2 as int));
        assert(bv[i as int] == (b.0, b.1 as int, b.2 as int));
        if !same_component(p, a, base, b) {
            assert(!same_comp(p@, pv[i as int], base@, bv[i as int]));
            return None;
        }
        i = i + 1;
    }
    if ps.len() == bs.len() {
        return Some(Vec::new());
    }
    let first = span_at(&ps, bs.len());
    let last = span_at(&ps, ps.len() - 1);
    assert(pv[bs@.len() as int] == (first.0, first.1 as int, first.2 as int));
    assert(pv[ps@.len() - 1] == (last.0, last.1 as int, last.2 as int));
    let t = string_of_range_vec(p, first.1, last.2);
    Some(t)
}

fn string_of_range_vec(p: &Vec<char>, lo: usize, hi: usize) -> (t: Vec<char>)
    requires
        lo <= hi <= p@.len(),
    ensures
        t@ == p@.subrange(lo as int, hi as int),
{
    let mut t: Vec<char> = Vec::new();
    let mut k: usize = lo;
    while k < hi
        invariant
            lo <= k <= hi <= p@.len(),
            t@ == p@.subrange(lo as int, k as int),
        decreases hi - k,
    {
        t.push(p[k]);
        k = k + 1;
        assert(t@ =~= p@.subrange(lo as int, k as int));
    }
    t
}

/// Each piece after the first starts just after the slash that ends the one
/// before it.
proof fn lemma_pieces_adjacent(p: Seq<char>, windows: bool)
    ensures
        forall|m: int| 1 <= m < pieces_at(p, windows).len() ==> (#[trigger] pieces_at(p, windows)[m]).0 == pieces_at(p, windows)[m - 1].1 + 1,
    decreases p.len(),
{
    lemma_pieces_bounds(p, windows);
    if p.len() > 0 {
        lemma_pieces_adjacent(p.drop_last(), windows);
        lemma_pieces_bounds(p.drop_last(), windows);
    }
}

/// The first piece runs up to the first separator: no separator lies in
/// it, and another piece follows exactly when a separator ends it.
proof fn lemma_piece0(p: Seq<char>, windows: bool)
    ensures
        forall|j: int| 0 <= j < pieces_at(p, windows)[0].1 ==> !is_sep(#[trigger] p[j], windows),
        pieces_at(p, windows).len() > 1 ==> pieces_at(p, windows)[0].1 < p.len() && is_sep(
            p[pieces_at(p, windows)[0].1],
            windows,
        ),
        pieces_at(p, windows).len() == 1 ==> pieces_at(p, windows)[0].1 == p.len(),
    decreases p.len(),
{
    lemma_pieces_bounds(p, windows);
    if p.len() > 0 {
        let d = p.drop_last();
        lemma_piece0(d, windows);
        lemma_pieces_bounds(d, windows);
        let r = pieces_at(d, windows);
        assert forall|j: int| 0 <= j < d.len() implies d[j] == p[j] by {}
        if is_sep(p.last(), windows) {
            assert(pieces_at(p, windows) == r.push((p.len() as int, p.len() as int)));
        } else {
            assert(pieces_at(p, windows) == r.update(r.len() - 1, (r.last().0, p.len() as int)));
        }
    }
}

// ---------------------------------------------------------------------------
// The labels
// ---------------------------------------------------------------------------

/// Where a playlist lies, below the playlists directory `root`.
pub fn playlist_location(root: &str, path: &str, windows: bool) -> (s: String)
    ensures
        s@ == location_text(root@, path@, windows),
{
    let r = chars_of(root);
    let p = chars_of(path);
    let parent = match parent_of(&p, windows) {
        Some(t) => t,
        None => chars_of(root),
    };
    match strip_of(&parent, &r, windows) {
        Some(rel) => {
            let mut s = String::from_str("playlists/");
            if rel.len() > 0 {
                s.append(crate::text::string_from_chars(rel.as_slice()).as_str());
            }
            s
        },
        None => crate::text::string_from_chars(parent.as_slice()),
    }
}

/// `Path::file_name` of `path`.
pub fn file_name_of(path: &str, windows: bool) -> (r: Option<String>)
    ensures
        match r {
            Some(n) => file_name_text(path@, windows) == Some(n@),
            None => file_name_text(path@, windows) is None,
        },
{
    let p = chars_of(path);
    let cs = spans_of(&p, windows);
    if cs.len() > 0 {
        let last = span_at(&cs, cs.len() - 1);
        assert(spans_view(cs@)[cs@.len() - 1] == (last.0, last.1 as int, last.2 as int));
        if last.0 == Kind::Normal {
            return Some(string_of_range(&p, last.1, last.2));
        }
    }
    None
}

/// The file name of a playlist, `<unknown>` without one.
pub fn file_name(path: &str, windows: bool) -> (s: String)
    ensures
        s@ == shown_name(path@, windows),
{
    match file_name_of(path, windows) {
        Some(n) => n,
        None => String::from_str("<unknown>"),
    }
}

} // verus!
