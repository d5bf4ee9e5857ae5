//! Finding the playlists under the playlists directory.
//!
//! The caller walks the directory tree; for each directory it asks
//! `ScanState::enter_dir` with the directory's canonical path (a directory
//! reached twice, through a link, is not listed again), and hands every
//! other entry to `ScanState::add_file`, which keeps the `.m3u`, `.m3u8` and
//! `.pls` files (extension in any case). `scan_m3u_files` then gives the
//! playlists found, sorted in path order: component by component, a drive
//! prefix (by its letter) before the root before `.` before `..` before
//! names, names by code point. Paths are read as on Windows when the caller
//! says so (see `location`).

use vstd::prelude::*;
use crate::search::{PlaylistPath, PathView, paths_view};
use crate::text::{lower_seq, chars_of, lower_chars, str_eq};
use crate::station::{Station, StationView, stations_view};
use crate::m3u::{parse_m3u, parse_m3u_spec};
use crate::pls::{parse_pls, parse_pls_spec};
use crate::location::{Kind, Span, comp_spans, spans_of, spans_view, ascii_upper, upper_char};
use crate::order::{chars_lt, chars_less, lemma_chars_lt_asymmetric, lemma_chars_lt_transitive};

verus! {

// ---------------------------------------------------------------------------
// Path components
// ---------------------------------------------------------------------------

/// One component of a path; a drive prefix is held by its letter in upper
/// case (`c:` and `C:` name the same drive).
pub enum Comp {
    Prefix(char),
    Root,
    Cur,
    Parent,
    Normal(Seq<char>),
}

/// The component a span of `p` gives.
pub open spec fn span_comp(p: Seq<char>, s: Span) -> Comp {
    match s.0 {
        Kind::Prefix => Comp::Prefix(ascii_upper(p[s.1])),
        Kind::Root => Comp::Root,
        Kind::Cur => Comp::Cur,
        Kind::Parent => Comp::Parent,
        Kind::Normal => Comp::Normal(p.subrange(s.1, s.2)),
    }
}

/// The components of a path, as `Path::components` gives them (read as on
/// Windows when `windows` holds).
pub open spec fn components(p: Seq<char>, windows: bool) -> Seq<Comp> {
    comp_spans(p, windows).map_values(|s: Span| span_comp(p, s))
}

pub open spec fn comp_rank(c: Comp) -> int {
    match c {
        Comp::Prefix(_) => 0,
        Comp::Root => 1,
        Comp::Cur => 2,
        Comp::Parent => 3,
        Comp::Normal(_) => 4,
    }
}

pub open spec fn comp_lt(a: Comp, b: Comp) -> bool {
    if comp_rank(a) != comp_rank(b) {
        comp_rank(a) < comp_rank(b)
    } else {
        match (a, b) {
            (Comp::Normal(x), Comp::Normal(y)) => chars_lt(x, y),
            (Comp::Prefix(x), Comp::Prefix(y)) => x < y,
            _ => false,
        }
    }
}

/// `a` comes before `b`, comparing component by component.
pub open spec fn comps_lt(a: Seq<Comp>, b: Seq<Comp>) -> bool
    decreases a.len(),
{
    if a.len() == 0 {
        b.len() > 0
    } else if b.len() == 0 {
        false
    } else if a[0] != b[0] {
        comp_lt(a[0], b[0])
    } else {
        comps_lt(a.drop_first(), b.drop_first())
    }
}

/// The path order.
pub open spec fn path_lt(a: Seq<char>, b: Seq<char>, windows: bool) -> bool {
    comps_lt(components(a, windows), components(b, windows))
}

/// A component as the program holds it.
pub enum PathComp {
    Prefix(char),
    Root,
    Cur,
    Parent,
    Normal(Vec<char>),
}

impl View for PathComp {
    type V = Comp;

    open spec fn view(&self) -> Comp {
        match self {
            PathComp::Prefix(c) => Comp::Prefix(*c),
            PathComp::Root => Comp::Root,
            PathComp::Cur => Comp::Cur,
            PathComp::Parent => Comp::Parent,
            PathComp::Normal(v) => Comp::Normal(v@),
        }
    }
}

pub open spec fn comps_view(v: Seq<PathComp>) -> Seq<Comp> {
    v.map_values(|c: PathComp| c@)
}

/// The components of a path (read as on Windows when `windows` holds).
pub fn path_components(path: &str, windows: bool) -> (out: Vec<PathComp>)
    ensures
        comps_view(out@) == components(path@, windows),
{
    let p = chars_of(path);
    let spans = spans_of(&p, windows);
    let ghost sv = spans_view(spans@);
    let ghost target = components(path@, windows);
    assert(target == sv.map_values(|s: Span| span_comp(p@, s)));
    let mut out: Vec<PathComp> = Vec::new();
    let mut i: usize = 0;
    while i < spans.len()
        invariant
            i <= spans@.len(),
            p@ == path@,
            sv == spans_view(spans@),
            target == sv.map_values(|s: Span| span_comp(p@, s)),
            forall|k: int| 0 <= k < spans@.len() ==> (#[trigger] spans@[k]).1 <= spans@[k].2 <= p@.len(),
            forall|k: int| 0 <= k < spans@.len() ==> ((#[trigger] spans@[k]).0 == Kind::Prefix ==> spans@[k].1
                < spans@[k].2),
            out@.len() == i,
            forall|k: int| 0 <= k < i ==> (#[trigger] out@[k])@ == target[k],
        decreases spans@.len() - i,
    {
        let (kind, lo, hi) = spans[i];
        assert(sv[i as int] == (kind, lo as int, hi as int));
        let c = match kind {
            Kind::Prefix => PathComp::Prefix(upper_char(p[lo])),
            Kind::Root => PathComp::Root,
            Kind::Cur => PathComp::Cur,
            Kind::Parent => PathComp::Parent,
            Kind::Normal => {
                let mut copy: Vec<char> = Vec::new();
                let mut j: usize = lo;
                while j < hi
                    invariant
                        lo <= j <= hi <= p@.len(),
                        copy@ == p@.subrange(lo as int, j as int),
                    decreases hi - j,
                {
                    copy.push(p[j]);
                    j = j + 1;
                    assert(copy@ =~= p@.subrange(lo as int, j as int));
                }
                PathComp::Normal(copy)
            },
        };
        out.push(c);
        i = i + 1;
    }
    assert(comps_view(out@) =~= target);
    out
}

fn comp_less(a: &PathComp, b: &PathComp) -> (r: bool)
    ensures
        r == comp_lt(a@, b@),
{
    let ra: u8 = match a {
        PathComp::Prefix(_) => 0,
        PathComp::Root => 1,
        PathComp::Cur => 2,
        PathComp::Parent => 3,
        PathComp::Normal(_) => 4,
    };
    let rb: u8 = match b {
        PathComp::Prefix(_) => 0,
        PathComp::Root => 1,
        PathComp::Cur => 2,
        PathComp::Parent => 3,
        PathComp::Normal(_) => 4,
    };
    if ra != rb {
        return ra < rb;
    }
    match (a, b) {
        (PathComp::Normal(x), PathComp::Normal(y)) => chars_less(x.as_slice(), y.as_slice()),
        (PathComp::Prefix(x), PathComp::Prefix(y)) => *x < *y,
        _ => false,
    }
}

fn comp_same(a: &PathComp, b: &PathComp) -> (r: bool)
    ensures
        r == (a@ == b@),
{
    match (a, b) {
        (PathComp::Prefix(x), PathComp::Prefix(y)) => *x == *y,
        (PathComp::Root, PathComp::Root) => true,
        (PathComp::Cur, PathComp::Cur) => true,
        (PathComp::Parent, PathComp::Parent) => true,
        (PathComp::Normal(x), PathComp::Normal(y)) => {
            if x.len() != y.len() {
                assert(x@.len() != y@.len());
                assert(x@ != y@);
                return false;
            }
            let mut i: usize = 0;
            while i < x.len()
                invariant
                    i <= x@.len(),
                    x@.len() == y@.len(),
                    a@ == Comp::Normal(x@),
                    b@ == Comp::Normal(y@),
                    forall|j: int| 0 <= j < i ==> x@[j] == y@[j],
                decreases x@.len() - i,
            {
                if x[i] != y[i] {
                    assert(x@[i as int] != y@[i as int]);
                    assert(x@ != y@);
                    return false;
                }
                i = i + 1;
            }
            assert(x@ =~= y@);
            true
        },
        _ => false,
    }
}

/// Does `a` come before `b` in the component order?
pub fn comps_less(a: &Vec<PathComp>, b: &Vec<PathComp>) -> (r: bool)
    ensures
        r == comps_lt(comps_view(a@), comps_view(b@)),
{
    let ghost av = comps_view(a@);
    let ghost bv = comps_view(b@);
    let mut i: usize = 0;
    assert(av.skip(0) =~= av);
    assert(bv.skip(0) =~= bv);
    while i < a.len() && i < b.len()
        invariant
            i <= a@.len(),
            i <= b@.len(),
            av == comps_view(a@),
            bv == comps_view(b@),
            comps_lt(av, bv) == comps_lt(av.skip(i as int), bv.skip(i as int)),
        decreases a@.len() - i,
    {
        assert(av.skip(i as int)[0] == a@[i as int]@);
        assert(bv.skip(i as int)[0] == b@[i as int]@);
        if !comp_same(&a[i], &b[i]) {
            return comp_less(&a[i], &b[i]);
        }
        assert(av.skip(i as int).drop_first() =~= av.skip(i + 1));
        assert(bv.skip(i as int).drop_first() =~= bv.skip(i + 1));
        i = i + 1;
    }
    a.len() < b.len()
}

/// Does the path `a` come before the path `b`?
pub fn path_less(a: &str, b: &str, windows: bool) -> (r: bool)
    ensures
        r == path_lt(a@, b@, windows),
{
    comps_less(&path_components(a, windows), &path_components(b, windows))
}

// ---------------------------------------------------------------------------
// Sorting
// ---------------------------------------------------------------------------

/// Where `x` is inserted into `t`: before the first path after it.
pub open spec fn path_insert_pos(t: Seq<PathView>, x: PathView, windows: bool) -> nat
    decreases t.len(),
{
    if t.len() == 0 {
        0
    } else if path_lt(x.text, t[0].text, windows) {
        0
    } else {
        1 + path_insert_pos(t.drop_first(), x, windows)
    }
}

/// The playlists in path order; equal paths keep their order.
pub open spec fn sort_paths(s: Seq<PathView>, windows: bool) -> Seq<PathView>
    decreases s.len(),
{
    if s.len() == 0 {
        s
    } else {
        let t = sort_paths(s.drop_last(), windows);
        t.insert(path_insert_pos(t, s.last(), windows) as int, s.last())
    }
}

proof fn lemma_path_insert_pos_bound(t: Seq<PathView>, x: PathView, windows: bool)
    ensures
        path_insert_pos(t, x, windows) <= t.len(),
    decreases t.len(),
{
    if t.len() > 0 {
        lemma_path_insert_pos_bound(t.drop_first(), x, windows);
    }
}

fn sort_playlist_paths(items: &Vec<PlaylistPath>, windows: bool) -> (out: Vec<PlaylistPath>)
    ensures
        paths_view(out@) == sort_paths(paths_view(items@), windows),
{
    let ghost sv = paths_view(items@);
    let mut out: Vec<PlaylistPath> = Vec::new();
    let mut i: usize = 0;
    assert(paths_view(out@) =~= sort_paths(sv.take(0), windows));
    while i < items.len()
        invariant
            i <= items@.len(),
            sv == paths_view(items@),
            paths_view(out@) == sort_paths(sv.take(i as int), windows),
        decreases items@.len() - i,
    {
        let x = items[i].duplicate();
        let ghost t = paths_view(out@);
        let mut p: usize = 0;
        assert(t.skip(0) =~= t);
        while p < out.len() && !path_less(x.text.as_str(), out[p].text.as_str(), windows)
            invariant
                p <= out@.len(),
                t == paths_view(out@),
                x@ == sv[i as int],
                path_insert_pos(t, x@, windows) == p + path_insert_pos(t.skip(p as int), x@, windows),
            decreases out@.len() - p,
        {
            assert(t.skip(p as int)[0] == t[p as int]);
            assert(t.skip(p as int).drop_first() =~= t.skip(p + 1));
            p = p + 1;
        }
        proof {
            if p < out@.len() {
                assert(t.skip(p as int)[0] == t[p as int]);
            } else {
                assert(t.skip(p as int).len() == 0);
            }
            let nx = sv.take(i + 1);
            assert(nx.drop_last() =~= sv.take(i as int));
            assert(nx.last() == sv[i as int]);
        }
        out.insert(p, x);
        assert(paths_view(out@) =~= t.insert(p as int, sv[i as int]));
        i = i + 1;
    }
    assert(sv.take(sv.len() as int) =~= sv);
    out
}

// ---------------------------------------------------------------------------
// The scan
// ---------------------------------------------------------------------------

/// Is `ext` (without the dot) the extension of a playlist: `m3u`, `m3u8`
/// or `pls`, in any ASCII case?
pub open spec fn playlist_extension(ext: Seq<char>) -> bool {
    lower_seq(ext) == "m3u"@ || lower_seq(ext) == "m3u8"@ || lower_seq(ext) == "pls"@
}

fn seq_is(v: &Vec<char>, word: &str) -> (b: bool)
    ensures
        b == (v@ == word@),
{
    let w = chars_of(word);
    if v.len() != w.len() {
        return false;
    }
    let mut i: usize = 0;
    while i < v.len()
        invariant
            i <= v@.len(),
            v@.len() == w@.len(),
            w@ == word@,
            forall|j: int| 0 <= j < i ==> v@[j] == w@[j],
        decreases v@.len() - i,
    {
        if v[i] != w[i] {
            return false;
        }
        i = i + 1;
    }
    assert(v@ =~= w@);
    true
}

/// `eq_ignore_ascii_case` against `m3u`, `m3u8` and `pls`.
pub fn is_playlist_extension(ext: &str) -> (b: bool)
    ensures
        b == playlist_extension(ext@),
{
    let l = lower_chars(&chars_of(ext));
    seq_is(&l, "m3u") || seq_is(&l, "m3u8") || seq_is(&l, "pls")
}

/// The stations of a playlist file: read as PLS when its extension is
/// `pls` in any case, as M3U otherwise.
pub open spec fn parse_playlist_spec(text: Seq<char>, extension: Option<Seq<char>>) -> Seq<StationView> {
    match extension {
        Some(e) => if lower_seq(e) == "pls"@ {
            parse_pls_spec(text)
        } else {
            parse_m3u_spec(text)
        },
        None => parse_m3u_spec(text),
    }
}

/// Parses a playlist file's text in the format its extension names.
pub fn parse_playlist(text: &str, extension: Option<&str>) -> (out: Vec<Station>)
    ensures
        stations_view(out@) == parse_playlist_spec(
            text@,
            match extension {
                Some(e) => Some(e@),
                None => None,
            },
        ),
{
    match extension {
        Some(e) => {
            let l = lower_chars(&chars_of(e));
            if seq_is(&l, "pls") {
                parse_pls(text)
            } else {
                parse_m3u(text)
            }
        },
        None => parse_m3u(text),
    }
}

pub struct ScanView {
    pub visited: Seq<Seq<char>>,
    pub found: Seq<PathView>,
}

/// A scan in progress: the canonical paths of the directories listed so
/// far, and the playlists found.
pub struct ScanState {
    visited: Vec<String>,
    found: Vec<PlaylistPath>,
}

impl View for ScanState {
    type V = ScanView;

    closed spec fn view(&self) -> ScanView {
        ScanView {
            visited: self.visited@.map_values(|s: String| s@),
            found: paths_view(self.found@),
        }
    }
}

impl ScanState {
    /// A scan that has not listed anything yet.
    pub fn new() -> (s: ScanState)
        ensures
            s@.visited == Seq::<Seq<char>>::empty(),
            s@.found == Seq::<PathView>::empty(),
    {
        let s = ScanState { visited: Vec::new(), found: Vec::new() };
        assert(s@.visited =~= Seq::<Seq<char>>::empty());
        assert(s@.found =~= Seq::<PathView>::empty());
        s
    }

    /// The directory with this canonical path is reached: `true` (and it is
    /// remembered) when it was not listed before, so that it is listed now.
    pub fn enter_dir(&mut self, canonical: String) -> (first: bool)
        ensures
            first == !old(self)@.visited.contains(canonical@),
            final(self)@.found == old(self)@.found,
            final(self)@.visited == if first {
                old(self)@.visited.push(canonical@)
            } else {
                old(self)@.visited
            },
    {
        let ghost vv = self@.visited;
        let mut i: usize = 0;
        while i < self.visited.len()
            invariant
                i <= self.visited@.len(),
                vv == self.visited@.map_values(|s: String| s@),
                forall|j: int| 0 <= j < i ==> vv[j] != canonical@,
            decreases self.visited@.len() - i,
        {
            if self.visited[i] == canonical {
                assert(vv[i as int] == canonical@);
                return false;
            }
            i = i + 1;
        }
        self.visited.push(canonical);
        assert(self@.visited =~= vv.push(canonical@));
        true
    }

    /// An entry that is not a directory: kept when its extension (`None`
    /// without one) is that of a playlist. Returns whether it was kept.
    pub fn add_file(&mut self, path: PlaylistPath, extension: Option<&str>) -> (kept: bool)
        ensures
            kept == (extension matches Some(e) && playlist_extension(e@)),
            final(self)@.visited == old(self)@.visited,
            final(self)@.found == if kept {
                old(self)@.found.push(path@)
            } else {
                old(self)@.found
            },
    {
        let keep = match extension {
            Some(e) => is_playlist_extension(e),
            None => false,
        };
        if keep {
            let ghost before = self@.found;
            self.found.push(path);
            assert(self@.found =~= before.push(path@));
        }
        keep
    }
}

/// The playlists the scan found, in path order.
pub fn scan_m3u_files(scan: &ScanState, windows: bool) -> (out: Vec<PlaylistPath>)
    ensures
        paths_view(out@) == sort_paths(scan@.found, windows),
{
    sort_playlist_paths(&scan.found, windows)
}


// ---------------------------------------------------------------------------
// Laws
// ---------------------------------------------------------------------------

proof fn lemma_comp_lt_asymmetric(a: Comp, b: Comp)
    requires
        comp_lt(a, b),
    ensures
        !comp_lt(b, a),
{
    if let (Comp::Normal(x), Comp::Normal(y)) = (a, b) {
        lemma_chars_lt_asymmetric(x, y);
    }
}

proof fn lemma_comp_lt_transitive(a: Comp, b: Comp, c: Comp)
    requires
        comp_lt(a, b),
        comp_lt(b, c),
    ensures
        comp_lt(a, c),
{
    if let (Comp::Normal(x), Comp::Normal(y), Comp::Normal(z)) = (a, b, c) {
        lemma_chars_lt_transitive(x, y, z);
    }
}

proof fn lemma_comps_lt_asymmetric(a: Seq<Comp>, b: Seq<Comp>)
    requires
        comps_lt(a, b),
    ensures
        !comps_lt(b, a),
    decreases a.len(),
{
    if a.len() > 0 && b.len() > 0 {
        if a[0] == b[0] {
            lemma_comps_lt_asymmetric(a.drop_first(), b.drop_first());
        } else {
            lemma_comp_lt_asymmetric(a[0], b[0]);
        }
    }
}

proof fn lemma_comps_lt_transitive(a: Seq<Comp>, b: Seq<Comp>, c: Seq<Comp>)
    requires
        comps_lt(a, b),
        comps_lt(b, c),
    ensures
        comps_lt(a, c),
    decreases a.len(),
{
    if a.len() > 0 && b.len() > 0 && c.len() > 0 {
        if a[0] == b[0] && b[0] == c[0] {
            lemma_comps_lt_transitive(a.drop_first(), b.drop_first(), c.drop_first());
        } else if a[0] != b[0] && b[0] != c[0] {
            lemma_comp_lt_transitive(a[0], b[0], c[0]);
            if a[0] == c[0] {
                lemma_comp_lt_asymmetric(a[0], b[0]);
            }
        }
    }
}

/// No playlist comes after a later one in path order.
pub open spec fn sorted_paths(s: Seq<PathView>, windows: bool) -> bool {
    forall|i: int, j: int| 0 <= i < j < s.len() ==> !path_lt(s[j].text, s[i].text, windows)
}

proof fn lemma_path_insert_pos_facts(t: Seq<PathView>, x: PathView, windows: bool)
    ensures
        path_insert_pos(t, x, windows) <= t.len(),
        forall|i: int| 0 <= i < path_insert_pos(t, x, windows) ==> !path_lt(x.text, (#[trigger] t[i]).text, windows),
        path_insert_pos(t, x, windows) < t.len() ==> path_lt(x.text, t[path_insert_pos(t, x, windows) as int].text, windows),
    decreases t.len(),
{
    if t.len() > 0 && !path_lt(x.text, t[0].text, windows) {
        let d = t.drop_first();
        lemma_path_insert_pos_facts(d, x, windows);
        assert forall|i: int| 0 <= i < path_insert_pos(t, x, windows) implies !path_lt(x.text, (#[trigger] t[i]).text, windows) by {
            if i > 0 {
                assert(t[i] == d[i - 1]);
            }
        }
        if path_insert_pos(t, x, windows) < t.len() {
            assert(t[path_insert_pos(t, x, windows) as int] == d[path_insert_pos(d, x, windows) as int]);
        }
    }
}

/// A scan gives the playlists it found, in path order.
pub proof fn lemma_sort_paths_sorted(s: Seq<PathView>, windows: bool)
    ensures
        sorted_paths(sort_paths(s, windows), windows),
        sort_paths(s, windows).to_multiset() == s.to_multiset(),
    decreases s.len(),
{
    broadcast use vstd::seq_lib::group_to_multiset_ensures;

    if s.len() > 0 {
        let d = s.drop_last();
        lemma_sort_paths_sorted(d, windows);
        let t = sort_paths(d, windows);
        let x = s.last();
        lemma_path_insert_pos_facts(t, x, windows);
        let p = path_insert_pos(t, x, windows) as int;
        let r = t.insert(p, x);
        assert forall|i: int, j: int| 0 <= i < j < r.len() implies !path_lt(r[j].text, r[i].text, windows) by {
            if j < p {
                assert(r[i] == t[i] && r[j] == t[j]);
                assert(!path_lt(t[j].text, t[i].text, windows));
            } else if j == p {
                assert(r[i] == t[i]);
                assert(!path_lt(x.text, t[i].text, windows));
            } else if i == p {
                assert(r[j] == t[j - 1]);
                if path_lt(t[j - 1].text, x.text, windows) {
                    if j - 1 == p {
                        lemma_comps_lt_asymmetric(components(x.text, windows), components(t[p].text, windows));
                    } else {
                        lemma_comps_lt_transitive(
                            components(t[j - 1].text, windows),
                            components(x.text, windows),
                            components(t[p].text, windows),
                        );
                        assert(!path_lt(t[j - 1].text, t[p].text, windows));
                    }
                }
            } else if i < p {
                assert(r[i] == t[i] && r[j] == t[j - 1]);
                assert(!path_lt(t[j - 1].text, t[i].text, windows));
            } else {
                assert(r[i] == t[i - 1] && r[j] == t[j - 1]);
                assert(!path_lt(t[j - 1].text, t[i - 1].text, windows));
            }
        }
        vstd::seq_lib::to_multiset_insert(t, p, x);
        assert(d.push(x) =~= s);
    }
}

/// A directory reached a second time is not listed again.
pub proof fn lemma_directory_listed_once(visited: Seq<Seq<char>>, canonical: Seq<char>)
    ensures
        visited.push(canonical).contains(canonical),
{
    assert(visited.push(canonical)[visited.len() as int] == canonical);
}

} // verus!
