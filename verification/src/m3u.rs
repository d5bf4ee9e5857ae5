//! Parsing of M3U/M3U8 playlists.
//!
//! A playlist is read line by line: `#EXTINF:<info>,<name>` gives the name of
//! the next station, other `#` lines are comments, and an `http://` or
//! `https://` line is a station. A station without a usable `#EXTINF` name is
//! called `Station <n>`, `n` being its position among the stations.

use vstd::prelude::*;
use crate::station::{Station, StationView, stations_view};
use crate::text::{
    trim, starts_with, find, decimal, trim_range, starts_with_at, push_decimal,
    string_from_chars, string_of_range, chars_of, occurs_at, find_from, is_whitespace, lemma_trim_plain,
    lemma_find_first,
};

verus! {

// ---------------------------------------------------------------------------
// Lines
// ---------------------------------------------------------------------------

/// The text cut at every `'\n'`. Every piece is trimmed before it is used, so
/// a `'\r'` before the `'\n'` and an empty last piece make no difference,
/// just as with `str::lines`.
pub open spec fn split_lines(s: Seq<char>) -> Seq<Seq<char>>
    decreases s.len(),
{
    if s.len() == 0 {
        seq![Seq::<char>::empty()]
    } else {
        let prev = split_lines(s.drop_last());
        if s.last() == '\n' {
            prev.push(Seq::<char>::empty())
        } else {
            prev.update(prev.len() - 1, prev.last().push(s.last()))
        }
    }
}

pub proof fn lemma_split_lines_nonempty(s: Seq<char>)
    ensures
        split_lines(s).len() >= 1,
    decreases s.len(),
{
    if s.len() > 0 {
        lemma_split_lines_nonempty(s.drop_last());
    }
}

// ---------------------------------------------------------------------------
// Words of the format
// ---------------------------------------------------------------------------

pub open spec fn extinf_tag() -> Seq<char> {
    seq!['#', 'E', 'X', 'T', 'I', 'N', 'F', ':']
}

pub open spec fn http_prefix() -> Seq<char> {
    seq!['h', 't', 't', 'p', ':', '/', '/']
}

pub open spec fn https_prefix() -> Seq<char> {
    seq!['h', 't', 't', 'p', 's', ':', '/', '/']
}

/// `http://...` or `https://...`.
pub open spec fn is_http_url_spec(s: Seq<char>) -> bool {
    starts_with(s, http_prefix()) || starts_with(s, https_prefix())
}

/// The name given to the `n`-th station when the playlist names none.
pub open spec fn fallback_name(n: nat) -> Seq<char> {
    seq!['S', 't', 'a', 't', 'i', 'o', 'n', ' '] + decimal(n)
}

// ---------------------------------------------------------------------------
// The parse, line by line
// ---------------------------------------------------------------------------

pub struct M3uState {
    pub stations: Seq<StationView>,
    pub pending: Option<Seq<char>>,
}

pub open spec fn m3u_start() -> M3uState {
    M3uState { stations: Seq::empty(), pending: None }
}

/// The name an `#EXTINF:` line gives, from the text after the tag: what
/// follows the first `,`, trimmed, when that is not empty.
pub open spec fn extinf_name(rest: Seq<char>) -> Option<Seq<char>> {
    match find(rest, seq![',']) {
        Some(k) => {
            let n = trim(rest.subrange(k + 1, rest.len() as int));
            if n.len() == 0 {
                None
            } else {
                Some(n)
            }
        },
        None => None,
    }
}

/// What one line does to the parse.
pub open spec fn m3u_step(st: M3uState, line: Seq<char>) -> M3uState {
    let t = trim(line);
    if t.len() == 0 {
        st
    } else if starts_with(t, extinf_tag()) {
        M3uState { stations: st.stations, pending: extinf_name(t.subrange(8, t.len() as int)) }
    } else if t[0] == '#' {
        st
    } else if is_http_url_spec(t) {
        let name = match st.pending {
            Some(n) => n,
            None => fallback_name(st.stations.len() + 1),
        };
        M3uState { stations: st.stations.push(StationView { name, url: t }), pending: None }
    } else {
        st
    }
}

pub open spec fn m3u_fold(lines: Seq<Seq<char>>) -> M3uState
    decreases lines.len(),
{
    if lines.len() == 0 {
        m3u_start()
    } else {
        m3u_step(m3u_fold(lines.drop_last()), lines.last())
    }
}

/// The stations of an M3U/M3U8 text, in the order the text lists them.
pub open spec fn parse_m3u_spec(text: Seq<char>) -> Seq<StationView> {
    m3u_fold(split_lines(text)).stations
}

// ---------------------------------------------------------------------------
// Executable parse
// ---------------------------------------------------------------------------

pub open spec fn opt_string_view(o: Option<String>) -> Option<Seq<char>> {
    match o {
        Some(s) => Some(s@),
        None => None,
    }
}

/// The first position of `c` in `v[lo..hi]`, relative to `lo`.
pub fn find_char_range(v: &Vec<char>, lo: usize, hi: usize, c: char) -> (r: Option<usize>)
    requires
        lo <= hi <= v@.len(),
    ensures
        r matches Some(k) ==> lo <= k < hi && find(v@.subrange(lo as int, hi as int), seq![c])
            == Some((k - lo) as int),
        r is None ==> find(v@.subrange(lo as int, hi as int), seq![c]) is None,
{
    let ghost s = v@.subrange(lo as int, hi as int);
    let mut i: usize = lo;
    while i < hi
        invariant
            lo <= i <= hi <= v@.len(),
            s == v@.subrange(lo as int, hi as int),
            find_from(s, seq![c], (i - lo) as int) == find(s, seq![c]),
        decreases hi - i,
    {
        proof {
            assert(s.subrange((i - lo) as int, (i - lo) as int + 1) =~= seq![s[(i - lo) as int]]);
        }
        if v[i] == c {
            assert(occurs_at(s, seq![c], (i - lo) as int));
            return Some(i);
        }
        assert(seq![s[(i - lo) as int]][0] != seq![c][0]);
        assert(!occurs_at(s, seq![c], (i - lo) as int));
        i = i + 1;
    }
    None
}

pub fn is_http_url_range(v: &Vec<char>, lo: usize, hi: usize) -> (b: bool)
    requires
        lo <= hi <= v@.len(),
    ensures
        b == is_http_url_spec(v@.subrange(lo as int, hi as int)),
{
    let http: [char; 7] = ['h', 't', 't', 'p', ':', '/', '/'];
    let https: [char; 8] = ['h', 't', 't', 'p', 's', ':', '/', '/'];
    assert(http@ =~= http_prefix());
    assert(https@ =~= https_prefix());
    starts_with_at(v, lo, hi, http.as_slice()) || starts_with_at(v, lo, hi, https.as_slice())
}

/// `value.starts_with("http://") || value.starts_with("https://")`.
pub fn is_http_url(value: &str) -> (b: bool)
    ensures
        b == is_http_url_spec(value@),
{
    let v = chars_of(value);
    assert(v@.subrange(0, v@.len() as int) =~= v@);
    is_http_url_range(&v, 0, v.len())
}

/// `Station <n>`.
pub fn fallback_station_name(n: u64) -> (s: String)
    ensures
        s@ == fallback_name(n as nat),
{
    let mut out: Vec<char> = Vec::new();
    out.push('S');
    out.push('t');
    out.push('a');
    out.push('t');
    out.push('i');
    out.push('o');
    out.push('n');
    out.push(' ');
    push_decimal(&mut out, n);
    assert(out@ =~= fallback_name(n as nat));
    string_from_chars(out.as_slice())
}

/// Applies the line `v[lo..hi]` to the parse state.
fn m3u_line(
    v: &Vec<char>,
    lo: usize,
    hi: usize,
    stations: &mut Vec<Station>,
    pending: &mut Option<String>,
)
    requires
        lo <= hi <= v@.len(),
        old(stations)@.len() <= lo,
    ensures
        (M3uState { stations: stations_view(final(stations)@), pending: opt_string_view(*final(pending)) })
            == m3u_step(
            M3uState { stations: stations_view(old(stations)@), pending: opt_string_view(*old(pending)) },
            v@.subrange(lo as int, hi as int),
        ),
        final(stations)@.len() <= hi,
{
    let ghost line = v@.subrange(lo as int, hi as int);
    let (a, b) = trim_range(v, lo, hi);
    let ghost t = v@.subrange(a as int, b as int);
    assert(t == trim(line));
    if a == b {
        return;
    }
    let tag: [char; 8] = ['#', 'E', 'X', 'T', 'I', 'N', 'F', ':'];
    assert(tag@ =~= extinf_tag());
    if starts_with_at(v, a, b, tag.as_slice()) {
        let rest_lo: usize = a + 8;
        let ghost rest = v@.subrange(rest_lo as int, b as int);
        assert(rest =~= t.subrange(8, t.len() as int));
        match find_char_range(v, rest_lo, b, ',') {
            Some(k) => {
                let (na, nb) = trim_range(v, k + 1, b);
                assert(v@.subrange(k + 1, b as int) =~= rest.subrange(
                    (k - rest_lo) + 1,
                    rest.len() as int,
                ));
                if na == nb {
                    *pending = None;
                } else {
                    *pending = Some(string_of_range(v, na, nb));
                }
            },
            None => {
                *pending = None;
            },
        }
        return;
    }
    if v[a] == '#' {
        return;
    }
    if is_http_url_range(v, a, b) {
        let name: String = match pending.take() {
            Some(n) => n,
            None => fallback_station_name((stations.len() as u64) + 1),
        };
        let url = string_of_range(v, a, b);
        let ghost before = stations@;
        stations.push(Station { name, url });
        assert(stations_view(stations@) =~= stations_view(before).push(stations@.last()@));
    }
}

/// The stations of an M3U/M3U8 text (the contents of a playlist file).
pub fn parse_m3u(text: &str) -> (out: Vec<Station>)
    ensures
        stations_view(out@) == parse_m3u_spec(text@),
{
    let v = chars_of(text);
    let mut stations: Vec<Station> = Vec::new();
    let mut pending: Option<String> = None;
    let mut line_start: usize = 0;
    let mut i: usize = 0;
    proof {
        assert(v@.take(0) =~= Seq::<char>::empty());
        assert(split_lines(Seq::<char>::empty()).drop_last() =~= Seq::<Seq<char>>::empty());
        assert(stations_view(stations@) =~= Seq::<StationView>::empty());
    }
    while i < v.len()
        invariant
            line_start <= i <= v@.len(),
            v@ == text@,
            stations@.len() <= line_start,
            split_lines(v@.take(i as int)).len() >= 1,
            split_lines(v@.take(i as int)).last() == v@.subrange(line_start as int, i as int),
            m3u_fold(split_lines(v@.take(i as int)).drop_last()) == (M3uState {
                stations: stations_view(stations@),
                pending: opt_string_view(pending),
            }),
        decreases v@.len() - i,
    {
        let ghost prev = split_lines(v@.take(i as int));
        proof {
            assert(v@.take(i + 1).drop_last() =~= v@.take(i as int));
            assert(v@.take(i + 1).last() == v@[i as int]);
        }
        if v[i] == '\n' {
            m3u_line(&v, line_start, i, &mut stations, &mut pending);
            proof {
                let next = split_lines(v@.take(i + 1));
                assert(next == prev.push(Seq::<char>::empty()));
                assert(next.drop_last() =~= prev);
                assert(prev =~= prev.drop_last().push(prev.last()));
            }
            line_start = i + 1;
            i = i + 1;
            assert(v@.subrange(line_start as int, i as int) =~= Seq::<char>::empty());
        } else {
            proof {
                let next = split_lines(v@.take(i + 1));
                assert(next.drop_last() =~= prev.drop_last());
                assert(next.last() =~= v@.subrange(line_start as int, i + 1));
            }
            i = i + 1;
        }
    }
    assert(v@.take(v@.len() as int) =~= v@);
    let ghost all = split_lines(v@);
    m3u_line(&v, line_start, v.len(), &mut stations, &mut pending);
    assert(all =~= all.drop_last().push(all.last()));
    stations
}

// ---------------------------------------------------------------------------
// Laws
// ---------------------------------------------------------------------------

/// Cutting `x`, a newline and `y` at the newlines gives the lines of `x`
/// followed by those of `y`.
pub proof fn lemma_split_lines_join(x: Seq<char>, y: Seq<char>)
    ensures
        split_lines(x + seq!['\n'] + y) == split_lines(x) + split_lines(y),
    decreases y.len(),
{
    lemma_split_lines_nonempty(x);
    if y.len() == 0 {
        assert((x + seq!['\n'] + y).drop_last() =~= x);
        assert(x + seq!['\n'] + y =~= x.push('\n'));
        assert(split_lines(x).push(Seq::<char>::empty()) =~= split_lines(x) + seq![Seq::<char>::empty()]);
    } else {
        let s = x + seq!['\n'] + y;
        lemma_split_lines_join(x, y.drop_last());
        lemma_split_lines_nonempty(y.drop_last());
        assert(s.drop_last() =~= x + seq!['\n'] + y.drop_last());
        assert(s.last() == y.last());
        let a = split_lines(x);
        let b = split_lines(y.drop_last());
        if y.last() == '\n' {
            assert((a + b).push(Seq::<char>::empty()) =~= a + b.push(Seq::<char>::empty()));
        } else {
            assert((a + b).update((a + b).len() - 1, (a + b).last().push(y.last())) =~= a + b.update(
                b.len() - 1,
                b.last().push(y.last()),
            ));
        }
    }
}

/// A text without a newline is one line.
pub proof fn lemma_split_lines_single(c: Seq<char>)
    requires
        forall|i: int| 0 <= i < c.len() ==> c[i] != '\n',
    ensures
        split_lines(c) == seq![c],
    decreases c.len(),
{
    if c.len() == 0 {
        assert(c =~= Seq::<char>::empty());
        assert(split_lines(c) =~= seq![c]);
    } else {
        lemma_split_lines_single(c.drop_last());
        assert(c.drop_last().push(c.last()) =~= c);
    }
}

/// A comment or directive line: its trimmed text starts with `#` but not
/// with `#EXTINF:`.
pub open spec fn is_comment_line(c: Seq<char>) -> bool {
    &&& forall|i: int| 0 <= i < c.len() ==> c[i] != '\n'
    &&& trim(c).len() > 0
    &&& trim(c)[0] == '#'
    &&& !starts_with(trim(c), extinf_tag())
}

/// A line the parse passes over: blank, a comment or directive, or text that
/// is neither a tag nor an http(s) URL.
pub open spec fn is_ignored_line(c: Seq<char>) -> bool {
    &&& forall|i: int| 0 <= i < c.len() ==> c[i] != '\n'
    &&& (trim(c).len() == 0 || !starts_with(trim(c), extinf_tag()) && (trim(c)[0] == '#'
        || !is_http_url_spec(trim(c))))
}

proof fn lemma_fold_skips_comment(p: Seq<Seq<char>>, c: Seq<char>, q: Seq<Seq<char>>)
    requires
        is_ignored_line(c),
    ensures
        m3u_fold(p + seq![c] + q) == m3u_fold(p + q),
    decreases q.len(),
{
    if q.len() == 0 {
        assert(p + seq![c] + q =~= p.push(c));
        assert(p + q =~= p);
        assert(p.push(c).drop_last() =~= p);
    } else {
        lemma_fold_skips_comment(p, c, q.drop_last());
        assert((p + seq![c] + q).drop_last() =~= p + seq![c] + q.drop_last());
        assert((p + q).drop_last() =~= p + q.drop_last());
        assert((p + seq![c] + q).last() == q.last());
        assert((p + q).last() == q.last());
    }
}

/// A blank line, a comment or directive, or a line that is neither a tag
/// nor an http(s) URL changes nothing: inserted at the start of a line
/// anywhere in a playlist, the playlist gives the same stations.
pub proof fn lemma_m3u_ignored_line(a: Seq<char>, c: Seq<char>, b: Seq<char>)
    requires
        a.len() == 0 || a[a.len() - 1] == '\n',
        is_ignored_line(c),
    ensures
        parse_m3u_spec(a + c + seq!['\n'] + b) == parse_m3u_spec(a + b),
{
    lemma_split_lines_single(c);
    lemma_split_lines_join(c, b);
    if a.len() == 0 {
        assert(a + c + seq!['\n'] + b =~= c + seq!['\n'] + b);
        assert(a + b =~= b);
        lemma_fold_skips_comment(Seq::empty(), c, split_lines(b));
        assert(Seq::<Seq<char>>::empty() + seq![c] + split_lines(b) =~= seq![c] + split_lines(b));
        assert(Seq::<Seq<char>>::empty() + split_lines(b) =~= split_lines(b));
    } else {
        let a0 = a.drop_last();
        assert(a =~= a0 + seq!['\n']);
        assert(a + c + seq!['\n'] + b =~= a0 + seq!['\n'] + (c + seq!['\n'] + b));
        assert(a + b =~= a0 + seq!['\n'] + b);
        lemma_split_lines_join(a0, c + seq!['\n'] + b);
        lemma_split_lines_join(a0, b);
        let p = split_lines(a0);
        lemma_fold_skips_comment(p, c, split_lines(b));
        assert(p + (seq![c] + split_lines(b)) =~= p + seq![c] + split_lines(b));
    }
}

/// A comment or directive line (`#` but not `#EXTINF:`) changes nothing:
/// inserted at the start of a line anywhere in a playlist, the playlist
/// gives the same stations, so a name from an `#EXTINF:` line before it
/// still goes to the next URL.
pub proof fn lemma_m3u_comment_line_ignored(a: Seq<char>, c: Seq<char>, b: Seq<char>)
    requires
        a.len() == 0 || a[a.len() - 1] == '\n',
        is_comment_line(c),
    ensures
        parse_m3u_spec(a + c + seq!['\n'] + b) == parse_m3u_spec(a + b),
{
    lemma_m3u_ignored_line(a, c, b);
}

/// `#EXTINF:<x>,<name>` names the URL on the next line: with `x` holding no
/// comma, `name` and the URL `u` without whitespace at either end, the two
/// lines give one station called `name` with the URL `u`.
pub proof fn lemma_m3u_extinf_names_next_url(x: Seq<char>, name: Seq<char>, u: Seq<char>)
    requires
        forall|i: int| 0 <= i < x.len() ==> x[i] != ',' && x[i] != '\n',
        name.len() > 0,
        !is_whitespace(name[0]),
        !is_whitespace(name[name.len() - 1]),
        forall|i: int| 0 <= i < name.len() ==> name[i] != '\n',
        u.len() > 0,
        is_http_url_spec(u),
        !is_whitespace(u[u.len() - 1]),
        forall|i: int| 0 <= i < u.len() ==> u[i] != '\n',
    ensures
        parse_m3u_spec(extinf_tag() + x + seq![','] + name + seq!['\n'] + u) == seq![
            StationView { name: name, url: u },
        ],
{
    let l1 = extinf_tag() + x + seq![','] + name;
    assert(extinf_tag() + x + seq![','] + name + seq!['\n'] + u =~= l1 + seq!['\n'] + u);
    assert forall|i: int| 0 <= i < l1.len() implies l1[i] != '\n' by {
        if i >= 8 + x.len() + 1 {
            assert(l1[i] == name[i - 9 - x.len()]);
        } else if i >= 8 && i < 8 + x.len() {
            assert(l1[i] == x[i - 8]);
        }
    }
    lemma_split_lines_single(l1);
    lemma_split_lines_single(u);
    lemma_split_lines_join(l1, u);
    let lines = seq![l1] + seq![u];
    assert(lines.drop_last() =~= seq![l1]);
    assert(seq![l1].drop_last() =~= Seq::<Seq<char>>::empty());
    assert(l1[0] == '#');
    assert(l1[l1.len() - 1] == name[name.len() - 1]);
    lemma_trim_plain(l1);
    assert(starts_with(l1, extinf_tag())) by {
        assert(l1.subrange(0, 8) =~= extinf_tag());
    }
    let rest = l1.subrange(8, l1.len() as int);
    assert(rest =~= x + seq![','] + name);
    let k = x.len() as int;
    assert forall|j: int| 0 <= j < k implies !occurs_at(rest, seq![','], j) by {
        if occurs_at(rest, seq![','], j) {
            assert(rest.subrange(j, j + 1)[0] == rest[j]);
            assert(rest[j] == x[j]);
        }
    }
    assert(rest.subrange(k, k + 1) =~= seq![',']);
    lemma_find_first(rest, seq![','], k);
    assert(rest.subrange(k + 1, rest.len() as int) =~= name);
    lemma_trim_plain(name);
    assert(extinf_name(rest) == Some(name));
    assert(u[0] == 'h') by {
        assert(starts_with(u, http_prefix()) ==> u.subrange(0, 7)[0] == u[0]);
        assert(starts_with(u, https_prefix()) ==> u.subrange(0, 8)[0] == u[0]);
    }
    lemma_trim_plain(u);
    assert(!starts_with(u, extinf_tag())) by {
        if starts_with(u, extinf_tag()) {
            assert(u.subrange(0, 8)[0] == u[0]);
        }
    }
    assert(trim(l1) == l1);
    assert(m3u_fold(seq![l1].drop_last()) == m3u_start());
    assert(seq![l1].last() == l1);
    assert(m3u_step(m3u_start(), l1) == M3uState { stations: Seq::empty(), pending: Some(name) });
    let s1 = m3u_fold(seq![l1]);
    assert(s1 == M3uState { stations: Seq::empty(), pending: Some(name) });
    assert(m3u_fold(lines).stations =~= seq![StationView { name: name, url: u }]);
}

/// A name from `#EXTINF:` goes to one URL only: the URL after that gets the
/// fallback name with its own position, `Station 2`.
pub proof fn lemma_m3u_name_used_once(x: Seq<char>, name: Seq<char>, u1: Seq<char>, u2: Seq<char>)
    requires
        forall|i: int| 0 <= i < x.len() ==> x[i] != ',' && x[i] != '\n',
        name.len() > 0,
        !is_whitespace(name[0]),
        !is_whitespace(name[name.len() - 1]),
        forall|i: int| 0 <= i < name.len() ==> name[i] != '\n',
        u1.len() > 0,
        is_http_url_spec(u1),
        !is_whitespace(u1[u1.len() - 1]),
        forall|i: int| 0 <= i < u1.len() ==> u1[i] != '\n',
        u2.len() > 0,
        is_http_url_spec(u2),
        !is_whitespace(u2[u2.len() - 1]),
        forall|i: int| 0 <= i < u2.len() ==> u2[i] != '\n',
    ensures
        parse_m3u_spec(extinf_tag() + x + seq![','] + name + seq!['\n'] + u1 + seq!['\n'] + u2) == seq![
            StationView { name: name, url: u1 },
            StationView { name: fallback_name(2), url: u2 },
        ],
{
    let first = extinf_tag() + x + seq![','] + name + seq!['\n'] + u1;
    lemma_m3u_extinf_names_next_url(x, name, u1);
    lemma_split_lines_single(u2);
    lemma_split_lines_join(first, u2);
    let lines = split_lines(first) + seq![u2];
    assert(lines.drop_last() =~= split_lines(first));
    assert(lines.last() == u2);
    let st = m3u_fold(split_lines(first));
    assert(st.stations == seq![StationView { name: name, url: u1 }]);
    // after a URL there is no pending name
    assert(st.pending is None) by {
        let l1 = extinf_tag() + x + seq![','] + name;
        assert(first =~= l1 + seq!['\n'] + u1);
        lemma_split_lines_join(l1, u1);
        lemma_split_lines_single(u1);
        lemma_split_lines_nonempty(l1);
        assert(split_lines(first).last() == u1);
        lemma_m3u_pending_after_url(first, u1);
    }
    assert(u2[0] == 'h') by {
        assert(starts_with(u2, http_prefix()) ==> u2.subrange(0, 7)[0] == u2[0]);
        assert(starts_with(u2, https_prefix()) ==> u2.subrange(0, 8)[0] == u2[0]);
    }
    lemma_trim_plain(u2);
    assert(!starts_with(u2, extinf_tag())) by {
        if starts_with(u2, extinf_tag()) {
            assert(u2.subrange(0, 8)[0] == u2[0]);
        }
    }
    assert(m3u_fold(lines).stations =~= st.stations.push(StationView { name: fallback_name(2), url: u2 }));
}

proof fn lemma_m3u_pending_after_url(text: Seq<char>, u: Seq<char>)
    requires
        split_lines(text).len() > 0,
        split_lines(text).last() == u,
        u.len() > 0,
        is_http_url_spec(u),
        !is_whitespace(u[u.len() - 1]),
    ensures
        m3u_fold(split_lines(text)).pending is None,
{
    assert(u[0] == 'h') by {
        assert(starts_with(u, http_prefix()) ==> u.subrange(0, 7)[0] == u[0]);
        assert(starts_with(u, https_prefix()) ==> u.subrange(0, 8)[0] == u[0]);
    }
    lemma_trim_plain(u);
    assert(!starts_with(u, extinf_tag())) by {
        if starts_with(u, extinf_tag()) {
            assert(u.subrange(0, 8)[0] == u[0]);
        }
    }
}

} // verus!
