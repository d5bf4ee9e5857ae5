//! Parsing of PLS playlists.
//!
//! `FileN=<url>` gives the URL of entry `N` (only `http://`/`https://` URLs
//! count) and `TitleN=<name>` its name; a later line for the same `N` wins.
//! Stations come out in increasing order of `N`; an entry without a title is
//! called `Station <k>`, `k` being its position in the output.

use vstd::prelude::*;
use std::collections::BTreeMap;
use crate::entries::{entries_in_order, insert_entry, get_entry};
use crate::station::{Station, StationView, stations_view};
use crate::m3u::{split_lines, is_http_url_spec, fallback_name, fallback_station_name,
    find_char_range, is_http_url_range};
use crate::text::{trim, starts_with, find, trim_range, starts_with_at, chars_of,
    string_of_range};

verus! {

// ---------------------------------------------------------------------------
// `str::parse::<usize>`
// ---------------------------------------------------------------------------

pub open spec fn is_ascii_digit(c: char) -> bool {
    '0' <= c && c <= '9'
}

pub open spec fn all_digits(s: Seq<char>) -> bool {
    forall|i: int| 0 <= i < s.len() ==> is_ascii_digit(#[trigger] s[i])
}

pub open spec fn digit_value(c: char) -> nat {
    ((c as u32) - 48) as nat
}

pub open spec fn digits_value(s: Seq<char>) -> nat
    decreases s.len(),
{
    if s.len() == 0 {
        0
    } else {
        digits_value(s.drop_last()) * 10 + digit_value(s.last())
    }
}

/// `str::parse::<usize>`: an optional `+` and then one or more ASCII digits
/// whose value fits in a `usize`.
pub open spec fn parse_usize_spec(s: Seq<char>) -> Option<nat> {
    if s.len() == 0 {
        None
    } else {
        let d = if s[0] == '+' {
            s.drop_first()
        } else {
            s
        };
        if d.len() == 0 || !all_digits(d) || digits_value(d) > usize::MAX {
            None
        } else {
            Some(digits_value(d))
        }
    }
}

proof fn lemma_digits_value_prefix(s: Seq<char>, i: int)
    requires
        0 <= i <= s.len(),
        all_digits(s),
    ensures
        digits_value(s.take(i)) <= digits_value(s),
    decreases s.len() - i,
{
    if i < s.len() {
        lemma_digits_value_prefix(s, i + 1);
        assert(s.take(i + 1).drop_last() =~= s.take(i));
        assert(digits_value(s.take(i + 1)) == digits_value(s.take(i)) * 10 + digit_value(
            s.take(i + 1).last(),
        ));
    } else {
        assert(s.take(i) =~= s);
    }
}

/// `str::parse::<usize>` on `v[lo..hi]`.
pub fn parse_usize_range(v: &Vec<char>, lo: usize, hi: usize) -> (r: Option<usize>)
    requires
        lo <= hi <= v@.len(),
    ensures
        r matches Some(n) ==> parse_usize_spec(v@.subrange(lo as int, hi as int)) == Some(
            n as nat,
        ),
        r is None ==> parse_usize_spec(v@.subrange(lo as int, hi as int)) is None,
{
    let ghost s = v@.subrange(lo as int, hi as int);
    if lo == hi {
        return None;
    }
    let start: usize = if v[lo] == '+' {
        lo + 1
    } else {
        lo
    };
    let ghost d = v@.subrange(start as int, hi as int);
    assert(d =~= (if s[0] == '+' {
        s.drop_first()
    } else {
        s
    }));
    if start == hi {
        return None;
    }
    let mut acc: usize = 0;
    let mut i: usize = start;
    proof {
        assert(d.take(0) =~= Seq::<char>::empty());
    }
    while i < hi
        invariant
            start <= i <= hi <= v@.len(),
            d == v@.subrange(start as int, hi as int),
            s == v@.subrange(lo as int, hi as int),
            s.len() > 0,
            d.len() > 0,
            d == (if s[0] == '+' {
                s.drop_first()
            } else {
                s
            }),
            all_digits(d.take((i - start) as int)),
            acc as nat == digits_value(d.take((i - start) as int)),
        decreases hi - i,
    {
        let c = v[i];
        if !('0' <= c && c <= '9') {
            assert(d[(i - start) as int] == c);
            assert(!is_ascii_digit(d[(i - start) as int]));
            assert(!all_digits(d));
            return None;
        }
        let dv: usize = ((c as u32) - 48) as usize;
        let ghost k = (i - start) as int;
        proof {
            assert(d.take(k + 1).drop_last() =~= d.take(k));
            assert(d.take(k + 1).last() == c);
        }
        match acc.checked_mul(10) {
            Some(m) => match m.checked_add(dv) {
                Some(n) => {
                    acc = n;
                },
                None => {
                    proof {
                        assert(digits_value(d.take(k + 1)) > usize::MAX);
                        if all_digits(d) {
                            lemma_digits_value_prefix(d, k + 1);
                        }
                    }
                    return None;
                },
            },
            None => {
                proof {
                    assert(digits_value(d.take(k + 1)) > usize::MAX) by (nonlinear_arith)
                        requires
                            digits_value(d.take(k + 1)) == acc * 10 + digit_value(c),
                            acc * 10 > usize::MAX,
                    ;
                    if all_digits(d) {
                        lemma_digits_value_prefix(d, k + 1);
                    }
                }
                return None;
            },
        }
        i = i + 1;
        proof {
            assert forall|j: int| 0 <= j < d.take((i - start) as int).len() implies is_ascii_digit(
                #[trigger] d.take((i - start) as int)[j],
            ) by {
                if j < k {
                    assert(d.take((i - start) as int)[j] == d.take(k)[j]);
                }
            }
        }
    }
    assert(d.take(d.len() as int) =~= d);
    Some(acc)
}

// ---------------------------------------------------------------------------
// Ordered association lists (what a `BTreeMap<usize, String>` holds)
// ---------------------------------------------------------------------------

pub type Assoc = Seq<(nat, Seq<char>)>;

/// `BTreeMap::insert`: the value of key `k` becomes `val`; keys stay in order.
pub open spec fn assoc_insert(l: Assoc, k: nat, val: Seq<char>) -> Assoc
    decreases l.len(),
{
    if l.len() == 0 {
        seq![(k, val)]
    } else if l[0].0 == k {
        l.update(0, (k, val))
    } else if k < l[0].0 {
        seq![(k, val)] + l
    } else {
        seq![l[0]] + assoc_insert(l.drop_first(), k, val)
    }
}

/// `BTreeMap::get`.
pub open spec fn assoc_get(l: Assoc, k: nat) -> Option<Seq<char>>
    decreases l.len(),
{
    if l.len() == 0 {
        None
    } else if l[0].0 == k {
        Some(l[0].1)
    } else {
        assoc_get(l.drop_first(), k)
    }
}

pub open spec fn keys_increasing(l: Assoc) -> bool {
    forall|i: int, j: int| 0 <= i < j < l.len() ==> l[i].0 < l[j].0
}

pub open spec fn assoc_view(v: Seq<(usize, String)>) -> Assoc {
    v.map_values(|e: (usize, String)| (e.0 as nat, e.1@))
}

proof fn lemma_assoc_insert_skip(l: Assoc, k: nat, val: Seq<char>, p: int)
    requires
        0 <= p <= l.len(),
        forall|j: int| 0 <= j < p ==> #[trigger] l[j].0 < k,
    ensures
        assoc_insert(l, k, val) == l.take(p) + assoc_insert(l.skip(p), k, val),
    decreases p,
{
    if p == 0 {
        assert(l.skip(0) =~= l);
        assert(l.take(0) + assoc_insert(l.skip(0), k, val) =~= assoc_insert(l, k, val));
    } else {
        assert(l[0].0 < k);
        let t = l.drop_first();
        assert forall|j: int| 0 <= j < p - 1 implies #[trigger] t[j].0 < k by {
            assert(t[j] == l[j + 1]);
        }
        lemma_assoc_insert_skip(t, k, val, p - 1);
        assert(t.skip(p - 1) =~= l.skip(p));
        assert(seq![l[0]] + t.take(p - 1) =~= l.take(p));
        assert(seq![l[0]] + (t.take(p - 1) + assoc_insert(l.skip(p), k, val)) =~= l.take(p)
            + assoc_insert(l.skip(p), k, val));
    }
}

/// A map holds an association list: every key has the value the list gives
/// it, and the list has no other key.
pub open spec fn map_holds(m: Map<usize, String>, l: Assoc) -> bool {
    forall|k: nat|
        #[trigger] assoc_get(l, k) == (if k <= usize::MAX && m.contains_key(k as usize) {
            Some(m[k as usize]@)
        } else {
            None
        })
}

proof fn lemma_map_insert_holds(m: Map<usize, String>, l: Assoc, k: usize, val: String)
    requires
        keys_increasing(l),
        map_holds(m, l),
    ensures
        keys_increasing(assoc_insert(l, k as nat, val@)),
        map_holds(m.insert(k, val), assoc_insert(l, k as nat, val@)),
{
    let r = assoc_insert(l, k as nat, val@);
    lemma_assoc_insert(l, k as nat, val@, 0);
    assert forall|j: nat| #[trigger] assoc_get(r, j) == (if j <= usize::MAX && m.insert(k, val).contains_key(
        j as usize,
    ) {
        Some(m.insert(k, val)[j as usize]@)
    } else {
        None
    }) by {
        lemma_assoc_insert(l, k as nat, val@, j);
        assert(assoc_get(l, j) == (if j <= usize::MAX && m.contains_key(j as usize) {
            Some(m[j as usize]@)
        } else {
            None
        }));
    }
}

/// Two association lists with increasing keys that give every key the same
/// value are the same list.
proof fn lemma_assoc_ext(e: Assoc, l: Assoc)
    requires
        keys_increasing(e),
        keys_increasing(l),
        forall|k: nat| #[trigger] assoc_get(e, k) == assoc_get(l, k),
    ensures
        e == l,
    decreases e.len() + l.len(),
{
    if e.len() == 0 {
        if l.len() > 0 {
            assert(assoc_get(l, l[0].0) == Some(l[0].1));
            assert(assoc_get(e, l[0].0) is None);
        }
        assert(e =~= l);
    } else if l.len() == 0 {
        assert(assoc_get(e, e[0].0) == Some(e[0].1));
        assert(assoc_get(l, e[0].0) is None);
    } else {
        let k1 = e[0].0;
        let k2 = l[0].0;
        assert(assoc_get(e, k1) == Some(e[0].1));
        assert(assoc_get(l, k2) == Some(l[0].1));
        lemma_assoc_get_some(l, k1);
        lemma_assoc_get_some(e, k2);
        let j = choose|j: int| 0 <= j < l.len() && l[j].0 == k1 && assoc_get(l, k1) == Some(l[j].1);
        let i = choose|i: int| 0 <= i < e.len() && e[i].0 == k2 && assoc_get(e, k2) == Some(e[i].1);
        if j > 0 {
            assert(l[0].0 < l[j].0);
        }
        if i > 0 {
            assert(e[0].0 < e[i].0);
        }
        assert(k1 == k2);
        assert(e[0] == l[0]);
        let te = e.drop_first();
        let tl = l.drop_first();
        assert(keys_increasing(te)) by {
            assert forall|a: int, b: int| 0 <= a < b < te.len() implies te[a].0 < te[b].0 by {
                assert(te[a] == e[a + 1] && te[b] == e[b + 1]);
            }
        }
        assert(keys_increasing(tl)) by {
            assert forall|a: int, b: int| 0 <= a < b < tl.len() implies tl[a].0 < tl[b].0 by {
                assert(tl[a] == l[a + 1] && tl[b] == l[b + 1]);
            }
        }
        assert forall|k: nat| #[trigger] assoc_get(te, k) == assoc_get(tl, k) by {
            if k == k1 {
                lemma_assoc_get_above(te, k1);
                lemma_assoc_get_above(tl, k1);
                assert forall|a: int| 0 <= a < te.len() implies k1 < #[trigger] te[a].0 by {
                    assert(te[a] == e[a + 1]);
                }
                assert forall|a: int| 0 <= a < tl.len() implies k1 < #[trigger] tl[a].0 by {
                    assert(tl[a] == l[a + 1]);
                }
            } else {
                assert(assoc_get(e, k) == assoc_get(te, k));
                assert(assoc_get(l, k) == assoc_get(tl, k));
            }
        }
        lemma_assoc_ext(te, tl);
        assert(e =~= seq![e[0]] + te);
        assert(l =~= seq![l[0]] + tl);
    }
}

proof fn lemma_assoc_get_some(l: Assoc, k: nat)
    ensures
        assoc_get(l, k) is Some ==> exists|j: int| 0 <= j < l.len() && l[j].0 == k && assoc_get(l, k) == Some(l[j].1),
    decreases l.len(),
{
    if l.len() > 0 && l[0].0 != k {
        lemma_assoc_get_some(l.drop_first(), k);
        if assoc_get(l, k) is Some {
            let j = choose|j: int| 0 <= j < l.drop_first().len() && l.drop_first()[j].0 == k && assoc_get(l.drop_first(), k) == Some(l.drop_first()[j].1);
            assert(l[j + 1] == l.drop_first()[j]);
        }
    }
}

proof fn lemma_assoc_get_index(l: Assoc, j: int)
    requires
        keys_increasing(l),
        0 <= j < l.len(),
    ensures
        assoc_get(l, l[j].0) == Some(l[j].1),
    decreases l.len(),
{
    if j > 0 {
        assert(l[0].0 < l[j].0);
        let t = l.drop_first();
        assert(keys_increasing(t)) by {
            assert forall|a: int, b: int| 0 <= a < b < t.len() implies t[a].0 < t[b].0 by {
                assert(t[a] == l[a + 1] && t[b] == l[b + 1]);
            }
        }
        lemma_assoc_get_index(t, j - 1);
        assert(t[j - 1] == l[j]);
    }
}

/// A key below every key of the list has no value in it.
proof fn lemma_assoc_get_above(l: Assoc, k: nat)
    ensures
        (forall|a: int| 0 <= a < l.len() ==> k < #[trigger] l[a].0) ==> assoc_get(l, k) is None,
    decreases l.len(),
{
    if l.len() > 0 {
        lemma_assoc_get_above(l.drop_first(), k);
        if forall|a: int| 0 <= a < l.len() ==> k < #[trigger] l[a].0 {
            assert(k < l[0].0);
            assert forall|a: int| 0 <= a < l.drop_first().len() implies k < #[trigger] l.drop_first()[a].0 by {
                assert(l.drop_first()[a] == l[a + 1]);
            }
        }
    }
}

// ---------------------------------------------------------------------------
// The parse
// ---------------------------------------------------------------------------

pub struct PlsState {
    pub files: Assoc,
    pub titles: Assoc,
}

pub open spec fn file_word() -> Seq<char> {
    seq!['F', 'i', 'l', 'e']
}

pub open spec fn title_word() -> Seq<char> {
    seq!['T', 'i', 't', 'l', 'e']
}

/// What one line does to the parse.
pub open spec fn pls_step(st: PlsState, line: Seq<char>) -> PlsState {
    let t = trim(line);
    if t.len() == 0 || t[0] == '[' {
        st
    } else {
        match find(t, seq!['=']) {
            None => st,
            Some(e) => {
                let key = trim(t.subrange(0, e));
                let value = trim(t.subrange(e + 1, t.len() as int));
                if value.len() == 0 {
                    st
                } else if starts_with(key, file_word()) {
                    match parse_usize_spec(key.subrange(4, key.len() as int)) {
                        Some(ix) => if is_http_url_spec(value) {
                            PlsState { files: assoc_insert(st.files, ix, value), titles: st.titles }
                        } else {
                            st
                        },
                        None => st,
                    }
                } else if starts_with(key, title_word()) {
                    match parse_usize_spec(key.subrange(5, key.len() as int)) {
                        Some(ix) => PlsState {
                            files: st.files,
                            titles: assoc_insert(st.titles, ix, value),
                        },
                        None => st,
                    }
                } else {
                    st
                }
            },
        }
    }
}

pub open spec fn pls_fold(lines: Seq<Seq<char>>) -> PlsState
    decreases lines.len(),
{
    if lines.len() == 0 {
        PlsState { files: Seq::empty(), titles: Seq::empty() }
    } else {
        pls_step(pls_fold(lines.drop_last()), lines.last())
    }
}

/// The name of the entry at output position `pos` (counting from 1).
pub open spec fn pls_name(title: Option<Seq<char>>, pos: nat) -> Seq<char> {
    match title {
        Some(n) => if trim(n).len() > 0 {
            n
        } else {
            fallback_name(pos)
        },
        None => fallback_name(pos),
    }
}

/// The stations of the entries `files`, with the names `titles` gives.
pub open spec fn pls_stations(files: Assoc, titles: Assoc) -> Seq<StationView> {
    Seq::new(
        files.len(),
        |i: int|
            StationView {
                name: pls_name(assoc_get(titles, files[i].0), (i + 1) as nat),
                url: files[i].1,
            },
    )
}

/// The stations of a PLS text (the contents of a playlist file).
pub open spec fn parse_pls_spec(text: Seq<char>) -> Seq<StationView> {
    let st = pls_fold(split_lines(text));
    pls_stations(st.files, st.titles)
}

fn pls_line(
    v: &Vec<char>,
    lo: usize,
    hi: usize,
    files: &mut BTreeMap<usize, String>,
    titles: &mut BTreeMap<usize, String>,
    Ghost(st): Ghost<PlsState>,
)
    requires
        lo <= hi <= v@.len(),
        keys_increasing(st.files),
        keys_increasing(st.titles),
        map_holds(old(files)@, st.files),
        map_holds(old(titles)@, st.titles),
    ensures
        map_holds(final(files)@, pls_step(st, v@.subrange(lo as int, hi as int)).files),
        map_holds(final(titles)@, pls_step(st, v@.subrange(lo as int, hi as int)).titles),
{
    let ghost line = v@.subrange(lo as int, hi as int);
    let (a, b) = trim_range(v, lo, hi);
    let ghost t = v@.subrange(a as int, b as int);
    if a == b || v[a] == '[' {
        return;
    }
    let e = match find_char_range(v, a, b, '=') {
        Some(e) => e,
        None => {
            return;
        },
    };
    let (ka, kb) = trim_range(v, a, e);
    let (va, vb) = trim_range(v, e + 1, b);
    assert(v@.subrange(a as int, e as int) =~= t.subrange(0, (e - a) as int));
    assert(v@.subrange(e + 1, b as int) =~= t.subrange((e - a) + 1, t.len() as int));
    let ghost key = v@.subrange(ka as int, kb as int);
    let ghost value = v@.subrange(va as int, vb as int);
    if va == vb {
        return;
    }
    let file: [char; 4] = ['F', 'i', 'l', 'e'];
    let title: [char; 5] = ['T', 'i', 't', 'l', 'e'];
    assert(file@ =~= file_word());
    assert(title@ =~= title_word());
    if starts_with_at(v, ka, kb, file.as_slice()) {
        assert(v@.subrange(ka + 4, kb as int) =~= key.subrange(4, key.len() as int));
        match parse_usize_range(v, ka + 4, kb) {
            Some(ix) => {
                if is_http_url_range(v, va, vb) {
                    let s = string_of_range(v, va, vb);
                    proof {
                        lemma_map_insert_holds(files@, st.files, ix, s);
                    }
                    insert_entry(files, ix, s);
                }
            },
            None => {},
        }
        return;
    }
    if starts_with_at(v, ka, kb, title.as_slice()) {
        assert(v@.subrange(ka + 5, kb as int) =~= key.subrange(5, key.len() as int));
        match parse_usize_range(v, ka + 5, kb) {
            Some(ix) => {
                let s = string_of_range(v, va, vb);
                proof {
                    lemma_map_insert_holds(titles@, st.titles, ix, s);
                }
                insert_entry(titles, ix, s);
            },
            None => {},
        }
    }
}

/// Is `trim(s)` non-empty?
fn has_non_ws(s: &String) -> (b: bool)
    ensures
        b == (trim(s@).len() > 0),
{
    let v = chars_of(s.as_str());
    assert(v@.subrange(0, v@.len() as int) =~= v@);
    let (a, b) = trim_range(&v, 0, v.len());
    a < b
}

/// The stations of a PLS text (the contents of a playlist file).
pub fn parse_pls(text: &str) -> (out: Vec<Station>)
    ensures
        stations_view(out@) == parse_pls_spec(text@),
{
    let v = chars_of(text);
    let mut files: BTreeMap<usize, String> = BTreeMap::new();
    let mut titles: BTreeMap<usize, String> = BTreeMap::new();
    let mut line_start: usize = 0;
    let mut i: usize = 0;
    proof {
        assert(v@.take(0) =~= Seq::<char>::empty());
        assert(split_lines(Seq::<char>::empty()).drop_last() =~= Seq::<Seq<char>>::empty());
    }
    while i < v.len()
        invariant
            line_start <= i <= v@.len(),
            v@ == text@,
            split_lines(v@.take(i as int)).len() >= 1,
            split_lines(v@.take(i as int)).last() == v@.subrange(line_start as int, i as int),
            map_holds(files@, pls_fold(split_lines(v@.take(i as int)).drop_last()).files),
            map_holds(titles@, pls_fold(split_lines(v@.take(i as int)).drop_last()).titles),
        decreases v@.len() - i,
    {
        let ghost prev = split_lines(v@.take(i as int));
        proof {
            assert(v@.take(i + 1).drop_last() =~= v@.take(i as int));
            assert(v@.take(i + 1).last() == v@[i as int]);
        }
        if v[i] == '\n' {
            proof {
                lemma_pls_entries_ordered(prev.drop_last());
            }
            pls_line(&v, line_start, i, &mut files, &mut titles, Ghost(pls_fold(prev.drop_last())));
            proof {
                let next = split_lines(v@.take(i + 1));
                assert(next == prev.push(Seq::<char>::empty()));
                assert(next.drop_last() =~= prev);
                assert(prev =~= prev.drop_last().push(prev.last()));
            }
            line_start = i + 1;
            i = i + 1;
            assert(v@.subrange(line_start as int, i as int) =~= Seq::<char>::empty());
        } else {
            proof {
                let next = split_lines(v@.take(i + 1));
                assert(next.drop_last() =~= prev.drop_last());
                assert(next.last() =~= v@.subrange(line_start as int, i + 1));
            }
            i = i + 1;
        }
    }
    assert(v@.take(v@.len() as int) =~= v@);
    let ghost all = split_lines(v@);
    proof {
        lemma_pls_entries_ordered(all.drop_last());
    }
    pls_line(&v, line_start, v.len(), &mut files, &mut titles, Ghost(pls_fold(all.drop_last())));
    assert(all =~= all.drop_last().push(all.last()));
    let ghost fv = pls_fold(all).files;
    let ghost tv = pls_fold(all).titles;
    let entries = entries_in_order(&files);
    proof {
        lemma_pls_entries_ordered(all);
        let ev = assoc_view(entries@);
        assert(keys_increasing(ev));
        assert forall|k: nat| #[trigger] assoc_get(ev, k) == assoc_get(fv, k) by {
            lemma_assoc_get_some(ev, k);
            assert(assoc_get(fv, k) == (if k <= usize::MAX && files@.contains_key(k as usize) {
                Some(files@[k as usize]@)
            } else {
                None
            }));
            if assoc_get(ev, k) is Some {
                let q = choose|q: int| 0 <= q < ev.len() && ev[q].0 == k && assoc_get(ev, k) == Some(ev[q].1);
                assert(files@.contains_key(entries@[q].0));
            } else if k <= usize::MAX && files@.contains_key(k as usize) {
                let q = choose|q: int| 0 <= q < entries@.len() && #[trigger] entries@[q].0 == k as usize;
                assert(ev[q].0 == k);
                assert(assoc_get(ev, ev[q].0) == Some(ev[q].1)) by {
                    lemma_assoc_get_index(ev, q);
                }
            }
        }
        lemma_assoc_ext(ev, fv);
    }
    let ghost target = pls_stations(fv, tv);
    let mut stations: Vec<Station> = Vec::new();
    let mut j: usize = 0;
    while j < entries.len()
        invariant
            j <= entries@.len(),
            fv == assoc_view(entries@),
            map_holds(titles@, tv),
            target == pls_stations(fv, tv),
            stations@.len() == j,
            forall|q: int| 0 <= q < j ==> #[trigger] stations@[q]@ == target[q],
        decreases entries@.len() - j,
    {
        let ix: usize = entries[j].0;
        assert(assoc_get(tv, ix as nat) == (if titles@.contains_key(ix) {
            Some(titles@[ix]@)
        } else {
            None
        }));
        let name: String = match get_entry(&titles, ix) {
            Some(t) => {
                if has_non_ws(t) {
                    t.clone()
                } else {
                    fallback_station_name((j as u64) + 1)
                }
            },
            None => fallback_station_name((j as u64) + 1),
        };
        let url = entries[j].1.clone();
        stations.push(Station { name, url });
        j = j + 1;
    }
    assert(stations_view(stations@) =~= target);
    stations
}

// ---------------------------------------------------------------------------
// Laws
// ---------------------------------------------------------------------------

/// Inserting into an ordered association list keeps its keys strictly
/// increasing, and afterwards the key maps to the new value while every other
/// key keeps its value.
pub proof fn lemma_assoc_insert(l: Assoc, k: nat, val: Seq<char>, other: nat)
    requires
        keys_increasing(l),
    ensures
        keys_increasing(assoc_insert(l, k, val)),
        assoc_get(assoc_insert(l, k, val), k) == Some(val),
        other != k ==> assoc_get(assoc_insert(l, k, val), other) == assoc_get(l, other),
        forall|i: int|
            0 <= i < assoc_insert(l, k, val).len() ==> (#[trigger] assoc_insert(l, k, val)[i].0
                == k || exists|j: int| 0 <= j < l.len() && l[j].0 == assoc_insert(l, k, val)[i].0),
    decreases l.len(),
{
    let r = assoc_insert(l, k, val);
    if l.len() == 0 {
    } else if l[0].0 == k {
        assert(r.drop_first() =~= l.drop_first());
        assert forall|i: int| 0 <= i < r.len() implies (#[trigger] r[i].0 == k || exists|j: int|
            0 <= j < l.len() && l[j].0 == r[i].0) by {
            if i > 0 {
                assert(l[i].0 == r[i].0);
            }
        }
        if other != k {
            assert(assoc_get(r, other) == assoc_get(r.drop_first(), other));
        }
    } else if k < l[0].0 {
        assert(r.drop_first() =~= l);
        assert forall|i: int, j: int| 0 <= i < j < r.len() implies r[i].0 < r[j].0 by {
            if i > 0 {
                assert(r[i] == l[i - 1]);
            }
            assert(r[j] == l[j - 1]);
        }
        assert forall|i: int| 0 <= i < r.len() implies (#[trigger] r[i].0 == k || exists|j: int|
            0 <= j < l.len() && l[j].0 == r[i].0) by {
            if i > 0 {
                assert(l[i - 1].0 == r[i].0);
            }
        }
        if other != k {
            assert(assoc_get(r, other) == assoc_get(r.drop_first(), other));
        }
    } else {
        let t = l.drop_first();
        assert(keys_increasing(t)) by {
            assert forall|i: int, j: int| 0 <= i < j < t.len() implies t[i].0 < t[j].0 by {
                assert(t[i] == l[i + 1] && t[j] == l[j + 1]);
            }
        }
        lemma_assoc_insert(t, k, val, other);
        let rt = assoc_insert(t, k, val);
        assert(r.drop_first() =~= rt);
        assert forall|i: int| 0 <= i < rt.len() implies l[0].0 < #[trigger] rt[i].0 by {
            if rt[i].0 != k {
                let j = choose|j: int| 0 <= j < t.len() && t[j].0 == rt[i].0;
                assert(t[j] == l[j + 1]);
            }
        }
        assert forall|i: int, j: int| 0 <= i < j < r.len() implies r[i].0 < r[j].0 by {
            assert(r[j] == rt[j - 1]);
            if i > 0 {
                assert(r[i] == rt[i - 1]);
            }
        }
        assert forall|i: int| 0 <= i < r.len() implies (#[trigger] r[i].0 == k || exists|j: int|
            0 <= j < l.len() && l[j].0 == r[i].0) by {
            if i > 0 {
                assert(r[i] == rt[i - 1]);
                if rt[i - 1].0 != k {
                    let j = choose|j: int| 0 <= j < t.len() && t[j].0 == rt[i - 1].0;
                    assert(l[j + 1] == t[j]);
                }
            } else {
                assert(l[0].0 == r[0].0);
            }
        }
        assert(assoc_get(r, k) == assoc_get(rt, k));
        if other != l[0].0 {
            assert(assoc_get(r, other) == assoc_get(rt, other));
        }
    }
}

/// The entries a PLS text yields have strictly increasing indices: every
/// index appears once, and in order.
pub proof fn lemma_pls_entries_ordered(lines: Seq<Seq<char>>)
    ensures
        keys_increasing(pls_fold(lines).files),
        keys_increasing(pls_fold(lines).titles),
    decreases lines.len(),
{
    if lines.len() > 0 {
        lemma_pls_entries_ordered(lines.drop_last());
        let st = pls_fold(lines.drop_last());
        let ix_any: nat = 0;
        let t = trim(lines.last());
        if t.len() > 0 && t[0] != '[' {
            if let Some(e) = find(t, seq!['=']) {
                let key = trim(t.subrange(0, e));
                let value = trim(t.subrange(e + 1, t.len() as int));
                if let Some(ix) = parse_usize_spec(key.subrange(4, key.len() as int)) {
                    lemma_assoc_insert(st.files, ix, value, ix_any);
                }
                if let Some(ix) = parse_usize_spec(key.subrange(5, key.len() as int)) {
                    lemma_assoc_insert(st.titles, ix, value, ix_any);
                }
            }
        }
    }
}

/// A `<word><digits>=<value>` line, read: it is its own trim, its first `=`
/// follows the digits, the key is the word and the digits, the value is all
/// the rest, and the digits give their number.
proof fn lemma_pls_key_value_line(w: Seq<char>, d: Seq<char>, v: Seq<char>)
    requires
        w == file_word() || w == title_word(),
        d.len() > 0,
        all_digits(d),
        digits_value(d) <= usize::MAX,
        v.len() > 0,
        !crate::text::is_whitespace(v[0]),
        !crate::text::is_whitespace(v[v.len() - 1]),
    ensures
        ({
            let line = w + d + seq!['='] + v;
            let k = (w.len() + d.len()) as int;
            &&& trim(line) == line
            &&& line.len() > 0 && line[0] != '['
            &&& find(line, seq!['=']) == Some(k)
            &&& trim(line.subrange(0, k)) == w + d
            &&& trim(line.subrange(k + 1, line.len() as int)) == v
            &&& (w + d).subrange(w.len() as int, (w + d).len() as int) == d
            &&& parse_usize_spec(d) == Some(digits_value(d))
        }),
{
    let line = w + d + seq!['='] + v;
    let k = (w.len() + d.len()) as int;
    assert(line[0] == w[0]);
    assert(line[line.len() - 1] == v[v.len() - 1]);
    crate::text::lemma_trim_plain(line);
    assert forall|j: int| 0 <= j < k implies !crate::text::occurs_at(line, seq!['='], j) by {
        if crate::text::occurs_at(line, seq!['='], j) {
            assert(line.subrange(j, j + 1)[0] == line[j]);
            if j >= w.len() {
                assert(line[j] == d[j - w.len()]);
                assert(is_ascii_digit(d[j - w.len()]));
            } else {
                assert(line[j] == w[j]);
            }
        }
    }
    assert(line.subrange(k, k + 1) =~= seq!['=']);
    crate::text::lemma_find_first(line, seq!['='], k);
    let key = line.subrange(0, k);
    assert(key =~= w + d);
    assert(line.subrange(k + 1, line.len() as int) =~= v);
    assert(key[key.len() - 1] == d[d.len() - 1]);
    assert(key[0] == w[0]);
    crate::text::lemma_trim_plain(key);
    crate::text::lemma_trim_plain(v);
    assert((w + d).subrange(w.len() as int, (w + d).len() as int) =~= d);
    assert(d[0] != '+') by {
        assert(is_ascii_digit(d[0]));
    }
}

/// What a `File<n>=<value>` or `Title<n>=<value>` line does to the parse.
proof fn lemma_pls_step_key_value(st: PlsState, w: Seq<char>, d: Seq<char>, v: Seq<char>)
    requires
        w == file_word() || w == title_word(),
        d.len() > 0,
        all_digits(d),
        digits_value(d) <= usize::MAX,
        v.len() > 0,
        !crate::text::is_whitespace(v[0]),
        !crate::text::is_whitespace(v[v.len() - 1]),
    ensures
        w == file_word() && is_http_url_spec(v) ==> pls_step(st, w + d + seq!['='] + v) == (PlsState {
            files: assoc_insert(st.files, digits_value(d), v),
            titles: st.titles,
        }),
        w == title_word() ==> pls_step(st, w + d + seq!['='] + v) == (PlsState {
            files: st.files,
            titles: assoc_insert(st.titles, digits_value(d), v),
        }),
{
    lemma_pls_key_value_line(w, d, v);
    let line = w + d + seq!['='] + v;
    let k = (w.len() + d.len()) as int;
    let key = trim(line.subrange(0, k));
    assert(key == w + d);
    assert(key.len() == w.len() + d.len());
    if w == file_word() {
        assert(starts_with(key, file_word())) by {
            assert(key.subrange(0, 4) =~= file_word());
        }
        assert(key.subrange(4, key.len() as int) == d);
    } else {
        assert(key[0] == 'T');
        assert(!starts_with(key, file_word())) by {
            if starts_with(key, file_word()) {
                assert(key.subrange(0, 4)[0] == key[0]);
            }
        }
        assert(starts_with(key, title_word())) by {
            assert(key.subrange(0, 5) =~= title_word());
        }
        assert(key.subrange(5, key.len() as int) == d);
    }
}

proof fn lemma_http_starts_with_h(u: Seq<char>)
    requires
        is_http_url_spec(u),
    ensures
        u.len() > 0 && u[0] == 'h',
{
    assert(starts_with(u, crate::m3u::http_prefix()) ==> u.subrange(0, 7)[0] == u[0]);
    assert(starts_with(u, crate::m3u::https_prefix()) ==> u.subrange(0, 8)[0] == u[0]);
}

/// A `File<n>=<url>` line is cut at its first `=`: with `d` the decimal
/// digits of the index and `u` an http(s) URL (no whitespace at either end,
/// `=` allowed inside), the playlist made of that line alone gives one
/// station whose URL is all of `u`, named `Station 1`.
pub proof fn lemma_pls_file_line_split_at_first_equals(d: Seq<char>, u: Seq<char>)
    requires
        d.len() > 0,
        all_digits(d),
        digits_value(d) <= usize::MAX,
        is_http_url_spec(u),
        !crate::text::is_whitespace(u[u.len() - 1]),
        forall|i: int| 0 <= i < u.len() ==> u[i] != '\n',
    ensures
        parse_pls_spec(file_word() + d + seq!['='] + u) == seq![
            StationView { name: fallback_name(1), url: u },
        ],
{
    let line = file_word() + d + seq!['='] + u;
    lemma_http_starts_with_h(u);
    let e = PlsState { files: Seq::empty(), titles: Seq::empty() };
    lemma_pls_step_key_value(e, file_word(), d, u);
    assert forall|i: int| 0 <= i < line.len() implies line[i] != '\n' by {
        if i > 4 + d.len() {
            assert(line[i] == u[i - 5 - d.len()]);
        } else if i >= 4 && i < 4 + d.len() {
            assert(is_ascii_digit(d[i - 4]));
        }
    }
    crate::m3u::lemma_split_lines_single(line);
    let lines = split_lines(line);
    assert(lines.drop_last() =~= Seq::<Seq<char>>::empty());
    assert(pls_fold(lines.drop_last()) == e);
    assert(lines.last() == line);
    let st = pls_fold(lines);
    assert(st == pls_step(e, line));
    assert(st.files == assoc_insert(Seq::empty(), digits_value(d), u));
    assert(pls_stations(st.files, st.titles) =~= seq![StationView { name: fallback_name(1), url: u }]);
}

/// `Title<n>=` names the entry `File<n>=` gives: with the same digits `d`,
/// an http(s) URL `u` and a name without whitespace at either end, the two
/// lines give one station with that name and URL.
pub proof fn lemma_pls_title_names_its_file(d: Seq<char>, u: Seq<char>, name: Seq<char>)
    requires
        d.len() > 0,
        all_digits(d),
        digits_value(d) <= usize::MAX,
        is_http_url_spec(u),
        !crate::text::is_whitespace(u[u.len() - 1]),
        forall|i: int| 0 <= i < u.len() ==> u[i] != '\n',
        name.len() > 0,
        !crate::text::is_whitespace(name[0]),
        !crate::text::is_whitespace(name[name.len() - 1]),
        forall|i: int| 0 <= i < name.len() ==> name[i] != '\n',
    ensures
        parse_pls_spec(file_word() + d + seq!['='] + u + seq!['\n'] + title_word() + d + seq!['='] + name)
            == seq![StationView { name: name, url: u }],
{
    let l1 = file_word() + d + seq!['='] + u;
    let l2 = title_word() + d + seq!['='] + name;
    assert(file_word() + d + seq!['='] + u + seq!['\n'] + title_word() + d + seq!['='] + name =~= l1
        + seq!['\n'] + l2);
    lemma_http_starts_with_h(u);
    let e = PlsState { files: Seq::empty(), titles: Seq::empty() };
    lemma_pls_step_key_value(e, file_word(), d, u);
    let n = digits_value(d);
    let s1 = PlsState { files: assoc_insert(Seq::empty(), n, u), titles: Seq::empty() };
    lemma_pls_step_key_value(s1, title_word(), d, name);
    assert forall|i: int| 0 <= i < l1.len() implies l1[i] != '\n' by {
        if i > 4 + d.len() {
            assert(l1[i] == u[i - 5 - d.len()]);
        } else if i >= 4 && i < 4 + d.len() {
            assert(is_ascii_digit(d[i - 4]));
        }
    }
    assert forall|i: int| 0 <= i < l2.len() implies l2[i] != '\n' by {
        if i > 5 + d.len() {
            assert(l2[i] == name[i - 6 - d.len()]);
        } else if i >= 5 && i < 5 + d.len() {
            assert(is_ascii_digit(d[i - 5]));
        }
    }
    crate::m3u::lemma_split_lines_single(l1);
    crate::m3u::lemma_split_lines_single(l2);
    crate::m3u::lemma_split_lines_join(l1, l2);
    let lines = seq![l1] + seq![l2];
    assert(lines.drop_last() =~= seq![l1]);
    assert(seq![l1].drop_last() =~= Seq::<Seq<char>>::empty());
    assert(lines.last() == l2);
    assert(seq![l1].last() == l1);
    assert(pls_fold(seq![l1].drop_last()) == e);
    assert(pls_fold(seq![l1]) == pls_step(e, l1));
    assert(pls_fold(seq![l1]) == s1);
    let s2 = pls_fold(lines);
    assert(s2 == pls_step(s1, l2));
    assert(s2.files == seq![(n, u)]);
    assert(s2.titles == seq![(n, name)]);
    assert(assoc_get(s2.titles, n) == Some(name));
    crate::text::lemma_trim_plain(name);
    assert(pls_stations(s2.files, s2.titles) =~= seq![StationView { name: name, url: u }]);
}

proof fn lemma_pls_file_line_no_newline(d: Seq<char>, u: Seq<char>)
    requires
        all_digits(d),
        forall|i: int| 0 <= i < u.len() ==> u[i] != '\n',
    ensures
        forall|i: int| 0 <= i < (file_word() + d + seq!['='] + u).len() ==> (file_word() + d + seq!['=']
            + u)[i] != '\n',
{
    let line = file_word() + d + seq!['='] + u;
    assert forall|i: int| 0 <= i < line.len() implies line[i] != '\n' by {
        if i > 4 + d.len() {
            assert(line[i] == u[i - 5 - d.len()]);
        } else if i >= 4 && i < 4 + d.len() {
            assert(is_ascii_digit(d[i - 4]));
        }
    }
}

/// Two `File` lines, read one after the other.
proof fn lemma_pls_two_file_lines(d1: Seq<char>, u1: Seq<char>, d2: Seq<char>, u2: Seq<char>)
    requires
        d1.len() > 0,
        all_digits(d1),
        digits_value(d1) <= usize::MAX,
        is_http_url_spec(u1),
        !crate::text::is_whitespace(u1[u1.len() - 1]),
        forall|i: int| 0 <= i < u1.len() ==> u1[i] != '\n',
        d2.len() > 0,
        all_digits(d2),
        digits_value(d2) <= usize::MAX,
        is_http_url_spec(u2),
        !crate::text::is_whitespace(u2[u2.len() - 1]),
        forall|i: int| 0 <= i < u2.len() ==> u2[i] != '\n',
    ensures
        pls_fold(split_lines(file_word() + d1 + seq!['='] + u1 + seq!['\n'] + file_word() + d2 + seq!['='] + u2))
            == (PlsState {
            files: assoc_insert(assoc_insert(Seq::empty(), digits_value(d1), u1), digits_value(d2), u2),
            titles: Seq::empty(),
        }),
{
    let l1 = file_word() + d1 + seq!['='] + u1;
    let l2 = file_word() + d2 + seq!['='] + u2;
    assert(file_word() + d1 + seq!['='] + u1 + seq!['\n'] + file_word() + d2 + seq!['='] + u2 =~= l1 + seq![
        '\n',
    ] + l2);
    lemma_http_starts_with_h(u1);
    lemma_http_starts_with_h(u2);
    let e = PlsState { files: Seq::empty(), titles: Seq::empty() };
    lemma_pls_step_key_value(e, file_word(), d1, u1);
    let s1 = PlsState { files: assoc_insert(Seq::empty(), digits_value(d1), u1), titles: Seq::empty() };
    lemma_pls_step_key_value(s1, file_word(), d2, u2);
    lemma_pls_file_line_no_newline(d1, u1);
    lemma_pls_file_line_no_newline(d2, u2);
    crate::m3u::lemma_split_lines_single(l1);
    crate::m3u::lemma_split_lines_single(l2);
    crate::m3u::lemma_split_lines_join(l1, l2);
    let lines = seq![l1] + seq![l2];
    assert(lines.drop_last() =~= seq![l1]);
    assert(seq![l1].drop_last() =~= Seq::<Seq<char>>::empty());
    assert(lines.last() == l2);
    assert(seq![l1].last() == l1);
    assert(pls_fold(seq![l1].drop_last()) == e);
    assert(pls_fold(seq![l1]) == s1);
}

/// Entries come out in increasing order of their index, whatever the order
/// of their lines: `File<n2>=u2` before `File<n1>=u1` with `n1 < n2` gives
/// the station of `u1` first.
pub proof fn lemma_pls_entries_sorted_by_index(d1: Seq<char>, u1: Seq<char>, d2: Seq<char>, u2: Seq<char>)
    requires
        d1.len() > 0,
        all_digits(d1),
        digits_value(d1) <= usize::MAX,
        is_http_url_spec(u1),
        !crate::text::is_whitespace(u1[u1.len() - 1]),
        forall|i: int| 0 <= i < u1.len() ==> u1[i] != '\n',
        d2.len() > 0,
        all_digits(d2),
        digits_value(d2) <= usize::MAX,
        is_http_url_spec(u2),
        !crate::text::is_whitespace(u2[u2.len() - 1]),
        forall|i: int| 0 <= i < u2.len() ==> u2[i] != '\n',
        digits_value(d1) < digits_value(d2),
    ensures
        parse_pls_spec(file_word() + d2 + seq!['='] + u2 + seq!['\n'] + file_word() + d1 + seq!['='] + u1)
            == seq![StationView { name: fallback_name(1), url: u1 }, StationView { name: fallback_name(2), url: u2 }],
{
    lemma_pls_two_file_lines(d2, u2, d1, u1);
    let n1 = digits_value(d1);
    let n2 = digits_value(d2);
    let f = assoc_insert(assoc_insert(Seq::empty(), n2, u2), n1, u1);
    assert(assoc_insert(Seq::<(nat, Seq<char>)>::empty(), n2, u2) == seq![(n2, u2)]);
    assert(f =~= seq![(n1, u1), (n2, u2)]);
    assert(pls_stations(f, Seq::empty()) =~= seq![
        StationView { name: fallback_name(1), url: u1 },
        StationView { name: fallback_name(2), url: u2 },
    ]);
}

/// A later `File<n>=` line for the same index replaces the earlier one.
pub proof fn lemma_pls_later_file_line_wins(d: Seq<char>, u1: Seq<char>, u2: Seq<char>)
    requires
        d.len() > 0,
        all_digits(d),
        digits_value(d) <= usize::MAX,
        is_http_url_spec(u1),
        !crate::text::is_whitespace(u1[u1.len() - 1]),
        forall|i: int| 0 <= i < u1.len() ==> u1[i] != '\n',
        is_http_url_spec(u2),
        !crate::text::is_whitespace(u2[u2.len() - 1]),
        forall|i: int| 0 <= i < u2.len() ==> u2[i] != '\n',
    ensures
        parse_pls_spec(file_word() + d + seq!['='] + u1 + seq!['\n'] + file_word() + d + seq!['='] + u2)
            == seq![StationView { name: fallback_name(1), url: u2 }],
{
    lemma_pls_two_file_lines(d, u1, d, u2);
    let n = digits_value(d);
    let f = assoc_insert(assoc_insert(Seq::empty(), n, u1), n, u2);
    assert(assoc_insert(Seq::<(nat, Seq<char>)>::empty(), n, u1) == seq![(n, u1)]);
    assert(f =~= seq![(n, u2)]);
    assert(pls_stations(f, Seq::empty()) =~= seq![StationView { name: fallback_name(1), url: u2 }]);
}

} // verus!
