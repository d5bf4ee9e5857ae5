//! Favorite stations, identified by their stream URL.

use vstd::prelude::*;
use crate::station::Station;
use crate::text::{str_eq, chars_of};
use crate::order::{chars_lt, chars_less};

verus! {

pub struct FavoriteView {
    pub url: Seq<char>,
    pub name: Seq<char>,
    pub source: Seq<char>,
}

#[derive(Debug, Clone, PartialEq, Eq)]
pub struct FavoriteEntry {
    pub url: String,
    pub name: String,
    pub source: String,
}

impl View for FavoriteEntry {
    type V = FavoriteView;

    open spec fn view(&self) -> FavoriteView {
        FavoriteView { url: self.url@, name: self.name@, source: self.source@ }
    }
}

pub open spec fn favorites_view(v: Seq<FavoriteEntry>) -> Seq<FavoriteView> {
    v.map_values(|f: FavoriteEntry| f@)
}

/// Some favorite has this URL.
pub open spec fn is_favorite_spec(favs: Seq<FavoriteView>, url: Seq<char>) -> bool {
    exists|i: int| 0 <= i < favs.len() && #[trigger] favs[i].url == url
}

/// No two favorites share a URL.
pub open spec fn urls_distinct(favs: Seq<FavoriteView>) -> bool {
    forall|i: int, j: int| 0 <= i < j < favs.len() ==> favs[i].url != favs[j].url
}

/// The favorites with one entry per URL: the last entry of each URL is kept,
/// and the kept entries stay in their order.
pub open spec fn normalize_spec(favs: Seq<FavoriteView>) -> Seq<FavoriteView>
    decreases favs.len(),
{
    if favs.len() == 0 {
        Seq::empty()
    } else {
        let rest = normalize_spec(favs.drop_first());
        if is_favorite_spec(favs.drop_first(), favs[0].url) {
            rest
        } else {
            seq![favs[0]] + rest
        }
    }
}

impl FavoriteEntry {
    pub fn duplicate(&self) -> (f: FavoriteEntry)
        ensures
            f@ == self@,
    {
        FavoriteEntry { url: self.url.clone(), name: self.name.clone(), source: self.source.clone() }
    }
}

/// `favorites.iter().any(|fav| fav.url == url)`.
pub fn is_url_favorite(favorites: &Vec<FavoriteEntry>, url: &str) -> (b: bool)
    ensures
        b == is_favorite_spec(favorites_view(favorites@), url@),
{
    let ghost fv = favorites_view(favorites@);
    let mut i: usize = 0;
    while i < favorites.len()
        invariant
            i <= favorites@.len(),
            fv == favorites_view(favorites@),
            forall|j: int| 0 <= j < i ==> fv[j].url != url@,
        decreases favorites@.len() - i,
    {
        if str_eq(&favorites[i].url, url) {
            assert(fv[i as int].url == url@);
            return true;
        }
        i = i + 1;
    }
    false
}

/// Does some favorite in `favs[lo..]` have this URL?
fn url_in_suffix(favs: &Vec<FavoriteEntry>, lo: usize, url: &String) -> (b: bool)
    requires
        lo <= favs@.len(),
    ensures
        b == is_favorite_spec(favorites_view(favs@).skip(lo as int), url@),
{
    let ghost fv = favorites_view(favs@).skip(lo as int);
    let mut i: usize = lo;
    while i < favs.len()
        invariant
            lo <= i <= favs@.len(),
            fv == favorites_view(favs@).skip(lo as int),
            forall|j: int| 0 <= j < i - lo ==> fv[j].url != url@,
        decreases favs@.len() - i,
    {
        if favs[i].url == *url {
            assert(fv[i - lo].url == url@);
            return true;
        }
        i = i + 1;
    }
    false
}

/// Keeps one entry per URL, the last one, in the order they had.
pub fn normalize_favorites_by_url(favorites: Vec<FavoriteEntry>) -> (out: Vec<FavoriteEntry>)
    ensures
        favorites_view(out@) == normalize_spec(favorites_view(favorites@)),
{
    let ghost fv = favorites_view(favorites@);
    let mut out: Vec<FavoriteEntry> = Vec::new();
    let mut i: usize = favorites.len();
    assert(fv.skip(fv.len() as int) =~= Seq::<FavoriteView>::empty());
    assert(favorites_view(out@) =~= Seq::<FavoriteView>::empty());
    while i > 0
        invariant
            i <= favorites@.len(),
            fv == favorites_view(favorites@),
            favorites_view(out@) == normalize_spec(fv.skip(i as int)),
        decreases i,
    {
        let k: usize = i - 1;
        proof {
            assert(fv.skip(k as int).drop_first() =~= fv.skip(i as int));
            assert(fv.skip(k as int)[0] == fv[k as int]);
        }
        let dup = url_in_suffix(&favorites, i, &favorites[k].url);
        if !dup {
            let ghost before = out@;
            out.insert(0, favorites[k].duplicate());
            assert(favorites_view(out@) =~= seq![fv[k as int]] + favorites_view(before));
        }
        i = k;
    }
    assert(fv.skip(0) =~= fv);
    out
}

/// Adds the station as a favorite unless its URL already is one.
pub fn add_favorite(favorites: &mut Vec<FavoriteEntry>, station: &Station)
    ensures
        favorites_view(final(favorites)@) == (if is_favorite_spec(
            favorites_view(old(favorites)@),
            station.url@,
        ) {
            favorites_view(old(favorites)@)
        } else {
            favorites_view(old(favorites)@).push(
                FavoriteView { url: station.url@, name: station.name@, source: Seq::empty() },
            )
        }),
{
    if !is_url_favorite(favorites, station.url.as_str()) {
        let ghost before = favorites@;
        favorites.push(
            FavoriteEntry {
                url: station.url.clone(),
                name: station.name.clone(),
                source: String::new(),
            },
        );
        assert(favorites_view(favorites@) =~= favorites_view(before).push(favorites@.last()@));
    }
}

/// The favorites without the entries of this URL, the others in order.
pub open spec fn remove_spec(favs: Seq<FavoriteView>, url: Seq<char>) -> Seq<FavoriteView>
    decreases favs.len(),
{
    if favs.len() == 0 {
        Seq::empty()
    } else {
        let r = remove_spec(favs.drop_last(), url);
        if favs.last().url != url {
            r.push(favs.last())
        } else {
            r
        }
    }
}

proof fn lemma_remove_members(favs: Seq<FavoriteView>, url: Seq<char>, u: Seq<char>)
    ensures
        is_favorite_spec(remove_spec(favs, url), u) == (u != url && is_favorite_spec(favs, u)),
    decreases favs.len(),
{
    if favs.len() > 0 {
        let d = favs.drop_last();
        lemma_remove_members(d, url, u);
        let r = remove_spec(d, url);
        let full = remove_spec(favs, url);
        if is_favorite_spec(full, u) {
            let k = choose|k: int| 0 <= k < full.len() && #[trigger] full[k].url == u;
            if k < r.len() {
                assert(full[k] == r[k]);
                assert(is_favorite_spec(r, u));
                let j = choose|j: int| 0 <= j < d.len() && #[trigger] d[j].url == u;
                assert(favs[j].url == u);
            } else {
                assert(favs[favs.len() - 1].url == u);
            }
        }
        if u != url && is_favorite_spec(favs, u) {
            let j = choose|j: int| 0 <= j < favs.len() && #[trigger] favs[j].url == u;
            if j < d.len() {
                assert(d[j].url == u);
                assert(is_favorite_spec(d, u));
                assert(is_favorite_spec(r, u));
                let k = choose|k: int| 0 <= k < r.len() && #[trigger] r[k].url == u;
                assert(full[k].url == u);
            } else {
                assert(full[full.len() - 1].url == u);
            }
        }
    }
}

/// `favorites.retain(|fav| fav.url != url)`.
pub fn remove_favorite(favorites: &mut Vec<FavoriteEntry>, url: &str)
    ensures
        favorites_view(final(favorites)@) == remove_spec(favorites_view(old(favorites)@), url@),
{
    let ghost fv = favorites_view(favorites@);
    let mut kept: Vec<FavoriteEntry> = Vec::new();
    let mut i: usize = 0;
    assert(remove_spec(fv.take(0), url@) =~= Seq::<FavoriteView>::empty());
    assert(favorites_view(kept@) =~= Seq::<FavoriteView>::empty());
    while i < favorites.len()
        invariant
            i <= favorites@.len(),
            fv == favorites_view(favorites@),
            favorites_view(kept@) == remove_spec(fv.take(i as int), url@),
        decreases favorites@.len() - i,
    {
        proof {
            assert(fv.take(i + 1).drop_last() =~= fv.take(i as int));
            assert(fv.take(i + 1).last() == fv[i as int]);
        }
        if !str_eq(&favorites[i].url, url) {
            let ghost before = kept@;
            kept.push(favorites[i].duplicate());
            assert(favorites_view(kept@) =~= favorites_view(before).push(fv[i as int]));
        }
        i = i + 1;
    }
    assert(fv.take(fv.len() as int) =~= fv);
    *favorites = kept;
}

// ---------------------------------------------------------------------------
// Laws
// ---------------------------------------------------------------------------

proof fn lemma_is_favorite_cons(favs: Seq<FavoriteView>, url: Seq<char>)
    requires
        favs.len() > 0,
    ensures
        is_favorite_spec(favs, url) == (favs[0].url == url || is_favorite_spec(
            favs.drop_first(),
            url,
        )),
{
    let d = favs.drop_first();
    if is_favorite_spec(favs, url) && favs[0].url != url {
        let j = choose|j: int| 0 <= j < favs.len() && #[trigger] favs[j].url == url;
        assert(d[j - 1].url == url);
    }
    if is_favorite_spec(d, url) {
        let j = choose|j: int| 0 <= j < d.len() && #[trigger] d[j].url == url;
        assert(favs[j + 1].url == url);
    }
    if favs[0].url == url {
        assert(favs[0].url == url);
    }
}

proof fn lemma_normalize_members(favs: Seq<FavoriteView>)
    ensures
        forall|url: Seq<char>|
            is_favorite_spec(normalize_spec(favs), url) == is_favorite_spec(favs, url),
        urls_distinct(normalize_spec(favs)),
        forall|i: int|
            0 <= i < normalize_spec(favs).len() ==> favs.contains(
                #[trigger] normalize_spec(favs)[i],
            ),
    decreases favs.len(),
{
    if favs.len() > 0 {
        let rest = favs.drop_first();
        lemma_normalize_members(rest);
        let r = normalize_spec(rest);
        assert forall|url: Seq<char>|
            is_favorite_spec(normalize_spec(favs), url) == is_favorite_spec(favs, url) by {
            lemma_is_favorite_cons(favs, url);
            if !is_favorite_spec(rest, favs[0].url) {
                lemma_is_favorite_cons(normalize_spec(favs), url);
                assert(normalize_spec(favs).drop_first() =~= r);
            } else {
                if favs[0].url == url {
                    assert(is_favorite_spec(r, url));
                }
            }
        }
        let n = normalize_spec(favs);
        assert forall|i: int| 0 <= i < n.len() implies favs.contains(#[trigger] n[i]) by {
            if is_favorite_spec(rest, favs[0].url) {
                assert(rest.contains(r[i]));
                let j = choose|j: int| 0 <= j < rest.len() && rest[j] == r[i];
                assert(favs[j + 1] == n[i]);
            } else if i == 0 {
                assert(favs[0] == n[0]);
            } else {
                assert(n[i] == r[i - 1]);
                assert(rest.contains(r[i - 1]));
                let j = choose|j: int| 0 <= j < rest.len() && rest[j] == r[i - 1];
                assert(favs[j + 1] == n[i]);
            }
        }
        if !is_favorite_spec(rest, favs[0].url) {
            assert forall|i: int, j: int| 0 <= i < j < n.len() implies n[i].url != n[j].url by {
                if i == 0 {
                    assert(n[j] == r[j - 1]);
                    if n[j].url == favs[0].url {
                        assert(is_favorite_spec(r, favs[0].url));
                    }
                } else {
                    assert(n[i] == r[i - 1] && n[j] == r[j - 1]);
                }
            }
        }
    }
}

/// Normalizing keeps exactly the set of favorite URLs, leaves no URL twice,
/// and keeps only entries that were there.
pub proof fn lemma_normalize_dedups(favs: Seq<FavoriteView>, url: Seq<char>)
    ensures
        is_favorite_spec(normalize_spec(favs), url) == is_favorite_spec(favs, url),
        urls_distinct(normalize_spec(favs)),
        forall|i: int|
            0 <= i < normalize_spec(favs).len() ==> favs.contains(
                #[trigger] normalize_spec(favs)[i],
            ),
{
    lemma_normalize_members(favs);
}

/// Normalizing favorites whose URLs are already distinct changes nothing.
pub proof fn lemma_normalize_idempotent(favs: Seq<FavoriteView>)
    requires
        urls_distinct(favs),
    ensures
        normalize_spec(favs) == favs,
    decreases favs.len(),
{
    if favs.len() > 0 {
        let rest = favs.drop_first();
        assert(urls_distinct(rest)) by {
            assert forall|i: int, j: int| 0 <= i < j < rest.len() implies rest[i].url
                != rest[j].url by {
                assert(rest[i] == favs[i + 1] && rest[j] == favs[j + 1]);
            }
        }
        lemma_normalize_idempotent(rest);
        if is_favorite_spec(rest, favs[0].url) {
            let j = choose|j: int| 0 <= j < rest.len() && #[trigger] rest[j].url == favs[0].url;
            assert(favs[j + 1].url == favs[0].url);
        }
        assert(seq![favs[0]] + rest =~= favs);
    }
}

/// Adding a station makes its URL a favorite; removing a URL makes it no
/// longer one; either leaves the favorite status of every other URL alone.
pub proof fn lemma_add_remove(favs: Seq<FavoriteView>, entry: FavoriteView, url: Seq<char>, other: Seq<char>)
    requires
        other != url,
    ensures
        is_favorite_spec(
            (if is_favorite_spec(favs, entry.url) {
                favs
            } else {
                favs.push(entry)
            }),
            entry.url,
        ),
        !is_favorite_spec(remove_spec(favs, url), url),
        is_favorite_spec(remove_spec(favs, url), other) == is_favorite_spec(favs, other),
        other != entry.url ==> is_favorite_spec(
            (if is_favorite_spec(favs, entry.url) {
                favs
            } else {
                favs.push(entry)
            }),
            other,
        ) == is_favorite_spec(favs, other),
{
    lemma_remove_members(favs, url, url);
    lemma_remove_members(favs, url, other);
    if !is_favorite_spec(favs, entry.url) {
        let p = favs.push(entry);
        assert(p[favs.len() as int].url == entry.url);
        if other != entry.url {
            if is_favorite_spec(p, other) {
                let j = choose|j: int| 0 <= j < p.len() && #[trigger] p[j].url == other;
                assert(favs[j].url == other);
            }
            if is_favorite_spec(favs, other) {
                let j = choose|j: int| 0 <= j < favs.len() && #[trigger] favs[j].url == other;
                assert(p[j].url == other);
            }
        }
    }
}


// ---------------------------------------------------------------------------
// The saved form
// ---------------------------------------------------------------------------

/// Where `x` goes in `t`: before the first favorite whose URL comes after
/// its URL.
pub open spec fn url_insert_pos(t: Seq<FavoriteView>, x: FavoriteView) -> nat
    decreases t.len(),
{
    if t.len() == 0 {
        0
    } else if chars_lt(x.url, t[0].url) {
        0
    } else {
        1 + url_insert_pos(t.drop_first(), x)
    }
}

/// The favorites sorted by URL; equal URLs keep their order.
pub open spec fn sort_by_url(s: Seq<FavoriteView>) -> Seq<FavoriteView>
    decreases s.len(),
{
    if s.len() == 0 {
        s
    } else {
        let t = sort_by_url(s.drop_last());
        t.insert(url_insert_pos(t, s.last()) as int, s.last())
    }
}

/// The favorites as they are saved: one per URL (the last one), sorted by URL.
pub fn favorites_for_saving(favorites: Vec<FavoriteEntry>) -> (out: Vec<FavoriteEntry>)
    ensures
        favorites_view(out@) == sort_by_url(normalize_spec(favorites_view(favorites@))),
{
    let items = normalize_favorites_by_url(favorites);
    let ghost sv = favorites_view(items@);
    let mut out: Vec<FavoriteEntry> = Vec::new();
    let mut i: usize = 0;
    assert(favorites_view(out@) =~= sort_by_url(sv.take(0)));
    while i < items.len()
        invariant
            i <= items@.len(),
            sv == favorites_view(items@),
            favorites_view(out@) == sort_by_url(sv.take(i as int)),
        decreases items@.len() - i,
    {
        let x = items[i].duplicate();
        let ghost t = favorites_view(out@);
        let xu = chars_of(x.url.as_str());
        let mut p: usize = 0;
        assert(t.skip(0) =~= t);
        while p < out.len() && !chars_less(xu.as_slice(), chars_of(out[p].url.as_str()).as_slice())
            invariant
                p <= out@.len(),
                t == favorites_view(out@),
                x@ == sv[i as int],
                xu@ == x.url@,
                url_insert_pos(t, x@) == p + url_insert_pos(t.skip(p as int), x@),
            decreases out@.len() - p,
        {
            assert(t.skip(p as int)[0] == t[p as int]);
            assert(t.skip(p as int).drop_first() =~= t.skip(p + 1));
            p = p + 1;
        }
        proof {
            if p < out@.len() {
                assert(t.skip(p as int)[0] == t[p as int]);
            } else {
                assert(t.skip(p as int).len() == 0);
            }
            let nx = sv.take(i + 1);
            assert(nx.drop_last() =~= sv.take(i as int));
            assert(nx.last() == sv[i as int]);
        }
        out.insert(p, x);
        assert(favorites_view(out@) =~= t.insert(p as int, sv[i as int]));
        i = i + 1;
    }
    assert(sv.take(sv.len() as int) =~= sv);
    out
}

proof fn lemma_url_insert_pos_bound(t: Seq<FavoriteView>, x: FavoriteView)
    ensures
        url_insert_pos(t, x) <= t.len(),
    decreases t.len(),
{
    if t.len() > 0 {
        lemma_url_insert_pos_bound(t.drop_first(), x);
    }
}

/// Sorting by URL keeps the length and the favorite URLs, and keeps URLs
/// distinct.
proof fn lemma_sort_by_url_keeps(s: Seq<FavoriteView>)
    ensures
        sort_by_url(s).len() == s.len(),
        forall|u: Seq<char>| #[trigger] is_favorite_spec(sort_by_url(s), u) == is_favorite_spec(s, u),
        urls_distinct(s) ==> urls_distinct(sort_by_url(s)),
    decreases s.len(),
{
    if s.len() > 0 {
        let d = s.drop_last();
        let x = s.last();
        lemma_sort_by_url_keeps(d);
        let t = sort_by_url(d);
        let k = url_insert_pos(t, x) as int;
        lemma_url_insert_pos_bound(t, x);
        let r = t.insert(k, x);
        assert(sort_by_url(s) == r);
        assert forall|u: Seq<char>| #[trigger] is_favorite_spec(r, u) == is_favorite_spec(s, u) by {
            if is_favorite_spec(r, u) {
                let j = choose|j: int| 0 <= j < r.len() && #[trigger] r[j].url == u;
                if j < k {
                    assert(r[j] == t[j]);
                    assert(is_favorite_spec(t, u));
                    let m = choose|m: int| 0 <= m < d.len() && #[trigger] d[m].url == u;
                    assert(s[m] == d[m]);
                } else if j > k {
                    assert(r[j] == t[j - 1]);
                    assert(is_favorite_spec(t, u));
                    let m = choose|m: int| 0 <= m < d.len() && #[trigger] d[m].url == u;
                    assert(s[m] == d[m]);
                } else {
                    assert(s[s.len() - 1].url == u);
                }
            }
            if is_favorite_spec(s, u) {
                let m = choose|m: int| 0 <= m < s.len() && #[trigger] s[m].url == u;
                if m < s.len() - 1 {
                    assert(d[m] == s[m]);
                    assert(is_favorite_spec(d, u));
                    assert(is_favorite_spec(t, u));
                    let j = choose|j: int| 0 <= j < t.len() && #[trigger] t[j].url == u;
                    if j < k {
                        assert(r[j] == t[j]);
                    } else {
                        assert(r[j + 1] == t[j]);
                    }
                } else {
                    assert(r[k] == x);
                }
            }
        }
        if urls_distinct(s) {
            assert(urls_distinct(d)) by {
                assert forall|i: int, j: int| 0 <= i < j < d.len() implies d[i].url != d[j].url by {
                    assert(d[i] == s[i] && d[j] == s[j]);
                }
            }
            assert(!is_favorite_spec(d, x.url)) by {
                if is_favorite_spec(d, x.url) {
                    let m = choose|m: int| 0 <= m < d.len() && #[trigger] d[m].url == x.url;
                    assert(s[m] == d[m]);
                }
            }
            assert(!is_favorite_spec(t, x.url));
            assert forall|i: int, j: int| 0 <= i < j < r.len() implies r[i].url != r[j].url by {
                if i == k {
                    assert(r[j] == t[j - 1]);
                } else if j == k {
                    assert(r[i] == t[i]);
                } else {
                    let ti = if i < k { i } else { i - 1 };
                    let tj = if j < k { j } else { j - 1 };
                    assert(r[i] == t[ti] && r[j] == t[tj]);
                }
            }
        }
    }
}

/// Loading saved favorites gives them back unchanged: what is saved has one
/// entry per URL, so loading (which keeps one per URL) leaves it as it is.
pub proof fn lemma_saved_favorites_reload_unchanged(favs: Seq<FavoriteView>)
    ensures
        normalize_spec(sort_by_url(normalize_spec(favs))) == sort_by_url(normalize_spec(favs)),
        forall|u: Seq<char>| #[trigger] is_favorite_spec(sort_by_url(normalize_spec(favs)), u) == is_favorite_spec(favs, u),
{
    let n = normalize_spec(favs);
    lemma_normalize_members(favs);
    lemma_sort_by_url_keeps(n);
    lemma_normalize_idempotent(sort_by_url(n));
    assert forall|u: Seq<char>| #[trigger] is_favorite_spec(sort_by_url(n), u) == is_favorite_spec(favs, u) by {
        lemma_normalize_dedups(favs, u);
    }
}

} // verus!
