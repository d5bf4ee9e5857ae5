//! Searching the station and playlist lists.
//!
//! A query is trimmed and lowercased (ASCII only); a station matches when its
//! lowercased name or URL contains it, a playlist when its lowercased path or
//! file name does. An empty query matches everything.

use vstd::prelude::*;
use crate::station::{Station, StationView, stations_view};
use crate::favorites::{FavoriteEntry, FavoriteView, favorites_view, is_favorite_spec,
    is_url_favorite};
use crate::location::{file_name_of, file_name_text};
use crate::text::{trim, lower_seq, contains, chars_of, trim_range, lower_chars, contains_chars};

verus! {

/// A playlist file: its path as text (`to_string_lossy`) and its file name
/// (empty when the path has none or it is not valid Unicode).
#[derive(Debug, Clone, PartialEq, Eq)]
pub struct PlaylistPath {
    pub text: String,
    pub file_name: String,
}

pub struct PathView {
    pub text: Seq<char>,
    pub file_name: Seq<char>,
}

impl View for PlaylistPath {
    type V = PathView;

    open spec fn view(&self) -> PathView {
        PathView { text: self.text@, file_name: self.file_name@ }
    }
}

pub open spec fn paths_view(v: Seq<PlaylistPath>) -> Seq<PathView> {
    v.map_values(|p: PlaylistPath| p@)
}

impl PlaylistPath {
    /// A playlist file at `text`, with the file name that the path ends in
    /// (empty when it ends in none); paths are read as on Windows when
    /// `windows` holds.
    pub fn new(text: String, windows: bool) -> (p: PlaylistPath)
        ensures
            p.text@ == text@,
            p.file_name@ == match file_name_text(text@, windows) {
                Some(n) => n,
                None => Seq::empty(),
            },
    {
        let file_name = match file_name_of(text.as_str(), windows) {
            Some(n) => n,
            None => String::new(),
        };
        PlaylistPath { text, file_name }
    }

    pub fn duplicate(&self) -> (p: PlaylistPath)
        ensures
            p@ == self@,
    {
        PlaylistPath { text: self.text.clone(), file_name: self.file_name.clone() }
    }
}

/// The query as it is matched: trimmed, then ASCII-lowercased.
pub open spec fn query_key(q: Seq<char>) -> Seq<char> {
    lower_seq(trim(q))
}

pub open spec fn station_visible(
    s: StationView,
    key: Seq<char>,
    favorites_only: bool,
    favs: Seq<FavoriteView>,
) -> bool {
    &&& (!favorites_only || is_favorite_spec(favs, s.url))
    &&& (key.len() == 0 || contains(lower_seq(s.name), key) || contains(lower_seq(s.url), key))
}

/// The indices of the stations shown, in order.
pub open spec fn visible_station_indices(
    stations: Seq<StationView>,
    key: Seq<char>,
    favorites_only: bool,
    favs: Seq<FavoriteView>,
) -> Seq<usize>
    decreases stations.len(),
{
    if stations.len() == 0 {
        Seq::empty()
    } else {
        let r = visible_station_indices(stations.drop_last(), key, favorites_only, favs);
        if station_visible(stations.last(), key, favorites_only, favs) {
            r.push((stations.len() - 1) as usize)
        } else {
            r
        }
    }
}

pub open spec fn playlist_visible(p: PathView, key: Seq<char>) -> bool {
    key.len() == 0 || contains(lower_seq(p.text), key) || contains(lower_seq(p.file_name), key)
}

/// The indices of the playlists shown, in order.
pub open spec fn visible_playlist_indices(paths: Seq<PathView>, key: Seq<char>) -> Seq<usize>
    decreases paths.len(),
{
    if paths.len() == 0 {
        Seq::empty()
    } else {
        let r = visible_playlist_indices(paths.drop_last(), key);
        if playlist_visible(paths.last(), key) {
            r.push((paths.len() - 1) as usize)
        } else {
            r
        }
    }
}

/// The query key of `query`.
pub fn make_query_key(query: &str) -> (k: Vec<char>)
    ensures
        k@ == query_key(query@),
{
    let v = chars_of(query);
    assert(v@.subrange(0, v@.len() as int) =~= v@);
    let (a, b) = trim_range(&v, 0, v.len());
    let mut t: Vec<char> = Vec::new();
    let mut i: usize = a;
    while i < b
        invariant
            a <= i <= b <= v@.len(),
            t@ =~= v@.subrange(a as int, i as int),
        decreases b - i,
    {
        t.push(v[i]);
        i = i + 1;
    }
    lower_chars(&t)
}

/// Does the lowercased text of `s` contain `key`?
fn lower_contains(s: &String, key: &Vec<char>) -> (b: bool)
    ensures
        b == contains(lower_seq(s@), key@),
{
    let v = chars_of(s.as_str());
    let l = lower_chars(&v);
    contains_chars(&l, key.as_slice())
}

pub fn station_matches(
    s: &Station,
    key: &Vec<char>,
    favorites_only: bool,
    favorites: &Vec<FavoriteEntry>,
) -> (b: bool)
    ensures
        b == station_visible(s@, key@, favorites_only, favorites_view(favorites@)),
{
    if favorites_only && !is_url_favorite(favorites, s.url.as_str()) {
        return false;
    }
    if key.len() == 0 {
        return true;
    }
    lower_contains(&s.name, key) || lower_contains(&s.url, key)
}

/// The indices of the stations the query (and, when asked, the favorites
/// filter) lets through.
pub fn filtered_station_indices(
    stations: &Vec<Station>,
    query: &str,
    favorites_only: bool,
    favorites: &Vec<FavoriteEntry>,
) -> (out: Vec<usize>)
    ensures
        out@ == visible_station_indices(
            stations_view(stations@),
            query_key(query@),
            favorites_only,
            favorites_view(favorites@),
        ),
{
    let key = make_query_key(query);
    let ghost sv = stations_view(stations@);
    let ghost fv = favorites_view(favorites@);
    let mut out: Vec<usize> = Vec::new();
    let mut i: usize = 0;
    assert(sv.take(0) =~= Seq::<StationView>::empty());
    while i < stations.len()
        invariant
            i <= stations@.len(),
            sv == stations_view(stations@),
            fv == favorites_view(favorites@),
            key@ == query_key(query@),
            out@ == visible_station_indices(sv.take(i as int), key@, favorites_only, fv),
        decreases stations@.len() - i,
    {
        proof {
            assert(sv.take(i + 1).drop_last() =~= sv.take(i as int));
            assert(sv.take(i + 1).last() == sv[i as int]);
        }
        if station_matches(&stations[i], &key, favorites_only, favorites) {
            out.push(i);
        }
        i = i + 1;
    }
    assert(sv.take(sv.len() as int) =~= sv);
    out
}

/// The indices of the playlists the query lets through.
pub fn filtered_playlist_indices(playlists: &Vec<PlaylistPath>, query: &str) -> (out: Vec<usize>)
    ensures
        out@ == visible_playlist_indices(paths_view(playlists@), query_key(query@)),
{
    let key = make_query_key(query);
    let ghost pv = paths_view(playlists@);
    let mut out: Vec<usize> = Vec::new();
    let mut i: usize = 0;
    assert(pv.take(0) =~= Seq::<PathView>::empty());
    while i < playlists.len()
        invariant
            i <= playlists@.len(),
            pv == paths_view(playlists@),
            key@ == query_key(query@),
            out@ == visible_playlist_indices(pv.take(i as int), key@),
        decreases playlists@.len() - i,
    {
        proof {
            assert(pv.take(i + 1).drop_last() =~= pv.take(i as int));
            assert(pv.take(i + 1).last() == pv[i as int]);
        }
        let p = &playlists[i];
        if key.len() == 0 || lower_contains(&p.text, &key) || lower_contains(&p.file_name, &key) {
            out.push(i);
        }
        i = i + 1;
    }
    assert(pv.take(pv.len() as int) =~= pv);
    out
}

// ---------------------------------------------------------------------------
// Laws
// ---------------------------------------------------------------------------

/// The shown indices are valid, strictly increasing, and are exactly the
/// stations that pass the filter.
pub proof fn lemma_visible_station_indices(
    stations: Seq<StationView>,
    key: Seq<char>,
    favorites_only: bool,
    favs: Seq<FavoriteView>,
    k: int,
)
    requires
        stations.len() <= usize::MAX,
    ensures
        ({
            let r = visible_station_indices(stations, key, favorites_only, favs);
            &&& forall|i: int| 0 <= i < r.len() ==> #[trigger] r[i] < stations.len()
            &&& forall|i: int, j: int| 0 <= i < j < r.len() ==> r[i] < r[j]
            &&& (0 <= k < stations.len() ==> (r.contains(k as usize) <==> station_visible(
                stations[k],
                key,
                favorites_only,
                favs,
            )))
        }),
    decreases stations.len(),
{
    if stations.len() > 0 {
        let d = stations.drop_last();
        lemma_visible_station_indices(d, key, favorites_only, favs, k);
        let r0 = visible_station_indices(d, key, favorites_only, favs);
        let r = visible_station_indices(stations, key, favorites_only, favs);
        let last = (stations.len() - 1) as usize;
        if 0 <= k < stations.len() {
            if k < d.len() {
                assert(d[k] == stations[k]);
                if r.contains(k as usize) {
                    let i = choose|i: int| 0 <= i < r.len() && r[i] == k as usize;
                    if i < r0.len() {
                        assert(r0[i] == k as usize);
                    }
                }
                if r0.contains(k as usize) {
                    let i = choose|i: int| 0 <= i < r0.len() && r0[i] == k as usize;
                    assert(r[i] == k as usize);
                }
            } else {
                if r.contains(k as usize) {
                    let i = choose|i: int| 0 <= i < r.len() && r[i] == k as usize;
                    if i < r0.len() {
                        assert(r0[i] < d.len());
                    }
                }
                if station_visible(stations[k], key, favorites_only, favs) {
                    assert(r[r.len() - 1] == last);
                }
            }
        }
    }
}

} // verus!
