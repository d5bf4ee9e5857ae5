//! The playlist cache: the stations parsed from each playlist file, keyed by
//! the file's path and kept while the file's modification time and size stay
//! the same. Its estimated size is held under a fixed budget by evicting the
//! heaviest entries first.

use vstd::prelude::*;
use vstd::utf8::encode_utf8;
use vstd::string::StringSliceAdditionalSpecFns;
use crate::station::{Station, StationView, stations_view, duplicate_stations};
use crate::search::PlaylistPath;
use crate::text::str_eq;

verus! {

broadcast use vstd::seq_lib::group_to_multiset_ensures;

/// The budget of the cache, in estimated bytes.
pub const PLAYLIST_CACHE_MAX_BYTES: u64 = 64 * 1024 * 1024;

/// What is kept for one playlist file.
pub struct PlaylistCacheEntry {
    pub modified_epoch_secs: u64,
    pub file_size: u64,
    pub stations: Vec<Station>,
}

pub struct CacheEntryView {
    pub modified: u64,
    pub size: u64,
    pub stations: Seq<StationView>,
}

impl View for PlaylistCacheEntry {
    type V = CacheEntryView;

    open spec fn view(&self) -> CacheEntryView {
        CacheEntryView {
            modified: self.modified_epoch_secs,
            size: self.file_size,
            stations: stations_view(self.stations@),
        }
    }
}

impl PlaylistCacheEntry {
    pub fn duplicate(&self) -> (e: PlaylistCacheEntry)
        ensures
            e@ == self@,
    {
        PlaylistCacheEntry {
            modified_epoch_secs: self.modified_epoch_secs,
            file_size: self.file_size,
            stations: duplicate_stations(&self.stations),
        }
    }
}

/// A key and its entry, as text and numbers.
pub type CacheItem = (Seq<char>, CacheEntryView);

/// What `str::len` gives: the number of bytes of the UTF-8 encoding of `s`
/// (as a `usize`).
pub open spec fn byte_len(s: Seq<char>) -> nat {
    (encode_utf8(s).len() as usize) as nat
}

/// `n`, or `u64::MAX` when `n` does not fit: the value a chain of
/// saturating additions reaches.
pub open spec fn cap(n: int) -> u64 {
    if n > u64::MAX {
        u64::MAX
    } else if n < 0 {
        0
    } else {
        n as u64
    }
}

/// The estimated bytes of the stations of an entry: for each station its
/// name and URL bytes and 32 more.
pub open spec fn stations_bytes(s: Seq<StationView>) -> int
    decreases s.len(),
{
    if s.len() == 0 {
        0
    } else {
        stations_bytes(s.drop_last()) + byte_len(s.last().name) + byte_len(s.last().url) + 32
    }
}

/// The estimated size of an entry: its key's bytes, 128, and its stations'
/// bytes (saturating at `u64::MAX`).
pub open spec fn entry_bytes(key: Seq<char>, e: CacheEntryView) -> u64 {
    cap(byte_len(key) + 128 + stations_bytes(e.stations))
}

/// The sum of the estimated sizes of the entries.
pub open spec fn total_bytes(items: Seq<CacheItem>) -> int
    decreases items.len(),
{
    if items.len() == 0 {
        0
    } else {
        total_bytes(items.drop_last()) + entry_bytes(items.last().0, items.last().1)
    }
}

pub open spec fn keys_distinct(items: Seq<CacheItem>) -> bool {
    forall|i: int, j: int| 0 <= i < j < items.len() ==> items[i].0 != items[j].0
}

/// The entries as a map from key to entry.
pub open spec fn cache_map(items: Seq<CacheItem>) -> Map<Seq<char>, CacheEntryView>
    decreases items.len(),
{
    if items.len() == 0 {
        Map::empty()
    } else {
        cache_map(items.drop_last()).insert(items.last().0, items.last().1)
    }
}

/// The entries whose key is one of `keys`, in order.
pub open spec fn keep_keys(items: Seq<CacheItem>, keys: Set<Seq<char>>) -> Seq<CacheItem>
    decreases items.len(),
{
    if items.len() == 0 {
        Seq::empty()
    } else {
        let r = keep_keys(items.drop_last(), keys);
        if keys.contains(items.last().0) {
            r.push(items.last())
        } else {
            r
        }
    }
}

/// The path texts of the playlists.
pub open spec fn path_keys(paths: Seq<PlaylistPath>) -> Set<Seq<char>> {
    Set::new(|k: Seq<char>| exists|i: int| 0 <= i < paths.len() && #[trigger] paths[i].text@ == k)
}

/// What pruning leaves: entries of listed playlists only, within the budget,
/// and every dropped entry of a listed playlist was needed to get there: it
/// is at least as heavy as every kept entry, and keeping it would go over the
/// budget.
pub open spec fn prune_ok(before: Seq<CacheItem>, after: Seq<CacheItem>, keys: Set<Seq<char>>) -> bool {
    &&& total_bytes(after) <= PLAYLIST_CACHE_MAX_BYTES
    &&& forall|x: CacheItem| #[trigger] after.contains(x) ==> keep_keys(before, keys).contains(x)
    &&& forall|x: CacheItem|
        #![trigger keep_keys(before, keys).contains(x)]
        keep_keys(before, keys).contains(x) && !after.contains(x) ==> {
            &&& total_bytes(after) + entry_bytes(x.0, x.1) > PLAYLIST_CACHE_MAX_BYTES
            &&& forall|y: CacheItem| #[trigger] after.contains(y) ==> entry_bytes(y.0, y.1) <= entry_bytes(x.0, x.1)
        }
}

/// The cached playlists: distinct keys, each with its entry.
pub struct PlaylistCacheStore {
    entries: Vec<(String, PlaylistCacheEntry)>,
}

impl View for PlaylistCacheStore {
    type V = Map<Seq<char>, CacheEntryView>;

    open spec fn view(&self) -> Map<Seq<char>, CacheEntryView> {
        cache_map(self.items())
    }
}

proof fn lemma_cache_map_index(items: Seq<CacheItem>, i: int)
    requires
        keys_distinct(items),
        0 <= i < items.len(),
    ensures
        cache_map(items).contains_key(items[i].0),
        cache_map(items)[items[i].0] == items[i].1,
    decreases items.len(),
{
    if i < items.len() - 1 {
        lemma_cache_map_index(items.drop_last(), i);
    }
}

proof fn lemma_cache_map_len(items: Seq<CacheItem>)
    requires
        keys_distinct(items),
    ensures
        cache_map(items).dom().finite(),
        cache_map(items).dom().len() == items.len(),
    decreases items.len(),
{
    if items.len() > 0 {
        let d = items.drop_last();
        assert(keys_distinct(d)) by {
            assert forall|i: int, j: int| 0 <= i < j < d.len() implies d[i].0 != d[j].0 by {
                assert(d[i] == items[i] && d[j] == items[j]);
            }
        }
        lemma_cache_map_len(d);
        lemma_cache_map_keys(d, items.last().0);
        if cache_map(d).contains_key(items.last().0) {
            let i = choose|i: int| 0 <= i < d.len() && #[trigger] d[i].0 == items.last().0;
            assert(items[i].0 == items[items.len() - 1].0);
        }
        assert(cache_map(items).dom() =~= cache_map(d).dom().insert(items.last().0));
    }
}

proof fn lemma_cache_map_keys(items: Seq<CacheItem>, k: Seq<char>)
    ensures
        cache_map(items).contains_key(k) <==> exists|i: int| 0 <= i < items.len() && #[trigger] items[i].0 == k,
    decreases items.len(),
{
    if items.len() > 0 {
        let d = items.drop_last();
        lemma_cache_map_keys(d, k);
        if cache_map(items).contains_key(k) && k != items.last().0 {
            let i = choose|i: int| 0 <= i < d.len() && #[trigger] d[i].0 == k;
            assert(items[i].0 == k);
        }
        if exists|i: int| 0 <= i < items.len() && #[trigger] items[i].0 == k {
            let i = choose|i: int| 0 <= i < items.len() && #[trigger] items[i].0 == k;
            if i < items.len() - 1 {
                assert(d[i].0 == k);
            }
        }
    }
}

proof fn lemma_total_remove(items: Seq<CacheItem>, i: int)
    requires
        0 <= i < items.len(),
    ensures
        total_bytes(items.remove(i)) == total_bytes(items) - entry_bytes(items[i].0, items[i].1),
    decreases items.len(),
{
    if i < items.len() - 1 {
        let d = items.drop_last();
        lemma_total_remove(d, i);
        assert(items.remove(i).drop_last() =~= d.remove(i));
        assert(items.remove(i).last() == items.last());
    } else {
        assert(items.remove(i) =~= items.drop_last());
    }
}

proof fn lemma_total_nonneg(items: Seq<CacheItem>)
    ensures
        total_bytes(items) >= 0,
    decreases items.len(),
{
    if items.len() > 0 {
        lemma_total_nonneg(items.drop_last());
    }
}

proof fn lemma_distinct_remove(items: Seq<CacheItem>, i: int)
    requires
        keys_distinct(items),
        0 <= i < items.len(),
    ensures
        keys_distinct(items.remove(i)),
        forall|x: CacheItem| items.remove(i).contains(x) ==> items.contains(x),
{
    let r = items.remove(i);
    assert forall|a: int, b: int| 0 <= a < b < r.len() implies r[a].0 != r[b].0 by {
        let ia = if a < i { a } else { a + 1 };
        let ib = if b < i { b } else { b + 1 };
        assert(r[a] == items[ia]);
        assert(r[b] == items[ib]);
    }
    assert forall|x: CacheItem| r.contains(x) implies items.contains(x) by {
        let k = choose|k: int| 0 <= k < r.len() && r[k] == x;
        let ik = if k < i { k } else { k + 1 };
        assert(items[ik] == x);
    }
}

/// Saturating sum of two capped values is the capped sum.
proof fn lemma_cap_add(a: int, b: int)
    requires
        a >= 0,
        b >= 0,
    ensures
        (if cap(a) + cap(b) > u64::MAX { u64::MAX } else { (cap(a) + cap(b)) as u64 }) == cap(a + b),
{
}

proof fn lemma_stations_bytes_nonneg(s: Seq<StationView>)
    ensures
        stations_bytes(s) >= 0,
    decreases s.len(),
{
    if s.len() > 0 {
        lemma_stations_bytes_nonneg(s.drop_last());
    }
}

/// `str::len` as a `u64`.
fn text_bytes(s: &String) -> (n: u64)
    ensures
        n == cap(byte_len(s@) as int),
{
    let t: &str = s.as_str();
    let l: usize = t.len();
    l as u64
}

/// The estimated size of one cache entry, as the cache budget counts it.
pub fn estimate_cache_entry_size_bytes(key: &str, entry: &PlaylistCacheEntry) -> (n: u64)
    ensures
        n == entry_bytes(key@, entry@),
{
    let kl: usize = key.len();
    assert(kl == byte_len(key@));
    let mut acc: u64 = (kl as u64).saturating_add(128);
    let mut i: usize = 0;
    let ghost sv = stations_view(entry.stations@);
    proof {
        lemma_cap_add(byte_len(key@) as int, 128);
        assert(stations_bytes(sv.subrange(0, 0)) == 0);
    }
    while i < entry.stations.len()
        invariant
            i <= entry.stations@.len(),
            sv == stations_view(entry.stations@),
            acc == cap(byte_len(key@) + 128 + stations_bytes(sv.subrange(0, i as int))),
        decreases entry.stations@.len() - i,
    {
        let st = &entry.stations[i];
        let n1 = text_bytes(&st.name);
        let n2 = text_bytes(&st.url);
        let add: u64 = n1.saturating_add(n2).saturating_add(32);
        proof {
            let a = byte_len(sv[i as int].name) as int;
            let b = byte_len(sv[i as int].url) as int;
            lemma_cap_add(a, b);
            lemma_cap_add(a + b, 32);
            let prev = byte_len(key@) + 128 + stations_bytes(sv.subrange(0, i as int));
            lemma_stations_bytes_nonneg(sv.subrange(0, i as int));
            lemma_cap_add(prev, a + b + 32);
            let next = sv.subrange(0, i as int + 1);
            assert(next.drop_last() =~= sv.subrange(0, i as int));
            assert(next.last() == sv[i as int]);
        }
        acc = acc.saturating_add(add);
        i = i + 1;
    }
    assert(sv.subrange(0, sv.len() as int) =~= sv);
    acc
}

impl PlaylistCacheStore {
    pub closed spec fn items(&self) -> Seq<CacheItem> {
        self.entries@.map_values(|p: (String, PlaylistCacheEntry)| (p.0@, p.1@))
    }

    pub closed spec fn valid(&self) -> bool {
        keys_distinct(self.items())
    }

    /// An empty cache.
    pub fn new() -> (s: PlaylistCacheStore)
        ensures
            s.valid(),
            s.items() == Seq::<CacheItem>::empty(),
            s@ == Map::<Seq<char>, CacheEntryView>::empty(),
    {
        let s = PlaylistCacheStore { entries: Vec::new() };
        assert(s.items() =~= Seq::<CacheItem>::empty());
        s
    }

    /// Index of the entry for `key`.
    fn position(&self, key: &str) -> (r: Option<usize>)
        requires
            self.valid(),
        ensures
            match r {
                Some(i) => i < self.items().len() && self.items()[i as int].0 == key@,
                None => forall|i: int| 0 <= i < self.items().len() ==> self.items()[i].0 != key@,
            },
    {
        let mut i: usize = 0;
        while i < self.entries.len()
            invariant
                i <= self.entries@.len(),
                forall|j: int| 0 <= j < i ==> self.items()[j].0 != key@,
            decreases self.entries@.len() - i,
        {
            if str_eq(&self.entries[i].0, key) {
                return Some(i);
            }
            i = i + 1;
        }
        None
    }

    /// Sets the entry for `key`, replacing the one it had.
    pub fn insert(&mut self, key: String, entry: PlaylistCacheEntry)
        requires
            old(self).valid(),
        ensures
            final(self).valid(),
            final(self)@ == old(self)@.insert(key@, entry@),
            final(self).items().len() == old(self).items().len() + (if old(self)@.contains_key(key@) {
                0int
            } else {
                1int
            }),
    {
        let ghost old_items = self.items();
        let ghost k = key@;
        let ghost e = entry@;
        proof {
            lemma_cache_map_keys(old_items, k);
        }
        match self.position(key.as_str()) {
            Some(i) => {
                self.entries.set(i, (key, entry));
                proof {
                    let items = self.items();
                    assert(items =~= old_items.update(i as int, (k, e)));
                    assert forall|a: int, b: int| 0 <= a < b < items.len() implies items[a].0
                        != items[b].0 by {
                        if a != i && b != i {
                            assert(items[a] == old_items[a] && items[b] == old_items[b]);
                        } else if a == i {
                            assert(items[b] == old_items[b]);
                        } else {
                            assert(items[a] == old_items[a]);
                        }
                    }
                    assert forall|kk: Seq<char>| #![auto] true implies (cache_map(items).contains_key(kk)
                        == cache_map(old_items).insert(k, e).contains_key(kk)) by {
                        lemma_cache_map_keys(items, kk);
                        lemma_cache_map_keys(old_items, kk);
                        if exists|j: int| 0 <= j < old_items.len() && #[trigger] old_items[j].0 == kk {
                            let j = choose|j: int| 0 <= j < old_items.len() && #[trigger] old_items[j].0 == kk;
                            if j == i {
                                assert(items[j].0 == kk);
                            } else {
                                assert(items[j].0 == kk);
                            }
                        }
                        if exists|j: int| 0 <= j < items.len() && #[trigger] items[j].0 == kk {
                            let j = choose|j: int| 0 <= j < items.len() && #[trigger] items[j].0 == kk;
                            if j != i {
                                assert(old_items[j].0 == kk);
                            }
                        }
                    }
                    assert forall|kk: Seq<char>| #[trigger] cache_map(items).contains_key(kk) implies cache_map(items)[kk]
                        == cache_map(old_items).insert(k, e)[kk] by {
                        lemma_cache_map_keys(items, kk);
                        let j = choose|j: int| 0 <= j < items.len() && #[trigger] items[j].0 == kk;
                        lemma_cache_map_index(items, j);
                        if j != i {
                            lemma_cache_map_index(old_items, j);
                        }
                    }
                    assert(cache_map(items) =~= cache_map(old_items).insert(k, e));
                }
            },
            None => {
                self.entries.push((key, entry));
                proof {
                    let items = self.items();
                    assert(items =~= old_items.push((k, e)));
                    assert(items.drop_last() =~= old_items);
                    assert forall|a: int, b: int| 0 <= a < b < items.len() implies items[a].0
                        != items[b].0 by {
                        if b == old_items.len() {
                            assert(items[a] == old_items[a]);
                        } else {
                            assert(items[a] == old_items[a] && items[b] == old_items[b]);
                        }
                    }
                }
            },
        }
    }

    /// The stations stored for `key` when the file's signature is still the
    /// one they were stored with.
    pub fn lookup(&self, key: &str, modified_epoch_secs: u64, file_size: u64) -> (r: Option<
        Vec<Station>,
    >)
        requires
            self.valid(),
        ensures
            match r {
                Some(v) => self@.contains_key(key@) && self@[key@].modified == modified_epoch_secs
                    && self@[key@].size == file_size && stations_view(v@) == self@[key@].stations,
                None => !self@.contains_key(key@) || self@[key@].modified != modified_epoch_secs
                    || self@[key@].size != file_size,
            },
    {
        proof {
            lemma_cache_map_keys(self.items(), key@);
        }
        match self.position(key) {
            Some(i) => {
                proof {
                    lemma_cache_map_index(self.items(), i as int);
                }
                let e = &self.entries[i].1;
                if e.modified_epoch_secs == modified_epoch_secs && e.file_size == file_size {
                    Some(duplicate_stations(&e.stations))
                } else {
                    None
                }
            },
            None => None,
        }
    }

    /// How many stations are stored for `key`.
    pub fn station_count(&self, key: &str) -> (r: Option<usize>)
        requires
            self.valid(),
        ensures
            match r {
                Some(n) => self@.contains_key(key@) && n == self@[key@].stations.len(),
                None => !self@.contains_key(key@),
            },
    {
        proof {
            lemma_cache_map_keys(self.items(), key@);
        }
        match self.position(key) {
            Some(i) => {
                proof {
                    lemma_cache_map_index(self.items(), i as int);
                }
                Some(self.entries[i].1.stations.len())
            },
            None => None,
        }
    }

    /// The entries, each with its key.
    pub fn to_entries(&self) -> (v: Vec<(String, PlaylistCacheEntry)>)
        ensures
            v@.map_values(|p: (String, PlaylistCacheEntry)| (p.0@, p.1@)) == self.items(),
    {
        let mut v: Vec<(String, PlaylistCacheEntry)> = Vec::new();
        let mut i: usize = 0;
        while i < self.entries.len()
            invariant
                i <= self.entries@.len(),
                v@.len() == i,
                forall|j: int| 0 <= j < i ==> (#[trigger] v@[j]).0@ == self.entries@[j].0@ && v@[j].1@
                    == self.entries@[j].1@,
            decreases self.entries@.len() - i,
        {
            let p = &self.entries[i];
            v.push((p.0.clone(), p.1.duplicate()));
            i = i + 1;
        }
        assert(v@.map_values(|p: (String, PlaylistCacheEntry)| (p.0@, p.1@)) =~= self.items());
        v
    }

    /// A cache holding `entries`; where a key comes twice the later entry wins.
    pub fn from_entries(entries: Vec<(String, PlaylistCacheEntry)>) -> (s: PlaylistCacheStore)
        ensures
            s.valid(),
            s@ == cache_map(entries@.map_values(|p: (String, PlaylistCacheEntry)| (p.0@, p.1@))),
    {
        let ghost src = entries@.map_values(|p: (String, PlaylistCacheEntry)| (p.0@, p.1@));
        let mut s = PlaylistCacheStore::new();
        let mut i: usize = 0;
        while i < entries.len()
            invariant
                s.valid(),
                i <= entries@.len(),
                src == entries@.map_values(|p: (String, PlaylistCacheEntry)| (p.0@, p.1@)),
                s@ == cache_map(src.subrange(0, i as int)),
            decreases entries@.len() - i,
        {
            proof {
                let nx = src.subrange(0, i as int + 1);
                assert(nx.drop_last() =~= src.subrange(0, i as int));
                assert(nx.last() == src[i as int]);
            }
            s.insert(entries[i].0.clone(), entries[i].1.duplicate());
            i = i + 1;
        }
        assert(src.subrange(0, entries@.len() as int) =~= src);
        s
    }

    /// Estimated size of the whole cache (saturating at `u64::MAX`).
    pub fn estimate_playlist_cache_size_bytes(&self) -> (n: u64)
        ensures
            n == cap(total_bytes(self.items())),
    {
        let mut acc: u64 = 0;
        let mut i: usize = 0;
        while i < self.entries.len()
            invariant
                i <= self.entries@.len(),
                acc == cap(total_bytes(self.items().subrange(0, i as int))),
            decreases self.entries@.len() - i,
        {
            let p = &self.entries[i];
            let b = estimate_cache_entry_size_bytes(p.0.as_str(), &p.1);
            proof {
                let pre = self.items().subrange(0, i as int);
                let nx = self.items().subrange(0, i as int + 1);
                assert(nx.drop_last() =~= pre);
                assert(nx.last() == self.items()[i as int]);
                lemma_total_nonneg(pre);
                lemma_cap_add(total_bytes(pre), b as int);
            }
            acc = acc.saturating_add(b);
            i = i + 1;
        }
        assert(self.items().subrange(0, self.items().len() as int) =~= self.items());
        acc
    }

    /// Index of an entry of largest estimated size.
    fn heaviest(&self) -> (r: usize)
        requires
            self.entries@.len() > 0,
        ensures
            r < self.items().len(),
            forall|j: int| 0 <= j < self.items().len() ==> entry_bytes(self.items()[j].0, self.items()[j].1)
                <= entry_bytes(self.items()[r as int].0, self.items()[r as int].1),
    {
        let mut best: usize = 0;
        let mut best_size: u64 = estimate_cache_entry_size_bytes(self.entries[0].0.as_str(), &self.entries[0].1);
        let mut i: usize = 1;
        while i < self.entries.len()
            invariant
                1 <= i <= self.entries@.len(),
                best < i,
                best_size == entry_bytes(self.items()[best as int].0, self.items()[best as int].1),
                forall|j: int| 0 <= j < i ==> entry_bytes(self.items()[j].0, self.items()[j].1) <= best_size,
            decreases self.entries@.len() - i,
        {
            let s = estimate_cache_entry_size_bytes(self.entries[i].0.as_str(), &self.entries[i].1);
            if s >= best_size {
                best = i;
                best_size = s;
            }
            i = i + 1;
        }
        best
    }

    /// Drops the entries of playlists that are no longer listed, then, while
    /// the estimated size is over the budget, the heaviest entry. Returns
    /// whether any entry was dropped.
    pub fn prune(&mut self, playlists: &Vec<PlaylistPath>) -> (changed: bool)
        requires
            old(self).valid(),
        ensures
            final(self).valid(),
            prune_ok(old(self).items(), final(self).items(), path_keys(playlists@)),
            changed == (final(self).items().len() != old(self).items().len()),
    {
        let ghost old_items = self.items();
        let ghost keys = path_keys(playlists@);
        let before: usize = self.entries.len();
        // keep the entries of listed playlists
        let mut kept: Vec<(String, PlaylistCacheEntry)> = Vec::new();
        let mut i: usize = 0;
        let src = &self.entries;
        let ghost srcv = src@;
        proof {
            assert(srcv.map_values(|p: (String, PlaylistCacheEntry)| (p.0@, p.1@)) == old_items);
        }
        while i < src.len()
            invariant
                i <= src@.len(),
                src@ == srcv,
                srcv.map_values(|p: (String, PlaylistCacheEntry)| (p.0@, p.1@)) == old_items,
                keys == path_keys(playlists@),
                kept@.map_values(|p: (String, PlaylistCacheEntry)| (p.0@, p.1@)) == keep_keys(
                    old_items.subrange(0, i as int),
                    keys,
                ),
            decreases src@.len() - i,
        {
            let listed = is_listed(src[i].0.as_str(), playlists);
            proof {
                let nx = old_items.subrange(0, i as int + 1);
                assert(nx.drop_last() =~= old_items.subrange(0, i as int));
                assert(nx.last() == old_items[i as int]);
            }
            if listed {
                let ghost before_kept = kept@;
                kept.push((src[i].0.clone(), src[i].1.duplicate()));
                proof {
                    assert(kept@.map_values(|p: (String, PlaylistCacheEntry)| (p.0@, p.1@)) =~= before_kept.map_values(
                        |p: (String, PlaylistCacheEntry)| (p.0@, p.1@),
                    ).push(old_items[i as int]));
                }
            }
            i = i + 1;
        }
        proof {
            assert(old_items.subrange(0, old_items.len() as int) =~= old_items);
            lemma_keep_keys_distinct(old_items, keys);
        }
        self.entries = kept;
        let ghost filtered = self.items();
        let ghost mut evicted: Seq<CacheItem> = Seq::empty();
        proof {
            assert(filtered.to_multiset() =~= self.items().to_multiset().add(evicted.to_multiset()));
        }
        loop
            invariant_except_break
                self.valid(),
                filtered.to_multiset() == self.items().to_multiset().add(evicted.to_multiset()),
                forall|x: CacheItem| #[trigger] evicted.contains(x) ==> total_bytes(self.items()) + entry_bytes(x.0, x.1)
                    > PLAYLIST_CACHE_MAX_BYTES,
                forall|x: CacheItem, y: CacheItem| #[trigger] evicted.contains(x) && #[trigger] self.items().contains(y)
                    ==> entry_bytes(y.0, y.1) <= entry_bytes(x.0, x.1),
                forall|x: CacheItem| #[trigger] self.items().contains(x) ==> filtered.contains(x),
            ensures
                self.valid(),
                total_bytes(self.items()) <= PLAYLIST_CACHE_MAX_BYTES,
                filtered.to_multiset() == self.items().to_multiset().add(evicted.to_multiset()),
                forall|x: CacheItem| #[trigger] evicted.contains(x) ==> total_bytes(self.items()) + entry_bytes(x.0, x.1)
                    > PLAYLIST_CACHE_MAX_BYTES,
                forall|x: CacheItem, y: CacheItem| #[trigger] evicted.contains(x) && #[trigger] self.items().contains(y)
                    ==> entry_bytes(y.0, y.1) <= entry_bytes(x.0, x.1),
                forall|x: CacheItem| #[trigger] self.items().contains(x) ==> filtered.contains(x),
            decreases self.entries@.len(),
        {
            let total = self.estimate_playlist_cache_size_bytes();
            proof {
                lemma_total_nonneg(self.items());
            }
            if total <= PLAYLIST_CACHE_MAX_BYTES {
                break;
            }
            if self.entries.len() == 0 {
                proof {
                    assert(self.items().len() == 0);
                    assert(total_bytes(self.items()) == 0);
                }
                break;
            }
            let h = self.heaviest();
            let ghost cur = self.items();
            let ghost x = cur[h as int];
            let _ = self.entries.remove(h);
            proof {
                assert(self.items() =~= cur.remove(h as int));
                lemma_total_remove(cur, h as int);
                lemma_distinct_remove(cur, h as int);
                assert forall|y: CacheItem| #[trigger] self.items().contains(y) implies filtered.contains(y) by {
                    assert(cur.contains(y));
                }
                let old_ev = evicted;
                evicted = evicted.push(x);
                assert(evicted.to_multiset() =~= old_ev.to_multiset().insert(x));
                assert(cur.to_multiset() =~= self.items().to_multiset().insert(x));
                assert(filtered.to_multiset() =~= self.items().to_multiset().add(evicted.to_multiset()));
                assert forall|y: CacheItem| #[trigger] self.items().contains(y) implies entry_bytes(y.0, y.1)
                    <= entry_bytes(x.0, x.1) by {
                    let k = choose|k: int| 0 <= k < self.items().len() && self.items()[k] == y;
                    let ik = if k < h { k } else { k + 1 };
                    assert(cur[ik] == y);
                }
                assert forall|z: CacheItem| #[trigger] evicted.contains(z) implies total_bytes(self.items())
                    + entry_bytes(z.0, z.1) > PLAYLIST_CACHE_MAX_BYTES by {
                    if z != x {
                        assert(old_ev.contains(z)) by {
                            let k = choose|k: int| 0 <= k < evicted.len() && evicted[k] == z;
                            assert(old_ev[k] == z);
                        }
                        assert(cur.contains(x)) by {
                            assert(cur[h as int] == x);
                        }
                    }
                }
                assert forall|z: CacheItem, y: CacheItem| #[trigger] evicted.contains(z) && #[trigger] self.items().contains(y)
                    implies entry_bytes(y.0, y.1) <= entry_bytes(z.0, z.1) by {
                    if z != x {
                        assert(old_ev.contains(z)) by {
                            let k = choose|k: int| 0 <= k < evicted.len() && evicted[k] == z;
                            assert(old_ev[k] == z);
                        }
                        assert(cur.contains(y));
                    }
                }
            }
        }
        proof {
            assert forall|x: CacheItem| #![trigger keep_keys(old_items, keys).contains(x)]
                keep_keys(old_items, keys).contains(x) && !self.items().contains(x) implies evicted.contains(x) by {
                assert(filtered.to_multiset().count(x) > 0);
                assert(self.items().to_multiset().count(x) == 0);
            }
            assert(filtered.to_multiset().len() == self.items().to_multiset().len() + evicted.to_multiset().len());
        }
        self.entries.len() != before
    }
}

/// Is `key` the path text of one of `playlists`?
fn is_listed(key: &str, playlists: &Vec<PlaylistPath>) -> (b: bool)
    ensures
        b == path_keys(playlists@).contains(key@),
{
    let mut i: usize = 0;
    while i < playlists.len()
        invariant
            i <= playlists@.len(),
            forall|j: int| 0 <= j < i ==> playlists@[j].text@ != key@,
        decreases playlists@.len() - i,
    {
        if str_eq(&playlists[i].text, key) {
            assert(playlists@[i as int].text@ == key@);
            return true;
        }
        i = i + 1;
    }
    false
}

proof fn lemma_keep_keys_distinct(items: Seq<CacheItem>, keys: Set<Seq<char>>)
    requires
        keys_distinct(items),
    ensures
        keys_distinct(keep_keys(items, keys)),
        forall|x: CacheItem| #[trigger] keep_keys(items, keys).contains(x) ==> items.contains(x),
    decreases items.len(),
{
    if items.len() > 0 {
        let d = items.drop_last();
        assert(keys_distinct(d));
        lemma_keep_keys_distinct(d, keys);
        let r = keep_keys(d, keys);
        assert forall|x: CacheItem| #[trigger] r.contains(x) implies d.contains(x) && items.contains(x) by {
            let k = choose|k: int| 0 <= k < d.len() && d[k] == x;
            assert(items[k] == x);
        }
        if keys.contains(items.last().0) {
            let rr = r.push(items.last());
            assert forall|a: int, b: int| 0 <= a < b < rr.len() implies rr[a].0 != rr[b].0 by {
                if b == r.len() {
                    assert(r.contains(rr[a]));
                    let k = choose|k: int| 0 <= k < d.len() && d[k] == rr[a];
                    assert(items[k].0 != items[items.len() - 1].0);
                }
            }
            assert forall|x: CacheItem| #[trigger] rr.contains(x) implies items.contains(x) by {
                let k = choose|k: int| 0 <= k < rr.len() && rr[k] == x;
                if k < r.len() {
                    assert(r.contains(x));
                } else {
                    assert(items[items.len() - 1] == x);
                }
            }
        }
    }
}

/// Saving the cache and loading it back gives the same cache: the saved list
/// holds exactly one entry per cached playlist, each the cached one, and the
/// map rebuilt from it is the cached map.
pub proof fn lemma_saved_cache_reloads(s: PlaylistCacheStore, saved: Seq<CacheItem>)
    requires
        s.valid(),
        saved == s.items(),
    ensures
        cache_map(saved) == s@,
        saved.len() == s@.dom().len(),
        forall|i: int| 0 <= i < saved.len() ==> s@.contains_key(#[trigger] saved[i].0) && s@[saved[i].0] == saved[i].1,
{
    lemma_cache_map_len(saved);
    assert forall|i: int| 0 <= i < saved.len() implies s@.contains_key(#[trigger] saved[i].0) && s@[saved[i].0]
        == saved[i].1 by {
        lemma_cache_map_index(saved, i);
    }
}

} // verus!
