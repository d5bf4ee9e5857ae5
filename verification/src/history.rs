//! Playback history: what was played, when, and for how long.
//!
//! Entries are kept newest first; entries older than seven days are dropped,
//! and at most `HISTORY_LIMIT` are kept. The history screen shows one row per
//! URL with the total listening time and the last time it was played.

use vstd::prelude::*;
use crate::favorites::{FavoriteEntry, favorites_view, is_favorite_spec, is_url_favorite};

verus! {

pub const HISTORY_LIMIT: usize = 2000;

pub const HISTORY_RETENTION_SECS: u64 = 7 * 24 * 60 * 60;

pub struct HistView {
    pub name: Seq<char>,
    pub url: Seq<char>,
    pub played: u64,
    pub duration: u64,
}

#[derive(Debug, Clone)]
pub struct HistoryEntry {
    pub name: String,
    pub url: String,
    pub played_at_epoch_secs: u64,
    pub duration_secs: u64,
}

impl View for HistoryEntry {
    type V = HistView;

    open spec fn view(&self) -> HistView {
        HistView {
            name: self.name@,
            url: self.url@,
            played: self.played_at_epoch_secs,
            duration: self.duration_secs,
        }
    }
}

pub open spec fn history_view(h: Seq<HistoryEntry>) -> Seq<HistView> {
    h.map_values(|e: HistoryEntry| e@)
}

impl HistoryEntry {
    pub fn duplicate(&self) -> (e: HistoryEntry)
        ensures
            e@ == self@,
    {
        HistoryEntry {
            name: self.name.clone(),
            url: self.url.clone(),
            played_at_epoch_secs: self.played_at_epoch_secs,
            duration_secs: self.duration_secs,
        }
    }
}

/// A station being played, since when.
#[derive(Debug, Clone)]
pub struct PlaybackSession {
    pub name: String,
    pub url: String,
    pub started_at_epoch_secs: u64,
}

/// The oldest start time still shown and kept: seven days before `now`.
pub open spec fn cutoff_spec(now: u64) -> u64 {
    if now >= HISTORY_RETENTION_SECS {
        (now - HISTORY_RETENTION_SECS) as u64
    } else {
        0
    }
}

pub fn retention_cutoff(now: u64) -> (c: u64)
    ensures
        c == cutoff_spec(now),
{
    now.saturating_sub(HISTORY_RETENTION_SECS)
}

/// The entries that started at or after `cutoff`, in order.
pub open spec fn recent(h: Seq<HistView>, cutoff: u64) -> Seq<HistView>
    decreases h.len(),
{
    if h.len() == 0 {
        Seq::empty()
    } else {
        let r = recent(h.drop_last(), cutoff);
        if h.last().played >= cutoff {
            r.push(h.last())
        } else {
            r
        }
    }
}

/// The history as it is kept: the recent entries, at most `HISTORY_LIMIT`.
pub open spec fn prune_spec(h: Seq<HistView>, now: u64) -> Seq<HistView> {
    let r = recent(h, cutoff_spec(now));
    if r.len() > HISTORY_LIMIT {
        r.take(HISTORY_LIMIT as int)
    } else {
        r
    }
}

/// Drops the entries older than seven days and keeps at most
/// `HISTORY_LIMIT` of the rest.
pub fn prune_history(history: &mut Vec<HistoryEntry>, now: u64)
    ensures
        history_view(final(history)@) == prune_spec(history_view(old(history)@), now),
{
    let cutoff = retention_cutoff(now);
    let ghost hv = history_view(history@);
    let mut kept: Vec<HistoryEntry> = Vec::new();
    let mut i: usize = 0;
    assert(recent(hv.take(0), cutoff) =~= Seq::<HistView>::empty());
    assert(history_view(kept@) =~= Seq::<HistView>::empty());
    while i < history.len()
        invariant
            i <= history@.len(),
            hv == history_view(history@),
            history_view(kept@) == recent(hv.take(i as int), cutoff),
        decreases history@.len() - i,
    {
        proof {
            assert(hv.take(i + 1).drop_last() =~= hv.take(i as int));
            assert(hv.take(i + 1).last() == hv[i as int]);
        }
        if history[i].played_at_epoch_secs >= cutoff {
            let ghost before = kept@;
            kept.push(history[i].duplicate());
            assert(history_view(kept@) =~= history_view(before).push(hv[i as int]));
        }
        i = i + 1;
    }
    assert(hv.take(hv.len() as int) =~= hv);
    if kept.len() > HISTORY_LIMIT {
        let ghost before = kept@;
        kept.truncate(HISTORY_LIMIT);
        assert(history_view(kept@) =~= history_view(before).take(HISTORY_LIMIT as int));
    }
    *history = kept;
}

/// The history entry a finished session makes: it started when the session
/// did and lasted until `now`, at least one second.
pub open spec fn session_entry(s: PlaybackSession, now: u64) -> HistView {
    HistView {
        name: s.name@,
        url: s.url@,
        played: s.started_at_epoch_secs,
        duration: if now > s.started_at_epoch_secs + 1 {
            (now - s.started_at_epoch_secs) as u64
        } else {
            1
        },
    }
}

/// Records a finished session at the front of the history and prunes it.
pub fn finalize_session(history: &mut Vec<HistoryEntry>, session: PlaybackSession, now: u64)
    ensures
        history_view(final(history)@) == prune_spec(
            seq![session_entry(session, now)] + history_view(old(history)@),
            now,
        ),
{
    let elapsed: u64 = now.saturating_sub(session.started_at_epoch_secs);
    let duration: u64 = if elapsed > 1 {
        elapsed
    } else {
        1
    };
    let ghost before = history@;
    let ghost s = session;
    history.insert(
        0,
        HistoryEntry {
            name: session.name,
            url: session.url,
            played_at_epoch_secs: session.started_at_epoch_secs,
            duration_secs: duration,
        },
    );
    assert(history_view(history@) =~= seq![session_entry(s, now)] + history_view(before));
    prune_history(history, now);
}

// ---------------------------------------------------------------------------
// The history screen
// ---------------------------------------------------------------------------

pub struct RowView {
    pub name: Seq<char>,
    pub last: u64,
    pub total: u64,
}

pub open spec fn sat_add(a: u64, b: u64) -> u64 {
    if a + b > u64::MAX {
        u64::MAX
    } else {
        (a + b) as u64
    }
}

/// The row of `url` over the entries `h`: the name of the entry played last
/// (the first such one), when it was played, and the listening time, summed
/// without going past `u64::MAX`.
pub open spec fn row_of(h: Seq<HistView>, url: Seq<char>) -> Option<RowView>
    decreases h.len(),
{
    if h.len() == 0 {
        None
    } else {
        let prev = row_of(h.drop_last(), url);
        let e = h.last();
        if e.url != url {
            prev
        } else {
            match prev {
                None => Some(RowView { name: e.name, last: e.played, total: e.duration }),
                Some(r) => Some(
                    RowView {
                        name: if e.played > r.last {
                            e.name
                        } else {
                            r.name
                        },
                        last: if e.played > r.last {
                            e.played
                        } else {
                            r.last
                        },
                        total: sat_add(r.total, e.duration),
                    },
                ),
            }
        }
    }
}

pub struct ItemView {
    pub name: Seq<char>,
    pub url: Seq<char>,
    pub last: u64,
    pub total: u64,
    pub is_favorite: bool,
}

#[derive(Debug, Clone)]
pub struct HistoryViewItem {
    pub name: String,
    pub url: String,
    pub last_played_epoch_secs: u64,
    pub total_duration_secs: u64,
    pub is_favorite: bool,
}

impl View for HistoryViewItem {
    type V = ItemView;

    open spec fn view(&self) -> ItemView {
        ItemView {
            name: self.name@,
            url: self.url@,
            last: self.last_played_epoch_secs,
            total: self.total_duration_secs,
            is_favorite: self.is_favorite,
        }
    }
}

impl HistoryViewItem {
    pub fn duplicate(&self) -> (r: HistoryViewItem)
        ensures
            r@ == self@,
    {
        HistoryViewItem {
            name: self.name.clone(),
            url: self.url.clone(),
            last_played_epoch_secs: self.last_played_epoch_secs,
            total_duration_secs: self.total_duration_secs,
            is_favorite: self.is_favorite,
        }
    }
}

pub open spec fn items_view(v: Seq<HistoryViewItem>) -> Seq<ItemView> {
    v.map_values(|r: HistoryViewItem| r@)
}

/// Whether `item` is the row that `entries` and `favs` give for its URL.
pub open spec fn row_matches(item: ItemView, entries: Seq<HistView>, favs: Seq<crate::favorites::FavoriteView>) -> bool {
    &&& row_of(entries, item.url) == Some(
        RowView { name: item.name, last: item.last, total: item.total },
    )
    &&& item.is_favorite == is_favorite_spec(favs, item.url)
}

pub open spec fn item_urls_distinct(v: Seq<ItemView>) -> bool {
    forall|i: int, j: int| 0 <= i < j < v.len() ==> v[i].url != v[j].url
}

pub open spec fn has_item_for(v: Seq<ItemView>, url: Seq<char>) -> bool {
    exists|i: int| 0 <= i < v.len() && #[trigger] v[i].url == url
}

/// The rows of the history screen: one row per URL played in the last seven
/// days, with its aggregates, newest first. (Rows played at the same second
/// may come in any order.)
pub open spec fn history_rows_ok(
    out: Seq<ItemView>,
    history: Seq<HistView>,
    favs: Seq<crate::favorites::FavoriteView>,
    now: u64,
) -> bool {
    let entries = recent(history, cutoff_spec(now));
    &&& forall|i: int| 0 <= i < out.len() ==> row_matches(#[trigger] out[i], entries, favs)
    &&& forall|url: Seq<char>| has_item_for(out, url) <==> (#[trigger] row_of(entries, url)) is Some
    &&& item_urls_distinct(out)
    &&& forall|i: int, j: int| 0 <= i < j < out.len() ==> out[i].last >= out[j].last
}

proof fn lemma_row_of_push(h: Seq<HistView>, e: HistView, url: Seq<char>)
    ensures
        row_of(h.push(e), url) == (if e.url != url {
            row_of(h, url)
        } else {
            match row_of(h, url) {
                None => Some(RowView { name: e.name, last: e.played, total: e.duration }),
                Some(r) => Some(
                    RowView {
                        name: if e.played > r.last {
                            e.name
                        } else {
                            r.name
                        },
                        last: if e.played > r.last {
                            e.played
                        } else {
                            r.last
                        },
                        total: sat_add(r.total, e.duration),
                    },
                ),
            }
        }),
{
    assert(h.push(e).drop_last() =~= h);
}

fn find_row(rows: &Vec<HistoryViewItem>, url: &String) -> (r: Option<usize>)
    ensures
        r matches Some(k) ==> k < rows@.len() && rows@[k as int].url@ == url@,
        r is None ==> forall|k: int| 0 <= k < rows@.len() ==> rows@[k].url@ != url@,
{
    let mut k: usize = 0;
    while k < rows.len()
        invariant
            k <= rows@.len(),
            forall|j: int| 0 <= j < k ==> rows@[j].url@ != url@,
        decreases rows@.len() - k,
    {
        if rows[k].url == *url {
            return Some(k);
        }
        k = k + 1;
    }
    None
}

/// One row per recent URL, in the order the URLs first appear.
fn collect_rows(history: &Vec<HistoryEntry>, cutoff: u64) -> (rows: Vec<HistoryViewItem>)
    ensures
        ({
            let entries = recent(history_view(history@), cutoff);
            &&& forall|i: int|
                0 <= i < rows@.len() ==> row_of(entries, #[trigger] rows@[i].url@) == Some(
                    RowView {
                        name: rows@[i].name@,
                        last: rows@[i].last_played_epoch_secs,
                        total: rows@[i].total_duration_secs,
                    },
                )
            &&& forall|url: Seq<char>|
                (exists|i: int| 0 <= i < rows@.len() && #[trigger] rows@[i].url@ == url) <==> (
                #[trigger] row_of(entries, url)) is Some
            &&& forall|i: int, j: int| 0 <= i < j < rows@.len() ==> rows@[i].url@ != rows@[j].url@
        }),
{
    let ghost hv = history_view(history@);
    let mut rows: Vec<HistoryViewItem> = Vec::new();
    let mut i: usize = 0;
    assert(recent(hv.take(0), cutoff) =~= Seq::<HistView>::empty());
    while i < history.len()
        invariant
            i <= history@.len(),
            hv == history_view(history@),
            forall|k: int|
                0 <= k < rows@.len() ==> row_of(
                    recent(hv.take(i as int), cutoff),
                    #[trigger] rows@[k].url@,
                ) == Some(
                    RowView {
                        name: rows@[k].name@,
                        last: rows@[k].last_played_epoch_secs,
                        total: rows@[k].total_duration_secs,
                    },
                ),
            forall|url: Seq<char>|
                (exists|k: int| 0 <= k < rows@.len() && #[trigger] rows@[k].url@ == url) <==> (
                #[trigger] row_of(recent(hv.take(i as int), cutoff), url)) is Some,
            forall|a: int, b: int| 0 <= a < b < rows@.len() ==> rows@[a].url@ != rows@[b].url@,
        decreases history@.len() - i,
    {
        let ghost p = recent(hv.take(i as int), cutoff);
        proof {
            assert(hv.take(i + 1).drop_last() =~= hv.take(i as int));
            assert(hv.take(i + 1).last() == hv[i as int]);
        }
        let e = &history[i];
        if e.played_at_epoch_secs >= cutoff {
            let ghost ev = hv[i as int];
            let ghost q = p.push(ev);
            assert(recent(hv.take(i + 1), cutoff) == q);
            let ghost old_rows = rows@;
            match find_row(&rows, &e.url) {
                Some(k) => {
                    let r = &rows[k];
                    let later: bool = e.played_at_epoch_secs > r.last_played_epoch_secs;
                    let name = if later {
                        e.name.clone()
                    } else {
                        r.name.clone()
                    };
                    let last: u64 = if later {
                        e.played_at_epoch_secs
                    } else {
                        r.last_played_epoch_secs
                    };
                    let total: u64 = r.total_duration_secs.saturating_add(e.duration_secs);
                    let url = r.url.clone();
                    let item = HistoryViewItem {
                        name,
                        url,
                        last_played_epoch_secs: last,
                        total_duration_secs: total,
                        is_favorite: false,
                    };
                    rows.set(k, item);
                    proof {
                        lemma_row_of_push(p, ev, ev.url);
                        assert forall|j: int| 0 <= j < rows@.len() implies row_of(
                            q,
                            #[trigger] rows@[j].url@,
                        ) == Some(
                            RowView {
                                name: rows@[j].name@,
                                last: rows@[j].last_played_epoch_secs,
                                total: rows@[j].total_duration_secs,
                            },
                        ) by {
                            lemma_row_of_push(p, ev, rows@[j].url@);
                            if j != k {
                                assert(rows@[j] == old_rows[j]);
                            }
                        }
                        assert forall|url: Seq<char>|
                            (exists|j: int| 0 <= j < rows@.len() && #[trigger] rows@[j].url@ == url)
                                <==> (#[trigger] row_of(q, url)) is Some by {
                            lemma_row_of_push(p, ev, url);
                            if exists|j: int| 0 <= j < old_rows.len() && #[trigger] old_rows[j].url@
                                == url {
                                let j = choose|j: int|
                                    0 <= j < old_rows.len() && #[trigger] old_rows[j].url@ == url;
                                assert(rows@[j].url@ == url);
                            }
                            if exists|j: int| 0 <= j < rows@.len() && #[trigger] rows@[j].url@ == url {
                                let j = choose|j: int|
                                    0 <= j < rows@.len() && #[trigger] rows@[j].url@ == url;
                                assert(old_rows[j].url@ == url);
                            }
                        }
                        assert forall|a: int, b: int| 0 <= a < b < rows@.len() implies rows@[a].url@
                            != rows@[b].url@ by {
                            assert(rows@[a].url@ == old_rows[a].url@);
                            assert(rows@[b].url@ == old_rows[b].url@);
                        }
                    }
                },
                None => {
                    let item = HistoryViewItem {
                        name: e.name.clone(),
                        url: e.url.clone(),
                        last_played_epoch_secs: e.played_at_epoch_secs,
                        total_duration_secs: e.duration_secs,
                        is_favorite: false,
                    };
                    rows.push(item);
                    proof {
                        lemma_row_of_push(p, ev, ev.url);
                        assert(row_of(p, ev.url) is None);
                        assert forall|j: int| 0 <= j < rows@.len() implies row_of(
                            q,
                            #[trigger] rows@[j].url@,
                        ) == Some(
                            RowView {
                                name: rows@[j].name@,
                                last: rows@[j].last_played_epoch_secs,
                                total: rows@[j].total_duration_secs,
                            },
                        ) by {
                            lemma_row_of_push(p, ev, rows@[j].url@);
                            if j < old_rows.len() {
                                assert(rows@[j] == old_rows[j]);
                            }
                        }
                        assert forall|url: Seq<char>|
                            (exists|j: int| 0 <= j < rows@.len() && #[trigger] rows@[j].url@ == url)
                                <==> (#[trigger] row_of(q, url)) is Some by {
                            lemma_row_of_push(p, ev, url);
                            if exists|j: int| 0 <= j < old_rows.len() && #[trigger] old_rows[j].url@
                                == url {
                                let j = choose|j: int|
                                    0 <= j < old_rows.len() && #[trigger] old_rows[j].url@ == url;
                                assert(rows@[j].url@ == url);
                            }
                            if exists|j: int| 0 <= j < rows@.len() && #[trigger] rows@[j].url@ == url {
                                let j = choose|j: int|
                                    0 <= j < rows@.len() && #[trigger] rows@[j].url@ == url;
                                if j < old_rows.len() {
                                    assert(old_rows[j].url@ == url);
                                }
                            }
                            if url == ev.url {
                                assert(rows@[old_rows.len() as int].url@ == url);
                            }
                        }
                    }
                },
            }
        } else {
            assert(recent(hv.take(i + 1), cutoff) == p);
        }
        i = i + 1;
    }
    assert(hv.take(hv.len() as int) =~= hv);
    rows
}

/// Puts `item` into `out` after every row played at the same time or later.
fn insert_by_last_desc(out: &mut Vec<HistoryViewItem>, item: HistoryViewItem)
    requires
        forall|i: int, j: int|
            0 <= i < j < old(out)@.len() ==> old(out)@[i].last_played_epoch_secs
                >= old(out)@[j].last_played_epoch_secs,
    ensures
        forall|i: int, j: int|
            0 <= i < j < final(out)@.len() ==> final(out)@[i].last_played_epoch_secs
                >= final(out)@[j].last_played_epoch_secs,
        exists|p: int|
            0 <= p <= old(out)@.len() && final(out)@ == old(out)@.insert(p, item),
{
    let mut p: usize = 0;
    while p < out.len() && out[p].last_played_epoch_secs >= item.last_played_epoch_secs
        invariant
            p <= out@.len(),
            forall|j: int|
                0 <= j < p ==> out@[j].last_played_epoch_secs >= item.last_played_epoch_secs,
        decreases out@.len() - p,
    {
        p = p + 1;
    }
    let ghost before = out@;
    out.insert(p, item);
    assert(out@ == before.insert(p as int, item));
}

/// The rows of the history screen for the entries of the last seven days
/// (counted back from `now`): one per URL, newest first.
pub fn history_view_items(
    history: &Vec<HistoryEntry>,
    favorites: &Vec<FavoriteEntry>,
    now: u64,
) -> (out: Vec<HistoryViewItem>)
    ensures
        history_rows_ok(items_view(out@), history_view(history@), favorites_view(favorites@), now),
{
    let cutoff = retention_cutoff(now);
    let ghost entries = recent(history_view(history@), cutoff);
    let ghost fv = favorites_view(favorites@);
    let mut rows = collect_rows(history, cutoff);
    let mut i: usize = 0;
    while i < rows.len()
        invariant
            i <= rows@.len(),
            fv == favorites_view(favorites@),
            entries == recent(history_view(history@), cutoff),
            forall|k: int|
                0 <= k < rows@.len() ==> row_of(entries, #[trigger] rows@[k].url@) == Some(
                    RowView {
                        name: rows@[k].name@,
                        last: rows@[k].last_played_epoch_secs,
                        total: rows@[k].total_duration_secs,
                    },
                ),
            forall|url: Seq<char>|
                (exists|k: int| 0 <= k < rows@.len() && #[trigger] rows@[k].url@ == url) <==> (
                #[trigger] row_of(entries, url)) is Some,
            forall|a: int, b: int| 0 <= a < b < rows@.len() ==> rows@[a].url@ != rows@[b].url@,
            forall|k: int|
                0 <= k < i ==> rows@[k].is_favorite == is_favorite_spec(fv, #[trigger] rows@[k].url@),
        decreases rows@.len() - i,
    {
        let fav = is_url_favorite(favorites, rows[i].url.as_str());
        let ghost old_rows = rows@;
        let mut r = rows[i].duplicate();
        r.is_favorite = fav;
        rows.set(i, r);
        proof {
            assert forall|url: Seq<char>|
                (exists|k: int| 0 <= k < rows@.len() && #[trigger] rows@[k].url@ == url) <==> (
                #[trigger] row_of(entries, url)) is Some by {
                if exists|k: int| 0 <= k < old_rows.len() && #[trigger] old_rows[k].url@ == url {
                    let k = choose|k: int| 0 <= k < old_rows.len() && #[trigger] old_rows[k].url@
                        == url;
                    assert(rows@[k].url@ == url);
                }
                if exists|k: int| 0 <= k < rows@.len() && #[trigger] rows@[k].url@ == url {
                    let k = choose|k: int| 0 <= k < rows@.len() && #[trigger] rows@[k].url@ == url;
                    assert(old_rows[k].url@ == url);
                }
            }
            assert forall|a: int, b: int| 0 <= a < b < rows@.len() implies rows@[a].url@
                != rows@[b].url@ by {
                assert(rows@[a].url@ == old_rows[a].url@);
                assert(rows@[b].url@ == old_rows[b].url@);
            }
            assert forall|k: int| 0 <= k < i + 1 implies rows@[k].is_favorite == is_favorite_spec(
                fv,
                #[trigger] rows@[k].url@,
            ) by {
                if k < i {
                    assert(rows@[k] == old_rows[k]);
                }
            }
        }
        i = i + 1;
    }
    let mut out: Vec<HistoryViewItem> = Vec::new();
    let mut j: usize = 0;
    while j < rows.len()
        invariant
            j <= rows@.len(),
            fv == favorites_view(favorites@),
            entries == recent(history_view(history@), cutoff),
            forall|k: int|
                0 <= k < rows@.len() ==> row_matches(#[trigger] rows@[k]@, entries, fv),
            forall|url: Seq<char>|
                (exists|k: int| 0 <= k < rows@.len() && #[trigger] rows@[k].url@ == url) <==> (
                #[trigger] row_of(entries, url)) is Some,
            forall|a: int, b: int| 0 <= a < b < rows@.len() ==> rows@[a].url@ != rows@[b].url@,
            out@.len() == j,
            forall|a: int, b: int|
                0 <= a < b < out@.len() ==> out@[a].last_played_epoch_secs
                    >= out@[b].last_played_epoch_secs,
            forall|q: int|
                0 <= q < out@.len() ==> exists|k: int|
                    0 <= k < j && #[trigger] rows@[k]@ == #[trigger] out@[q]@,
            forall|k: int|
                0 <= k < j ==> exists|q: int|
                    0 <= q < out@.len() && #[trigger] rows@[k]@ == #[trigger] out@[q]@,
            forall|a: int, b: int| 0 <= a < b < out@.len() ==> out@[a].url@ != out@[b].url@,
        decreases rows@.len() - j,
    {
        let ghost old_out = out@;
        let item = rows[j].duplicate();
        proof {
            assert forall|q: int| 0 <= q < old_out.len() implies old_out[q].url@ != item.url@ by {
                let k = choose|k: int| 0 <= k < j && #[trigger] rows@[k]@ == #[trigger] old_out[q]@;
                assert(rows@[k].url@ != rows@[j as int].url@);
            }
        }
        insert_by_last_desc(&mut out, item);
        proof {
            let p = choose|p: int| 0 <= p <= old_out.len() && out@ == old_out.insert(p, item);
            assert forall|q: int| 0 <= q < out@.len() implies exists|k: int|
                0 <= k < j + 1 && #[trigger] rows@[k]@ == #[trigger] out@[q]@ by {
                if q < p {
                    assert(out@[q] == old_out[q]);
                    let k = choose|k: int| 0 <= k < j && #[trigger] rows@[k]@ == #[trigger] old_out[q]@;
                    assert(rows@[k]@ == out@[q]@);
                } else if q == p {
                    assert(rows@[j as int]@ == out@[q]@);
                } else {
                    assert(out@[q] == old_out[q - 1]);
                    let k = choose|k: int|
                        0 <= k < j && #[trigger] rows@[k]@ == #[trigger] old_out[q - 1]@;
                    assert(rows@[k]@ == out@[q]@);
                }
            }
            assert forall|k: int| 0 <= k < j + 1 implies exists|q: int|
                0 <= q < out@.len() && #[trigger] rows@[k]@ == #[trigger] out@[q]@ by {
                if k == j {
                    assert(rows@[k]@ == out@[p]@);
                } else {
                    let q = choose|q: int|
                        0 <= q < old_out.len() && #[trigger] rows@[k]@ == #[trigger] old_out[q]@;
                    if q < p {
                        assert(rows@[k]@ == out@[q]@);
                    } else {
                        assert(rows@[k]@ == out@[q + 1]@);
                    }
                }
            }
            assert forall|a: int, b: int| 0 <= a < b < out@.len() implies out@[a].url@
                != out@[b].url@ by {
                if a != p && b != p {
                    let a0 = if a < p {
                        a
                    } else {
                        a - 1
                    };
                    let b0 = if b < p {
                        b
                    } else {
                        b - 1
                    };
                    assert(out@[a] == old_out[a0]);
                    assert(out@[b] == old_out[b0]);
                } else if a == p {
                    assert(out@[b] == old_out[b - 1]);
                } else {
                    assert(out@[a] == old_out[a]);
                }
            }
        }
        j = j + 1;
    }
    proof {
        let ov = items_view(out@);
        assert forall|q: int| 0 <= q < ov.len() implies row_matches(#[trigger] ov[q], entries, fv) by {
            let k = choose|k: int| 0 <= k < rows@.len() && #[trigger] rows@[k]@ == #[trigger] out@[q]@;
            assert(row_matches(rows@[k]@, entries, fv));
        }
        assert forall|url: Seq<char>| has_item_for(ov, url) <==> (#[trigger] row_of(entries, url)) is Some by {
            if has_item_for(ov, url) {
                let q = choose|q: int| 0 <= q < ov.len() && #[trigger] ov[q].url == url;
                let k = choose|k: int| 0 <= k < rows@.len() && #[trigger] rows@[k]@ == #[trigger] out@[q]@;
                assert(rows@[k].url@ == url);
            }
            if row_of(entries, url) is Some {
                let k = choose|k: int| 0 <= k < rows@.len() && #[trigger] rows@[k].url@ == url;
                let q = choose|q: int| 0 <= q < out@.len() && #[trigger] rows@[k]@ == #[trigger] out@[q]@;
                assert(ov[q].url == url);
            }
        }
    }
    out
}

// ---------------------------------------------------------------------------
// Laws
// ---------------------------------------------------------------------------

/// A URL has a history row exactly when it was played in the window.
pub proof fn lemma_row_exists_iff_played(h: Seq<HistView>, url: Seq<char>)
    ensures
        row_of(h, url) is Some <==> exists|i: int| 0 <= i < h.len() && #[trigger] h[i].url == url,
    decreases h.len(),
{
    if h.len() > 0 {
        let d = h.drop_last();
        lemma_row_exists_iff_played(d, url);
        if exists|i: int| 0 <= i < d.len() && #[trigger] d[i].url == url {
            let i = choose|i: int| 0 <= i < d.len() && #[trigger] d[i].url == url;
            assert(h[i].url == url);
        }
        if exists|i: int| 0 <= i < h.len() && #[trigger] h[i].url == url {
            let i = choose|i: int| 0 <= i < h.len() && #[trigger] h[i].url == url;
            if i < d.len() {
                assert(d[i].url == url);
            }
        }
    }
}

/// The kept history never holds more than `HISTORY_LIMIT` entries, and none
/// older than seven days.
pub proof fn lemma_prune_bounds(h: Seq<HistView>, now: u64)
    ensures
        prune_spec(h, now).len() <= HISTORY_LIMIT,
        forall|i: int|
            0 <= i < prune_spec(h, now).len() ==> #[trigger] prune_spec(h, now)[i].played
                >= cutoff_spec(now),
{
    lemma_recent_after_cutoff(h, cutoff_spec(now));
}

proof fn lemma_recent_after_cutoff(h: Seq<HistView>, cutoff: u64)
    ensures
        forall|i: int| 0 <= i < recent(h, cutoff).len() ==> #[trigger] recent(h, cutoff)[i].played
            >= cutoff,
        recent(h, cutoff).len() <= h.len(),
    decreases h.len(),
{
    if h.len() > 0 {
        lemma_recent_after_cutoff(h.drop_last(), cutoff);
    }
}

} // verus!
