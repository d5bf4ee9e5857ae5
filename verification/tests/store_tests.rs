use cmdradio::favorites::{add_favorite, favorites_for_saving, is_url_favorite, normalize_favorites_by_url, remove_favorite, FavoriteEntry};
use cmdradio::health::{filter_playable, UnplayableStation, UnplayableStationsStore, UNPLAYABLE_THRESHOLD};
use cmdradio::history::{
    finalize_session, history_view_items, prune_history, retention_cutoff, HistoryEntry, PlaybackSession,
    HISTORY_LIMIT, HISTORY_RETENTION_SECS,
};
use cmdradio::search::{filtered_playlist_indices, filtered_station_indices, make_query_key, PlaylistPath};
use cmdradio::station::Station;

fn fav(url: &str, name: &str) -> FavoriteEntry {
    FavoriteEntry { url: url.to_string(), name: name.to_string(), source: String::new() }
}

fn station(name: &str, url: &str) -> Station {
    Station { name: name.to_string(), url: url.to_string() }
}

fn entry(name: &str, url: &str, played: u64, duration: u64) -> HistoryEntry {
    HistoryEntry { name: name.to_string(), url: url.to_string(), played_at_epoch_secs: played, duration_secs: duration }
}

#[test]
fn normalize_keeps_the_last_entry_of_each_url_in_order() {
    let out = normalize_favorites_by_url(vec![fav("a", "1"), fav("b", "2"), fav("a", "3"), fav("c", "4")]);
    assert_eq!(out, vec![fav("b", "2"), fav("a", "3"), fav("c", "4")]);
    let again = normalize_favorites_by_url(out.clone());
    assert_eq!(again, out);
    assert!(normalize_favorites_by_url(Vec::new()).is_empty());
}

#[test]
fn add_then_remove_favorite() {
    let mut favs = vec![fav("a", "A")];
    add_favorite(&mut favs, &station("B", "b"));
    assert_eq!(favs, vec![fav("a", "A"), fav("b", "B")]);
    add_favorite(&mut favs, &station("B again", "b"));
    assert_eq!(favs.len(), 2);
    assert!(is_url_favorite(&favs, "b"));
    remove_favorite(&mut favs, "b");
    assert!(!is_url_favorite(&favs, "b"));
    assert_eq!(favs, vec![fav("a", "A")]);
    remove_favorite(&mut favs, "missing");
    assert_eq!(favs.len(), 1);
}

#[test]
fn retention_cutoff_is_seven_days_back() {
    assert_eq!(HISTORY_RETENTION_SECS, 604_800);
    assert_eq!(retention_cutoff(1_000_000), 1_000_000 - 604_800);
    assert_eq!(retention_cutoff(10), 0);
}

#[test]
fn prune_drops_old_entries_and_caps_the_length() {
    let now = 2_000_000;
    let mut h = vec![entry("n", "u1", now - 10, 1), entry("o", "u2", now - 700_000, 1), entry("m", "u3", now - 604_800, 1)];
    prune_history(&mut h, now);
    assert_eq!(h.len(), 2);
    assert_eq!(h[0].url, "u1");
    assert_eq!(h[1].url, "u3");

    let mut many: Vec<HistoryEntry> = (0..(HISTORY_LIMIT + 5)).map(|i| entry("x", &i.to_string(), now, 1)).collect();
    prune_history(&mut many, now);
    assert_eq!(many.len(), HISTORY_LIMIT);
    assert_eq!(many[0].url, "0");
}

#[test]
fn finalize_session_puts_the_session_first() {
    let mut h = vec![entry("Old", "o", 100, 5)];
    finalize_session(&mut h, PlaybackSession { name: "New".into(), url: "n".into(), started_at_epoch_secs: 200 }, 260);
    assert_eq!(h.len(), 2);
    assert_eq!(h[0].name, "New");
    assert_eq!(h[0].url, "n");
    assert_eq!(h[0].played_at_epoch_secs, 200);
    assert_eq!(h[0].duration_secs, 60);
    assert_eq!(h[1].url, "o");
    // a session shorter than a second counts as one
    finalize_session(&mut h, PlaybackSession { name: "Blip".into(), url: "b".into(), started_at_epoch_secs: 300 }, 300);
    assert_eq!(h[0].duration_secs, 1);
    // a clock that went back also counts as one second
    finalize_session(&mut h, PlaybackSession { name: "Back".into(), url: "k".into(), started_at_epoch_secs: 500 }, 400);
    assert_eq!(h[0].duration_secs, 1);
}

#[test]
fn history_rows_merge_per_url_newest_first() {
    let h = vec![
        entry("Radio A (old name)", "a", 100, 30),
        entry("Radio B", "b", 150, 10),
        entry("Radio A", "a", 200, 20),
        entry("Too old", "z", 0, 99),
    ];
    let favs = vec![fav("b", "B")];
    let rows = history_view_items(&h, &favs, 604_850);
    assert_eq!(rows.len(), 2);
    assert_eq!(rows[0].url, "a");
    assert_eq!(rows[0].name, "Radio A");
    assert_eq!(rows[0].last_played_epoch_secs, 200);
    assert_eq!(rows[0].total_duration_secs, 50);
    assert!(!rows[0].is_favorite);
    assert_eq!(rows[1].url, "b");
    assert!(rows[1].is_favorite);
}

#[test]
fn history_totals_saturate() {
    let h = vec![entry("a", "a", 10, u64::MAX), entry("a", "a", 5, 7)];
    let rows = history_view_items(&h, &Vec::new(), 100);
    assert_eq!(rows[0].total_duration_secs, u64::MAX);
    assert_eq!(rows[0].last_played_epoch_secs, 10);
}

#[test]
fn unplayable_after_three_failures() {
    let mut store = UnplayableStationsStore::new();
    assert_eq!(store.schema_version(), 1);
    assert_eq!(store.threshold(), UNPLAYABLE_THRESHOLD);
    store.record_station_failure("u", 10);
    store.record_station_failure("u", 11);
    assert!(!store.is_url_unplayable("u"));
    store.record_station_failure("u", 12);
    assert!(store.is_url_unplayable("u"));
    assert_eq!(store.fail_count_of("u"), 3);
    assert_eq!(store.fail_count_of("other"), 0);
    let records = store.to_records();
    assert_eq!(records.len(), 1);
    assert_eq!(records[0].last_fail_ts, 12);
}

#[test]
fn manual_block_and_threshold_from_the_file() {
    let store = UnplayableStationsStore::from_records(
        7,
        1,
        vec![
            UnplayableStation { url: "m".into(), fail_count: 0, last_fail_ts: 0, manual_block: true },
            UnplayableStation { url: "f".into(), fail_count: 1, last_fail_ts: 0, manual_block: false },
        ],
    );
    assert!(store.is_url_unplayable("m"));
    assert!(store.is_url_unplayable("f"));
    let saved = store.for_saving();
    assert_eq!(saved.schema_version(), 1);
    assert_eq!(saved.threshold(), 3);
    assert!(!saved.is_url_unplayable("f"));
    assert!(saved.is_url_unplayable("m"));
    let kept = filter_playable(&vec![station("M", "m"), station("F", "f"), station("G", "g")], &saved);
    assert_eq!(kept, vec![station("F", "f"), station("G", "g")]);
}

#[test]
fn query_key_trims_and_lowercases() {
    assert_eq!(make_query_key("  RoCk \t"), vec!['r', 'o', 'c', 'k']);
    assert!(make_query_key("   ").is_empty());
}

#[test]
fn station_and_playlist_filters() {
    let stations = vec![station("Rock FM", "http://r"), station("Jazz", "http://rockjazz"), station("News", "http://n")];
    assert_eq!(filtered_station_indices(&stations, " ROCK ", false, &Vec::new()), vec![0, 1]);
    assert_eq!(filtered_station_indices(&stations, "", false, &Vec::new()), vec![0, 1, 2]);
    assert_eq!(filtered_station_indices(&stations, "", true, &vec![fav("http://n", "")]), vec![2]);
    assert_eq!(filtered_station_indices(&stations, "rock", true, &vec![fav("http://n", "")]), Vec::<usize>::new());
    let playlists = vec![
        PlaylistPath { text: "/music/Rock/a.m3u".into(), file_name: "a.m3u".into() },
        PlaylistPath { text: "/music/b.PLS".into(), file_name: "b.PLS".into() },
    ];
    assert_eq!(filtered_playlist_indices(&playlists, "rock"), vec![0]);
    assert_eq!(filtered_playlist_indices(&playlists, ".pls"), vec![1]);
    assert_eq!(filtered_playlist_indices(&playlists, ""), vec![0, 1]);
}

#[test]
fn saved_favorites_reload_unchanged() {
    let fav = |url: &str, name: &str| FavoriteEntry { url: url.into(), name: name.into(), source: "p.m3u".into() };
    let saved = favorites_for_saving(vec![
        fav("http://z", "Z"),
        fav("http://a", "A1"),
        fav("http://m", "M"),
        fav("http://a", "A2"),
    ]);
    let urls: Vec<&str> = saved.iter().map(|f| f.url.as_str()).collect();
    assert_eq!(urls, vec!["http://a", "http://m", "http://z"]);
    assert_eq!(saved[0].name, "A2");
    assert_eq!(normalize_favorites_by_url(saved.clone()), saved);
}
