use cmdradio::cache::{estimate_cache_entry_size_bytes, PlaylistCacheEntry, PlaylistCacheStore, PLAYLIST_CACHE_MAX_BYTES};
use cmdradio::search::PlaylistPath;
use cmdradio::station::Station;

fn station(name: &str, url: &str) -> Station {
    Station { name: name.to_string(), url: url.to_string() }
}

fn entry(m: u64, s: u64, stations: Vec<Station>) -> PlaylistCacheEntry {
    PlaylistCacheEntry { modified_epoch_secs: m, file_size: s, stations }
}

fn path(text: &str) -> PlaylistPath {
    PlaylistPath { text: text.to_string(), file_name: String::new() }
}

#[test]
fn entry_size_counts_bytes() {
    let e = entry(0, 0, vec![station("ab", "http://x"), station("é", "")]);
    // key 3 + 128, stations (2 + 8 + 32) + (2 + 0 + 32)
    assert_eq!(estimate_cache_entry_size_bytes("key", &e), 3 + 128 + 42 + 34);
    assert_eq!(estimate_cache_entry_size_bytes("", &entry(0, 0, Vec::new())), 128);
}

#[test]
fn lookup_needs_the_same_signature() {
    let mut c = PlaylistCacheStore::new();
    c.insert("/a".into(), entry(5, 9, vec![station("A", "http://a")]));
    assert_eq!(c.lookup("/a", 5, 9), Some(vec![station("A", "http://a")]));
    assert_eq!(c.lookup("/a", 6, 9), None);
    assert_eq!(c.lookup("/a", 5, 8), None);
    assert_eq!(c.lookup("/b", 5, 9), None);
    c.insert("/a".into(), entry(6, 9, Vec::new()));
    assert_eq!(c.lookup("/a", 6, 9), Some(Vec::new()));
    assert_eq!(c.to_entries().len(), 1);
    assert_eq!(c.station_count("/a"), Some(0));
    assert_eq!(c.station_count("/b"), None);
}

#[test]
fn later_entries_win_when_loading() {
    let c = PlaylistCacheStore::from_entries(vec![
        ("/a".into(), entry(1, 1, Vec::new())),
        ("/a".into(), entry(2, 2, vec![station("x", "y")])),
    ]);
    assert_eq!(c.to_entries().len(), 1);
    assert_eq!(c.station_count("/a"), Some(1));
}

#[test]
fn prune_drops_unlisted_playlists() {
    let mut c = PlaylistCacheStore::new();
    c.insert("/a".into(), entry(1, 1, Vec::new()));
    c.insert("/b".into(), entry(1, 1, Vec::new()));
    assert!(c.prune(&vec![path("/b"), path("/c")]));
    assert_eq!(c.station_count("/a"), None);
    assert_eq!(c.station_count("/b"), Some(0));
    assert!(!c.prune(&vec![path("/b")]));
}

#[test]
fn prune_evicts_the_heaviest_entries_over_budget() {
    let big = "x".repeat(33 * 1024 * 1024);
    let mut c = PlaylistCacheStore::new();
    c.insert("/small".into(), entry(1, 1, vec![station("s", "http://s")]));
    c.insert("/big1".into(), entry(1, 1, vec![station(&big, "http://1")]));
    c.insert("/big2".into(), entry(1, 1, vec![station(&big, "http://22")]));
    c.insert("/big3".into(), entry(1, 1, vec![station(&big, "http://3")]));
    let all = vec![path("/small"), path("/big1"), path("/big2"), path("/big3")];
    assert!(c.estimate_playlist_cache_size_bytes() > PLAYLIST_CACHE_MAX_BYTES);
    assert!(c.prune(&all));
    assert!(c.estimate_playlist_cache_size_bytes() <= PLAYLIST_CACHE_MAX_BYTES);
    // the heaviest (`/big2`) goes first, then one more big entry
    assert_eq!(c.station_count("/big2"), None);
    assert_eq!(c.station_count("/small"), Some(1));
    let bigs_left = ["/big1", "/big3"].iter().filter(|k| c.station_count(k).is_some()).count();
    assert_eq!(bigs_left, 1);
}

#[test]
fn saved_cache_reloads_the_same() {
    let mut c = PlaylistCacheStore::new();
    c.insert("/a".into(), entry(1, 2, vec![station("A", "http://a")]));
    c.insert("/b".into(), entry(3, 4, Vec::new()));
    c.insert("/a".into(), entry(5, 6, vec![station("A2", "http://a2")]));
    let saved = c.to_entries();
    assert_eq!(saved.len(), 2);
    let reloaded = PlaylistCacheStore::from_entries(saved);
    assert_eq!(reloaded.lookup("/a", 5, 6), Some(vec![station("A2", "http://a2")]));
    assert_eq!(reloaded.lookup("/a", 1, 2), None);
    assert_eq!(reloaded.lookup("/b", 3, 4), Some(Vec::new()));
    assert_eq!(reloaded.to_entries().len(), 2);
}
