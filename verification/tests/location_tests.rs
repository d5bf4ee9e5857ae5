use cmdradio::cache::PlaylistCacheStore;
use cmdradio::control::App;
use cmdradio::health::UnplayableStationsStore;
use cmdradio::location::{file_name, file_name_of, playlist_location};
use cmdradio::search::PlaylistPath;

#[test]
fn location_of_playlist_directly_in_root() {
    assert_eq!(playlist_location("/r", "/r/a.m3u", false), "playlists/");
}

#[test]
fn location_of_playlist_in_subdirectory() {
    assert_eq!(playlist_location("/r", "/r/sub/x.m3u", false), "playlists/sub");
    assert_eq!(playlist_location("/r/", "/r//sub/./deep/x.m3u", false), "playlists/sub/./deep");
}

#[test]
fn location_of_playlist_outside_root() {
    assert_eq!(playlist_location("/r", "/o/x.m3u", false), "/o");
    assert_eq!(playlist_location("/r", "/rock/x.m3u", false), "/rock");
}

#[test]
fn location_without_parent_falls_back_to_root() {
    assert_eq!(playlist_location("/r", "/", false), "playlists/");
    assert_eq!(playlist_location("/r", "", false), "playlists/");
    assert_eq!(playlist_location("/r", "x.m3u", false), "");
}

#[test]
fn file_names() {
    assert_eq!(file_name("/a/b.m3u", false), "b.m3u");
    assert_eq!(file_name("/a/b.m3u/", false), "b.m3u");
    assert_eq!(file_name("/a/b.m3u/.", false), "b.m3u");
    assert_eq!(file_name("/", false), "<unknown>");
    assert_eq!(file_name("/a/..", false), "<unknown>");
    assert_eq!(file_name_of("a", false), Some("a".to_string()));
    assert_eq!(file_name_of("", false), None);
}

#[test]
fn playlist_path_takes_its_file_name() {
    let p = PlaylistPath::new("/music/Rock/a.m3u".to_string(), false);
    assert_eq!(p.file_name, "a.m3u");
    assert_eq!(p.text, "/music/Rock/a.m3u");
    assert_eq!(PlaylistPath::new("/".to_string(), false).file_name, "");
}

#[test]
fn current_playlist_label_shows_name_and_location() {
    let mut app = App::new(Vec::new(), Vec::new(), UnplayableStationsStore::new(), PlaylistCacheStore::new());
    assert_eq!(app.current_playlist_with_location_label("/r", false), "<none>");
    app.current_playlist = Some(PlaylistPath::new("/r/jazz/smooth.m3u".to_string(), false));
    assert_eq!(app.current_playlist_with_location_label("/r", false), "smooth.m3u - playlists/jazz");
    app.current_playlist = Some(PlaylistPath::new("/other/x.m3u".to_string(), false));
    assert_eq!(app.current_playlist_with_location_label("/r", false), "x.m3u - /other");
}

#[test]
fn windows_paths_are_read_with_their_drive() {
    assert_eq!(playlist_location("C:\\r", "C:\\r\\a.m3u", true), "playlists/");
    assert_eq!(playlist_location("C:\\r", "c:\\r\\rock/b.m3u", true), "playlists/rock");
    assert_eq!(playlist_location("C:\\r", "D:\\r\\a.m3u", true), "D:\\r");
    assert_eq!(playlist_location("C:\\r", "C:\\r\\a.m3u", false), "");
    assert_eq!(file_name("C:\\r\\a.m3u", true), "a.m3u");
    assert_eq!(file_name("C:", true), "<unknown>");
    assert_eq!(file_name("C:a.m3u", true), "a.m3u");
    assert_eq!(file_name("C:\\r\\a.m3u", false), "C:\\r\\a.m3u");
    assert_eq!(PlaylistPath::new("C:\\music\\x.pls".to_string(), true).file_name, "x.pls");
    let mut app = App::new(Vec::new(), Vec::new(), UnplayableStationsStore::new(), PlaylistCacheStore::new());
    app.current_playlist = Some(PlaylistPath::new("C:\\r\\a.m3u".to_string(), true));
    assert_eq!(app.current_playlist_with_location_label("C:\\r", true), "a.m3u - playlists/");
}
