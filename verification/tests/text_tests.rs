use cmdradio::labels::{
    connection_progress_text, format_duration, format_epoch_secs, on_off_label, playback_state_label,
    stream_bitrate_label, stream_human_quality_label,
};
use cmdradio::logger::{error, info, warn};
use cmdradio::order::{chars_less, sort_stations_by_name};
use cmdradio::paths::AppPaths;
use cmdradio::station::Station;

#[test]
fn durations_and_dates() {
    assert_eq!(format_duration(0), "00:00:00");
    assert_eq!(format_duration(3_725), "01:02:05");
    assert_eq!(format_duration(360_000), "100:00:00");
    assert_eq!(format_epoch_secs(0), "d0 00:00 UTC");
    assert_eq!(format_epoch_secs(86_400 * 3 + 3_600 * 5 + 60 * 7 + 59), "d3 05:07 UTC");
}

#[test]
fn stream_labels() {
    assert_eq!(stream_bitrate_label(Some(128)), "128 kbps");
    assert_eq!(stream_bitrate_label(None), "Unknown");
    assert_eq!(stream_human_quality_label(None), "Unknown");
    assert_eq!(stream_human_quality_label(Some("audio/MPEG")), "MP3");
    assert_eq!(stream_human_quality_label(Some("audio/aacp")), "AAC");
    assert_eq!(stream_human_quality_label(Some("application/ogg")), "OGG/Vorbis");
    assert_eq!(stream_human_quality_label(Some("audio/flac")), "FLAC");
    assert_eq!(stream_human_quality_label(Some("audio/x-wav")), "WAV");
    assert_eq!(stream_human_quality_label(Some("audio/opus")), "audio/opus");
}

#[test]
fn state_and_progress_labels() {
    assert_eq!(playback_state_label(true, true, true), "Connecting");
    assert_eq!(playback_state_label(false, false, true), "Stopped");
    assert_eq!(playback_state_label(false, true, true), "Paused");
    assert_eq!(playback_state_label(false, true, false), "Playing");
    assert_eq!(on_off_label(true), "ON");
    assert_eq!(on_off_label(false), "OFF");
    assert_eq!(connection_progress_text(3, 0, 0, "X"), "\\ Trying 1/1: X");
    assert_eq!(connection_progress_text(1, 2, 5, "Radio"), "/ Trying 2/5: Radio");
}

#[test]
fn log_lines() {
    assert_eq!(info(12, "App initialized"), "[12] INFO App initialized\n");
    assert_eq!(warn(0, "w"), "[0] WARN w\n");
    assert_eq!(error(99, ""), "[99] ERROR \n");
}

#[test]
fn unix_paths_under_home() {
    let p = AppPaths::detect(Some(String::from("/home/u"))).expect("paths");
    assert_eq!(p.config_dir, "/home/u/.config/cmdradio");
    assert_eq!(p.config_file, "/home/u/.config/cmdradio/config.toml");
    assert_eq!(p.data_dir, "/home/u/.local/share/cmdradio");
    assert_eq!(p.playlists_dir, "/home/u/.local/share/cmdradio/playlists");
    assert_eq!(p.cache_dir, "/home/u/.cache/cmdradio");
    let q = AppPaths::detect(Some(String::from("/home/u/"))).expect("paths");
    assert_eq!(q.cache_dir, "/home/u/.cache/cmdradio");
    assert_eq!(AppPaths::detect(None).err().as_deref(), Some("HOME is not set"));
}

#[test]
fn windows_paths_under_appdata() {
    let p = AppPaths::detect_windows(Some(String::from("C:\\A")), Some(String::from("C:\\L"))).expect("paths");
    assert_eq!(p.config_dir, "C:\\A\\cmdradio");
    assert_eq!(p.config_file, "C:\\A\\cmdradio\\config.toml");
    assert_eq!(p.data_dir, "C:\\L\\cmdradio");
    assert_eq!(p.playlists_dir, "C:\\L\\cmdradio\\playlists");
    assert_eq!(p.cache_dir, "C:\\L\\cmdradio\\cache");
    assert_eq!(AppPaths::detect_windows(None, None).err().as_deref(), Some("APPDATA is not set"));
    assert_eq!(
        AppPaths::detect_windows(Some(String::from("x")), None).err().as_deref(),
        Some("LOCALAPPDATA is not set")
    );
}

#[test]
fn text_order_and_stable_name_sort() {
    assert!(chars_less(&['a'], &['b']));
    assert!(chars_less(&['a'], &['a', 'a']));
    assert!(!chars_less(&['b'], &['a', 'z']));
    assert!(!chars_less(&['a'], &['a']));
    assert!(chars_less(&['Z'], &['a']));
    let sorted = sort_stations_by_name(vec![
        Station { name: "beta".into(), url: "1".into() },
        Station { name: "Alpha".into(), url: "2".into() },
        Station { name: "BETA".into(), url: "3".into() },
        Station { name: "alpha".into(), url: "4".into() },
    ]);
    let urls: Vec<&str> = sorted.iter().map(|s| s.url.as_str()).collect();
    assert_eq!(urls, vec!["2", "4", "1", "3"]);
}

#[test]
fn windows_join_after_a_bare_drive_adds_no_separator() {
    let p = AppPaths::detect_windows(Some(String::from("C:")), Some(String::from("D:\\L\\"))).expect("paths");
    assert_eq!(p.config_dir, "C:cmdradio");
    assert_eq!(p.config_file, "C:cmdradio\\config.toml");
    assert_eq!(p.data_dir, "D:\\L\\cmdradio");
    assert_eq!(p.cache_dir, "D:\\L\\cmdradio\\cache");
}
