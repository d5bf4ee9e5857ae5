use cmdradio::cache::PlaylistCacheStore;
use cmdradio::control::{
    candidate_after, next_candidate_index, App, Command, ConnectEvent, ConnectPlan, ConnectWorker,
    EventReaction, FailoverReason, HealthAction, Key, PlayerObservation, Screen, WorkerStep,
};
use cmdradio::favorites::FavoriteEntry;
use cmdradio::health::UnplayableStationsStore;
use cmdradio::history::HistoryEntry;
use cmdradio::search::PlaylistPath;
use cmdradio::station::Station;

fn station(name: &str, url: &str) -> Station {
    Station { name: name.to_string(), url: url.to_string() }
}

fn path(text: &str, file: &str) -> PlaylistPath {
    PlaylistPath { text: text.to_string(), file_name: file.to_string() }
}

fn fresh_app() -> App {
    App::new(Vec::new(), Vec::new(), UnplayableStationsStore::new(), PlaylistCacheStore::new())
}

fn app_with_stations(names: &[(&str, &str)]) -> App {
    let mut app = fresh_app();
    app.playlists_refreshed_by_key(vec![path("/p/a.m3u", "a.m3u")]);
    let stations: Vec<Station> = names.iter().map(|(n, u)| station(n, u)).collect();
    app.playlist_loaded(0, Ok(stations));
    app
}

fn quiet_player() -> PlayerObservation {
    PlayerObservation {
        is_paused: false,
        has_active_stream: true,
        output_changed: false,
        stream_ended: false,
        last_progress: None,
    }
}

#[test]
fn new_app_starts_on_main_menu() {
    let app = fresh_app();
    assert_eq!(app.screen, Screen::MainMenu);
    assert_eq!(app.status, "Ready");
    assert_eq!(app.app_title(), "cmdRadio v0.4.5");
    assert_eq!(app.next_connect_request_id, 1);
    assert!(!app.is_polling());
    assert_eq!(app.connection_progress_label(), None);
}

#[test]
fn question_mark_opens_help_and_escape_returns() {
    let mut app = fresh_app();
    app.help_scroll = 7;
    let r = app.on_key(Key::Char('?'), 0);
    assert_eq!(r.command, Command::Nothing);
    assert_eq!(app.screen, Screen::Help);
    assert_eq!(app.help_scroll(), 0);
    app.on_key(Key::Esc, 0);
    assert_eq!(app.screen, Screen::MainMenu);
}

#[test]
fn help_scroll_saturates_at_both_ends() {
    let mut app = fresh_app();
    app.on_key(Key::Char('?'), 0);
    app.on_key(Key::Up, 0);
    assert_eq!(app.help_scroll(), 0);
    app.on_key(Key::PageDown, 0);
    assert_eq!(app.help_scroll(), 8);
    app.on_key(Key::Char('k'), 0);
    assert_eq!(app.help_scroll(), 7);
    app.on_key(Key::End, 0);
    app.on_key(Key::Down, 0);
    assert_eq!(app.help_scroll(), u16::MAX);
    app.on_key(Key::Home, 0);
    assert_eq!(app.help_scroll(), 0);
    // `?` on the help screen closes it
    app.on_key(Key::Char('?'), 0);
    assert_eq!(app.screen, Screen::MainMenu);
}

#[test]
fn main_menu_cursor_stays_within_the_menu() {
    let mut app = fresh_app();
    for _ in 0..10 {
        app.on_key(Key::Down, 0);
    }
    assert_eq!(app.main_menu_index, 5);
    for _ in 0..10 {
        app.on_key(Key::Char('K'), 0);
    }
    assert_eq!(app.main_menu_index, 0);
}

#[test]
fn main_menu_entries_lead_to_their_screens_and_commands() {
    let mut app = fresh_app();
    assert_eq!(app.on_key(Key::Enter, 0).command, Command::Nothing);
    assert_eq!(app.screen, Screen::PlaylistBrowser);

    let mut app = fresh_app();
    app.main_menu_index = 1;
    assert_eq!(app.on_key(Key::Enter, 0).command, Command::StartFullRandom);
    app.main_menu_index = 2;
    app.on_key(Key::Enter, 0);
    assert_eq!(app.status, "No favorites saved yet");
    app.main_menu_index = 3;
    app.history_index = 9;
    app.on_key(Key::Enter, 0);
    assert_eq!(app.screen, Screen::History);
    assert_eq!(app.history_index(), 0);

    let mut app = fresh_app();
    app.main_menu_index = 4;
    app.on_key(Key::Enter, 0);
    assert_eq!(app.screen, Screen::Config);
    assert_eq!(app.on_key(Key::Char('b'), 0).command, Command::Bootstrap);
    app.bootstrap_done(Err(String::from("bootstrap source not found: x")));
    assert_eq!(app.status, "Bootstrap failed: bootstrap source not found: x");
    app.bootstrap_done(Ok(String::from("/p/example.m3u")));
    assert_eq!(app.status, "Bootstrap copied: /p/example.m3u");
    app.on_key(Key::Char('q'), 0);
    assert_eq!(app.screen, Screen::MainMenu);

    let mut app = fresh_app();
    app.main_menu_index = 5;
    let r = app.on_key(Key::Enter, 0);
    assert_eq!(r.command, Command::Quit);
    assert!(r.stop_player);
    assert!(!r.save_history);
}

#[test]
fn q_on_main_menu_quits() {
    let mut app = fresh_app();
    let r = app.on_key(Key::Char('Q'), 0);
    assert_eq!(r.command, Command::Quit);
}

#[test]
fn playlist_refresh_reports_count_and_clamps_cursor() {
    let mut app = fresh_app();
    app.playlist_index = 5;
    app.playlists_refreshed_by_key(vec![path("/p/a.m3u", "a.m3u"), path("/p/b.pls", "b.pls")]);
    assert_eq!(app.status, "Playlists refreshed: 2 files");
    assert_eq!(app.playlist_index, 1);
    assert_eq!(app.filtered_playlist_indices(), vec![0, 1]);
}

#[test]
fn playlist_browser_navigation_search_and_open() {
    let mut app = fresh_app();
    app.on_key(Key::Enter, 0);
    app.playlists_refreshed_by_key(vec![
        path("/p/rock.m3u", "rock.m3u"),
        path("/p/jazz.m3u", "jazz.m3u"),
        path("/p/more/Rockabilly.pls", "Rockabilly.pls"),
    ]);
    app.on_key(Key::Down, 0);
    app.on_key(Key::Down, 0);
    app.on_key(Key::Down, 0);
    assert_eq!(app.playlist_index, 2);
    app.on_key(Key::PageUp, 0);
    assert_eq!(app.playlist_index, 0);
    app.on_key(Key::PageDown, 0);
    assert_eq!(app.playlist_index, 2);

    assert_eq!(app.on_key(Key::Char('u'), 0).command, Command::RefreshPlaylists);
    app.on_key(Key::Char('r'), 0);
    assert!(app.shuffle);
    assert_eq!(app.status, "Shuffle ON");
    assert_eq!(app.shuffle_label(), "ON");

    app.on_key(Key::Char('/'), 0);
    assert!(app.is_playlist_search_mode());
    assert_eq!(app.status, "Playlist search mode active. Esc to exit");
    for c in "ROC".chars() {
        app.on_key(Key::Char(c), 0);
    }
    // `K` moves the cursor instead of being typed
    app.on_key(Key::Char('K'), 0);
    assert_eq!(app.playlist_search_query(), "ROC");
    assert_eq!(app.filtered_playlist_indices(), vec![0, 2]);
    app.on_key(Key::Down, 0);
    assert_eq!(app.on_key(Key::Enter, 0).command, Command::OpenPlaylist(2));

    app.on_key(Key::Char('x'), 0);
    assert!(app.filtered_playlist_indices().is_empty());
    app.on_key(Key::Enter, 0);
    assert_eq!(app.status, "No playlist matches your search");
    app.on_key(Key::Backspace, 0);
    assert_eq!(app.playlist_search_query(), "ROC");
    app.on_key(Key::Esc, 0);
    assert!(!app.is_playlist_search_mode());
    assert_eq!(app.playlist_search_query(), "");
    assert_eq!(app.status, "Playlist search mode closed");
    assert_eq!(app.on_key(Key::Enter, 0).command, Command::OpenPlaylist(0));
    app.on_key(Key::Esc, 0);
    assert_eq!(app.screen, Screen::MainMenu);
}

#[test]
fn playlist_loaded_opens_station_browser_or_reports() {
    let mut app = fresh_app();
    app.playlists_refreshed_by_key(vec![path("/p/a.m3u", "a.m3u")]);
    app.playlist_loaded(0, Ok(Vec::new()));
    assert_eq!(app.status, "Playlist without stations");
    app.playlist_loaded(0, Err(String::from("failed to read /p/a.m3u: gone")));
    assert_eq!(app.status, "Cannot parse playlist: failed to read /p/a.m3u: gone");
    app.playlist_loaded(0, Ok(vec![station("One", "http://one")]));
    assert_eq!(app.screen, Screen::StationBrowser);
    assert_eq!(app.status, "Loaded /p/a.m3u");
    assert_eq!(app.current_playlist, Some(path("/p/a.m3u", "a.m3u")));
}

#[test]
fn station_enter_starts_a_connection_request() {
    let mut app = app_with_stations(&[("One", "http://one"), ("Two", "http://two")]);
    app.on_key(Key::Down, 0);
    let r = app.on_key(Key::Enter, 100);
    assert_eq!(app.screen, Screen::Player);
    assert_eq!(app.status, "Connecting 1/2: Two");
    assert!(r.stop_player);
    let plan = r.connect.expect("a connection plan");
    assert_eq!(plan.request_id, 1);
    assert_eq!(plan.candidate, 1);
    assert_eq!(plan.stations.len(), 2);
    assert_eq!(app.active_connect_request_id, Some(1));
    assert_eq!(app.next_connect_request_id, 2);
    assert!(app.is_polling());
    assert_eq!(app.selected_station_name(), Some("Two"));
    assert_eq!(app.selected_station_url(), Some("http://two"));
    assert_eq!(app.connection_progress_label().as_deref(), Some("| Trying 1/2: Two"));
    assert_eq!(app.playback_state_label(false, false), "Connecting");
}

#[test]
fn station_search_mode_filters_and_reports() {
    let mut app = app_with_stations(&[("Alpha", "http://a"), ("Beta", "http://b"), ("Gamma", "http://g")]);
    app.on_key(Key::Char('/'), 0);
    assert!(app.is_station_search_mode());
    assert_eq!(app.status, "Search mode active. Esc to exit");
    app.on_key(Key::Char('m'), 0);
    app.on_key(Key::Char('m'), 0);
    assert_eq!(app.station_search_query(), "mm");
    assert_eq!(app.filtered_station_indices(), vec![2]);
    app.on_key(Key::Char('z'), 0);
    app.on_key(Key::Enter, 0);
    assert_eq!(app.status, "No station matches your search");
    app.on_key(Key::Backspace, 0);
    let r = app.on_key(Key::Enter, 0);
    assert_eq!(r.connect.expect("plan").candidate, 2);
    assert_eq!(app.status, "Connecting 1/3: Gamma");
}

#[test]
fn station_browser_escape_returns_to_playlists() {
    let mut app = app_with_stations(&[("Alpha", "http://a")]);
    app.on_key(Key::Char('q'), 0);
    assert_eq!(app.screen, Screen::PlaylistBrowser);
    assert_eq!(app.station_search_query(), "");
}

#[test]
fn favorite_toggle_and_filter() {
    let mut app = app_with_stations(&[("Alpha", "http://a"), ("Beta", "http://b")]);
    app.on_key(Key::Down, 0);
    let r = app.on_key(Key::Char('*'), 0);
    assert_eq!(r.command, Command::SaveFavorites { added: true, station_index: 1 });
    app.favorite_saved(true, 1, Ok(()));
    assert_eq!(app.status, "Favorite added: Beta");
    assert_eq!(app.favorites_count(), 1);
    assert!(app.is_station_favorite(1));
    assert!(!app.is_station_favorite(0));
    assert!(!app.is_station_favorite(7));

    app.on_key(Key::Char('f'), 0);
    assert!(app.station_favorites_only());
    assert_eq!(app.status, "Favorites filter ON");
    assert_eq!(app.filtered_station_indices(), vec![1]);
    let r = app.on_key(Key::Char('*'), 0);
    assert_eq!(r.command, Command::SaveFavorites { added: false, station_index: 1 });
    app.favorite_saved(false, 1, Err(String::from("disk full")));
    assert_eq!(app.status, "Favorite removed but save failed: disk full");
    assert_eq!(app.favorites_count(), 0);
}

#[test]
fn connection_events_follow_the_active_request() {
    let mut app = app_with_stations(&[("One", "http://one"), ("Two", "http://two")]);
    app.on_key(Key::Enter, 10);
    let stale = ConnectEvent::Attempt {
        request_id: 99,
        attempt: 2,
        total: 2,
        station_index: 1,
        station_name: String::from("Two"),
    };
    assert!(matches!(app.handle_connect_event(stale, 10), EventReaction::Ignored));
    let attempt = ConnectEvent::Attempt {
        request_id: 1,
        attempt: 2,
        total: 2,
        station_index: 1,
        station_name: String::from("Two"),
    };
    assert!(matches!(app.handle_connect_event(attempt, 10), EventReaction::Progress));
    assert_eq!(app.status, "Connecting 2/2: Two");
    assert_eq!(app.selected_station_index, Some(1));

    let ok = ConnectEvent::Success {
        request_id: 1,
        station_index: 1,
        recovered_from: Some(String::from("http request failed: timeout")),
        failed_urls: vec![String::from("http://one")],
    };
    match app.handle_connect_event(ok, 11) {
        EventReaction::Play { station_index, station, recovered_from, save_unplayable } => {
            assert_eq!(station_index, 1);
            assert_eq!(station.url, "http://two");
            assert!(save_unplayable);
            assert!(!app.playback_started(station_index, station, recovered_from, Ok(()), 12));
        }
        _ => panic!("expected a station to play"),
    }
    assert_eq!(app.status, "Recovered: playing Two after failover (http request failed: timeout)");
    assert_eq!(app.unplayable_stations.fail_count_of("http://one"), 1);
    assert!(!app.is_polling());
    assert!(!app.is_connecting);
    let session = app.playback_session.clone().expect("a session");
    assert_eq!(session.started_at_epoch_secs, 12);
    assert_eq!(app.playback_state_label(true, false), "Playing");
    assert_eq!(app.playback_state_label(true, true), "Paused");
    assert_eq!(app.playback_state_label(false, false), "Stopped");
}

#[test]
fn failure_event_records_the_station_as_failing() {
    let mut app = app_with_stations(&[("One", "http://one")]);
    for round in 0..3u64 {
        app.start_station(0, round);
        let id = app.active_connect_request_id.expect("active request");
        let ev = ConnectEvent::Failure {
            request_id: id,
            error: String::from("Playback error after retries (timeout 8s): boom"),
            failed_urls: vec![String::from("http://one"), String::new()],
        };
        match app.handle_connect_event(ev, 50 + round) {
            EventReaction::Finished { save_unplayable } => assert!(save_unplayable),
            _ => panic!("expected the request to end"),
        }
        assert_eq!(app.status, "Playback error after retries (timeout 8s): boom");
    }
    assert_eq!(app.unplayable_stations.fail_count_of("http://one"), 3);
    assert!(app.unplayable_stations.is_url_unplayable("http://one"));
    assert_eq!(app.cached_stations("/p/a.m3u", 1, 1), None);
}

#[test]
fn resolved_station_out_of_range_ends_the_request() {
    let mut app = app_with_stations(&[("One", "http://one")]);
    app.on_key(Key::Enter, 0);
    let ev = ConnectEvent::Success { request_id: 1, station_index: 4, recovered_from: None, failed_urls: Vec::new() };
    assert!(matches!(app.handle_connect_event(ev, 0), EventReaction::Finished { save_unplayable: false }));
    assert_eq!(app.status, "Resolved station is no longer available");
    app.on_key(Key::Esc, 0);
    app.on_key(Key::Enter, 0);
    app.worker_disconnected();
    assert_eq!(app.status, "Connection worker disconnected");
    assert!(!app.is_polling());
}

#[test]
fn stopping_playback_records_the_session_in_history() {
    let mut app = app_with_stations(&[("One", "http://one")]);
    app.on_key(Key::Enter, 1_000);
    let ev = ConnectEvent::Success { request_id: 1, station_index: 0, recovered_from: None, failed_urls: Vec::new() };
    if let EventReaction::Play { station_index, station, recovered_from, .. } = app.handle_connect_event(ev, 1_000) {
        app.playback_started(station_index, station, recovered_from, Ok(()), 1_000);
    }
    assert_eq!(app.status, "Playing One");
    let r = app.on_key(Key::Esc, 1_300);
    assert!(r.save_history);
    assert!(r.stop_player);
    assert_eq!(app.status, "Playback stopped");
    assert_eq!(app.screen, Screen::StationBrowser);
    assert_eq!(app.history.len(), 1);
    assert_eq!(app.history[0].duration_secs, 300);
    assert_eq!(app.history[0].played_at_epoch_secs, 1_000);
    let rows = app.history_view_items(1_400);
    assert_eq!(rows.len(), 1);
    assert_eq!(rows[0].url, "http://one");
}

#[test]
fn player_keys_produce_commands() {
    let mut app = app_with_stations(&[("One", "http://one"), ("Two", "http://two"), ("Three", "http://three")]);
    app.on_key(Key::Enter, 0);
    assert_eq!(app.on_key(Key::Char(' '), 0).command, Command::TogglePause);
    app.pause_toggled(Ok(true));
    assert_eq!(app.status, "Paused");
    app.pause_toggled(Err(String::from("nothing is playing")));
    assert_eq!(app.status, "nothing is playing");
    assert_eq!(app.on_key(Key::Char('+'), 0).command, Command::VolumeUp);
    assert_eq!(app.on_key(Key::Char('_'), 0).command, Command::VolumeDown);
    assert_eq!(app.on_key(Key::Char('M'), 0).command, Command::ToggleMute);
    app.volume_changed(55);
    assert_eq!(app.status, "Volume: 55%");
    app.unmuted(40);
    assert_eq!(app.status, "Unmuted: 40%");
    app.muted();
    assert_eq!(app.status, "Muted");
    app.on_key(Key::Char('F'), 0);
    assert_eq!(app.status, "Favorites filter ON");
    // next station without shuffle: the following one, wrapping around
    let r = app.on_key(Key::Right, 0);
    assert_eq!(r.connect.expect("plan").candidate, 1);
    let r = app.on_key(Key::Char('n'), 0);
    assert_eq!(r.connect.expect("plan").candidate, 2);
    let r = app.on_key(Key::Char('N'), 0);
    assert_eq!(r.connect.expect("plan").candidate, 0);
    assert_eq!(app.next_connect_request_id, 5);
}

#[test]
fn next_station_with_shuffle_never_repeats_the_current_one() {
    let mut app = app_with_stations(&[("One", "http://one"), ("Two", "http://two"), ("Three", "http://three")]);
    app.shuffle = true;
    app.on_key(Key::Enter, 0);
    for _ in 0..50 {
        let current = app.selected_station_index.expect("selected");
        let r = app.on_key(Key::Char('n'), 0);
        let next = r.connect.expect("plan").candidate;
        assert!(next < 3);
        assert_ne!(next, current);
    }
}

#[test]
fn full_random_mode_asks_for_a_new_pick() {
    let mut app = app_with_stations(&[("One", "http://one")]);
    app.full_random_mode = true;
    app.on_key(Key::Enter, 0);
    app.full_random_mode = true;
    assert_eq!(app.on_key(Key::Char('n'), 0).command, Command::StartFullRandom);
}

#[test]
fn candidate_after_values() {
    assert_eq!(candidate_after(2, 3, false, 0), 0);
    assert_eq!(candidate_after(0, 3, false, 0), 1);
    assert_eq!(candidate_after(7, 3, false, 0), 2);
    assert_eq!(candidate_after(1, 3, true, 1), 2);
    assert_eq!(candidate_after(2, 3, true, 2), 0);
    assert_eq!(candidate_after(1, 3, true, 0), 0);
    assert_eq!(candidate_after(0, 1, true, 0), 0);
    assert_eq!(candidate_after(5, 0, true, 9), 0);
}

#[test]
fn next_candidate_index_stays_in_range_and_moves() {
    for _ in 0..100 {
        let r = next_candidate_index(1, 4, true);
        assert!(r < 4);
        assert_ne!(r, 1);
    }
    assert_eq!(next_candidate_index(3, 4, false), 0);
    assert_eq!(next_candidate_index(0, 0, true), 0);
}

#[test]
fn worker_tries_each_station_once_then_fails() {
    let plan = ConnectPlan {
        request_id: 7,
        candidate: 1,
        stations: vec![station("A", "http://a"), station("B", "http://b"), station("C", "http://c")],
        shuffle: false,
    };
    let mut w = ConnectWorker::new(plan);
    let mut tried = Vec::new();
    loop {
        match w.next_step() {
            WorkerStep::Probe { event, url } => {
                if let ConnectEvent::Attempt { attempt, total, .. } = event {
                    assert_eq!(attempt, tried.len() + 1);
                    assert_eq!(total, 3);
                }
                tried.push(url);
                if let Some(ev) = w.probe_finished(Err(String::from("boom")), 8) {
                    match ev {
                        ConnectEvent::Failure { request_id, error, failed_urls } => {
                            assert_eq!(request_id, 7);
                            assert_eq!(error, "Playback error after retries (timeout 8s): boom");
                            assert_eq!(failed_urls, vec!["http://b", "http://c", "http://a"]);
                        }
                        _ => panic!("expected a failure"),
                    }
                    break;
                }
            }
            WorkerStep::Done { .. } => panic!("every candidate is valid"),
            WorkerStep::Cancelled => panic!("the worker was not cancelled"),
        }
    }
    assert_eq!(tried, vec!["http://b", "http://c", "http://a"]);
}

#[test]
fn worker_success_reports_the_previous_error() {
    let plan = ConnectPlan {
        request_id: 3,
        candidate: 0,
        stations: vec![station("A", "http://a"), station("B", "http://b")],
        shuffle: false,
    };
    let mut w = ConnectWorker::new(plan);
    assert!(w.probe_finished(Err(String::from("first failed")), 0).is_none());
    match w.probe_finished(Ok(()), 0) {
        Some(ConnectEvent::Success { request_id, station_index, recovered_from, failed_urls }) => {
            assert_eq!(request_id, 3);
            assert_eq!(station_index, 1);
            assert_eq!(recovered_from.as_deref(), Some("first failed"));
            assert_eq!(failed_urls, vec!["http://a"]);
        }
        _ => panic!("expected a success"),
    }
    let empty = ConnectPlan { request_id: 4, candidate: 0, stations: Vec::new(), shuffle: true };
    match ConnectWorker::new(empty).next_step() {
        WorkerStep::Done { event: ConnectEvent::Failure { error, failed_urls, .. } } => {
            assert_eq!(error, "Invalid station index");
            assert!(failed_urls.is_empty());
        }
        _ => panic!("expected a failure"),
    }
}

#[test]
fn worker_timeout_of_zero_is_shown_as_one_second() {
    let plan = ConnectPlan { request_id: 1, candidate: 0, stations: vec![station("A", "http://a")], shuffle: false };
    let mut w = ConnectWorker::new(plan);
    match w.probe_finished(Err(String::from("x")), 0) {
        Some(ConnectEvent::Failure { error, .. }) => {
            assert_eq!(error, "Playback error after retries (timeout 1s): x")
        }
        _ => panic!("expected a failure"),
    }
}

#[test]
fn health_check_decisions() {
    let mut app = app_with_stations(&[("One", "http://one"), ("Two", "http://two")]);
    // nothing selected yet
    assert_eq!(app.health_check(quiet_player(), 0), HealthAction::Nothing);
    app.selected_station_index = Some(0);
    let stalled = PlayerObservation { last_progress: Some(100), ..quiet_player() };
    assert_eq!(app.health_check(stalled, 110), HealthAction::Failover(FailoverReason::AudioStalled));
    assert_eq!(app.health_check(stalled, 109), HealthAction::Nothing);
    assert_eq!(app.health_check(stalled, 50), HealthAction::Nothing);
    let ended = PlayerObservation { stream_ended: true, ..stalled };
    assert_eq!(app.health_check(ended, 0), HealthAction::Failover(FailoverReason::StreamEnded));
    let changed = PlayerObservation { output_changed: true, ..ended };
    assert_eq!(app.health_check(changed, 0), HealthAction::RecoverOutput);
    let paused = PlayerObservation { is_paused: true, ..changed };
    assert_eq!(app.health_check(paused, 0), HealthAction::Nothing);
    app.is_connecting = true;
    assert_eq!(app.health_check(changed, 0), HealthAction::Nothing);
}

#[test]
fn output_recovery_respects_the_cooldown() {
    let mut app = app_with_stations(&[("One", "http://one")]);
    assert!(app.begin_output_recovery(100).is_none());
    app.selected_station_index = Some(0);
    let (i, st) = app.begin_output_recovery(100).expect("station to reconnect");
    assert_eq!(i, 0);
    assert_eq!(st.name, "One");
    assert_eq!(app.status, "Audio output changed. Reconnecting current station...");
    assert!(app.begin_output_recovery(107).is_none());
    assert!(app.begin_output_recovery(108).is_some());
    app.output_recovery_done(0, &st, Ok(()));
    assert_eq!(app.status, "Audio output reconnected: One");
    app.output_recovery_done(0, &st, Err(String::from("no device")));
    assert_eq!(app.status, "Audio output reconnect failed (no device). Waiting before retry...");
}

#[test]
fn failover_with_a_single_station_stops() {
    let mut app = app_with_stations(&[("One", "http://one")]);
    app.selected_station_index = Some(0);
    let r = app.auto_failover(FailoverReason::StreamEnded, 0);
    assert!(r.stop_player);
    assert!(r.connect.is_none());
    assert_eq!(app.status, "Stream ended on One. No alternative station available");
}

#[test]
fn failover_moves_to_the_next_station_or_full_random() {
    let mut app = app_with_stations(&[("One", "http://one"), ("Two", "http://two")]);
    app.selected_station_index = Some(0);
    let r = app.auto_failover_with(FailoverReason::AudioStalled, 0, 0);
    assert_eq!(r.connect.expect("plan").candidate, 1);
    assert_eq!(app.status, "Connecting 1/2: Two");
    app.full_random_mode = true;
    app.selected_station_index = None;
    let r = app.auto_failover(FailoverReason::AudioStalled, 0);
    assert_eq!(r.command, Command::StartFullRandom);
    assert_eq!(app.status, "Audio stalled on <unknown>. Auto-reconnect: full random next pick");
}

#[test]
fn full_random_order_is_a_permutation() {
    let mut app = fresh_app();
    assert!(app.full_random_order().is_none());
    assert_eq!(app.status, "No playlists available for full random");
    app.refresh_playlists(vec![path("/p/a.m3u", "a.m3u"), path("/p/b.m3u", "b.m3u"), path("/p/c.m3u", "c.m3u")]);
    let mut order = app.full_random_order().expect("an order");
    order.sort();
    assert_eq!(order, vec![0, 1, 2]);
    let r = app.full_random_start(1, vec![station("X", "http://x"), station("Y", "http://y")], 1, 5);
    assert!(app.full_random_mode);
    assert_eq!(app.current_playlist, Some(path("/p/b.m3u", "b.m3u")));
    assert_eq!(r.connect.expect("plan").candidate, 1);
    assert_eq!(app.full_random_label(), "ON");
    let r = app.full_random_pick(0, vec![station("Z", "http://z")], 6);
    assert_eq!(r.connect.expect("plan").candidate, 0);
    app.full_random_exhausted();
    assert_eq!(app.status, "No valid stations found across playlists for full random");
}

#[test]
fn favorites_browser_lists_the_saved_favorites_by_name() {
    let favs = vec![
        FavoriteEntry { url: String::from("http://b"), name: String::from("zeta"), source: String::new() },
        FavoriteEntry { url: String::from("http://a"), name: String::from("Alpha"), source: String::new() },
        FavoriteEntry { url: String::from("http://b"), name: String::from("dup"), source: String::new() },
    ];
    let mut app = App::new(favs, Vec::new(), UnplayableStationsStore::new(), PlaylistCacheStore::new());
    app.main_menu_index = 2;
    assert_eq!(app.on_key(Key::Enter, 0).command, Command::Nothing);
    assert_eq!(app.screen, Screen::StationBrowser);
    assert_eq!(app.status, "Favorites loaded: 2 stations");
    assert_eq!(app.stations, vec![station("Alpha", "http://a"), station("zeta", "http://b")]);
    assert_eq!(app.current_playlist, None);
    assert_eq!(app.selected_station_index, None);

    let mut empty = fresh_app();
    empty.main_menu_index = 2;
    empty.on_key(Key::Enter, 0);
    assert_eq!(empty.screen, Screen::MainMenu);
    assert_eq!(empty.status, "No favorites saved yet");
}

#[test]
fn a_station_that_plays_again_loses_its_failures() {
    let mut app = app_with_stations(&[("One", "http://one")]);
    app.unplayable_stations.record_station_failure("http://one", 1);
    app.unplayable_stations.record_station_failure("http://one", 2);
    app.on_key(Key::Enter, 3);
    let ev = ConnectEvent::Success { request_id: 1, station_index: 0, recovered_from: None, failed_urls: Vec::new() };
    if let EventReaction::Play { station_index, station, recovered_from, save_unplayable } = app.handle_connect_event(ev, 3) {
        assert!(!save_unplayable);
        assert!(app.playback_started(station_index, station, recovered_from, Ok(()), 3));
    } else {
        panic!("expected a station to play");
    }
    assert_eq!(app.unplayable_stations.fail_count_of("http://one"), 0);
    assert!(!app.unplayable_stations.is_url_unplayable("http://one"));
}

#[test]
fn history_screen_plays_a_row() {
    let history = vec![
        HistoryEntry { name: String::from("Old"), url: String::from("http://o"), played_at_epoch_secs: 900, duration_secs: 5 },
        HistoryEntry { name: String::from("New"), url: String::from("http://n"), played_at_epoch_secs: 950, duration_secs: 5 },
    ];
    let mut app = App::new(Vec::new(), history, UnplayableStationsStore::new(), PlaylistCacheStore::new());
    app.main_menu_index = 3;
    app.on_key(Key::Enter, 1_000);
    app.on_key(Key::Down, 1_000);
    app.on_key(Key::Down, 1_000);
    assert_eq!(app.history_index(), 1);
    let r = app.on_key(Key::Enter, 1_000);
    assert_eq!(app.stations, vec![station("Old", "http://o")]);
    assert_eq!(r.connect.expect("plan").candidate, 0);
    assert_eq!(app.status, "Connecting 1/1: Old");

    let mut empty = fresh_app();
    empty.main_menu_index = 3;
    empty.on_key(Key::Enter, 0);
    empty.on_key(Key::Enter, 0);
    assert_eq!(empty.status, "History is empty");
}

#[test]
fn tick_turns_the_spinner() {
    let mut app = fresh_app();
    for _ in 0..5 {
        app.on_tick();
    }
    assert_eq!(app.connect_spinner_index, 1);
}

#[test]
fn cached_stations_leave_out_unplayable_ones() {
    let mut app = fresh_app();
    let out = app.cache_parsed_stations(
        String::from("/p/a.m3u"),
        10,
        20,
        vec![station("A", "http://a"), station("B", "http://b")],
    );
    assert_eq!(out.len(), 2);
    assert_eq!(app.cached_stations("/p/a.m3u", 10, 20).map(|v| v.len()), Some(2));
    assert_eq!(app.cached_stations("/p/a.m3u", 11, 20), None);
    app.playlists_refreshed_by_key(vec![path("/p/a.m3u", "a.m3u")]);
    assert_eq!(app.playlist_station_count_hint(0), Some(2));
    assert_eq!(app.playlist_station_count_hint(1), None);
    for t in 0..3 {
        app.unplayable_stations.record_station_failure("http://b", t);
    }
    let kept = app.cached_stations("/p/a.m3u", 10, 20).expect("cached");
    assert_eq!(kept, vec![station("A", "http://a")]);
    app.playlists_refreshed_by_key(Vec::new());
    assert_eq!(app.cached_stations("/p/a.m3u", 10, 20), None);
}

#[test]
fn letter_shortcuts_ignore_case() {
    let mut lower = app_with_stations(&[("A", "http://a"), ("B", "http://b")]);
    let mut upper = app_with_stations(&[("A", "http://a"), ("B", "http://b")]);
    for (l, u) in [('j', 'J'), ('f', 'F'), ('f', 'F'), ('k', 'K'), ('q', 'Q')] {
        let a = lower.on_key(Key::Char(l), 7);
        let b = upper.on_key(Key::Char(u), 7);
        assert_eq!(a.command, b.command);
        assert_eq!(lower.screen, upper.screen);
        assert_eq!(lower.station_index, upper.station_index);
        assert_eq!(lower.station_favorites_only, upper.station_favorites_only);
        assert_eq!(lower.status, upper.status);
    }
    assert_eq!(lower.screen, Screen::PlaylistBrowser);
}

#[test]
fn esc_on_main_menu_quits() {
    let mut app = fresh_app();
    let r = app.on_key(Key::Esc, 5);
    assert_eq!(r.command, Command::Quit);
    assert!(r.stop_player);
    let mut app = fresh_app();
    assert_eq!(app.on_key(Key::Char('q'), 5).command, Command::Quit);
}

#[test]
fn cancelled_worker_stops_probing() {
    let plan = ConnectPlan {
        request_id: 3,
        candidate: 0,
        stations: vec![station("A", "http://a"), station("B", "http://b")],
        shuffle: false,
    };
    let mut w = ConnectWorker::new(plan);
    match w.next_step() {
        WorkerStep::Probe { url, .. } => assert_eq!(url, "http://a"),
        _ => panic!("expected a probe"),
    }
    w.cancel();
    assert!(w.probe_finished(Err(String::from("boom")), 8).is_none());
    assert!(w.failed.is_empty());
    assert!(matches!(w.next_step(), WorkerStep::Cancelled));
    assert!(w.probe_finished(Ok(()), 8).is_none());
    assert!(matches!(w.next_step(), WorkerStep::Cancelled));
}
