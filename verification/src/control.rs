//! The screens of the player and what each key does on them.
//!
//! `App` holds what the screens show and the state of a connection in
//! progress. Its methods decide; what they cannot do themselves (reading
//! playlists, talking to the audio output, saving files, starting the
//! connection worker) they hand back as a `Reaction` for the caller to carry
//! out, and the caller reports the outcome through the methods made for it.

use vstd::prelude::*;
use rand::Rng;
use rand::seq::SliceRandom;
use crate::station::{Station, StationView, stations_view, duplicate_stations};
use crate::search::{PlaylistPath, PathView, paths_view, query_key, visible_playlist_indices,
    visible_station_indices, filtered_playlist_indices, filtered_station_indices};
use crate::favorites::{FavoriteEntry, FavoriteView, favorites_view, is_favorite_spec, lemma_add_remove,
    is_url_favorite, add_favorite, remove_favorite, remove_spec};
use crate::history::{HistoryEntry, HistView, history_view, PlaybackSession, HistoryViewItem,
    history_view_items, history_rows_ok, items_view, ItemView, recent, cutoff_spec,
    finalize_session, prune_spec, session_entry};
use crate::health::{UnplayableStationsStore, RecordView, after_failure, playable_spec,
    filter_playable};
use crate::cache::{PlaylistCacheStore, PlaylistCacheEntry, CacheEntryView, prune_ok, path_keys};
use crate::text::{decimal, push_decimal, push_str, string_from_chars};
use crate::labels::{on_off_text, on_off_label, SPINNER_FRAME_COUNT, progress_text,
    connection_progress_text, playback_state_text};
use crate::order::{sort_by_name, sort_stations_by_name, lemma_sort_len};
use crate::location::{file_name, playlist_location, shown_name, location_text};

verus! {

/// The screens of the player.
#[derive(Clone, Copy, Debug, PartialEq, Eq, Structural)]
pub enum Screen {
    MainMenu,
    PlaylistBrowser,
    StationBrowser,
    Player,
    History,
    Config,
    Help,
}

/// A key press, as the screens tell keys apart.
#[derive(Clone, Copy, Debug, PartialEq, Eq, Structural)]
pub enum Key {
    Up,
    Down,
    PageUp,
    PageDown,
    Home,
    End,
    Right,
    Enter,
    Esc,
    Backspace,
    Char(char),
    Other,
}

/// How many lines PageUp and PageDown move in the lists.
pub const PAGE_STEP: usize = 12;

/// How many entries the main menu has.
pub const MAIN_MENU_LEN: usize = 6;


pub open spec fn is_up(k: Key) -> bool {
    k == Key::Up || k == Key::Char('k') || k == Key::Char('K')
}

pub open spec fn is_down(k: Key) -> bool {
    k == Key::Down || k == Key::Char('j') || k == Key::Char('J')
}

/// Esc, `q` or `Q`: leave the screen.
pub open spec fn is_leave(k: Key) -> bool {
    k == Key::Esc || k == Key::Char('q') || k == Key::Char('Q')
}

pub open spec fn is_char_key(k: Key, lower: char, upper: char) -> bool {
    k == Key::Char(lower) || k == Key::Char(upper)
}

fn key_is_up(k: Key) -> (b: bool)
    ensures
        b == is_up(k),
{
    match k {
        Key::Up => true,
        Key::Char(c) => c == 'k' || c == 'K',
        _ => false,
    }
}

fn key_is_down(k: Key) -> (b: bool)
    ensures
        b == is_down(k),
{
    match k {
        Key::Down => true,
        Key::Char(c) => c == 'j' || c == 'J',
        _ => false,
    }
}

fn key_is_leave(k: Key) -> (b: bool)
    ensures
        b == is_leave(k),
{
    match k {
        Key::Esc => true,
        Key::Char(c) => c == 'q' || c == 'Q',
        _ => false,
    }
}

fn key_is_char(k: Key, lower: char, upper: char) -> (b: bool)
    ensures
        b == is_char_key(k, lower, upper),
{
    match k {
        Key::Char(c) => c == lower || c == upper,
        _ => false,
    }
}

// ---------------------------------------------------------------------------
// Cursor movement
// ---------------------------------------------------------------------------

pub open spec fn cursor_up(i: usize) -> usize {
    if i > 0 {
        (i - 1) as usize
    } else {
        i
    }
}

pub open spec fn cursor_down(i: usize, len: nat) -> usize {
    if len > 0 && i + 1 < len {
        (i + 1) as usize
    } else {
        i
    }
}

pub open spec fn page_up(i: usize) -> usize {
    if i >= PAGE_STEP {
        (i - PAGE_STEP) as usize
    } else {
        0
    }
}

pub open spec fn page_down(i: usize, len: nat) -> usize {
    if len > 0 {
        if i + PAGE_STEP < len - 1 {
            (i + PAGE_STEP) as usize
        } else {
            (len - 1) as usize
        }
    } else {
        i
    }
}

/// The cursor moved back into a list of `len` lines.
pub open spec fn clamp_cursor(i: usize, len: nat) -> usize {
    if len == 0 {
        0
    } else if i >= len {
        (len - 1) as usize
    } else {
        i
    }
}

fn move_page_down(i: usize, len: usize) -> (r: usize)
    ensures
        r == page_down(i, len as nat),
{
    if len > 0 {
        let s = i.saturating_add(PAGE_STEP);
        if s < len - 1 {
            s
        } else {
            len - 1
        }
    } else {
        i
    }
}

fn clamp_to(i: usize, len: usize) -> (r: usize)
    ensures
        r == clamp_cursor(i, len as nat),
{
    if len == 0 {
        0
    } else if i >= len {
        len - 1
    } else {
        i
    }
}

// ---------------------------------------------------------------------------
// What the caller is asked to do
// ---------------------------------------------------------------------------

/// Work that a key asks for and that the caller carries out.
#[derive(Clone, Copy, Debug, PartialEq, Eq, Structural)]
pub enum Command {
    Nothing,
    /// Leave the program.
    Quit,
    /// Scan the playlists directory, then call `playlists_refreshed_by_key`.
    RefreshPlaylists,
    /// Load the stations of `playlists[i]`, then call `playlist_loaded`.
    OpenPlaylist(usize),
    /// Play a random station of a random playlist (`full_random_order`,
    /// `full_random_pick`).
    StartFullRandom,
    /// Save the favorites, then call `favorite_saved` with these values.
    SaveFavorites { added: bool, station_index: usize },
    /// Pause or resume the output, then call `pause_toggled`.
    TogglePause,
    VolumeUp,
    VolumeDown,
    ToggleMute,
    /// Copy the example playlist, then call `bootstrap_done`.
    Bootstrap,
}

/// What starting a connection hands to the connection worker.
pub struct ConnectPlan {
    pub request_id: u64,
    pub candidate: usize,
    pub stations: Vec<Station>,
    pub shuffle: bool,
}

pub struct PlanView {
    pub request_id: u64,
    pub candidate: usize,
    pub stations: Seq<StationView>,
    pub shuffle: bool,
}

impl View for ConnectPlan {
    type V = PlanView;

    open spec fn view(&self) -> PlanView {
        PlanView {
            request_id: self.request_id,
            candidate: self.candidate,
            stations: stations_view(self.stations@),
            shuffle: self.shuffle,
        }
    }
}

/// The answer to a key: the command, and the effects of stopping playback
/// and of starting a connection, in this order: save the history when
/// `save_history`, stop the audio output when `stop_player`, start the
/// worker on `connect`.
pub struct Reaction {
    pub command: Command,
    pub save_history: bool,
    pub stop_player: bool,
    pub connect: Option<ConnectPlan>,
}

pub struct ReactionView {
    pub command: Command,
    pub save_history: bool,
    pub stop_player: bool,
    pub connect: Option<PlanView>,
}

impl View for Reaction {
    type V = ReactionView;

    open spec fn view(&self) -> ReactionView {
        ReactionView {
            command: self.command,
            save_history: self.save_history,
            stop_player: self.stop_player,
            connect: match self.connect {
                Some(p) => Some(p@),
                None => None,
            },
        }
    }
}

pub open spec fn only(c: Command) -> ReactionView {
    ReactionView { command: c, save_history: false, stop_player: false, connect: None }
}

fn reply(c: Command) -> (r: Reaction)
    ensures
        r@ == only(c),
{
    Reaction { command: c, save_history: false, stop_player: false, connect: None }
}

// ---------------------------------------------------------------------------
// The state
// ---------------------------------------------------------------------------

pub struct SessionView {
    pub name: Seq<char>,
    pub url: Seq<char>,
    pub started: u64,
}

pub open spec fn session_view(s: Option<PlaybackSession>) -> Option<SessionView> {
    match s {
        Some(p) => Some(SessionView { name: p.name@, url: p.url@, started: p.started_at_epoch_secs }),
        None => None,
    }
}

/// The unplayable-station records as the screens depend on them.
pub struct HealthView {
    pub schema: u32,
    pub threshold: u64,
    pub records: Map<Seq<char>, RecordView>,
}

pub open spec fn health_view(s: UnplayableStationsStore) -> HealthView {
    HealthView {
        schema: s.schema(),
        threshold: s.limit(),
        records: Map::new(|u: Seq<char>| s.record_of(u) is Some, |u: Seq<char>| s.record_of(u)->0),
    }
}

/// Everything the player shows and decides with, as values.
pub struct AppView {
    pub screen: Screen,
    pub status: Seq<char>,
    pub shuffle: bool,
    pub full_random_mode: bool,
    pub main_menu_index: usize,
    pub playlist_index: usize,
    pub station_index: usize,
    pub history_index: usize,
    pub selected_station_index: Option<usize>,
    pub playlists: Seq<PathView>,
    pub stations: Seq<StationView>,
    pub current_playlist: Option<PathView>,
    pub previous_screen: Screen,
    pub station_search_mode: bool,
    pub station_favorites_only: bool,
    pub station_query: Seq<char>,
    pub playlist_search_mode: bool,
    pub playlist_query: Seq<char>,
    pub favorites: Seq<FavoriteView>,
    pub health: HealthView,
    pub cache: Map<Seq<char>, CacheEntryView>,
    pub history: Seq<HistView>,
    pub session: Option<SessionView>,
    pub help_scroll: u16,
    pub active_request: Option<u64>,
    pub next_request: u64,
    pub is_connecting: bool,
    pub connect_attempt: usize,
    pub connect_total: usize,
    pub connect_name: Seq<char>,
    pub spinner: usize,
    pub last_recovery: Option<u64>,
    pub listening: bool,
}

/// The player's state. `listening` tells whether the caller should keep the
/// channel of the connection worker and poll it.
pub struct App {
    pub screen: Screen,
    pub status: String,
    pub shuffle: bool,
    pub full_random_mode: bool,
    pub main_menu_index: usize,
    pub playlist_index: usize,
    pub station_index: usize,
    pub history_index: usize,
    pub selected_station_index: Option<usize>,
    pub playlists: Vec<PlaylistPath>,
    pub stations: Vec<Station>,
    pub current_playlist: Option<PlaylistPath>,
    pub previous_screen: Screen,
    pub station_search_mode: bool,
    pub station_favorites_only: bool,
    pub station_query: String,
    pub playlist_search_mode: bool,
    pub playlist_query: String,
    pub favorites: Vec<FavoriteEntry>,
    pub unplayable_stations: UnplayableStationsStore,
    pub playlist_cache: PlaylistCacheStore,
    pub history: Vec<HistoryEntry>,
    pub playback_session: Option<PlaybackSession>,
    pub help_scroll: u16,
    pub active_connect_request_id: Option<u64>,
    pub next_connect_request_id: u64,
    pub is_connecting: bool,
    pub connect_attempt: usize,
    pub connect_total: usize,
    pub connect_station_name: String,
    pub connect_spinner_index: usize,
    pub last_output_recovery_epoch_secs: Option<u64>,
    pub listening: bool,
}

pub open spec fn opt_path_view(p: Option<PlaylistPath>) -> Option<PathView> {
    match p {
        Some(x) => Some(x@),
        None => None,
    }
}

impl View for App {
    type V = AppView;

    open spec fn view(&self) -> AppView {
        AppView {
            screen: self.screen,
            status: self.status@,
            shuffle: self.shuffle,
            full_random_mode: self.full_random_mode,
            main_menu_index: self.main_menu_index,
            playlist_index: self.playlist_index,
            station_index: self.station_index,
            history_index: self.history_index,
            selected_station_index: self.selected_station_index,
            playlists: paths_view(self.playlists@),
            stations: stations_view(self.stations@),
            current_playlist: opt_path_view(self.current_playlist),
            previous_screen: self.previous_screen,
            station_search_mode: self.station_search_mode,
            station_favorites_only: self.station_favorites_only,
            station_query: self.station_query@,
            playlist_search_mode: self.playlist_search_mode,
            playlist_query: self.playlist_query@,
            favorites: favorites_view(self.favorites@),
            health: health_view(self.unplayable_stations),
            cache: self.playlist_cache@,
            history: history_view(self.history@),
            session: session_view(self.playback_session),
            help_scroll: self.help_scroll,
            active_request: self.active_connect_request_id,
            next_request: self.next_connect_request_id,
            is_connecting: self.is_connecting,
            connect_attempt: self.connect_attempt,
            connect_total: self.connect_total,
            connect_name: self.connect_station_name@,
            spinner: self.connect_spinner_index,
            last_recovery: self.last_output_recovery_epoch_secs,
            listening: self.listening,
        }
    }
}

/// The playlists shown in the browser.
pub open spec fn visible_playlists(v: AppView) -> Seq<usize> {
    visible_playlist_indices(v.playlists, query_key(v.playlist_query))
}

/// The stations shown in the browser.
pub open spec fn visible_stations(v: AppView) -> Seq<usize> {
    visible_station_indices(v.stations, query_key(v.station_query), v.station_favorites_only, v.favorites)
}

impl App {
    /// What the methods keep: the stores are well formed and the spinner
    /// shows one of its frames.
    pub open spec fn wf(&self) -> bool {
        &&& self.unplayable_stations.valid()
        &&& self.playlist_cache.valid()
        &&& self.connect_spinner_index < SPINNER_FRAME_COUNT
    }

    /// The player as it starts: the main menu, nothing loaded, nothing playing.
    pub fn new(
        favorites: Vec<FavoriteEntry>,
        history: Vec<HistoryEntry>,
        unplayable_stations: UnplayableStationsStore,
        playlist_cache: PlaylistCacheStore,
    ) -> (app: App)
        requires
            unplayable_stations.valid(),
            playlist_cache.valid(),
        ensures
            app.wf(),
            app@ == (AppView {
                screen: Screen::MainMenu,
                status: "Ready"@,
                shuffle: false,
                full_random_mode: false,
                main_menu_index: 0,
                playlist_index: 0,
                station_index: 0,
                history_index: 0,
                selected_station_index: None,
                playlists: Seq::empty(),
                stations: Seq::empty(),
                current_playlist: None,
                previous_screen: Screen::MainMenu,
                station_search_mode: false,
                station_favorites_only: false,
                station_query: Seq::empty(),
                playlist_search_mode: false,
                playlist_query: Seq::empty(),
                favorites: favorites_view(favorites@),
                health: health_view(unplayable_stations),
                cache: playlist_cache@,
                history: history_view(history@),
                session: None,
                help_scroll: 0,
                active_request: None,
                next_request: 1,
                is_connecting: false,
                connect_attempt: 0,
                connect_total: 0,
                connect_name: Seq::empty(),
                spinner: 0,
                last_recovery: None,
                listening: false,
            }),
    {
        let app = App {
            screen: Screen::MainMenu,
            status: String::from_str("Ready"),
            shuffle: false,
            full_random_mode: false,
            main_menu_index: 0,
            playlist_index: 0,
            station_index: 0,
            history_index: 0,
            selected_station_index: None,
            playlists: Vec::new(),
            stations: Vec::new(),
            current_playlist: None,
            previous_screen: Screen::MainMenu,
            station_search_mode: false,
            station_favorites_only: false,
            station_query: String::new(),
            playlist_search_mode: false,
            playlist_query: String::new(),
            favorites,
            unplayable_stations,
            playlist_cache,
            history,
            playback_session: None,
            help_scroll: 0,
            active_connect_request_id: None,
            next_connect_request_id: 1,
            is_connecting: false,
            connect_attempt: 0,
            connect_total: 0,
            connect_station_name: String::new(),
            connect_spinner_index: 0,
            last_output_recovery_epoch_secs: None,
            listening: false,
        };
        assert(app@.playlists =~= Seq::<PathView>::empty());
        assert(app@.stations =~= Seq::<StationView>::empty());
        app
    }

    // -----------------------------------------------------------------------
    // What the screens read
    // -----------------------------------------------------------------------

    pub fn help_scroll(&self) -> (r: u16)
        ensures
            r == self.help_scroll,
    {
        self.help_scroll
    }

    pub fn history_index(&self) -> (r: usize)
        ensures
            r == self.history_index,
    {
        self.history_index
    }

    /// The title shown on every screen.
    pub fn app_title(&self) -> (r: &'static str)
        ensures
            r@ == "cmdRadio v0.4.5"@,
    {
        "cmdRadio v0.4.5"
    }

    pub fn is_station_search_mode(&self) -> (r: bool)
        ensures
            r == self.station_search_mode,
    {
        self.station_search_mode
    }

    pub fn station_search_query(&self) -> (r: &str)
        ensures
            r@ == self.station_query@,
    {
        self.station_query.as_str()
    }

    pub fn station_favorites_only(&self) -> (r: bool)
        ensures
            r == self.station_favorites_only,
    {
        self.station_favorites_only
    }

    pub fn is_playlist_search_mode(&self) -> (r: bool)
        ensures
            r == self.playlist_search_mode,
    {
        self.playlist_search_mode
    }

    pub fn playlist_search_query(&self) -> (r: &str)
        ensures
            r@ == self.playlist_query@,
    {
        self.playlist_query.as_str()
    }

    pub fn favorites_count(&self) -> (r: usize)
        ensures
            r == self.favorites@.len(),
    {
        self.favorites.len()
    }

    pub fn shuffle_label(&self) -> (r: &'static str)
        ensures
            r@ == on_off_text(self.shuffle),
    {
        on_off_label(self.shuffle)
    }

    /// The open playlist as the player shows it: its file name and where it
    /// lies below the playlists directory `playlists_root` (paths read as on
    /// Windows when `windows` holds).
    pub fn current_playlist_with_location_label(&self, playlists_root: &str, windows: bool) -> (s: String)
        ensures
            s@ == match self.current_playlist {
                None => "<none>"@,
                Some(p) => shown_name(p.text@, windows) + " - "@ + location_text(
                    playlists_root@,
                    p.text@,
                    windows,
                ),
            },
    {
        match &self.current_playlist {
            None => String::from_str("<none>"),
            Some(p) => {
                let mut s = file_name(p.text.as_str(), windows);
                s.append(" - ");
                let location = playlist_location(playlists_root, p.text.as_str(), windows);
                s.append(location.as_str());
                s
            },
        }
    }

    pub fn full_random_label(&self) -> (r: &'static str)
        ensures
            r@ == on_off_text(self.full_random_mode),
    {
        on_off_label(self.full_random_mode)
    }

    /// The indices of the playlists the search lets through.
    pub fn filtered_playlist_indices(&self) -> (r: Vec<usize>)
        ensures
            r@ == visible_playlists(self@),
    {
        filtered_playlist_indices(&self.playlists, self.playlist_query.as_str())
    }

    /// The indices of the stations the search and the favorites filter let
    /// through.
    pub fn filtered_station_indices(&self) -> (r: Vec<usize>)
        ensures
            r@ == visible_stations(self@),
    {
        filtered_station_indices(
            &self.stations,
            self.station_query.as_str(),
            self.station_favorites_only,
            &self.favorites,
        )
    }

    /// Is the station at `station_index` a favorite? `false` past the end.
    pub fn is_station_favorite(&self, station_index: usize) -> (r: bool)
        ensures
            r == (station_index < self@.stations.len() && is_favorite_spec(
                self@.favorites,
                self@.stations[station_index as int].url,
            )),
    {
        if station_index < self.stations.len() {
            is_url_favorite(&self.favorites, self.stations[station_index].url.as_str())
        } else {
            false
        }
    }

    /// The name of the station being played or tried.
    pub fn selected_station_name(&self) -> (r: Option<&str>)
        ensures
            match self.selected_station_index {
                Some(i) if i < self@.stations.len() => r is Some && r->0@ == self@.stations[i as int].name,
                _ => r is None,
            },
    {
        match self.selected_station_index {
            Some(i) => {
                if i < self.stations.len() {
                    Some(self.stations[i].name.as_str())
                } else {
                    None
                }
            },
            None => None,
        }
    }

    /// The URL of the station being played or tried.
    pub fn selected_station_url(&self) -> (r: Option<&str>)
        ensures
            match self.selected_station_index {
                Some(i) if i < self@.stations.len() => r is Some && r->0@ == self@.stations[i as int].url,
                _ => r is None,
            },
    {
        match self.selected_station_index {
            Some(i) => {
                if i < self.stations.len() {
                    Some(self.stations[i].url.as_str())
                } else {
                    None
                }
            },
            None => None,
        }
    }

    /// Is the station being played a favorite?
    pub fn selected_station_is_favorite(&self) -> (r: Option<bool>)
        ensures
            match self.selected_station_index {
                Some(i) if i < self@.stations.len() => r == Some(
                    is_favorite_spec(self@.favorites, self@.stations[i as int].url),
                ),
                _ => r is None,
            },
    {
        match self.selected_station_url() {
            Some(url) => Some(is_url_favorite(&self.favorites, url)),
            None => None,
        }
    }

    /// How many stations the cache holds for `playlists[playlist_index]`.
    pub fn playlist_station_count_hint(&self, playlist_index: usize) -> (r: Option<usize>)
        requires
            self.wf(),
        ensures
            match r {
                Some(n) => playlist_index < self@.playlists.len() && self@.cache.contains_key(
                    self@.playlists[playlist_index as int].text,
                ) && n == self@.cache[self@.playlists[playlist_index as int].text].stations.len(),
                None => playlist_index >= self@.playlists.len() || !self@.cache.contains_key(
                    self@.playlists[playlist_index as int].text,
                ),
            },
    {
        if playlist_index < self.playlists.len() {
            self.playlist_cache.station_count(self.playlists[playlist_index].text.as_str())
        } else {
            None
        }
    }
}


// ---------------------------------------------------------------------------
// Stopping and starting playback
// ---------------------------------------------------------------------------

/// The history entry of a finished session (compare `session_entry`).
pub open spec fn session_hist(s: SessionView, now: u64) -> HistView {
    HistView {
        name: s.name,
        url: s.url,
        played: s.started,
        duration: if now > s.started + 1 {
            (now - s.started) as u64
        } else {
            1
        },
    }
}

/// Playback stopped at `now`: the session, if any, goes to the front of the
/// history, and the connection in progress, if any, is dropped.
pub open spec fn stopped(v: AppView, now: u64) -> AppView {
    AppView {
        history: match v.session {
            Some(s) => prune_spec(seq![session_hist(s, now)] + v.history, now),
            None => v.history,
        },
        session: None,
        is_connecting: false,
        active_request: None,
        listening: false,
        ..v
    }
}

/// The effects of stopping playback, with the command `c`.
pub open spec fn stop_reaction(v: AppView, c: Command) -> ReactionView {
    ReactionView { command: c, save_history: v.session is Some, stop_player: true, connect: None }
}

pub open spec fn connecting_text(attempt: nat, total: nat, name: Seq<char>) -> Seq<char> {
    "Connecting "@ + decimal(attempt) + "/"@ + decimal(total) + ": "@ + name
}

/// Starting the station at `index` (the last one past the end): playback
/// stops, a new connection request is made and handed to the worker.
pub open spec fn start_station_step(v: AppView, index: usize, now: u64) -> (AppView, ReactionView) {
    if v.stations.len() == 0 {
        (AppView { status: "No stations loaded"@, ..v }, only(Command::Nothing))
    } else {
        let s = stopped(v, now);
        let total = v.stations.len();
        let candidate = if index < total {
            index
        } else {
            (total - 1) as usize
        };
        let name = v.stations[candidate as int].name;
        (
            AppView {
                next_request: if v.next_request == u64::MAX {
                    u64::MAX
                } else {
                    (v.next_request + 1) as u64
                },
                active_request: Some(v.next_request),
                screen: Screen::Player,
                is_connecting: true,
                connect_attempt: 1,
                connect_total: total as usize,
                spinner: 0,
                selected_station_index: Some(candidate),
                connect_name: name,
                status: connecting_text(1, total, name),
                listening: true,
                ..s
            },
            ReactionView {
                command: Command::Nothing,
                save_history: v.session is Some,
                stop_player: true,
                connect: Some(
                    PlanView {
                        request_id: v.next_request,
                        candidate,
                        stations: v.stations,
                        shuffle: v.shuffle,
                    },
                ),
            },
        )
    }
}

/// The next station after `current`: the following one, or with shuffle a
/// random one (`draw`) moved on by one when it is `current`.
pub open spec fn next_index(current: usize, len: nat, shuffle: bool, draw: usize) -> usize {
    if len == 0 {
        0
    } else if shuffle {
        if len == 1 {
            0
        } else if draw == current {
            ((draw + 1) % (len as int)) as usize
        } else {
            draw
        }
    } else {
        ((current + 1) % (len as int)) as usize
    }
}

pub open spec fn next_station_step(v: AppView, now: u64, draw: usize) -> (AppView, ReactionView) {
    if v.stations.len() == 0 {
        (AppView { status: "No stations loaded"@, ..v }, only(Command::Nothing))
    } else {
        let current = match v.selected_station_index {
            Some(i) => i,
            None => 0,
        };
        start_station_step(v, next_index(current, v.stations.len(), v.shuffle, draw), now)
    }
}

/// Playing a history row: it becomes the only station.
pub open spec fn from_history_step(v: AppView, name: Seq<char>, url: Seq<char>, now: u64) -> (
    AppView,
    ReactionView,
) {
    start_station_step(
        AppView {
            full_random_mode: false,
            station_search_mode: false,
            station_favorites_only: false,
            station_query: Seq::empty(),
            current_playlist: None,
            stations: seq![StationView { name, url }],
            station_index: 0,
            selected_station_index: Some(0),
            ..v
        },
        0,
        now,
    )
}

/// The favorite mark of the station at `i` switched, and the favorites to be
/// saved.
pub open spec fn favorite_toggle_step(v: AppView, i: usize) -> (AppView, ReactionView) {
    if i >= v.stations.len() {
        (v, only(Command::Nothing))
    } else {
        let st = v.stations[i as int];
        if is_favorite_spec(v.favorites, st.url) {
            (
                AppView { favorites: remove_spec(v.favorites, st.url), ..v },
                only(Command::SaveFavorites { added: false, station_index: i }),
            )
        } else {
            (
                AppView {
                    favorites: v.favorites.push(
                        FavoriteView { url: st.url, name: st.name, source: Seq::empty() },
                    ),
                    ..v
                },
                only(Command::SaveFavorites { added: true, station_index: i }),
            )
        }
    }
}

pub open spec fn pop_char(q: Seq<char>) -> Seq<char> {
    if q.len() > 0 {
        q.drop_last()
    } else {
        q
    }
}

// ---------------------------------------------------------------------------
// Keys, screen by screen
// ---------------------------------------------------------------------------

pub open spec fn help_step(v: AppView, key: Key) -> AppView {
    let h = v.help_scroll;
    if is_up(key) {
        AppView { help_scroll: if h >= 1 { (h - 1) as u16 } else { 0 }, ..v }
    } else if is_down(key) {
        AppView { help_scroll: if h < u16::MAX { (h + 1) as u16 } else { u16::MAX }, ..v }
    } else if key == Key::PageUp {
        AppView { help_scroll: if h >= 8 { (h - 8) as u16 } else { 0 }, ..v }
    } else if key == Key::PageDown {
        AppView { help_scroll: if h + 8 <= u16::MAX { (h + 8) as u16 } else { u16::MAX }, ..v }
    } else if key == Key::Home {
        AppView { help_scroll: 0, ..v }
    } else if key == Key::End {
        AppView { help_scroll: u16::MAX, ..v }
    } else if is_leave(key) || key == Key::Char('?') {
        AppView { screen: v.previous_screen, ..v }
    } else {
        v
    }
}

pub open spec fn config_step(v: AppView, key: Key) -> (AppView, ReactionView) {
    if is_leave(key) {
        (AppView { screen: Screen::MainMenu, ..v }, only(Command::Nothing))
    } else if is_char_key(key, 'b', 'B') {
        (v, only(Command::Bootstrap))
    } else {
        (v, only(Command::Nothing))
    }
}

/// The main menu: move, open an entry with Enter, and leave the application
/// with Esc, `q` or `Q` (playback stops first).
pub open spec fn main_menu_step(v: AppView, key: Key, now: u64) -> (AppView, ReactionView) {
    if is_up(key) {
        (AppView { main_menu_index: cursor_up(v.main_menu_index), ..v }, only(Command::Nothing))
    } else if is_down(key) {
        (
            AppView {
                main_menu_index: if v.main_menu_index + 1 < MAIN_MENU_LEN {
                    (v.main_menu_index + 1) as usize
                } else {
                    v.main_menu_index
                },
                ..v
            },
            only(Command::Nothing),
        )
    } else if key == Key::Enter {
        if v.main_menu_index == 0 {
            let w = AppView {
                full_random_mode: false,
                playlist_search_mode: false,
                playlist_query: Seq::empty(),
                ..v
            };
            (
                AppView {
                    playlist_index: clamp_cursor(w.playlist_index, visible_playlists(w).len()),
                    screen: Screen::PlaylistBrowser,
                    ..w
                },
                only(Command::Nothing),
            )
        } else if v.main_menu_index == 1 {
            (v, only(Command::StartFullRandom))
        } else if v.main_menu_index == 2 {
            (favorites_opened(v), only(Command::Nothing))
        } else if v.main_menu_index == 3 {
            (AppView { history_index: 0, screen: Screen::History, ..v }, only(Command::Nothing))
        } else if v.main_menu_index == 4 {
            (AppView { screen: Screen::Config, ..v }, only(Command::Nothing))
        } else if v.main_menu_index == 5 {
            (stopped(v, now), stop_reaction(v, Command::Quit))
        } else {
            (v, only(Command::Nothing))
        }
    } else if is_leave(key) {
        (stopped(v, now), stop_reaction(v, Command::Quit))
    } else {
        (v, only(Command::Nothing))
    }
}

pub open spec fn history_step(v: AppView, key: Key, now: u64, rows: Seq<ItemView>) -> (
    AppView,
    ReactionView,
) {
    let len = rows.len();
    let i = v.history_index;
    if is_up(key) {
        (
            AppView { history_index: if len > 0 && i > 0 { (i - 1) as usize } else { i }, ..v },
            only(Command::Nothing),
        )
    } else if is_down(key) {
        (AppView { history_index: cursor_down(i, len), ..v }, only(Command::Nothing))
    } else if key == Key::PageUp {
        (AppView { history_index: page_up(i), ..v }, only(Command::Nothing))
    } else if key == Key::PageDown {
        (AppView { history_index: page_down(i, len), ..v }, only(Command::Nothing))
    } else if key == Key::Enter {
        if i < len {
            from_history_step(v, rows[i as int].name, rows[i as int].url, now)
        } else {
            (AppView { status: "History is empty"@, ..v }, only(Command::Nothing))
        }
    } else if is_leave(key) {
        (AppView { screen: Screen::MainMenu, ..v }, only(Command::Nothing))
    } else {
        (v, only(Command::Nothing))
    }
}

pub open spec fn favorites_filter_step(v: AppView) -> AppView {
    AppView {
        station_favorites_only: !v.station_favorites_only,
        station_index: 0,
        status: "Favorites filter "@ + on_off_text(!v.station_favorites_only),
        ..v
    }
}

pub open spec fn station_browser_step(v: AppView, key: Key, now: u64) -> (AppView, ReactionView) {
    let vis = visible_stations(v);
    let len = vis.len();
    let i = v.station_index;
    if is_up(key) {
        (
            AppView { station_index: if len > 0 && i > 0 { (i - 1) as usize } else { i }, ..v },
            only(Command::Nothing),
        )
    } else if is_down(key) {
        (AppView { station_index: cursor_down(i, len), ..v }, only(Command::Nothing))
    } else if key == Key::Enter {
        if i < len {
            start_station_step(AppView { full_random_mode: false, ..v }, vis[i as int], now)
        } else {
            (AppView { status: "No stations loaded"@, ..v }, only(Command::Nothing))
        }
    } else if key == Key::Char('/') {
        (
            AppView {
                station_search_mode: true,
                station_query: Seq::empty(),
                station_index: 0,
                status: "Search mode active. Esc to exit"@,
                ..v
            },
            only(Command::Nothing),
        )
    } else if is_char_key(key, 'f', 'F') {
        (favorites_filter_step(v), only(Command::Nothing))
    } else if key == Key::Char('*') {
        if i < len {
            favorite_toggle_step(v, vis[i as int])
        } else {
            (v, only(Command::Nothing))
        }
    } else if is_leave(key) {
        (
            AppView {
                station_search_mode: false,
                station_query: Seq::empty(),
                station_index: 0,
                screen: Screen::PlaylistBrowser,
                ..v
            },
            only(Command::Nothing),
        )
    } else {
        (v, only(Command::Nothing))
    }
}

pub open spec fn station_search_step(v: AppView, key: Key, now: u64) -> (AppView, ReactionView) {
    let vis = visible_stations(v);
    let len = vis.len();
    let i = v.station_index;
    if is_up(key) {
        (AppView { station_index: cursor_up(i), ..v }, only(Command::Nothing))
    } else if is_down(key) {
        (AppView { station_index: cursor_down(i, len), ..v }, only(Command::Nothing))
    } else if key == Key::Enter {
        if i < len {
            start_station_step(AppView { full_random_mode: false, ..v }, vis[i as int], now)
        } else {
            (AppView { status: "No station matches your search"@, ..v }, only(Command::Nothing))
        }
    } else if key == Key::Backspace {
        let w = AppView { station_query: pop_char(v.station_query), ..v };
        (
            AppView { station_index: clamp_cursor(w.station_index, visible_stations(w).len()), ..w },
            only(Command::Nothing),
        )
    } else if is_char_key(key, 'f', 'F') {
        (favorites_filter_step(v), only(Command::Nothing))
    } else if key == Key::Char('*') {
        if i < len {
            favorite_toggle_step(v, vis[i as int])
        } else {
            (v, only(Command::Nothing))
        }
    } else if key matches Key::Char(c) && !crate::text::is_control(c) {
        let c = key->0;
        (
            AppView { station_query: v.station_query.push(c), station_index: 0, ..v },
            only(Command::Nothing),
        )
    } else if key == Key::Esc {
        (
            AppView {
                station_search_mode: false,
                station_query: Seq::empty(),
                station_index: 0,
                status: "Search mode closed"@,
                ..v
            },
            only(Command::Nothing),
        )
    } else {
        (v, only(Command::Nothing))
    }
}

pub open spec fn playlist_browser_step(v: AppView, key: Key) -> (AppView, ReactionView) {
    let vis = visible_playlists(v);
    let len = vis.len();
    let i = v.playlist_index;
    if is_up(key) {
        (
            AppView { playlist_index: if len > 0 && i > 0 { (i - 1) as usize } else { i }, ..v },
            only(Command::Nothing),
        )
    } else if is_down(key) {
        (AppView { playlist_index: cursor_down(i, len), ..v }, only(Command::Nothing))
    } else if key == Key::PageUp {
        (AppView { playlist_index: page_up(i), ..v }, only(Command::Nothing))
    } else if key == Key::PageDown {
        (AppView { playlist_index: page_down(i, len), ..v }, only(Command::Nothing))
    } else if key == Key::Char('/') {
        (
            AppView {
                playlist_search_mode: true,
                playlist_query: Seq::empty(),
                playlist_index: 0,
                status: "Playlist search mode active. Esc to exit"@,
                ..v
            },
            only(Command::Nothing),
        )
    } else if is_char_key(key, 'u', 'U') {
        (v, only(Command::RefreshPlaylists))
    } else if is_char_key(key, 'r', 'R') {
        (
            AppView { shuffle: !v.shuffle, status: "Shuffle "@ + on_off_text(!v.shuffle), ..v },
            only(Command::Nothing),
        )
    } else if key == Key::Enter {
        if i < len && vis[i as int] < v.playlists.len() {
            (v, only(Command::OpenPlaylist(vis[i as int])))
        } else {
            (v, only(Command::Nothing))
        }
    } else if is_leave(key) {
        (AppView { screen: Screen::MainMenu, ..v }, only(Command::Nothing))
    } else {
        (v, only(Command::Nothing))
    }
}

pub open spec fn playlist_search_step(v: AppView, key: Key) -> (AppView, ReactionView) {
    let vis = visible_playlists(v);
    let len = vis.len();
    let i = v.playlist_index;
    if is_up(key) {
        (AppView { playlist_index: cursor_up(i), ..v }, only(Command::Nothing))
    } else if is_down(key) {
        (AppView { playlist_index: cursor_down(i, len), ..v }, only(Command::Nothing))
    } else if key == Key::PageUp {
        (AppView { playlist_index: page_up(i), ..v }, only(Command::Nothing))
    } else if key == Key::PageDown {
        (AppView { playlist_index: page_down(i, len), ..v }, only(Command::Nothing))
    } else if key == Key::Enter {
        if i < len && vis[i as int] < v.playlists.len() {
            (v, only(Command::OpenPlaylist(vis[i as int])))
        } else {
            (AppView { status: "No playlist matches your search"@, ..v }, only(Command::Nothing))
        }
    } else if key == Key::Backspace {
        let w = AppView { playlist_query: pop_char(v.playlist_query), ..v };
        (
            AppView {
                playlist_index: clamp_cursor(w.playlist_index, visible_playlists(w).len()),
                ..w
            },
            only(Command::Nothing),
        )
    } else if key matches Key::Char(c) && !crate::text::is_control(c) {
        let c = key->0;
        (
            AppView { playlist_query: v.playlist_query.push(c), playlist_index: 0, ..v },
            only(Command::Nothing),
        )
    } else if key == Key::Esc {
        (
            AppView {
                playlist_search_mode: false,
                playlist_query: Seq::empty(),
                playlist_index: 0,
                status: "Playlist search mode closed"@,
                ..v
            },
            only(Command::Nothing),
        )
    } else {
        (v, only(Command::Nothing))
    }
}

pub open spec fn player_step(v: AppView, key: Key, now: u64, draw: usize) -> (AppView, ReactionView) {
    if key == Key::Char(' ') {
        (v, only(Command::TogglePause))
    } else if is_char_key(key, 'n', 'N') || key == Key::Right {
        if v.full_random_mode {
            (v, only(Command::StartFullRandom))
        } else {
            next_station_step(v, now, draw)
        }
    } else if is_char_key(key, 'r', 'R') {
        (
            AppView { shuffle: !v.shuffle, status: "Shuffle "@ + on_off_text(!v.shuffle), ..v },
            only(Command::Nothing),
        )
    } else if is_char_key(key, 'f', 'F') {
        (
            AppView {
                station_favorites_only: !v.station_favorites_only,
                status: "Favorites filter "@ + on_off_text(!v.station_favorites_only),
                ..v
            },
            only(Command::Nothing),
        )
    } else if key == Key::Char('*') {
        match v.selected_station_index {
            Some(i) => favorite_toggle_step(v, i),
            None => (v, only(Command::Nothing)),
        }
    } else if key == Key::Char('+') || key == Key::Char('=') {
        (v, only(Command::VolumeUp))
    } else if key == Key::Char('-') || key == Key::Char('_') {
        (v, only(Command::VolumeDown))
    } else if is_char_key(key, 'm', 'M') {
        (v, only(Command::ToggleMute))
    } else if is_leave(key) {
        let s = stopped(v, now);
        (
            AppView { status: "Playback stopped"@, screen: Screen::StationBrowser, ..s },
            stop_reaction(v, Command::Nothing),
        )
    } else {
        (v, only(Command::Nothing))
    }
}

/// What a key does: `?` opens the help from any other screen; otherwise the
/// current screen decides. `draw` is the random pick of the next station
/// with shuffle on, `rows` the rows of the history screen.
pub open spec fn key_step(v: AppView, key: Key, now: u64, draw: usize, rows: Seq<ItemView>) -> (
    AppView,
    ReactionView,
) {
    if key == Key::Char('?') && v.screen != Screen::Help {
        (
            AppView { previous_screen: v.screen, help_scroll: 0, screen: Screen::Help, ..v },
            only(Command::Nothing),
        )
    } else {
        match v.screen {
            Screen::MainMenu => main_menu_step(v, key, now),
            Screen::PlaylistBrowser => if v.playlist_search_mode {
                playlist_search_step(v, key)
            } else {
                playlist_browser_step(v, key)
            },
            Screen::StationBrowser => if v.station_search_mode {
                station_search_step(v, key, now)
            } else {
                station_browser_step(v, key, now)
            },
            Screen::Player => player_step(v, key, now, draw),
            Screen::History => history_step(v, key, now, rows),
            Screen::Config => config_step(v, key),
            Screen::Help => (help_step(v, key), only(Command::Nothing)),
        }
    }
}

/// What `on_key` may use besides the state: the history rows when the
/// history screen answers, and a random pick below the number of stations.
pub open spec fn key_inputs_ok(v: AppView, key: Key, now: u64, draw: usize, rows: Seq<ItemView>) -> bool {
    &&& (v.screen == Screen::History && key != Key::Char('?')) ==> history_rows_ok(
        rows,
        v.history,
        v.favorites,
        now,
    )
    &&& v.stations.len() > 0 ==> draw < v.stations.len()
}


// ---------------------------------------------------------------------------
// Random picks
// ---------------------------------------------------------------------------

/// `rand::rng().random_range(0..len)`: a number below `len`, drawn at random
/// (the range is not empty, so the call does not panic).
#[verifier::external_body]
fn random_below(len: usize) -> (r: usize)
    requires
        len > 0,
    ensures
        r < len,
{
    rand::rng().random_range(0..len)
}

/// `SliceRandom::shuffle` with `rand::rng()`: the same values in an order
/// drawn at random (the slice is permuted by swaps).
#[verifier::external_body]
fn shuffle_in_place(v: &mut Vec<usize>)
    ensures
        final(v)@.to_multiset() == old(v)@.to_multiset(),
{
    v.shuffle(&mut rand::rng())
}

/// The next station after `current` among `len`, given the random pick
/// `draw` used with shuffle.
pub fn candidate_after(current: usize, len: usize, shuffle: bool, draw: usize) -> (r: usize)
    requires
        len > 0 ==> draw < len,
    ensures
        r == next_index(current, len as nat, shuffle, draw),
        len > 0 ==> r < len,
{
    if len == 0 {
        return 0;
    }
    if shuffle {
        if len == 1 {
            return 0;
        }
        if draw == current {
            proof {
                if draw + 1 < len {
                    vstd::arithmetic::div_mod::lemma_small_mod((draw + 1) as nat, len as nat);
                } else {
                    vstd::arithmetic::div_mod::lemma_mod_self_0(len as int);
                }
            }
            if draw + 1 < len {
                draw + 1
            } else {
                0
            }
        } else {
            draw
        }
    } else {
        let m = current % len;
        proof {
            let q = (current as int) / (len as int);
            vstd::arithmetic::div_mod::lemma_fundamental_div_mod(current as int, len as int);
            vstd::arithmetic::div_mod::lemma_mod_multiples_vanish(q, m + 1, len as int);
            assert(current + 1 == len * q + (m + 1));
            if m + 1 < len {
                vstd::arithmetic::div_mod::lemma_small_mod((m + 1) as nat, len as nat);
            } else {
                vstd::arithmetic::div_mod::lemma_mod_self_0(len as int);
            }
        }
        if m + 1 < len {
            m + 1
        } else {
            0
        }
    }
}

/// The next station to try after `current` among `len`: the following one,
/// or with shuffle a random one other than `current` (when there are two or
/// more).
pub fn next_candidate_index(current: usize, len: usize, shuffle: bool) -> (r: usize)
    ensures
        len > 0 ==> r < len,
        exists|draw: usize| (len > 0 ==> draw < len) && r == next_index(current, len as nat, shuffle, draw),
{
    let draw = if shuffle && len > 1 {
        random_below(len)
    } else {
        0
    };
    candidate_after(current, len, shuffle, draw)
}

// ---------------------------------------------------------------------------
// Small text helpers
// ---------------------------------------------------------------------------

fn on_off_status(prefix: &str, b: bool) -> (s: String)
    ensures
        s@ == prefix@ + on_off_text(b),
{
    let mut s = String::from_str(prefix);
    s.append(on_off_label(b));
    s
}

fn without_last_char(s: &String) -> (r: String)
    ensures
        r@ == pop_char(s@),
{
    let v = crate::text::chars_of(s.as_str());
    if v.len() > 0 {
        let r = crate::text::string_of_range(&v, 0, v.len() - 1);
        assert(v@.subrange(0, v@.len() - 1) =~= v@.drop_last());
        r
    } else {
        String::new()
    }
}

fn with_char(s: &String, c: char) -> (r: String)
    ensures
        r@ == s@.push(c),
{
    let mut v = crate::text::chars_of(s.as_str());
    v.push(c);
    string_from_chars(v.as_slice())
}


// ---------------------------------------------------------------------------
// Stopping and starting playback, and the keys
// ---------------------------------------------------------------------------

impl App {
    /// Ends the current session (recording it in the history) and drops the
    /// connection in progress. Returns whether the history changed and is to
    /// be saved; the caller also stops the audio output.
    pub fn stop_playback(&mut self, now: u64) -> (saved: bool)
        requires
            old(self).wf(),
        ensures
            final(self).wf(),
            final(self)@ == stopped(old(self)@, now),
            saved == (old(self)@.session is Some),
    {
        let saved = match self.playback_session.take() {
            Some(session) => {
                let ghost sv = session;
                finalize_session(&mut self.history, session, now);
                assert(session_entry(sv, now) == session_hist(session_view(Some(sv))->0, now));
                true
            },
            None => false,
        };
        self.is_connecting = false;
        self.active_connect_request_id = None;
        self.listening = false;
        saved
    }

    /// Starts connecting to the station at `index` (the last one past the
    /// end): playback stops and a connection request is handed to the
    /// worker.
    pub fn start_station(&mut self, index: usize, now: u64) -> (r: Reaction)
        requires
            old(self).wf(),
        ensures
            final(self).wf(),
            (final(self)@, r@) == start_station_step(old(self)@, index, now),
    {
        if self.stations.len() == 0 {
            self.status = String::from_str("No stations loaded");
            return reply(Command::Nothing);
        }
        let saved = self.stop_playback(now);
        assert(self.stations@.len() == stations_view(self.stations@).len());
        let request_id = self.next_connect_request_id;
        self.next_connect_request_id = request_id.saturating_add(1);
        self.active_connect_request_id = Some(request_id);
        let total = self.stations.len();
        let candidate = if index < total {
            index
        } else {
            total - 1
        };
        self.screen = Screen::Player;
        self.is_connecting = true;
        self.connect_attempt = 1;
        self.connect_total = total;
        self.connect_spinner_index = 0;
        self.selected_station_index = Some(candidate);
        self.connect_station_name = self.stations[candidate].name.clone();
        let mut st = String::from_str("Connecting ");
        st.append(crate::text::decimal_string(1).as_str());
        st.append("/");
        st.append(crate::text::decimal_string(total as u64).as_str());
        st.append(": ");
        st.append(self.connect_station_name.as_str());
        self.status = st;
        self.listening = true;
        Reaction {
            command: Command::Nothing,
            save_history: saved,
            stop_player: true,
            connect: Some(
                ConnectPlan {
                    request_id,
                    candidate,
                    stations: duplicate_stations(&self.stations),
                    shuffle: self.shuffle,
                },
            ),
        }
    }

    /// Moves on to the station after the current one, with `draw` as the
    /// random pick used with shuffle.
    pub fn start_next_station(&mut self, draw: usize, now: u64) -> (r: Reaction)
        requires
            old(self).wf(),
            old(self).stations@.len() > 0 ==> draw < old(self).stations@.len(),
        ensures
            final(self).wf(),
            (final(self)@, r@) == next_station_step(old(self)@, now, draw),
    {
        if self.stations.len() == 0 {
            self.status = String::from_str("No stations loaded");
            return reply(Command::Nothing);
        }
        let current = match self.selected_station_index {
            Some(i) => i,
            None => 0,
        };
        let next = candidate_after(current, self.stations.len(), self.shuffle, draw);
        self.start_station(next, now)
    }

    /// Moves on to the station after the current one (a random one with
    /// shuffle on).
    pub fn next_station(&mut self, now: u64) -> (r: Reaction)
        requires
            old(self).wf(),
        ensures
            final(self).wf(),
            exists|draw: usize|
                (old(self)@.stations.len() > 0 ==> draw < old(self)@.stations.len()) && (final(self)@, r@)
                    == next_station_step(old(self)@, now, draw),
    {
        let draw = if self.shuffle && self.stations.len() > 1 {
            random_below(self.stations.len())
        } else {
            0
        };
        self.start_next_station(draw, now)
    }

    /// Switches the favorite mark of the station at `i`.
    fn toggle_favorite(&mut self, i: usize) -> (r: Reaction)
        requires
            old(self).wf(),
        ensures
            final(self).wf(),
            (final(self)@, r@) == favorite_toggle_step(old(self)@, i),
    {
        if i >= self.stations.len() {
            return reply(Command::Nothing);
        }
        if is_url_favorite(&self.favorites, self.stations[i].url.as_str()) {
            remove_favorite(&mut self.favorites, self.stations[i].url.as_str());
            reply(Command::SaveFavorites { added: false, station_index: i })
        } else {
            add_favorite(&mut self.favorites, &self.stations[i]);
            reply(Command::SaveFavorites { added: true, station_index: i })
        }
    }

    fn handle_help(&mut self, key: Key)
        requires
            old(self).wf(),
        ensures
            final(self).wf(),
            final(self)@ == help_step(old(self)@, key),
    {
        if key_is_up(key) {
            self.help_scroll = self.help_scroll.saturating_sub(1);
        } else if key_is_down(key) {
            self.help_scroll = self.help_scroll.saturating_add(1);
        } else if key == Key::PageUp {
            self.help_scroll = self.help_scroll.saturating_sub(8);
        } else if key == Key::PageDown {
            self.help_scroll = self.help_scroll.saturating_add(8);
        } else if key == Key::Home {
            self.help_scroll = 0;
        } else if key == Key::End {
            self.help_scroll = u16::MAX;
        } else if key_is_leave(key) || key == Key::Char('?') {
            self.screen = self.previous_screen;
        }
    }

    fn handle_config(&mut self, key: Key) -> (r: Reaction)
        requires
            old(self).wf(),
        ensures
            final(self).wf(),
            (final(self)@, r@) == config_step(old(self)@, key),
    {
        if key_is_leave(key) {
            self.screen = Screen::MainMenu;
            reply(Command::Nothing)
        } else if key_is_char(key, 'b', 'B') {
            reply(Command::Bootstrap)
        } else {
            reply(Command::Nothing)
        }
    }

    /// Stops playback and asks to leave.
    fn quit(&mut self, now: u64) -> (r: Reaction)
        requires
            old(self).wf(),
        ensures
            final(self).wf(),
            final(self)@ == stopped(old(self)@, now),
            r@ == stop_reaction(old(self)@, Command::Quit),
    {
        let saved = self.stop_playback(now);
        Reaction { command: Command::Quit, save_history: saved, stop_player: true, connect: None }
    }

    fn clamp_playlist_cursor(&mut self)
        requires
            old(self).wf(),
        ensures
            final(self).wf(),
            final(self).playlist_cache == old(self).playlist_cache,
            final(self)@ == (AppView {
                playlist_index: clamp_cursor(
                    old(self)@.playlist_index,
                    visible_playlists(old(self)@).len(),
                ),
                ..old(self)@
            }),
    {
        let n = self.filtered_playlist_indices().len();
        self.playlist_index = clamp_to(self.playlist_index, n);
    }

    fn clamp_station_cursor(&mut self)
        requires
            old(self).wf(),
        ensures
            final(self).wf(),
            final(self)@ == (AppView {
                station_index: clamp_cursor(old(self)@.station_index, visible_stations(old(self)@).len()),
                ..old(self)@
            }),
    {
        let n = self.filtered_station_indices().len();
        self.station_index = clamp_to(self.station_index, n);
    }

    #[verifier::spinoff_prover]
    #[verifier::rlimit(40)]
    fn handle_main_menu(&mut self, key: Key, now: u64) -> (r: Reaction)
        requires
            old(self).wf(),
        ensures
            final(self).wf(),
            (final(self)@, r@) == main_menu_step(old(self)@, key, now),
    {
        if key_is_up(key) {
            if self.main_menu_index > 0 {
                self.main_menu_index = self.main_menu_index - 1;
            }
            reply(Command::Nothing)
        } else if key_is_down(key) {
            if self.main_menu_index < MAIN_MENU_LEN - 1 {
                self.main_menu_index = self.main_menu_index + 1;
            }
            reply(Command::Nothing)
        } else if key == Key::Enter {
            if self.main_menu_index == 0 {
                self.full_random_mode = false;
                self.playlist_search_mode = false;
                self.playlist_query = String::new();
                self.clamp_playlist_cursor();
                self.screen = Screen::PlaylistBrowser;
                reply(Command::Nothing)
            } else if self.main_menu_index == 1 {
                reply(Command::StartFullRandom)
            } else if self.main_menu_index == 2 {
                self.open_favorites_browser();
                reply(Command::Nothing)
            } else if self.main_menu_index == 3 {
                self.history_index = 0;
                self.screen = Screen::History;
                reply(Command::Nothing)
            } else if self.main_menu_index == 4 {
                self.screen = Screen::Config;
                reply(Command::Nothing)
            } else if self.main_menu_index == 5 {
                self.quit(now)
            } else {
                reply(Command::Nothing)
            }
        } else if key_is_leave(key) {
            self.quit(now)
        } else {
            reply(Command::Nothing)
        }
    }

    fn handle_history(&mut self, key: Key, now: u64) -> (r: Reaction)
        requires
            old(self).wf(),
        ensures
            final(self).wf(),
            exists|rows: Seq<ItemView>|
                history_rows_ok(rows, old(self)@.history, old(self)@.favorites, now) && (final(self)@, r@)
                    == history_step(old(self)@, key, now, rows),
    {
        let ghost v0 = self@;
        let rows = history_view_items(&self.history, &self.favorites, now);
        let ghost rv = items_view(rows@);
        let len = rows.len();
        let r = if key_is_up(key) {
            if len > 0 && self.history_index > 0 {
                self.history_index = self.history_index - 1;
            }
            reply(Command::Nothing)
        } else if key_is_down(key) {
            if len > 0 && self.history_index < len - 1 {
                self.history_index = self.history_index + 1;
            }
            reply(Command::Nothing)
        } else if key == Key::PageUp {
            self.history_index = self.history_index.saturating_sub(PAGE_STEP);
            reply(Command::Nothing)
        } else if key == Key::PageDown {
            self.history_index = move_page_down(self.history_index, len);
            reply(Command::Nothing)
        } else if key == Key::Enter {
            if self.history_index < len {
                let item = &rows[self.history_index];
                assert(item@ == rv[self.history_index as int]);
                self.play_from_history(item.name.clone(), item.url.clone(), now)
            } else {
                self.status = String::from_str("History is empty");
                reply(Command::Nothing)
            }
        } else if key_is_leave(key) {
            self.screen = Screen::MainMenu;
            reply(Command::Nothing)
        } else {
            reply(Command::Nothing)
        };
        assert(history_rows_ok(rv, v0.history, v0.favorites, now));
        assert((self@, r@) == history_step(v0, key, now, rv));
        r
    }

    /// Plays a station of the history on its own.
    fn play_from_history(&mut self, name: String, url: String, now: u64) -> (r: Reaction)
        requires
            old(self).wf(),
        ensures
            final(self).wf(),
            (final(self)@, r@) == from_history_step(old(self)@, name@, url@, now),
    {
        self.full_random_mode = false;
        self.station_search_mode = false;
        self.station_favorites_only = false;
        self.station_query = String::new();
        self.current_playlist = None;
        let mut v: Vec<Station> = Vec::new();
        v.push(Station { name, url });
        self.stations = v;
        self.station_index = 0;
        self.selected_station_index = Some(0);
        proof {
            assert(stations_view(self.stations@) =~= seq![StationView { name: name@, url: url@ }]);
        }
        self.start_station(0, now)
    }

    fn handle_station_browser(&mut self, key: Key, now: u64) -> (r: Reaction)
        requires
            old(self).wf(),
            !old(self).station_search_mode,
        ensures
            final(self).wf(),
            (final(self)@, r@) == station_browser_step(old(self)@, key, now),
    {
        let vis = self.filtered_station_indices();
        let len = vis.len();
        if key_is_up(key) {
            if len > 0 && self.station_index > 0 {
                self.station_index = self.station_index - 1;
            }
            reply(Command::Nothing)
        } else if key_is_down(key) {
            if len > 0 && self.station_index < len - 1 {
                self.station_index = self.station_index + 1;
            }
            reply(Command::Nothing)
        } else if key == Key::Enter {
            if self.station_index < len {
                let actual = vis[self.station_index];
                self.full_random_mode = false;
                self.start_station(actual, now)
            } else {
                self.status = String::from_str("No stations loaded");
                reply(Command::Nothing)
            }
        } else if key == Key::Char('/') {
            self.station_search_mode = true;
            self.station_query = String::new();
            self.station_index = 0;
            self.status = String::from_str("Search mode active. Esc to exit");
            reply(Command::Nothing)
        } else if key_is_char(key, 'f', 'F') {
            self.toggle_favorites_filter();
            reply(Command::Nothing)
        } else if key == Key::Char('*') {
            if self.station_index < len {
                let actual = vis[self.station_index];
                self.toggle_favorite(actual)
            } else {
                reply(Command::Nothing)
            }
        } else if key_is_leave(key) {
            self.station_search_mode = false;
            self.station_query = String::new();
            self.station_index = 0;
            self.screen = Screen::PlaylistBrowser;
            reply(Command::Nothing)
        } else {
            reply(Command::Nothing)
        }
    }

    fn toggle_favorites_filter(&mut self)
        requires
            old(self).wf(),
        ensures
            final(self).wf(),
            final(self)@ == favorites_filter_step(old(self)@),
    {
        self.station_favorites_only = !self.station_favorites_only;
        self.station_index = 0;
        self.status = on_off_status("Favorites filter ", self.station_favorites_only);
    }

    fn handle_station_search_mode(&mut self, key: Key, now: u64) -> (r: Reaction)
        requires
            old(self).wf(),
            old(self).station_search_mode,
        ensures
            final(self).wf(),
            (final(self)@, r@) == station_search_step(old(self)@, key, now),
    {
        let vis = self.filtered_station_indices();
        let len = vis.len();
        if key_is_up(key) {
            if self.station_index > 0 {
                self.station_index = self.station_index - 1;
            }
            reply(Command::Nothing)
        } else if key_is_down(key) {
            if len > 0 && self.station_index < len - 1 {
                self.station_index = self.station_index + 1;
            }
            reply(Command::Nothing)
        } else if key == Key::Enter {
            if self.station_index < len {
                let actual = vis[self.station_index];
                self.full_random_mode = false;
                self.start_station(actual, now)
            } else {
                self.status = String::from_str("No station matches your search");
                reply(Command::Nothing)
            }
        } else if key == Key::Backspace {
            self.station_query = without_last_char(&self.station_query);
            self.clamp_station_cursor();
            reply(Command::Nothing)
        } else if key_is_char(key, 'f', 'F') {
            self.toggle_favorites_filter();
            reply(Command::Nothing)
        } else if key == Key::Char('*') {
            if self.station_index < len {
                let actual = vis[self.station_index];
                self.toggle_favorite(actual)
            } else {
                reply(Command::Nothing)
            }
        } else if key == Key::Esc {
            self.station_search_mode = false;
            self.station_query = String::new();
            self.station_index = 0;
            self.status = String::from_str("Search mode closed");
            reply(Command::Nothing)
        } else {
            match key {
                Key::Char(c) => {
                    if !crate::text::char_is_control(c) {
                        self.station_query = with_char(&self.station_query, c);
                        self.station_index = 0;
                    }
                },
                _ => {},
            }
            reply(Command::Nothing)
        }
    }

    fn handle_playlist_browser(&mut self, key: Key) -> (r: Reaction)
        requires
            old(self).wf(),
            !old(self).playlist_search_mode,
        ensures
            final(self).wf(),
            (final(self)@, r@) == playlist_browser_step(old(self)@, key),
    {
        let vis = self.filtered_playlist_indices();
        let len = vis.len();
        if key_is_up(key) {
            if len > 0 && self.playlist_index > 0 {
                self.playlist_index = self.playlist_index - 1;
            }
            reply(Command::Nothing)
        } else if key_is_down(key) {
            if len > 0 && self.playlist_index < len - 1 {
                self.playlist_index = self.playlist_index + 1;
            }
            reply(Command::Nothing)
        } else if key == Key::PageUp {
            self.playlist_index = self.playlist_index.saturating_sub(PAGE_STEP);
            reply(Command::Nothing)
        } else if key == Key::PageDown {
            self.playlist_index = move_page_down(self.playlist_index, len);
            reply(Command::Nothing)
        } else if key == Key::Char('/') {
            self.playlist_search_mode = true;
            self.playlist_query = String::new();
            self.playlist_index = 0;
            self.status = String::from_str("Playlist search mode active. Esc to exit");
            reply(Command::Nothing)
        } else if key_is_char(key, 'u', 'U') {
            reply(Command::RefreshPlaylists)
        } else if key_is_char(key, 'r', 'R') {
            self.shuffle = !self.shuffle;
            self.status = on_off_status("Shuffle ", self.shuffle);
            reply(Command::Nothing)
        } else if key == Key::Enter {
            if self.playlist_index < len && vis[self.playlist_index] < self.playlists.len() {
                reply(Command::OpenPlaylist(vis[self.playlist_index]))
            } else {
                reply(Command::Nothing)
            }
        } else if key_is_leave(key) {
            self.screen = Screen::MainMenu;
            reply(Command::Nothing)
        } else {
            reply(Command::Nothing)
        }
    }

    fn handle_playlist_search_mode(&mut self, key: Key) -> (r: Reaction)
        requires
            old(self).wf(),
            old(self).playlist_search_mode,
        ensures
            final(self).wf(),
            (final(self)@, r@) == playlist_search_step(old(self)@, key),
    {
        let vis = self.filtered_playlist_indices();
        let len = vis.len();
        if key_is_up(key) {
            if self.playlist_index > 0 {
                self.playlist_index = self.playlist_index - 1;
            }
            reply(Command::Nothing)
        } else if key_is_down(key) {
            if len > 0 && self.playlist_index < len - 1 {
                self.playlist_index = self.playlist_index + 1;
            }
            reply(Command::Nothing)
        } else if key == Key::PageUp {
            self.playlist_index = self.playlist_index.saturating_sub(PAGE_STEP);
            reply(Command::Nothing)
        } else if key == Key::PageDown {
            self.playlist_index = move_page_down(self.playlist_index, len);
            reply(Command::Nothing)
        } else if key == Key::Enter {
            if self.playlist_index < len && vis[self.playlist_index] < self.playlists.len() {
                reply(Command::OpenPlaylist(vis[self.playlist_index]))
            } else {
                self.status = String::from_str("No playlist matches your search");
                reply(Command::Nothing)
            }
        } else if key == Key::Backspace {
            self.playlist_query = without_last_char(&self.playlist_query);
            self.clamp_playlist_cursor();
            reply(Command::Nothing)
        } else if key == Key::Esc {
            self.playlist_search_mode = false;
            self.playlist_query = String::new();
            self.playlist_index = 0;
            self.status = String::from_str("Playlist search mode closed");
            reply(Command::Nothing)
        } else {
            match key {
                Key::Char(c) => {
                    if !crate::text::char_is_control(c) {
                        self.playlist_query = with_char(&self.playlist_query, c);
                        self.playlist_index = 0;
                    }
                },
                _ => {},
            }
            reply(Command::Nothing)
        }
    }

    fn handle_player(&mut self, key: Key, now: u64) -> (r: Reaction)
        requires
            old(self).wf(),
        ensures
            final(self).wf(),
            exists|draw: usize|
                (old(self)@.stations.len() > 0 ==> draw < old(self)@.stations.len()) && (final(self)@, r@)
                    == player_step(old(self)@, key, now, draw),
    {
        let ghost v0 = self@;
        if key_is_char(key, 'n', 'N') || key == Key::Right {
            if !self.full_random_mode {
                let r = self.next_station(now);
                let ghost d = choose|draw: usize|
                    (v0.stations.len() > 0 ==> draw < v0.stations.len()) && (self@, r@)
                        == next_station_step(v0, now, draw);
                assert((self@, r@) == player_step(v0, key, now, d));
                return r;
            }
        }
        let r = if key == Key::Char(' ') {
            reply(Command::TogglePause)
        } else if key_is_char(key, 'n', 'N') || key == Key::Right {
            reply(Command::StartFullRandom)
        } else if key_is_char(key, 'r', 'R') {
            self.shuffle = !self.shuffle;
            self.status = on_off_status("Shuffle ", self.shuffle);
            reply(Command::Nothing)
        } else if key_is_char(key, 'f', 'F') {
            self.station_favorites_only = !self.station_favorites_only;
            self.status = on_off_status("Favorites filter ", self.station_favorites_only);
            reply(Command::Nothing)
        } else if key == Key::Char('*') {
            match self.selected_station_index {
                Some(i) => self.toggle_favorite(i),
                None => reply(Command::Nothing),
            }
        } else if key == Key::Char('+') || key == Key::Char('=') {
            reply(Command::VolumeUp)
        } else if key == Key::Char('-') || key == Key::Char('_') {
            reply(Command::VolumeDown)
        } else if key_is_char(key, 'm', 'M') {
            reply(Command::ToggleMute)
        } else if key_is_leave(key) {
            let saved = self.stop_playback(now);
            self.status = String::from_str("Playback stopped");
            self.screen = Screen::StationBrowser;
            Reaction { command: Command::Nothing, save_history: saved, stop_player: true, connect: None }
        } else {
            reply(Command::Nothing)
        };
        assert((self@, r@) == player_step(v0, key, now, 0));
        r
    }

    /// Handles a key press at `now`: `?` opens the help, otherwise the
    /// current screen decides. Returns what the caller has to carry out.
    pub fn on_key(&mut self, key: Key, now: u64) -> (r: Reaction)
        requires
            old(self).wf(),
        ensures
            final(self).wf(),
            exists|draw: usize, rows: Seq<ItemView>|
                key_inputs_ok(old(self)@, key, now, draw, rows) && (final(self)@, r@) == key_step(
                    old(self)@,
                    key,
                    now,
                    draw,
                    rows,
                ),
    {
        let ghost v0 = self@;
        if key == Key::Char('?') && self.screen != Screen::Help {
            self.previous_screen = self.screen;
            self.help_scroll = 0;
            self.screen = Screen::Help;
            let r = reply(Command::Nothing);
            assert(key_inputs_ok(v0, key, now, 0, Seq::empty()));
            assert((self@, r@) == key_step(v0, key, now, 0, Seq::empty()));
            return r;
        }
        match self.screen {
            Screen::MainMenu => {
                let r = self.handle_main_menu(key, now);
                assert(key_inputs_ok(v0, key, now, 0, Seq::empty()));
                assert((self@, r@) == key_step(v0, key, now, 0, Seq::empty()));
                r
            },
            Screen::PlaylistBrowser => {
                let r = if self.playlist_search_mode {
                    self.handle_playlist_search_mode(key)
                } else {
                    self.handle_playlist_browser(key)
                };
                assert(key_inputs_ok(v0, key, now, 0, Seq::empty()));
                assert((self@, r@) == key_step(v0, key, now, 0, Seq::empty()));
                r
            },
            Screen::StationBrowser => {
                let r = if self.station_search_mode {
                    self.handle_station_search_mode(key, now)
                } else {
                    self.handle_station_browser(key, now)
                };
                assert(key_inputs_ok(v0, key, now, 0, Seq::empty()));
                assert((self@, r@) == key_step(v0, key, now, 0, Seq::empty()));
                r
            },
            Screen::Player => {
                let r = self.handle_player(key, now);
                let ghost d = choose|draw: usize|
                    (v0.stations.len() > 0 ==> draw < v0.stations.len()) && (self@, r@) == player_step(
                        v0,
                        key,
                        now,
                        draw,
                    );
                assert(key_inputs_ok(v0, key, now, d, Seq::empty()));
                assert((self@, r@) == key_step(v0, key, now, d, Seq::empty()));
                r
            },
            Screen::History => {
                let r = self.handle_history(key, now);
                let ghost rows = choose|rows: Seq<ItemView>|
                    history_rows_ok(rows, v0.history, v0.favorites, now) && (self@, r@) == history_step(
                        v0,
                        key,
                        now,
                        rows,
                    );
                assert(key_inputs_ok(v0, key, now, 0, rows));
                assert((self@, r@) == key_step(v0, key, now, 0, rows));
                r
            },
            Screen::Config => {
                let r = self.handle_config(key);
                assert(key_inputs_ok(v0, key, now, 0, Seq::empty()));
                assert((self@, r@) == key_step(v0, key, now, 0, Seq::empty()));
                r
            },
            Screen::Help => {
                self.handle_help(key);
                let r = reply(Command::Nothing);
                assert(key_inputs_ok(v0, key, now, 0, Seq::empty()));
                assert((self@, r@) == key_step(v0, key, now, 0, Seq::empty()));
                r
            },
        }
    }
}


// ---------------------------------------------------------------------------
// Outcomes of the work handed to the caller
// ---------------------------------------------------------------------------

pub open spec fn stations_result_view(r: Result<Vec<Station>, String>) -> Result<
    Seq<StationView>,
    Seq<char>,
> {
    match r {
        Ok(v) => Ok(stations_view(v@)),
        Err(e) => Err(e@),
    }
}

/// The browser after the stations of `playlists[index]` were loaded (or not).
pub open spec fn loaded_step(v: AppView, index: usize, result: Result<Seq<StationView>, Seq<char>>) -> AppView {
    match result {
        Ok(st) => if st.len() == 0 {
            AppView { status: "Playlist without stations"@, ..v }
        } else {
            AppView {
                full_random_mode: false,
                stations: st,
                station_index: 0,
                station_search_mode: false,
                station_favorites_only: false,
                station_query: Seq::empty(),
                playlist_search_mode: false,
                current_playlist: Some(v.playlists[index as int]),
                screen: Screen::StationBrowser,
                status: "Loaded "@ + v.playlists[index as int].text,
                ..v
            }
        },
        Err(e) => AppView { status: "Cannot parse playlist: "@ + e, ..v },
    }
}

pub open spec fn favorite_saved_text(added: bool, name: Seq<char>, result: Result<(), Seq<char>>) -> Seq<
    char,
> {
    let action = if added {
        "added"@
    } else {
        "removed"@
    };
    match result {
        Ok(_) => "Favorite "@ + action + ": "@ + name,
        Err(e) => "Favorite "@ + action + " but save failed: "@ + e,
    }
}

/// The name a full-random pick announces: the file name, `<unknown>` without one.
pub open spec fn playlist_name(p: PathView) -> Seq<char> {
    if p.file_name.len() == 0 {
        "<unknown>"@
    } else {
        p.file_name
    }
}

/// Full random: the stations of `playlists[index]` are loaded and the one at
/// `station_index` is started.
pub open spec fn full_random_start_step(
    v: AppView,
    index: usize,
    stations: Seq<StationView>,
    station_index: usize,
    now: u64,
) -> (AppView, ReactionView) {
    start_station_step(
        AppView {
            full_random_mode: true,
            stations,
            station_index: 0,
            station_search_mode: false,
            station_favorites_only: false,
            station_query: Seq::empty(),
            current_playlist: Some(v.playlists[index as int]),
            status: "Full random from playlist: "@ + playlist_name(v.playlists[index as int]),
            ..v
        },
        station_index,
        now,
    )
}

pub open spec fn indices_upto(n: nat) -> Seq<usize> {
    Seq::new(n, |i: int| i as usize)
}

impl App {
    /// Takes a new scan of the playlists directory: the cache is pruned to the
    /// listed playlists and the cursor kept in the list. Returns whether the
    /// cache changed (and is to be saved).
    pub fn refresh_playlists(&mut self, scanned: Vec<PlaylistPath>) -> (cache_changed: bool)
        requires
            old(self).wf(),
        ensures
            final(self).wf(),
            final(self)@ == (AppView {
                playlists: paths_view(scanned@),
                cache: final(self)@.cache,
                playlist_index: clamp_cursor(
                    old(self)@.playlist_index,
                    visible_playlist_indices(paths_view(scanned@), query_key(old(self)@.playlist_query)).len(),
                ),
                ..old(self)@
            }),
            prune_ok(old(self).playlist_cache.items(), final(self).playlist_cache.items(), path_keys(scanned@)),
            cache_changed == (final(self).playlist_cache.items().len() != old(self).playlist_cache.items().len()),
    {
        self.playlists = scanned;
        let changed = self.playlist_cache.prune(&self.playlists);
        self.clamp_playlist_cursor();
        changed
    }

    /// The refresh asked for by a key: as `refresh_playlists`, then the
    /// number of playlists is reported.
    pub fn playlists_refreshed_by_key(&mut self, scanned: Vec<PlaylistPath>) -> (cache_changed: bool)
        requires
            old(self).wf(),
        ensures
            final(self).wf(),
            final(self)@ == (AppView {
                playlists: paths_view(scanned@),
                cache: final(self)@.cache,
                playlist_index: clamp_cursor(
                    old(self)@.playlist_index,
                    visible_playlist_indices(paths_view(scanned@), query_key(old(self)@.playlist_query)).len(),
                ),
                status: "Playlists refreshed: "@ + decimal(scanned@.len()) + " files"@,
                ..old(self)@
            }),
            prune_ok(old(self).playlist_cache.items(), final(self).playlist_cache.items(), path_keys(scanned@)),
            cache_changed == (final(self).playlist_cache.items().len() != old(self).playlist_cache.items().len()),
    {
        let changed = self.refresh_playlists(scanned);
        let mut st = String::from_str("Playlists refreshed: ");
        st.append(crate::text::decimal_string(self.playlists.len() as u64).as_str());
        st.append(" files");
        self.status = st;
        changed
    }

    /// The stations cached for the playlist `key` when its signature
    /// (modification time, size) is unchanged, without the unplayable ones.
    pub fn cached_stations(&self, key: &str, modified_epoch_secs: u64, file_size: u64) -> (r: Option<
        Vec<Station>,
    >)
        requires
            self.wf(),
        ensures
            match r {
                Some(v) => self@.cache.contains_key(key@) && self@.cache[key@].modified == modified_epoch_secs
                    && self@.cache[key@].size == file_size && stations_view(v@) == playable_spec(
                    self@.cache[key@].stations,
                    self.unplayable_stations,
                ),
                None => !self@.cache.contains_key(key@) || self@.cache[key@].modified != modified_epoch_secs
                    || self@.cache[key@].size != file_size,
            },
    {
        match self.playlist_cache.lookup(key, modified_epoch_secs, file_size) {
            Some(v) => Some(filter_playable(&v, &self.unplayable_stations)),
            None => None,
        }
    }

    /// Caches the stations just parsed from the playlist `key` with its
    /// signature, and returns them without the unplayable ones.
    pub fn cache_parsed_stations(
        &mut self,
        key: String,
        modified_epoch_secs: u64,
        file_size: u64,
        stations: Vec<Station>,
    ) -> (r: Vec<Station>)
        requires
            old(self).wf(),
        ensures
            final(self).wf(),
            final(self)@ == (AppView {
                cache: old(self)@.cache.insert(
                    key@,
                    CacheEntryView {
                        modified: modified_epoch_secs,
                        size: file_size,
                        stations: stations_view(stations@),
                    },
                ),
                ..old(self)@
            }),
            stations_view(r@) == playable_spec(stations_view(stations@), old(self).unplayable_stations),
    {
        let out = filter_playable(&stations, &self.unplayable_stations);
        self.playlist_cache.insert(
            key,
            PlaylistCacheEntry { modified_epoch_secs, file_size, stations },
        );
        out
    }

    /// Opens the station browser on the stations loaded from
    /// `playlists[index]`, or reports why not.
    pub fn playlist_loaded(&mut self, index: usize, result: Result<Vec<Station>, String>)
        requires
            old(self).wf(),
            index < old(self).playlists@.len(),
        ensures
            final(self).wf(),
            final(self)@ == loaded_step(old(self)@, index, stations_result_view(result)),
    {
        match result {
            Ok(stations) => {
                if stations.len() == 0 {
                    self.status = String::from_str("Playlist without stations");
                } else {
                    self.full_random_mode = false;
                    self.stations = stations;
                    self.station_index = 0;
                    self.station_search_mode = false;
                    self.station_favorites_only = false;
                    self.station_query = String::new();
                    self.playlist_search_mode = false;
                    let path = self.playlists[index].duplicate();
                    let mut st = String::from_str("Loaded ");
                    st.append(path.text.as_str());
                    self.current_playlist = Some(path);
                    self.screen = Screen::StationBrowser;
                    self.status = st;
                }
            },
            Err(e) => {
                let mut st = String::from_str("Cannot parse playlist: ");
                st.append(e.as_str());
                self.status = st;
            },
        }
    }

    /// Reports the saving of the favorites after the mark of the station at
    /// `station_index` was switched.
    pub fn favorite_saved(&mut self, added: bool, station_index: usize, result: Result<(), String>)
        requires
            old(self).wf(),
            station_index < old(self).stations@.len(),
        ensures
            final(self).wf(),
            final(self)@ == (AppView {
                status: favorite_saved_text(
                    added,
                    old(self)@.stations[station_index as int].name,
                    match result {
                        Ok(u) => Ok(u),
                        Err(e) => Err(e@),
                    },
                ),
                ..old(self)@
            }),
    {
        let mut st = String::from_str("Favorite ");
        st.append(if added { "added" } else { "removed" });
        match result {
            Ok(_) => {
                st.append(": ");
            },
            Err(e) => {
                st.append(" but save failed: ");
                st.append(e.as_str());
                assert(st@ == "Favorite "@ + (if added { "added"@ } else { "removed"@ }) + " but save failed: "@ + e@);
                self.status = st;
                return;
            },
        }
        st.append(self.stations[station_index].name.as_str());
        self.status = st;
    }

    /// Reports the outcome of pausing or resuming: `Ok(true)` when now paused.
    pub fn pause_toggled(&mut self, result: Result<bool, String>)
        requires
            old(self).wf(),
        ensures
            final(self).wf(),
            final(self)@ == (AppView {
                status: match result {
                    Ok(true) => "Paused"@,
                    Ok(false) => "Playing"@,
                    Err(e) => e@,
                },
                ..old(self)@
            }),
    {
        match result {
            Ok(paused) => {
                self.status = if paused {
                    String::from_str("Paused")
                } else {
                    String::from_str("Playing")
                };
            },
            Err(e) => {
                self.status = e;
            },
        }
    }

    /// Reports the copy of the example playlist (its path, or the error).
    pub fn bootstrap_done(&mut self, result: Result<String, String>)
        requires
            old(self).wf(),
        ensures
            final(self).wf(),
            final(self)@ == (AppView {
                status: match result {
                    Ok(p) => "Bootstrap copied: "@ + p@,
                    Err(e) => "Bootstrap failed: "@ + e@,
                },
                ..old(self)@
            }),
    {
        let mut st = match result {
            Ok(_) => String::from_str("Bootstrap copied: "),
            Err(_) => String::from_str("Bootstrap failed: "),
        };
        match result {
            Ok(p) => st.append(p.as_str()),
            Err(e) => st.append(e.as_str()),
        }
        self.status = st;
    }

    /// Reports a volume change, in percent.
    pub fn volume_changed(&mut self, percent: u8)
        requires
            old(self).wf(),
        ensures
            final(self).wf(),
            final(self)@ == (AppView { status: "Volume: "@ + decimal(percent as nat) + "%"@, ..old(self)@ }),
    {
        let mut st = String::from_str("Volume: ");
        st.append(crate::text::decimal_string(percent as u64).as_str());
        st.append("%");
        self.status = st;
    }

    /// Reports the end of a mute, with the volume restored, in percent.
    pub fn unmuted(&mut self, percent: u8)
        requires
            old(self).wf(),
        ensures
            final(self).wf(),
            final(self)@ == (AppView { status: "Unmuted: "@ + decimal(percent as nat) + "%"@, ..old(self)@ }),
    {
        let mut st = String::from_str("Unmuted: ");
        st.append(crate::text::decimal_string(percent as u64).as_str());
        st.append("%");
        self.status = st;
    }

    /// Reports a mute.
    pub fn muted(&mut self)
        requires
            old(self).wf(),
        ensures
            final(self).wf(),
            final(self)@ == (AppView { status: "Muted"@, ..old(self)@ }),
    {
        self.status = String::from_str("Muted");
    }

    /// The order in which full random tries the playlists: all of them,
    /// shuffled; `None` (and a message) when there is none.
    pub fn full_random_order(&mut self) -> (r: Option<Vec<usize>>)
        requires
            old(self).wf(),
        ensures
            final(self).wf(),
            old(self)@.playlists.len() == 0 ==> r is None && final(self)@ == (AppView {
                status: "No playlists available for full random"@,
                ..old(self)@
            }),
            old(self)@.playlists.len() > 0 ==> r is Some && final(self)@ == old(self)@ && r->0@.to_multiset()
                == indices_upto(old(self)@.playlists.len()).to_multiset(),
    {
        let n = self.playlists.len();
        if n == 0 {
            self.status = String::from_str("No playlists available for full random");
            return None;
        }
        let mut order: Vec<usize> = Vec::new();
        let mut i: usize = 0;
        while i < n
            invariant
                i <= n,
                order@ == indices_upto(i as nat),
            decreases n - i,
        {
            order.push(i);
            i = i + 1;
            assert(order@ =~= indices_upto(i as nat));
        }
        assert(self@.playlists.len() == n);
        shuffle_in_place(&mut order);
        Some(order)
    }

    /// Full random: starts the station at `station_index` of the stations
    /// loaded from `playlists[index]`.
    pub fn full_random_start(
        &mut self,
        index: usize,
        stations: Vec<Station>,
        station_index: usize,
        now: u64,
    ) -> (r: Reaction)
        requires
            old(self).wf(),
            index < old(self).playlists@.len(),
        ensures
            final(self).wf(),
            (final(self)@, r@) == full_random_start_step(
                old(self)@,
                index,
                stations_view(stations@),
                station_index,
                now,
            ),
    {
        let path = self.playlists[index].duplicate();
        let mut st = String::from_str("Full random from playlist: ");
        let fname: &str = path.file_name.as_str();
        if fname.is_empty() {
            st.append("<unknown>");
        } else {
            st.append(fname);
        }
        self.full_random_mode = true;
        self.stations = stations;
        self.station_index = 0;
        self.station_search_mode = false;
        self.station_favorites_only = false;
        self.station_query = String::new();
        self.current_playlist = Some(path);
        self.status = st;
        self.start_station(station_index, now)
    }

    /// Full random: starts a random station of the (non-empty) stations
    /// loaded from `playlists[index]`.
    pub fn full_random_pick(&mut self, index: usize, stations: Vec<Station>, now: u64) -> (r: Reaction)
        requires
            old(self).wf(),
            index < old(self).playlists@.len(),
            stations@.len() > 0,
        ensures
            final(self).wf(),
            exists|station_index: usize|
                station_index < stations@.len() && (final(self)@, r@) == full_random_start_step(
                    old(self)@,
                    index,
                    stations_view(stations@),
                    station_index,
                    now,
                ),
    {
        let station_index = random_below(stations.len());
        self.full_random_start(index, stations, station_index, now)
    }

    /// Full random found no playlist with stations.
    pub fn full_random_exhausted(&mut self)
        requires
            old(self).wf(),
        ensures
            final(self).wf(),
            final(self)@ == (AppView {
                status: "No valid stations found across playlists for full random"@,
                ..old(self)@
            }),
    {
        self.status = String::from_str("No valid stations found across playlists for full random");
    }
}


// ---------------------------------------------------------------------------
// The favorites browser
// ---------------------------------------------------------------------------

pub open spec fn has_url(s: Seq<StationView>, url: Seq<char>) -> bool {
    exists|i: int| 0 <= i < s.len() && #[trigger] s[i].url == url
}

/// The saved favorites as stations (name and URL), the first one of each URL.
pub open spec fn favorite_stations(favs: Seq<FavoriteView>) -> Seq<StationView>
    decreases favs.len(),
{
    if favs.len() == 0 {
        Seq::empty()
    } else {
        let r = favorite_stations(favs.drop_last());
        let x = favs.last();
        if has_url(r, x.url) {
            r
        } else {
            r.push(StationView { name: x.name, url: x.url })
        }
    }
}

/// The favorites browser: the saved favorites, sorted by lowercased name.
pub open spec fn favorites_opened(v: AppView) -> AppView {
    if v.favorites.len() == 0 {
        AppView { status: "No favorites saved yet"@, ..v }
    } else {
        let found = favorite_stations(v.favorites);
        AppView {
            full_random_mode: false,
            stations: sort_by_name(found),
            station_index: 0,
            selected_station_index: None,
            station_search_mode: false,
            station_favorites_only: false,
            station_query: Seq::empty(),
            current_playlist: None,
            screen: Screen::StationBrowser,
            status: "Favorites loaded: "@ + decimal(found.len()) + " stations"@,
            ..v
        }
    }
}

fn url_collected(v: &Vec<Station>, url: &String) -> (b: bool)
    ensures
        b == has_url(stations_view(v@), url@),
{
    let ghost sv = stations_view(v@);
    let mut i: usize = 0;
    while i < v.len()
        invariant
            i <= v@.len(),
            sv == stations_view(v@),
            forall|j: int| 0 <= j < i ==> sv[j].url != url@,
        decreases v@.len() - i,
    {
        if v[i].url == *url {
            assert(sv[i as int].url == url@);
            return true;
        }
        i = i + 1;
    }
    false
}

/// The saved favorites as stations, the first one of each URL.
pub fn favorites_as_stations(favorites: &Vec<FavoriteEntry>) -> (out: Vec<Station>)
    ensures
        stations_view(out@) == favorite_stations(favorites_view(favorites@)),
{
    let ghost fv = favorites_view(favorites@);
    let mut out: Vec<Station> = Vec::new();
    let mut i: usize = 0;
    assert(favorite_stations(fv.take(0)) =~= Seq::<StationView>::empty());
    while i < favorites.len()
        invariant
            i <= favorites@.len(),
            fv == favorites_view(favorites@),
            stations_view(out@) == favorite_stations(fv.take(i as int)),
        decreases favorites@.len() - i,
    {
        let f = &favorites[i];
        proof {
            let nx = fv.take(i + 1);
            assert(nx.drop_last() =~= fv.take(i as int));
            assert(nx.last() == fv[i as int]);
        }
        if !url_collected(&out, &f.url) {
            let ghost before = out@;
            out.push(Station { name: f.name.clone(), url: f.url.clone() });
            assert(stations_view(out@) =~= stations_view(before).push(
                StationView { name: fv[i as int].name, url: fv[i as int].url },
            ));
        }
        i = i + 1;
    }
    assert(fv.take(fv.len() as int) =~= fv);
    out
}

impl App {
    /// Opens the favorites browser on the saved favorites.
    fn open_favorites_browser(&mut self)
        requires
            old(self).wf(),
        ensures
            final(self).wf(),
            final(self)@ == favorites_opened(old(self)@),
    {
        if self.favorites.len() == 0 {
            self.status = String::from_str("No favorites saved yet");
            return;
        }
        let found = favorites_as_stations(&self.favorites);
        let n = found.len();
        let sorted = sort_stations_by_name(found);
        proof {
            lemma_sort_len(favorite_stations(favorites_view(self.favorites@)));
        }
        self.full_random_mode = false;
        self.stations = sorted;
        self.station_index = 0;
        self.selected_station_index = None;
        self.station_search_mode = false;
        self.station_favorites_only = false;
        self.station_query = String::new();
        self.current_playlist = None;
        self.screen = Screen::StationBrowser;
        let mut st = String::from_str("Favorites loaded: ");
        st.append(crate::text::decimal_string(n as u64).as_str());
        st.append(" stations");
        self.status = st;
    }
}

// ---------------------------------------------------------------------------
// The connection worker and its events
// ---------------------------------------------------------------------------

/// What the connection worker reports.
pub enum ConnectEvent {
    /// The worker is trying a station.
    Attempt { request_id: u64, attempt: usize, total: usize, station_index: usize, station_name: String },
    /// The station answered; `recovered_from` is the error of the last
    /// station tried before, if any, and `failed_urls` the stations that
    /// failed before it.
    Success {
        request_id: u64,
        station_index: usize,
        recovered_from: Option<String>,
        failed_urls: Vec<String>,
    },
    /// No station answered (or the request was not valid); `failed_urls` are
    /// the stations that were tried.
    Failure { request_id: u64, error: String, failed_urls: Vec<String> },
}

pub enum EventView {
    Attempt { request_id: u64, attempt: usize, total: usize, station_index: usize, station_name: Seq<char> },
    Success {
        request_id: u64,
        station_index: usize,
        recovered_from: Option<Seq<char>>,
        failed_urls: Seq<Seq<char>>,
    },
    Failure { request_id: u64, error: Seq<char>, failed_urls: Seq<Seq<char>> },
}

pub open spec fn opt_text(o: Option<String>) -> Option<Seq<char>> {
    match o {
        Some(s) => Some(s@),
        None => None,
    }
}

pub open spec fn texts_view(v: Seq<String>) -> Seq<Seq<char>> {
    v.map_values(|s: String| s@)
}

impl View for ConnectEvent {
    type V = EventView;

    open spec fn view(&self) -> EventView {
        match self {
            ConnectEvent::Attempt { request_id, attempt, total, station_index, station_name } => EventView::Attempt {
                request_id: *request_id,
                attempt: *attempt,
                total: *total,
                station_index: *station_index,
                station_name: station_name@,
            },
            ConnectEvent::Success { request_id, station_index, recovered_from, failed_urls } => EventView::Success {
                request_id: *request_id,
                station_index: *station_index,
                recovered_from: opt_text(*recovered_from),
                failed_urls: texts_view(failed_urls@),
            },
            ConnectEvent::Failure { request_id, error, failed_urls } => EventView::Failure {
                request_id: *request_id,
                error: error@,
                failed_urls: texts_view(failed_urls@),
            },
        }
    }
}

/// What the caller does after an event; the unplayable-station records are
/// to be saved when `save_unplayable`.
pub enum EventReaction {
    /// The event belongs to another request: keep polling.
    Ignored,
    /// The attempt was recorded: keep polling.
    Progress,
    /// Play `station` (at `station_index`), then call `playback_started`.
    Play { station_index: usize, station: Station, recovered_from: Option<String>, save_unplayable: bool },
    /// The request is over: stop polling and drop the channel.
    Finished { save_unplayable: bool },
}

pub enum EventReactionView {
    Ignored,
    Progress,
    Play { station_index: usize, station: StationView, recovered_from: Option<Seq<char>>, save_unplayable: bool },
    Finished { save_unplayable: bool },
}

impl View for EventReaction {
    type V = EventReactionView;

    open spec fn view(&self) -> EventReactionView {
        match self {
            EventReaction::Ignored => EventReactionView::Ignored,
            EventReaction::Progress => EventReactionView::Progress,
            EventReaction::Play { station_index, station, recovered_from, save_unplayable } => EventReactionView::Play {
                station_index: *station_index,
                station: station@,
                recovered_from: opt_text(*recovered_from),
                save_unplayable: *save_unplayable,
            },
            EventReaction::Finished { save_unplayable } => EventReactionView::Finished {
                save_unplayable: *save_unplayable,
            },
        }
    }
}

/// The records after one more failure of `url` at `now` (a count already at
/// `u64::MAX` stays).
pub open spec fn health_after_failure(h: HealthView, url: Seq<char>, now: u64) -> HealthView {
    if h.records.contains_key(url) && h.records[url].fail_count == u64::MAX {
        h
    } else {
        HealthView {
            records: h.records.insert(
                url,
                after_failure(
                    if h.records.contains_key(url) {
                        Some(h.records[url])
                    } else {
                        None
                    },
                    now,
                ),
            ),
            ..h
        }
    }
}

/// The records after a failure of each of `urls` (empty ones left out), in
/// order.
pub open spec fn health_after_failures(h: HealthView, urls: Seq<Seq<char>>, now: u64) -> HealthView
    decreases urls.len(),
{
    if urls.len() == 0 {
        h
    } else {
        let r = health_after_failures(h, urls.drop_last(), now);
        if urls.last().len() == 0 {
            r
        } else {
            health_after_failure(r, urls.last(), now)
        }
    }
}

/// The records once `url` played: its failures stop counting.
pub open spec fn health_after_success(h: HealthView, url: Seq<char>) -> HealthView {
    if h.records.contains_key(url) {
        HealthView { records: h.records.insert(url, RecordView { fail_count: 0, ..h.records[url] }), ..h }
    } else {
        h
    }
}

/// What an event of the worker does.
pub open spec fn connect_event_step(v: AppView, ev: EventView, now: u64) -> (AppView, EventReactionView) {
    match ev {
        EventView::Attempt { request_id, attempt, total, station_index, station_name } => {
            if v.active_request != Some(request_id) {
                (v, EventReactionView::Ignored)
            } else {
                (
                    AppView {
                        is_connecting: true,
                        connect_attempt: attempt,
                        connect_total: total,
                        connect_name: station_name,
                        selected_station_index: Some(station_index),
                        status: connecting_text(attempt as nat, total as nat, station_name),
                        ..v
                    },
                    EventReactionView::Progress,
                )
            }
        },
        EventView::Success { request_id, station_index, recovered_from, failed_urls } => {
            if v.active_request != Some(request_id) {
                (v, EventReactionView::Ignored)
            } else {
                let w = AppView {
                    is_connecting: false,
                    active_request: None,
                    health: health_after_failures(v.health, failed_urls, now),
                    ..v
                };
                if station_index >= v.stations.len() {
                    (
                        AppView {
                            status: "Resolved station is no longer available"@,
                            listening: false,
                            ..w
                        },
                        EventReactionView::Finished { save_unplayable: failed_urls.len() > 0 },
                    )
                } else {
                    (
                        w,
                        EventReactionView::Play {
                            station_index,
                            station: v.stations[station_index as int],
                            recovered_from,
                            save_unplayable: failed_urls.len() > 0,
                        },
                    )
                }
            }
        },
        EventView::Failure { request_id, error, failed_urls } => {
            if v.active_request != Some(request_id) {
                (v, EventReactionView::Ignored)
            } else {
                (
                    AppView {
                        health: health_after_failures(v.health, failed_urls, now),
                        is_connecting: false,
                        active_request: None,
                        listening: false,
                        status: error,
                        ..v
                    },
                    EventReactionView::Finished { save_unplayable: failed_urls.len() > 0 },
                )
            }
        },
    }
}

/// The message once a station plays.
pub open spec fn playing_text(name: Seq<char>, recovered_from: Option<Seq<char>>) -> Seq<char> {
    match recovered_from {
        Some(e) => "Recovered: playing "@ + name + " after failover ("@ + e + ")"@,
        None => "Playing "@ + name,
    }
}

/// The state once the audio output was asked to play the resolved station.
pub open spec fn playback_started_step(
    v: AppView,
    station_index: usize,
    station: StationView,
    recovered_from: Option<Seq<char>>,
    result: Result<(), Seq<char>>,
    now: u64,
) -> AppView {
    match result {
        Ok(_) => AppView {
            selected_station_index: Some(station_index),
            session: Some(SessionView { name: station.name, url: station.url, started: now }),
            status: playing_text(station.name, recovered_from),
            health: health_after_success(v.health, station.url),
            listening: false,
            ..v
        },
        Err(e) => AppView { status: "Playback start failed after connect: "@ + e, listening: false, ..v },
    }
}

/// The worker of one connection request: it tries the stations one after
/// the other (randomly with shuffle) until one answers or every station had
/// its turn, and remembers the stations that failed.
pub struct ConnectWorker {
    pub request_id: u64,
    pub stations: Vec<Station>,
    pub shuffle: bool,
    pub candidate: usize,
    pub retries_left: usize,
    pub last_err: Option<String>,
    pub attempt: usize,
    pub failed: Vec<String>,
    /// The request was given up: nothing more is probed or reported.
    pub cancelled: bool,
}

/// What the worker does next.
pub enum WorkerStep {
    /// Report `event` (an attempt), then probe `url`.
    Probe { event: ConnectEvent, url: String },
    /// Report `event` (a failure) and stop.
    Done { event: ConnectEvent },
    /// The request was cancelled: stop without probing or reporting.
    Cancelled,
}

pub open spec fn failure_text(timeout_secs: u64, err: Seq<char>) -> Seq<char> {
    "Playback error after retries (timeout "@ + decimal(
        if timeout_secs >= 1 {
            timeout_secs as nat
        } else {
            1
        },
    ) + "s): "@ + err
}

fn copy_texts(v: &Vec<String>) -> (out: Vec<String>)
    ensures
        texts_view(out@) == texts_view(v@),
{
    let mut out: Vec<String> = Vec::new();
    let mut i: usize = 0;
    while i < v.len()
        invariant
            i <= v@.len(),
            out@.len() == i,
            forall|j: int| 0 <= j < i ==> #[trigger] out@[j]@ == v@[j]@,
        decreases v@.len() - i,
    {
        out.push(v[i].clone());
        i = i + 1;
    }
    assert(texts_view(out@) =~= texts_view(v@));
    out
}

impl ConnectWorker {
    /// Every try counts: the attempts made and those left add up to the
    /// number of stations, and every failed attempt is remembered.
    pub open spec fn wf(&self) -> bool {
        &&& self.stations@.len() > 0 ==> self.attempt + self.retries_left == self.stations@.len()
        &&& self.attempt >= 1
        &&& self.stations@.len() > 0 ==> self.candidate < self.stations@.len()
        &&& self.failed@.len() + 1 == self.attempt
    }

    /// A worker for `plan`, first trying its candidate.
    pub fn new(plan: ConnectPlan) -> (w: ConnectWorker)
        requires
            plan.stations@.len() > 0 ==> plan.candidate < plan.stations@.len(),
        ensures
            w.wf(),
            w.request_id == plan.request_id,
            stations_view(w.stations@) == stations_view(plan.stations@),
            w.shuffle == plan.shuffle,
            w.candidate == plan.candidate,
            w.retries_left == (if plan.stations@.len() > 0 {
                plan.stations@.len() - 1
            } else {
                0
            }),
            w.last_err is None,
            w.attempt == 1,
            w.failed@.len() == 0,
            !w.cancelled,
    {
        let total = plan.stations.len();
        ConnectWorker {
            request_id: plan.request_id,
            stations: plan.stations,
            shuffle: plan.shuffle,
            candidate: plan.candidate,
            retries_left: if total > 0 { total - 1 } else { 0 },
            last_err: None,
            attempt: 1,
            failed: Vec::new(),
            cancelled: false,
        }
    }

    /// Gives the request up: from now on the worker probes no station and
    /// reports nothing.
    pub fn cancel(&mut self)
        requires
            old(self).wf(),
        ensures
            final(self).wf(),
            final(self).cancelled,
            final(self).request_id == old(self).request_id,
            final(self).stations == old(self).stations,
            final(self).shuffle == old(self).shuffle,
            final(self).candidate == old(self).candidate,
            final(self).retries_left == old(self).retries_left,
            final(self).attempt == old(self).attempt,
            final(self).failed == old(self).failed,
            final(self).last_err == old(self).last_err,
    {
        self.cancelled = true;
    }

    /// The next thing to do: nothing once cancelled; else try the candidate,
    /// or fail when there is none.
    pub fn next_step(&self) -> (s: WorkerStep)
        requires
            self.wf(),
        ensures
            self.cancelled ==> s is Cancelled,
            !self.cancelled && self.candidate < self.stations@.len() ==> (s matches WorkerStep::Probe { event, url } && event@
                == (EventView::Attempt {
                request_id: self.request_id,
                attempt: self.attempt,
                total: self.stations@.len() as usize,
                station_index: self.candidate,
                station_name: self.stations@[self.candidate as int].name@,
            }) && url@ == self.stations@[self.candidate as int].url@),
            !self.cancelled && self.candidate >= self.stations@.len() ==> (s matches WorkerStep::Done { event } && event@
                == (EventView::Failure {
                request_id: self.request_id,
                error: "Invalid station index"@,
                failed_urls: texts_view(self.failed@),
            })),
    {
        if self.cancelled {
            return WorkerStep::Cancelled;
        }
        if self.candidate < self.stations.len() {
            let st = &self.stations[self.candidate];
            WorkerStep::Probe {
                event: ConnectEvent::Attempt {
                    request_id: self.request_id,
                    attempt: self.attempt,
                    total: self.stations.len(),
                    station_index: self.candidate,
                    station_name: st.name.clone(),
                },
                url: st.url.clone(),
            }
        } else {
            WorkerStep::Done {
                event: ConnectEvent::Failure {
                    request_id: self.request_id,
                    error: String::from_str("Invalid station index"),
                    failed_urls: copy_texts(&self.failed),
                },
            }
        }
    }

    /// Takes the outcome of probing the candidate: once cancelled it is
    /// dropped (nothing changes and nothing is reported); else a success ends
    /// the request; a failure is remembered and moves on to the next candidate
    /// while tries are left (`None`), and ends the request otherwise.
    pub fn probe_finished(&mut self, result: Result<(), String>, timeout_secs: u64) -> (ev: Option<
        ConnectEvent,
    >)
        requires
            old(self).wf(),
            old(self).candidate < old(self).stations@.len(),
        ensures
            (ev is None || result is Ok) ==> final(self).wf(),
            final(self).request_id == old(self).request_id,
            final(self).stations == old(self).stations,
            final(self).shuffle == old(self).shuffle,
            final(self).cancelled == old(self).cancelled,
            old(self).cancelled ==> ev is None && *final(self) == *old(self),
            !old(self).cancelled ==> match result {
                Ok(_) => ev matches Some(e) && e@ == (EventView::Success {
                    request_id: old(self).request_id,
                    station_index: old(self).candidate,
                    recovered_from: opt_text(old(self).last_err),
                    failed_urls: texts_view(old(self).failed@),
                }),
                Err(err) => {
                    &&& opt_text(final(self).last_err) == Some(err@)
                    &&& texts_view(final(self).failed@) == texts_view(old(self).failed@).push(
                        old(self).stations@[old(self).candidate as int].url@,
                    )
                    &&& if old(self).retries_left == 0 {
                        ev matches Some(e) && e@ == (EventView::Failure {
                            request_id: old(self).request_id,
                            error: failure_text(timeout_secs, err@),
                            failed_urls: texts_view(final(self).failed@),
                        })
                    } else {
                        &&& ev is None
                        &&& final(self).retries_left == old(self).retries_left - 1
                        &&& final(self).attempt == old(self).attempt + 1
                        &&& exists|draw: usize|
                            draw < old(self).stations@.len() && final(self).candidate == next_index(
                                old(self).candidate,
                                old(self).stations@.len(),
                                old(self).shuffle,
                                draw,
                            )
                    }
                },
            },
    {
        if self.cancelled {
            return None;
        }
        match result {
            Ok(_) => {
                let recovered = self.last_err.take();
                Some(
                    ConnectEvent::Success {
                        request_id: self.request_id,
                        station_index: self.candidate,
                        recovered_from: recovered,
                        failed_urls: copy_texts(&self.failed),
                    },
                )
            },
            Err(err) => {
                let ghost before = texts_view(self.failed@);
                let url = self.stations[self.candidate].url.clone();
                self.failed.push(url);
                assert(texts_view(self.failed@) =~= before.push(
                    self.stations@[self.candidate as int].url@,
                ));
                if self.retries_left == 0 {
                    let mut msg = String::from_str("Playback error after retries (timeout ");
                    let t: u64 = if timeout_secs >= 1 {
                        timeout_secs
                    } else {
                        1
                    };
                    msg.append(crate::text::decimal_string(t).as_str());
                    msg.append("s): ");
                    msg.append(err.as_str());
                    self.last_err = Some(err);
                    Some(
                        ConnectEvent::Failure {
                            request_id: self.request_id,
                            error: msg,
                            failed_urls: copy_texts(&self.failed),
                        },
                    )
                } else {
                    self.last_err = Some(err);
                    self.retries_left = self.retries_left - 1;
                    self.candidate = next_candidate_index(self.candidate, self.stations.len(), self.shuffle);
                    self.attempt = self.attempt + 1;
                    None
                }
            },
        }
    }
}

// ---------------------------------------------------------------------------
// Health of the playback
// ---------------------------------------------------------------------------

/// What the audio output tells at a tick.
#[derive(Clone, Copy, Debug, PartialEq, Eq, Structural)]
pub struct PlayerObservation {
    pub is_paused: bool,
    pub has_active_stream: bool,
    pub output_changed: bool,
    pub stream_ended: bool,
    pub last_progress: Option<u64>,
}

/// Why playback moves on by itself.
#[derive(Clone, Copy, Debug, PartialEq, Eq, Structural)]
pub enum FailoverReason {
    StreamEnded,
    AudioStalled,
}

pub open spec fn reason_text(r: FailoverReason) -> Seq<char> {
    match r {
        FailoverReason::StreamEnded => "Stream ended"@,
        FailoverReason::AudioStalled => "Audio stalled"@,
    }
}

/// What the health check asks for.
#[derive(Clone, Copy, Debug, PartialEq, Eq, Structural)]
pub enum HealthAction {
    Nothing,
    /// The default audio output changed: reconnect the current station
    /// (`begin_output_recovery`).
    RecoverOutput,
    /// Move on (`auto_failover`).
    Failover(FailoverReason),
}

/// Seconds without audio after which a stream counts as stalled.
pub const PLAYBACK_STALL_TIMEOUT_SECS: u64 = 10;

/// Seconds to wait between two reconnections after an output change.
pub const OUTPUT_SWITCH_RECOVERY_COOLDOWN_SECS: u64 = 8;

pub open spec fn sat_sub(a: u64, b: u64) -> u64 {
    if a >= b {
        (a - b) as u64
    } else {
        0
    }
}

pub open spec fn health_check_spec(v: AppView, obs: PlayerObservation, now: u64) -> HealthAction {
    if v.is_connecting || v.active_request is Some {
        HealthAction::Nothing
    } else if obs.is_paused || !obs.has_active_stream {
        HealthAction::Nothing
    } else if v.selected_station_index is None {
        HealthAction::Nothing
    } else if obs.output_changed {
        HealthAction::RecoverOutput
    } else if obs.stream_ended {
        HealthAction::Failover(FailoverReason::StreamEnded)
    } else {
        match obs.last_progress {
            None => HealthAction::Nothing,
            Some(p) => if sat_sub(now, p) >= PLAYBACK_STALL_TIMEOUT_SECS {
                HealthAction::Failover(FailoverReason::AudioStalled)
            } else {
                HealthAction::Nothing
            },
        }
    }
}

/// The name shown for the current station in messages.
pub open spec fn selected_name(v: AppView) -> Seq<char> {
    match v.selected_station_index {
        Some(i) if i < v.stations.len() => v.stations[i as int].name,
        _ => "<unknown>"@,
    }
}

/// Moving on by itself: full random picks again, a single station stops,
/// otherwise the next station is tried (`draw` as in `next_index`).
pub open spec fn failover_step(v: AppView, reason: FailoverReason, now: u64, draw: usize) -> (
    AppView,
    ReactionView,
) {
    let lead = reason_text(reason) + " on "@ + selected_name(v);
    if v.full_random_mode {
        (
            AppView { status: lead + ". Auto-reconnect: full random next pick"@, ..v },
            only(Command::StartFullRandom),
        )
    } else if v.stations.len() <= 1 {
        let s = stopped(v, now);
        (
            AppView { status: lead + ". No alternative station available"@, ..s },
            stop_reaction(v, Command::Nothing),
        )
    } else {
        next_station_step(AppView { status: lead + ". Auto-reconnect to next station"@, ..v }, now, draw)
    }
}

/// Reconnecting after an output change: `None` (and no change) during the
/// cooldown or without a current station; otherwise the station to play.
pub open spec fn output_recovery_step(v: AppView, now: u64) -> (AppView, Option<(usize, StationView)>) {
    if v.last_recovery matches Some(last) && sat_sub(now, last) < OUTPUT_SWITCH_RECOVERY_COOLDOWN_SECS {
        (v, None)
    } else {
        match v.selected_station_index {
            Some(i) if i < v.stations.len() => (
                AppView {
                    last_recovery: Some(now),
                    status: "Audio output changed. Reconnecting current station..."@,
                    ..v
                },
                Some((i, v.stations[i as int])),
            ),
            _ => (v, None),
        }
    }
}

impl App {
    /// Whether a connection is in progress and its events are awaited.
    pub fn is_polling(&self) -> (b: bool)
        ensures
            b == (self.active_connect_request_id is Some && self.listening),
    {
        self.active_connect_request_id.is_some() && self.listening
    }

    /// Handles an event of the connection worker at `now`.
    pub fn handle_connect_event(&mut self, event: ConnectEvent, now: u64) -> (r: EventReaction)
        requires
            old(self).wf(),
        ensures
            final(self).wf(),
            (final(self)@, r@) == connect_event_step(old(self)@, event@, now),
    {
        match event {
            ConnectEvent::Attempt { request_id, attempt, total, station_index, station_name } => {
                self.on_attempt(request_id, attempt, total, station_index, station_name)
            },
            ConnectEvent::Success { request_id, station_index, recovered_from, failed_urls } => {
                self.on_success(request_id, station_index, recovered_from, failed_urls, now)
            },
            ConnectEvent::Failure { request_id, error, failed_urls } => {
                self.on_failure(request_id, error, failed_urls, now)
            },
        }
    }

    fn on_attempt(
        &mut self,
        request_id: u64,
        attempt: usize,
        total: usize,
        station_index: usize,
        station_name: String,
    ) -> (r: EventReaction)
        requires
            old(self).wf(),
        ensures
            final(self).wf(),
            (final(self)@, r@) == connect_event_step(
                old(self)@,
                EventView::Attempt { request_id, attempt, total, station_index, station_name: station_name@ },
                0,
            ),
    {
        if self.active_connect_request_id != Some(request_id) {
            return EventReaction::Ignored;
        }
        self.is_connecting = true;
        self.connect_attempt = attempt;
        self.connect_total = total;
        self.selected_station_index = Some(station_index);
        let mut st = String::from_str("Connecting ");
        st.append(crate::text::decimal_string(attempt as u64).as_str());
        st.append("/");
        st.append(crate::text::decimal_string(total as u64).as_str());
        st.append(": ");
        st.append(station_name.as_str());
        self.connect_station_name = station_name;
        self.status = st;
        EventReaction::Progress
    }

    fn on_success(
        &mut self,
        request_id: u64,
        station_index: usize,
        recovered_from: Option<String>,
        failed_urls: Vec<String>,
        now: u64,
    ) -> (r: EventReaction)
        requires
            old(self).wf(),
        ensures
            final(self).wf(),
            (final(self)@, r@) == connect_event_step(
                old(self)@,
                EventView::Success {
                    request_id,
                    station_index,
                    recovered_from: opt_text(recovered_from),
                    failed_urls: texts_view(failed_urls@),
                },
                now,
            ),
    {
        if self.active_connect_request_id != Some(request_id) {
            return EventReaction::Ignored;
        }
        self.is_connecting = false;
        self.active_connect_request_id = None;
        self.record_failures(&failed_urls, now);
        let save = failed_urls.len() > 0;
        if station_index >= self.stations.len() {
            self.status = String::from_str("Resolved station is no longer available");
            self.listening = false;
            return EventReaction::Finished { save_unplayable: save };
        }
        EventReaction::Play {
            station_index,
            station: self.stations[station_index].duplicate(),
            recovered_from,
            save_unplayable: save,
        }
    }

    fn on_failure(&mut self, request_id: u64, error: String, failed_urls: Vec<String>, now: u64) -> (r:
        EventReaction)
        requires
            old(self).wf(),
        ensures
            final(self).wf(),
            (final(self)@, r@) == connect_event_step(
                old(self)@,
                EventView::Failure { request_id, error: error@, failed_urls: texts_view(failed_urls@) },
                now,
            ),
    {
        if self.active_connect_request_id != Some(request_id) {
            return EventReaction::Ignored;
        }
        self.record_failures(&failed_urls, now);
        self.is_connecting = false;
        self.active_connect_request_id = None;
        self.listening = false;
        self.status = error;
        EventReaction::Finished { save_unplayable: failed_urls.len() > 0 }
    }

    /// One more failure of each of `urls` at `now`, empty ones left out.
    fn record_failures(&mut self, urls: &Vec<String>, now: u64)
        requires
            old(self).wf(),
        ensures
            final(self).wf(),
            final(self)@ == (AppView {
                health: health_after_failures(old(self)@.health, texts_view(urls@), now),
                ..old(self)@
            }),
    {
        let ghost v0 = self@;
        let ghost tv = texts_view(urls@);
        let mut i: usize = 0;
        assert(tv.take(0) =~= Seq::<Seq<char>>::empty());
        while i < urls.len()
            invariant
                i <= urls@.len(),
                tv == texts_view(urls@),
                self.wf(),
                self@ == (AppView { health: health_after_failures(v0.health, tv.take(i as int), now), ..v0 }),
            decreases urls@.len() - i,
        {
            proof {
                let nx = tv.take(i + 1);
                assert(nx.drop_last() =~= tv.take(i as int));
                assert(nx.last() == tv[i as int]);
            }
            let u: &str = urls[i].as_str();
            if !u.is_empty() {
                self.record_failure(u, now);
            }
            i = i + 1;
        }
        assert(tv.take(tv.len() as int) =~= tv);
    }

    /// One more failure of `url` at `now` (a count at `u64::MAX` stays).
    fn record_failure(&mut self, url: &str, now: u64)
        requires
            old(self).wf(),
        ensures
            final(self).wf(),
            final(self)@ == (AppView { health: health_after_failure(old(self)@.health, url@, now), ..old(self)@ }),
    {
        let ghost h0 = self@.health;
        let ghost s0 = self.unplayable_stations;
        if self.unplayable_stations.fail_count_of(url) < u64::MAX {
            self.unplayable_stations.record_station_failure(url, now);
            proof {
                let s1 = self.unplayable_stations;
                assert(health_view(s1).records =~= health_after_failure(h0, url@, now).records) by {
                    assert forall|u: Seq<char>| #![auto] health_view(s1).records.contains_key(u)
                        == health_after_failure(h0, url@, now).records.contains_key(u) by {
                        if u != url@ {
                            assert(s1.record_of(u) == s0.record_of(u));
                        }
                    }
                    assert forall|u: Seq<char>| #![auto] health_view(s1).records.contains_key(u)
                        implies health_view(s1).records[u] == health_after_failure(h0, url@, now).records[u] by {
                        if u != url@ {
                            assert(s1.record_of(u) == s0.record_of(u));
                        }
                    }
                }
            }
        } else {
            proof {
                assert(h0.records.contains_key(url@));
            }
        }
    }

    /// `url` played: its failures stop counting.
    fn clear_failures(&mut self, url: &str)
        requires
            old(self).wf(),
        ensures
            final(self).wf(),
            final(self)@ == (AppView { health: health_after_success(old(self)@.health, url@), ..old(self)@ }),
    {
        let ghost h0 = self@.health;
        let ghost s0 = self.unplayable_stations;
        self.unplayable_stations.clear_station_failures(url);
        proof {
            let s1 = self.unplayable_stations;
            assert(health_view(s1).records =~= health_after_success(h0, url@).records) by {
                assert forall|u: Seq<char>| #![auto] health_view(s1).records.contains_key(u)
                    == health_after_success(h0, url@).records.contains_key(u) by {
                    if u != url@ {
                        assert(s1.record_of(u) == s0.record_of(u));
                    }
                }
                assert forall|u: Seq<char>| #![auto] health_view(s1).records.contains_key(u)
                    implies health_view(s1).records[u] == health_after_success(h0, url@).records[u] by {
                    if u != url@ {
                        assert(s1.record_of(u) == s0.record_of(u));
                    }
                }
            }
        }
    }

    /// Once the resolved station was handed to the audio output at `now`
    /// (with this result), the session starts and the station's failures
    /// stop counting, or the error is shown; the request is over. Returns
    /// whether the unplayable-station records are to be saved.
    pub fn playback_started(
        &mut self,
        station_index: usize,
        station: Station,
        recovered_from: Option<String>,
        result: Result<(), String>,
        now: u64,
    ) -> (save_unplayable: bool)
        requires
            old(self).wf(),
        ensures
            final(self).wf(),
            final(self)@ == playback_started_step(
                old(self)@,
                station_index,
                station@,
                opt_text(recovered_from),
                match result {
                    Ok(u) => Ok(u),
                    Err(e) => Err(e@),
                },
                now,
            ),
            save_unplayable == (result is Ok && old(self)@.health.records.contains_key(station@.url)),
    {
        let save = match result {
            Ok(_) => {
                let known = self.unplayable_stations.has_record(station.url.as_str());
                self.clear_failures(station.url.as_str());
                self.selected_station_index = Some(station_index);
                let mut st = match recovered_from {
                    Some(_) => String::from_str("Recovered: playing "),
                    None => String::from_str("Playing "),
                };
                st.append(station.name.as_str());
                match recovered_from {
                    Some(e) => {
                        st.append(" after failover (");
                        st.append(e.as_str());
                        st.append(")");
                    },
                    None => {},
                }
                self.playback_session = Some(
                    PlaybackSession { name: station.name, url: station.url, started_at_epoch_secs: now },
                );
                self.status = st;
                known
            },
            Err(e) => {
                let mut st = String::from_str("Playback start failed after connect: ");
                st.append(e.as_str());
                self.status = st;
                false
            },
        };
        self.listening = false;
        save
    }

    /// The worker went away without a final event.
    pub fn worker_disconnected(&mut self)
        requires
            old(self).wf(),
        ensures
            final(self).wf(),
            final(self)@ == (AppView {
                is_connecting: false,
                active_request: None,
                listening: false,
                status: "Connection worker disconnected"@,
                ..old(self)@
            }),
    {
        self.is_connecting = false;
        self.active_connect_request_id = None;
        self.listening = false;
        self.status = String::from_str("Connection worker disconnected");
    }

    /// The spinner moves on by one frame.
    pub fn on_tick(&mut self)
        requires
            old(self).wf(),
        ensures
            final(self).wf(),
            final(self)@ == (AppView {
                spinner: ((old(self)@.spinner + 1) % (SPINNER_FRAME_COUNT as int)) as usize,
                ..old(self)@
            }),
    {
        self.connect_spinner_index = if self.connect_spinner_index + 1 < SPINNER_FRAME_COUNT {
            self.connect_spinner_index + 1
        } else {
            0
        };
    }

    /// `Trying <attempt>/<total>: <name>` with the spinner, while connecting.
    pub fn connection_progress_label(&self) -> (r: Option<String>)
        requires
            self.wf(),
        ensures
            !self.is_connecting ==> r is None,
            self.is_connecting ==> (r matches Some(s) && s@ == progress_text(
                self.connect_spinner_index as nat,
                self.connect_attempt as nat,
                self.connect_total as nat,
                self.connect_station_name@,
            )),
    {
        if !self.is_connecting {
            return None;
        }
        Some(
            connection_progress_text(
                self.connect_spinner_index,
                self.connect_attempt,
                self.connect_total,
                self.connect_station_name.as_str(),
            ),
        )
    }

    /// `Connecting`, `Stopped`, `Paused` or `Playing`, given what the audio
    /// output tells.
    pub fn playback_state_label(&self, has_active_stream: bool, is_paused: bool) -> (r: &'static str)
        ensures
            r@ == playback_state_text(self.is_connecting, has_active_stream, is_paused),
    {
        crate::labels::playback_state_label(self.is_connecting, has_active_stream, is_paused)
    }

    /// The rows of the history screen at `now`.
    pub fn history_view_items(&self, now: u64) -> (r: Vec<HistoryViewItem>)
        ensures
            history_rows_ok(items_view(r@), self@.history, self@.favorites, now),
    {
        history_view_items(&self.history, &self.favorites, now)
    }

    /// Whether the playback needs help, from what the audio output tells at
    /// `now`.
    pub fn health_check(&self, obs: PlayerObservation, now: u64) -> (a: HealthAction)
        ensures
            a == health_check_spec(self@, obs, now),
    {
        if self.is_connecting || self.active_connect_request_id.is_some() {
            return HealthAction::Nothing;
        }
        if obs.is_paused || !obs.has_active_stream {
            return HealthAction::Nothing;
        }
        if self.selected_station_index.is_none() {
            return HealthAction::Nothing;
        }
        if obs.output_changed {
            return HealthAction::RecoverOutput;
        }
        if obs.stream_ended {
            return HealthAction::Failover(FailoverReason::StreamEnded);
        }
        match obs.last_progress {
            None => HealthAction::Nothing,
            Some(p) => if now.saturating_sub(p) >= PLAYBACK_STALL_TIMEOUT_SECS {
                HealthAction::Failover(FailoverReason::AudioStalled)
            } else {
                HealthAction::Nothing
            },
        }
    }

    /// After an output change: outside the cooldown and with a current
    /// station, records the attempt and returns the station to play again.
    pub fn begin_output_recovery(&mut self, now: u64) -> (r: Option<(usize, Station)>)
        requires
            old(self).wf(),
        ensures
            final(self).wf(),
            final(self)@ == output_recovery_step(old(self)@, now).0,
            match (r, output_recovery_step(old(self)@, now).1) {
                (Some((i, st)), Some((j, sv))) => i == j && st@ == sv,
                (None, None) => true,
                _ => false,
            },
    {
        match self.last_output_recovery_epoch_secs {
            Some(last) => {
                if now.saturating_sub(last) < OUTPUT_SWITCH_RECOVERY_COOLDOWN_SECS {
                    return None;
                }
            },
            None => {},
        }
        match self.selected_station_index {
            Some(i) => {
                if i < self.stations.len() {
                    self.last_output_recovery_epoch_secs = Some(now);
                    self.status = String::from_str("Audio output changed. Reconnecting current station...");
                    Some((i, self.stations[i].duplicate()))
                } else {
                    None
                }
            },
            None => None,
        }
    }

    /// Reports the reconnection of `station` (at `station_index`) after an
    /// output change.
    pub fn output_recovery_done(&mut self, station_index: usize, station: &Station, result: Result<(), String>)
        requires
            old(self).wf(),
        ensures
            final(self).wf(),
            final(self)@ == (match result {
                Ok(_) => AppView {
                    selected_station_index: Some(station_index),
                    status: "Audio output reconnected: "@ + station@.name,
                    ..old(self)@
                },
                Err(e) => AppView {
                    status: "Audio output reconnect failed ("@ + e@ + "). Waiting before retry..."@,
                    ..old(self)@
                },
            }),
    {
        match result {
            Ok(_) => {
                self.selected_station_index = Some(station_index);
                let mut st = String::from_str("Audio output reconnected: ");
                st.append(station.name.as_str());
                self.status = st;
            },
            Err(e) => {
                let mut st = String::from_str("Audio output reconnect failed (");
                st.append(e.as_str());
                st.append("). Waiting before retry...");
                self.status = st;
            },
        }
    }

    fn selected_name_text(&self) -> (s: String)
        ensures
            s@ == selected_name(self@),
    {
        match self.selected_station_name() {
            Some(n) => String::from_str(n),
            None => String::from_str("<unknown>"),
        }
    }

    /// Moves on by itself because of `reason`, with `draw` as the random
    /// pick of the next station.
    pub fn auto_failover_with(&mut self, reason: FailoverReason, draw: usize, now: u64) -> (r: Reaction)
        requires
            old(self).wf(),
            old(self).stations@.len() > 0 ==> draw < old(self).stations@.len(),
        ensures
            final(self).wf(),
            (final(self)@, r@) == failover_step(old(self)@, reason, now, draw),
    {
        let mut lead = String::from_str(match reason {
            FailoverReason::StreamEnded => "Stream ended",
            FailoverReason::AudioStalled => "Audio stalled",
        });
        lead.append(" on ");
        lead.append(self.selected_name_text().as_str());
        if self.full_random_mode {
            lead.append(". Auto-reconnect: full random next pick");
            self.status = lead;
            return reply(Command::StartFullRandom);
        }
        if self.stations.len() <= 1 {
            let saved = self.stop_playback(now);
            lead.append(". No alternative station available");
            self.status = lead;
            return Reaction { command: Command::Nothing, save_history: saved, stop_player: true, connect: None };
        }
        lead.append(". Auto-reconnect to next station");
        self.status = lead;
        self.start_next_station(draw, now)
    }

    /// Moves on by itself because of `reason`.
    pub fn auto_failover(&mut self, reason: FailoverReason, now: u64) -> (r: Reaction)
        requires
            old(self).wf(),
        ensures
            final(self).wf(),
            exists|draw: usize|
                (old(self)@.stations.len() > 0 ==> draw < old(self)@.stations.len()) && (final(self)@, r@)
                    == failover_step(old(self)@, reason, now, draw),
    {
        let draw = if self.shuffle && self.stations.len() > 1 {
            random_below(self.stations.len())
        } else {
            0
        };
        self.auto_failover_with(reason, draw, now)
    }
}


// ---------------------------------------------------------------------------
// Laws
// ---------------------------------------------------------------------------

/// The request an event belongs to.
pub open spec fn event_request(ev: EventView) -> u64 {
    match ev {
        EventView::Attempt { request_id, .. } => request_id,
        EventView::Success { request_id, .. } => request_id,
        EventView::Failure { request_id, .. } => request_id,
    }
}

/// An event of a request other than the active one changes nothing and is
/// ignored.
pub proof fn lemma_stale_events_ignored(v: AppView, ev: EventView, now: u64)
    requires
        v.active_request != Some(event_request(ev)),
    ensures
        connect_event_step(v, ev, now) == (v, EventReactionView::Ignored),
{
}

/// Once playback is stopped (leaving the player, quitting, a failover
/// without alternative), every event of the connection worker is ignored.
pub proof fn lemma_stopping_cancels_the_request(v: AppView, now: u64, ev: EventView, later: u64)
    ensures
        connect_event_step(stopped(v, now), ev, later) == (stopped(v, now), EventReactionView::Ignored),
{
}

/// Starting a station makes a new request, with the identifier that was
/// next, hands it to the worker, and opens the player; the events of any
/// other request are ignored from then on.
pub proof fn lemma_start_makes_a_new_request(v: AppView, index: usize, now: u64, ev: EventView)
    requires
        v.stations.len() > 0,
        event_request(ev) != v.next_request,
    ensures
        start_station_step(v, index, now).0.active_request == Some(v.next_request),
        v.next_request < u64::MAX ==> start_station_step(v, index, now).0.next_request == v.next_request + 1,
        start_station_step(v, index, now).1.connect matches Some(p) && p.request_id == v.next_request
            && p.candidate < v.stations.len() && p.stations == v.stations,
        start_station_step(v, index, now).0.screen == Screen::Player,
        start_station_step(v, index, now).0.is_connecting,
        connect_event_step(start_station_step(v, index, now).0, ev, now).1 == EventReactionView::Ignored,
{
}

/// The next station is a station of the list; with shuffle and two or more
/// stations it is never the current one, without shuffle it is the
/// following one (the first after the last).
pub proof fn lemma_next_index(current: usize, len: nat, shuffle: bool, draw: usize)
    requires
        0 < len <= usize::MAX,
        draw < len,
    ensures
        next_index(current, len, shuffle, draw) < len,
        shuffle && len >= 2 && current < len ==> next_index(current, len, shuffle, draw) != current,
        !shuffle ==> next_index(current, len, shuffle, draw) == (current + 1) % (len as int),
{
    if shuffle && len >= 2 && draw == current {
        if draw + 1 < len {
            vstd::arithmetic::div_mod::lemma_small_mod((draw + 1) as nat, len);
        } else {
            vstd::arithmetic::div_mod::lemma_mod_self_0(len as int);
        }
    }
    assert(0 <= (current + 1) % (len as int) < len) by {
        vstd::arithmetic::div_mod::lemma_mod_bound((current + 1) as int, len as int);
    }
    assert(0 <= (draw + 1) % (len as int) < len) by {
        vstd::arithmetic::div_mod::lemma_mod_bound((draw + 1) as int, len as int);
    }
}

/// `?` opens the help from any other screen, and leaving the help goes back
/// to that screen, the help scrolled to the top.
pub proof fn lemma_help_round_trip(v: AppView, now: u64, draw: usize, rows: Seq<ItemView>, leave: Key)
    requires
        v.screen != Screen::Help,
        is_leave(leave) || leave == Key::Char('?'),
    ensures
        key_step(v, Key::Char('?'), now, draw, rows).0.screen == Screen::Help,
        key_step(v, Key::Char('?'), now, draw, rows).0.help_scroll == 0,
        key_step(key_step(v, Key::Char('?'), now, draw, rows).0, leave, now, draw, rows).0 == (AppView {
            previous_screen: v.screen,
            help_scroll: 0,
            ..v
        }),
{
}

/// Outside the search fields, letter shortcuts ignore case: on every screen
/// a letter and its capital do the same.
pub proof fn lemma_shortcuts_ignore_case(
    v: AppView,
    lower: char,
    upper: char,
    now: u64,
    draw: usize,
    rows: Seq<ItemView>,
)
    requires
        'a' <= lower <= 'z',
        upper as int == lower as int - 32,
        !(v.screen == Screen::PlaylistBrowser && v.playlist_search_mode),
        !(v.screen == Screen::StationBrowser && v.station_search_mode),
    ensures
        key_step(v, Key::Char(lower), now, draw, rows) == key_step(v, Key::Char(upper), now, draw, rows),
{
}

/// In the station search, typing a character and erasing it gives the
/// query back (for characters that are typed, not taken as commands).
pub proof fn lemma_type_then_erase(v: AppView, c: char, now: u64)
    requires
        v.station_search_mode,
        !crate::text::is_control(c),
        !is_up(Key::Char(c)),
        !is_down(Key::Char(c)),
        !is_char_key(Key::Char(c), 'f', 'F'),
        c != '*',
    ensures
        station_search_step(station_search_step(v, Key::Char(c), now).0, Key::Backspace, now).0.station_query
            == v.station_query,
{
    assert(v.station_query.push(c).drop_last() =~= v.station_query);
}

/// A clamped cursor and a page down stay within a list that has lines.
pub proof fn lemma_cursor_within_list(i: usize, len: nat)
    requires
        len > 0,
        len <= usize::MAX,
    ensures
        clamp_cursor(i, len) < len,
        i < len ==> page_down(i, len) < len && cursor_down(i, len) < len,
        clamp_cursor(clamp_cursor(i, len), len) == clamp_cursor(i, len),
{
}

proof fn lemma_recent_keeps_first(h: Seq<HistView>, cutoff: u64)
    requires
        h.len() > 0,
        h[0].played >= cutoff,
    ensures
        recent(h, cutoff).len() > 0,
        recent(h, cutoff)[0] == h[0],
    decreases h.len(),
{
    let d = h.drop_last();
    if h.len() > 1 {
        assert(d[0] == h[0]);
        lemma_recent_keeps_first(d, cutoff);
        if h.last().played >= cutoff {
            assert(recent(h, cutoff) == recent(d, cutoff).push(h.last()));
        } else {
            assert(recent(h, cutoff) == recent(d, cutoff));
        }
    } else {
        assert(recent(d, cutoff) == Seq::<HistView>::empty());
        assert(h.last() == h[0]);
        assert(recent(h, cutoff) == recent(d, cutoff).push(h.last()));
    }
}

/// Stopping playback puts the session that was playing at the front of the
/// history (when it started within the last seven days), with its
/// listening time, and drops the connection in progress.
pub proof fn lemma_stop_records_session(v: AppView, now: u64)
    requires
        v.session matches Some(s) && s.started >= cutoff_spec(now),
    ensures
        stopped(v, now).history.len() > 0,
        stopped(v, now).history[0] == session_hist(v.session->0, now),
        stopped(v, now).session is None,
        !stopped(v, now).is_connecting,
        stopped(v, now).active_request is None,
{
    let s = v.session->0;
    let h = seq![session_hist(s, now)] + v.history;
    assert(h[0] == session_hist(s, now));
    lemma_recent_keeps_first(h, cutoff_spec(now));
}

/// Marking a station that was not a favorite and unmarking it again gives
/// the favorites back.
pub proof fn lemma_favorite_toggle_twice(v: AppView, i: usize)
    requires
        i < v.stations.len(),
        !is_favorite_spec(v.favorites, v.stations[i as int].url),
    ensures
        favorite_toggle_step(favorite_toggle_step(v, i).0, i).0.favorites == v.favorites,
        favorite_toggle_step(v, i).1.command == (Command::SaveFavorites { added: true, station_index: i }),
        favorite_toggle_step(favorite_toggle_step(v, i).0, i).1.command == (Command::SaveFavorites {
            added: false,
            station_index: i,
        }),
{
    let st = v.stations[i as int];
    let x = FavoriteView { url: st.url, name: st.name, source: Seq::empty() };
    let p = v.favorites.push(x);
    assert(p[v.favorites.len() as int].url == st.url);
    lemma_remove_pushed(v.favorites, x);
}

/// Toggling a station's favorite mark flips it and leaves every other URL's
/// mark alone; toggling again gives the first mark back, whichever it was.
pub proof fn lemma_favorite_toggle_flips(v: AppView, i: usize, other: Seq<char>)
    requires
        i < v.stations.len(),
        other != v.stations[i as int].url,
    ensures
        ({
            let u = v.stations[i as int].url;
            let w = favorite_toggle_step(v, i).0;
            &&& is_favorite_spec(w.favorites, u) == !is_favorite_spec(v.favorites, u)
            &&& is_favorite_spec(w.favorites, other) == is_favorite_spec(v.favorites, other)
            &&& is_favorite_spec(favorite_toggle_step(w, i).0.favorites, u) == is_favorite_spec(v.favorites, u)
            &&& is_favorite_spec(favorite_toggle_step(w, i).0.favorites, other) == is_favorite_spec(
                v.favorites,
                other,
            )
        }),
{
    let st = v.stations[i as int];
    let u = st.url;
    let x = FavoriteView { url: st.url, name: st.name, source: Seq::empty() };
    lemma_add_remove(v.favorites, x, u, other);
    let w = favorite_toggle_step(v, i).0;
    assert(w.stations == v.stations);
    lemma_add_remove(w.favorites, x, u, other);
}

proof fn lemma_remove_pushed(favs: Seq<FavoriteView>, x: FavoriteView)
    requires
        !is_favorite_spec(favs, x.url),
    ensures
        remove_spec(favs.push(x), x.url) == favs,
    decreases favs.len(),
{
    assert(favs.push(x).drop_last() =~= favs);
    lemma_remove_absent(favs, x.url);
}

proof fn lemma_remove_absent(favs: Seq<FavoriteView>, url: Seq<char>)
    requires
        !is_favorite_spec(favs, url),
    ensures
        remove_spec(favs, url) == favs,
    decreases favs.len(),
{
    if favs.len() > 0 {
        let d = favs.drop_last();
        if is_favorite_spec(d, url) {
            let k = choose|k: int| 0 <= k < d.len() && #[trigger] d[k].url == url;
            assert(favs[k].url == url);
        }
        lemma_remove_absent(d, url);
        assert(favs.last().url != url) by {
            assert(favs[favs.len() - 1].url != url);
        }
        assert(d.push(favs.last()) =~= favs);
    }
}

/// A station that plays again is playable again, unless it was blocked by
/// hand; the other records stay.
pub proof fn lemma_success_clears_failures(h: HealthView, url: Seq<char>, other: Seq<char>)
    requires
        h.threshold > 0,
        other != url,
    ensures
        health_after_success(h, url).records.contains_key(url) ==> !crate::health::unplayable_spec(
            Some(health_after_success(h, url).records[url]),
            h.threshold,
        ) || health_after_success(h, url).records[url].manual_block,
        health_after_success(h, url).records.contains_key(other) == h.records.contains_key(other),
        h.records.contains_key(other) ==> health_after_success(h, url).records[other] == h.records[other],
{
}

/// A connection request never tries more stations than the list has.
pub proof fn lemma_worker_tries_each_station_at_most_once(w: ConnectWorker)
    requires
        w.wf(),
        w.stations@.len() > 0,
    ensures
        w.attempt <= w.stations@.len(),
        w.failed@.len() < w.stations@.len(),
{
}

} // verus!
