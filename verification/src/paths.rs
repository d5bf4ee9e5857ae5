//! Where the player keeps its files.
//!
//! On Unix-like systems everything hangs off `$HOME`: the configuration in
//! `.config/cmdradio`, the data (with the playlists) in
//! `.local/share/cmdradio`, the cache in `.cache/cmdradio`. On Windows the
//! configuration goes under `%APPDATA%\cmdradio` and the data, playlists and
//! cache under `%LOCALAPPDATA%\cmdradio`.

use vstd::prelude::*;

verus! {

/// A drive letter and a colon, with nothing after them (`C:`).
pub open spec fn is_bare_drive(base: Seq<char>) -> bool {
    base.len() == 2 && (('a' <= base[0] && base[0] <= 'z') || ('A' <= base[0] && base[0] <= 'Z'))
        && base[1] == ':'
}

/// A verbatim Windows path (`\\?\...`).
pub open spec fn is_verbatim(base: Seq<char>) -> bool {
    base.len() >= 4 && base[0] == '\\' && base[1] == '\\' && base[2] == '?' && base[3] == '\\'
}

/// `base` with the plain name `part` appended, as `PathBuf::push` appends a
/// relative name: a separator `sep` is put in between unless `base` is empty,
/// already ends with a separator (`/`, and on Windows also `\`), or is a
/// bare drive on Windows (`C:` and `cmdradio` give `C:cmdradio`).
pub open spec fn join(base: Seq<char>, part: Seq<char>, windows: bool) -> Seq<char> {
    if base.len() == 0 {
        part
    } else if base.last() == '/' || (windows && base.last() == '\\') || (windows && is_bare_drive(base)) {
        base + part
    } else {
        base + seq![if windows { '\\' } else { '/' }] + part
    }
}

fn join_text(base: &String, part: &str, windows: bool) -> (s: String)
    ensures
        s@ == join(base@, part@, windows),
{
    let v = crate::text::chars_of(base.as_str());
    let mut s = base.clone();
    if v.len() == 0 {
        return String::from_str(part);
    }
    let last = v[v.len() - 1];
    assert(last == base@.last());
    let bare_drive = v.len() == 2 && (('a' <= v[0] && v[0] <= 'z') || ('A' <= v[0] && v[0] <= 'Z'))
        && v[1] == ':';
    if last == '/' || (windows && last == '\\') || (windows && bare_drive) {
        s.append(part);
    } else {
        s.append(if windows { "\\" } else { "/" });
        s.append(part);
        proof {
            reveal_strlit("\\");
            reveal_strlit("/");
        }
    }
    s
}

pub struct PathsView {
    pub config_dir: Seq<char>,
    pub config_file: Seq<char>,
    pub data_dir: Seq<char>,
    pub playlists_dir: Seq<char>,
    pub cache_dir: Seq<char>,
}

/// The directories and the configuration file of the player.
pub struct AppPaths {
    pub config_dir: String,
    pub config_file: String,
    pub data_dir: String,
    pub playlists_dir: String,
    pub cache_dir: String,
}

impl View for AppPaths {
    type V = PathsView;

    open spec fn view(&self) -> PathsView {
        PathsView {
            config_dir: self.config_dir@,
            config_file: self.config_file@,
            data_dir: self.data_dir@,
            playlists_dir: self.playlists_dir@,
            cache_dir: self.cache_dir@,
        }
    }
}

/// The paths under a Unix home directory.
pub open spec fn unix_paths(home: Seq<char>) -> PathsView {
    let config_dir = join(join(home, ".config"@, false), "cmdradio"@, false);
    let data_dir = join(join(join(home, ".local"@, false), "share"@, false), "cmdradio"@, false);
    PathsView {
        config_dir,
        config_file: join(config_dir, "config.toml"@, false),
        data_dir,
        playlists_dir: join(data_dir, "playlists"@, false),
        cache_dir: join(join(home, ".cache"@, false), "cmdradio"@, false),
    }
}

/// The paths under the Windows application data directories.
pub open spec fn windows_paths(appdata: Seq<char>, local_appdata: Seq<char>) -> PathsView {
    let config_dir = join(appdata, "cmdradio"@, true);
    let data_dir = join(local_appdata, "cmdradio"@, true);
    PathsView {
        config_dir,
        config_file: join(config_dir, "config.toml"@, true),
        data_dir,
        playlists_dir: join(data_dir, "playlists"@, true),
        cache_dir: join(data_dir, "cache"@, true),
    }
}

impl AppPaths {
    /// The paths from the environment of a Unix-like system (`HOME`), or why
    /// they cannot be known.
    pub fn detect(home: Option<String>) -> (r: Result<AppPaths, String>)
        ensures
            match home {
                Some(h) => r matches Ok(p) && p@ == unix_paths(h@),
                None => r matches Err(e) && e@ == "HOME is not set"@,
            },
    {
        let home = match home {
            Some(h) => h,
            None => {
                return Err(String::from_str("HOME is not set"));
            },
        };
        let config_dir = join_text(&join_text(&home, ".config", false), "cmdradio", false);
        let data_dir = join_text(
            &join_text(&join_text(&home, ".local", false), "share", false),
            "cmdradio",
            false,
        );
        let playlists_dir = join_text(&data_dir, "playlists", false);
        let cache_dir = join_text(&join_text(&home, ".cache", false), "cmdradio", false);
        let config_file = join_text(&config_dir, "config.toml", false);
        Ok(AppPaths { config_dir, config_file, data_dir, playlists_dir, cache_dir })
    }

    /// The paths from the environment of Windows (`APPDATA` and
    /// `LOCALAPPDATA`), or why they cannot be known. For a verbatim base
    /// (`\\?\...`) `PathBuf::push` rebuilds the path from its components;
    /// what it gives there is left unsaid, though the names are appended in
    /// the same way.
    pub fn detect_windows(appdata: Option<String>, local_appdata: Option<String>) -> (r: Result<
        AppPaths,
        String,
    >)
        ensures
            match (appdata, local_appdata) {
                (None, _) => r matches Err(e) && e@ == "APPDATA is not set"@,
                (Some(_), None) => r matches Err(e) && e@ == "LOCALAPPDATA is not set"@,
                (Some(a), Some(l)) => r matches Ok(p) && (!is_verbatim(a@) && !is_verbatim(l@) ==> p@
                    == windows_paths(a@, l@)),
            },
    {
        let appdata = match appdata {
            Some(a) => a,
            None => {
                return Err(String::from_str("APPDATA is not set"));
            },
        };
        let local = match local_appdata {
            Some(l) => l,
            None => {
                return Err(String::from_str("LOCALAPPDATA is not set"));
            },
        };
        let config_dir = join_text(&appdata, "cmdradio", true);
        let data_dir = join_text(&local, "cmdradio", true);
        let playlists_dir = join_text(&data_dir, "playlists", true);
        let cache_dir = join_text(&data_dir, "cache", true);
        let config_file = join_text(&config_dir, "config.toml", true);
        Ok(AppPaths { config_dir, config_file, data_dir, playlists_dir, cache_dir })
    }
}

} // verus!
