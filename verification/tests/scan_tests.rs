use cmdradio::scan::{is_playlist_extension, path_less, scan_m3u_files, ScanState};
use cmdradio::search::PlaylistPath;

/// A directory tree: directories with their canonical path and entries.
enum Node {
    Dir(&'static str, &'static str, Vec<Node>),
    File(&'static str),
}

fn extension(path: &str) -> Option<&str> {
    let name = path.rsplit('/').next().unwrap_or("");
    match name.rfind('.') {
        Some(0) | None => None,
        Some(i) => Some(&name[i + 1..]),
    }
}

fn walk(node: &Node, state: &mut ScanState) {
    match node {
        Node::Dir(_, canonical, children) => {
            if !state.enter_dir(canonical.to_string()) {
                return;
            }
            for child in children {
                match child {
                    Node::Dir(..) => walk(child, state),
                    Node::File(p) => {
                        let name = p.rsplit('/').next().unwrap_or("").to_string();
                        state.add_file(PlaylistPath { text: p.to_string(), file_name: name }, extension(p));
                    }
                }
            }
        }
        Node::File(_) => {}
    }
}

fn scan(root: &Node) -> Vec<String> {
    let mut state = ScanState::new();
    walk(root, &mut state);
    scan_m3u_files(&state, false).into_iter().map(|p| p.text).collect()
}

#[test]
fn scan_m3u_files_includes_nested_directories() {
    let root = Node::Dir(
        "/tmp/root",
        "/tmp/root",
        vec![
            Node::File("/tmp/root/top.m3u"),
            Node::Dir("/tmp/root/nested", "/tmp/root/nested", vec![Node::Dir(
                "/tmp/root/nested/deep",
                "/tmp/root/nested/deep",
                vec![Node::File("/tmp/root/nested/deep/deep.m3u8")],
            )]),
            Node::File("/tmp/root/ignore.txt"),
        ],
    );
    let scanned = scan(&root);
    assert_eq!(scanned.len(), 2);
    assert!(scanned.iter().any(|p| p.ends_with("top.m3u")));
    assert!(scanned.iter().any(|p| p.ends_with("deep.m3u8")));
}

#[test]
fn scan_m3u_files_includes_pls_playlists() {
    let root = Node::Dir(
        "/tmp/pls",
        "/tmp/pls",
        vec![Node::File("/tmp/pls/stations.pls"), Node::File("/tmp/pls/another.m3u")],
    );
    let scanned = scan(&root);
    assert_eq!(scanned.len(), 2);
    assert!(scanned.iter().any(|p| p.ends_with("stations.pls")));
    assert!(scanned.iter().any(|p| p.ends_with("another.m3u")));
}

#[test]
fn scan_skips_directories_reached_twice() {
    let root = Node::Dir(
        "/r",
        "/r",
        vec![
            Node::Dir("/r/a", "/r/a", vec![Node::File("/r/a/x.M3U")]),
            Node::Dir("/r/link", "/r/a", vec![Node::File("/r/link/x.M3U")]),
            Node::Dir("/r/self", "/r", vec![Node::File("/r/self/y.m3u")]),
        ],
    );
    assert_eq!(scan(&root), vec!["/r/a/x.M3U"]);
}

#[test]
fn scan_results_come_in_path_order() {
    let root = Node::Dir(
        "/m",
        "/m",
        vec![
            Node::File("/m/b.m3u"),
            Node::File("/m/a.b.m3u"),
            Node::Dir("/m/a", "/m/a", vec![Node::File("/m/a/z.pls")]),
            Node::File("/m/A.m3u"),
        ],
    );
    // component order: "/m/a/z.pls" before "/m/a.b.m3u" (the name `a` comes before `a.b.m3u`)
    assert_eq!(scan(&root), vec!["/m/A.m3u", "/m/a/z.pls", "/m/a.b.m3u", "/m/b.m3u"]);
}

#[test]
fn path_order_compares_components() {
    assert!(path_less("/a/b", "/a.b", false));
    assert!(!path_less("/a.b", "/a/b", false));
    assert!(!path_less("/a//b", "/a/b", false));
    assert!(!path_less("/a/b", "/a//b/", false));
    assert!(path_less("/z", "a", false));
    assert!(path_less("./x", "x", false));
    assert!(path_less("../x", "a", false));
    assert!(path_less("a/./b", "a/c", false));
}

#[test]
fn playlist_extensions_ignore_case() {
    assert!(is_playlist_extension("m3u"));
    assert!(is_playlist_extension("M3U8"));
    assert!(is_playlist_extension("Pls"));
    assert!(!is_playlist_extension("txt"));
    assert!(!is_playlist_extension("m3"));
    assert!(!is_playlist_extension(""));
}

#[test]
fn windows_path_order_is_by_component() {
    assert!(path_less("a\\x", "a b", true));
    assert!(!path_less("a b", "a\\x", true));
    assert!(path_less("a b", "a\\x", false));
    assert!(path_less("C:\\p\\a\\x.m3u", "C:\\p\\a b.m3u", true));
    assert!(path_less("C:x", "\\x", true));
    assert!(!path_less("c:\\a", "C:\\a", true));
    assert!(!path_less("C:\\a", "c:\\a", true));
    assert!(path_less("C:\\z", "D:\\a", true));
}
