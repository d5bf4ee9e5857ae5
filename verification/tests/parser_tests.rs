use cmdradio::m3u::{parse_m3u, is_http_url};
use cmdradio::pls::parse_pls;

#[test]
fn parse_simple_m3u() {
    let content = "#EXTM3U\n#EXTINF:-1,Sample Radio\nhttps://stream.example.org/live.mp3\n";
    let parsed = parse_m3u(content);
    assert_eq!(parsed.len(), 1);
    assert_eq!(parsed[0].name, "Sample Radio");
    assert_eq!(parsed[0].url, "https://stream.example.org/live.mp3");
}

#[test]
fn parse_ignores_non_http_and_uses_fallback_station_names() {
    let content = "#EXTM3U\n#EXTINF:-1,Named Entry\nftp://example.org/not_supported\nhttps://stream.example.org/aac\nhttp://stream.example.org/mp3\n";
    let parsed = parse_m3u(content);
    assert_eq!(parsed.len(), 2);
    assert_eq!(parsed[0].name, "Named Entry");
    assert_eq!(parsed[0].url, "https://stream.example.org/aac");
    assert_eq!(parsed[1].name, "Station 2");
    assert_eq!(parsed[1].url, "http://stream.example.org/mp3");
}

#[test]
fn parse_extinf_without_name_falls_back_to_default() {
    let content = "#EXTM3U\n#EXTINF:-1,\nhttps://stream.example.org/live\n";
    let parsed = parse_m3u(content);
    assert_eq!(parsed.len(), 1);
    assert_eq!(parsed[0].name, "Station 1");
    assert_eq!(parsed[0].url, "https://stream.example.org/live");
}

#[test]
fn parse_pls_file_supports_local_station_lists() {
    let content = "[playlist]\nFile1=https://stream.example.org/live\nTitle1=Rock FM\nLength1=-1\nNumberOfEntries=1\nVersion=2\n";
    let parsed = parse_pls(content);
    assert_eq!(parsed.len(), 1);
    assert_eq!(parsed[0].name, "Rock FM");
    assert_eq!(parsed[0].url, "https://stream.example.org/live");
}

#[test]
fn m3u_handles_crlf_whitespace_and_missing_final_newline() {
    let content = "  #EXTINF:0, Spaced Name  \r\n\r\n  http://a.example/x  \r\n#comment\nhttps://b.example/y";
    let parsed = parse_m3u(content);
    assert_eq!(parsed.len(), 2);
    assert_eq!(parsed[0].name, "Spaced Name");
    assert_eq!(parsed[0].url, "http://a.example/x");
    assert_eq!(parsed[1].name, "Station 2");
    assert_eq!(parsed[1].url, "https://b.example/y");
}

#[test]
fn m3u_extinf_without_comma_drops_pending_name() {
    let content = "#EXTINF:Named,First\n#EXTINF:-1\nhttp://x.example/1\n";
    let parsed = parse_m3u(content);
    assert_eq!(parsed.len(), 1);
    assert_eq!(parsed[0].name, "Station 1");
}

#[test]
fn m3u_empty_text_has_no_stations() {
    assert!(parse_m3u("").is_empty());
    assert!(parse_m3u("#EXTM3U\n\n").is_empty());
}

#[test]
fn pls_orders_by_index_and_later_lines_win() {
    let content = "[playlist]\nFile3=http://c.example\nFile1=http://a.example\nFile2=ftp://b.example\nTitle3=Third\nFile1=https://a2.example\nTitle1=  \nFile+4=http://d.example\nFilex=http://e.example\n";
    let parsed = parse_pls(content);
    assert_eq!(parsed.len(), 3);
    assert_eq!(parsed[0].url, "https://a2.example");
    assert_eq!(parsed[0].name, "Station 1");
    assert_eq!(parsed[1].url, "http://c.example");
    assert_eq!(parsed[1].name, "Third");
    assert_eq!(parsed[2].url, "http://d.example");
    assert_eq!(parsed[2].name, "Station 3");
}

#[test]
fn is_http_url_accepts_only_http_and_https() {
    assert!(is_http_url("http://x"));
    assert!(is_http_url("https://x"));
    assert!(!is_http_url("ftp://x"));
    assert!(!is_http_url("HTTP://x"));
    assert!(!is_http_url(""));
}

#[test]
fn playlist_format_follows_the_extension() {
    let pls = "[playlist]\nFile2=http://b\nTitle2=Bee\nFile1=http://a\n";
    let st = cmdradio::scan::parse_playlist(pls, Some("PLS"));
    let urls: Vec<&str> = st.iter().map(|s| s.url.as_str()).collect();
    assert_eq!(urls, vec!["http://a", "http://b"]);
    assert_eq!(st[1].name, "Bee");
    assert_eq!(st[0].name, "Station 1");
    let m3u = "#EXTM3U\nhttp://x\n";
    assert_eq!(cmdradio::scan::parse_playlist(m3u, Some("m3u8")).len(), 1);
    assert_eq!(cmdradio::scan::parse_playlist(m3u, None).len(), 1);
    assert_eq!(cmdradio::scan::parse_playlist(pls, Some("m3u")).len(), 0);
}
