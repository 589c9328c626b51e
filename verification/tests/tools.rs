use mprs::config::fill_uninitialized_values;
use mprs::config::UserConfigYAML;
use mprs::spotdl::concat_all;
use mprs::spotdl::fields;
use mprs::spotdl::get_creds;
use mprs::spotdl::lists_package;
use mprs::spotdl::locations;
use mprs::spotdl::track_id_of;
use mprs::spotdl::SearchResult;
use mprs::text::contains_text;
use mprs::text::lines;
use mprs::utils::get_progress_display_str;
use mprs::ytdlp::dash_day;
use mprs::ytdlp::output_lines;
use mprs::ytdlp::search_ytdlp;
use mprs::ytdlp::ytdlp_get_info_from_link;
use std::path::PathBuf;

fn s(text: &str) -> String {
    text.to_string()
}

fn v(texts: &[&str]) -> Vec<String> {
    texts.iter().map(|t| s(t)).collect()
}

#[test]
fn lines_of_a_text() {
    assert_eq!(lines(""), Vec::<String>::new());
    assert_eq!(lines("a"), v(&["a"]));
    assert_eq!(lines("a\n"), v(&["a"]));
    assert_eq!(lines("a\nb"), v(&["a", "b"]));
    assert_eq!(lines("a\r\nb\r\n"), v(&["a", "b"]));
    assert_eq!(lines("a\n\nb\n\n"), v(&["a", "", "b", ""]));
    assert_eq!(lines("a\r"), v(&["a\r"]));
    assert_eq!(lines("\r\n"), v(&[""]));
    assert_eq!(lines("a\r\r\nb"), v(&["a\r", "b"]));
    for text in ["", "a", "a\n", "x\r\ny\n\nz", "\n", "\r", "a\rb\r\n\r\n"] {
        let expected: Vec<String> = text.lines().map(|l| l.to_string()).collect();
        assert_eq!(lines(text), expected, "lines of {:?}", text);
    }
}

#[test]
fn text_within_a_text() {
    assert!(contains_text("hello world", "lo w"));
    assert!(contains_text("hello", "hello"));
    assert!(contains_text("hello", ""));
    assert!(contains_text("", ""));
    assert!(contains_text("aab", "ab"));
    assert!(!contains_text("hello", "hellox"));
    assert!(!contains_text("", "a"));
    assert!(!contains_text("abcabd", "abdc"));
    assert!(contains_text("héllo ✓", "o ✓"));
}

#[test]
fn the_id_is_the_third_part_of_the_name() {
    assert_eq!(track_id_of("spotify:track:6rqhFgbbKwnb9MLmUQDhG6"), Some(s("6rqhFgbbKwnb9MLmUQDhG6")));
    assert_eq!(track_id_of("a:b:c:d"), Some(s("c")));
    assert_eq!(track_id_of("a:b:"), Some(s("")));
    assert_eq!(track_id_of("a:b"), None);
    assert_eq!(track_id_of(""), None);
}

#[test]
fn search_results_and_their_address() {
    let r = SearchResult::new(s("Song"), s("Album"), v(&["A", "B"]), "spotify:track:xyz", 215).unwrap();
    assert_eq!(
        r,
        SearchResult { name: s("Song"), artists: v(&["A", "B"]), album: s("Album"), id: s("xyz"), duration: 215 }
    );
    assert_eq!(r.get_url(), "http://open.spotify.com/track/xyz");
    assert_eq!(SearchResult::new(s("Song"), s("Album"), vec![], "xyz", 1), None);
    let r = SearchResult::new(s("S"), s("A"), vec![], "a:b:c", -1).unwrap();
    assert_eq!(r.duration, u64::MAX);
}

#[test]
fn installed_packages() {
    let listing = "Package    Version\n---------- -------\npip        24.0\nspotdl     4.2.5\n";
    assert!(lists_package(listing, "spotdl"));
    assert!(!lists_package(listing, "yt-dlp"));
    assert!(!lists_package("spot\ndl\n", "spotdl"));
    assert!(!lists_package("", "spotdl"));
}

#[test]
fn the_location_of_the_downloader() {
    let description = "Name: spotdl\nVersion: 4.2.5\nLocation: /usr/lib/python3/site-packages\nRequires: x\n";
    assert_eq!(locations(description), Some(v(&["/usr/lib/python3/site-packages"])));
    assert_eq!(locations("Name: spotdl\n"), Some(vec![]));
    assert_eq!(locations("Location:\n"), None);
    assert_eq!(locations("Location: a b\r\nLocation: c\n"), Some(v(&["a", "c"])));
}

#[test]
fn the_credentials_in_the_configuration() {
    let config = "DEFAULT_CONFIG = {\n    \"client_id\": \"abc123\",\n    \"client_secret\": \"def456\",\n    \"user_auth\": False,\n}\n";
    assert_eq!(get_creds(config), Some((s("abc123"), s("def456"))));
    assert_eq!(get_creds(""), Some((s(""), s(""))));
    assert_eq!(get_creds("\"client_id\": \"a\",\n\"client_id\": \"b\",\n"), Some((s("ab"), s(""))));
    assert_eq!(get_creds("client_id = 5\n"), None);
    assert_eq!(get_creds("\"client_secret\": \"open\n"), Some((s(""), s("open"))));
    assert_eq!(get_creds("\"client_secret\": 5\n"), None);
    assert_eq!(fields("x=1;y=2\nz\nx=3", "x", ';', 0), Some(v(&["x=1", "x=3"])));
    assert_eq!(fields("x=1;y=2\nz\nx=3", "x", ';', 1), None);
    assert_eq!(concat_all(&v(&["a", "", "bc"])), "abc");
}

#[test]
fn the_lines_of_the_downloader() {
    assert_eq!(output_lines("a\n\nb\n"), v(&["a", "b"]));
    assert_eq!(output_lines(""), Vec::<String>::new());
    assert_eq!(output_lines("\n\n"), Vec::<String>::new());
    assert_eq!(output_lines("a\r\n"), v(&["a\r"]));
}

#[test]
fn days_get_dashes() {
    assert_eq!(dash_day("20240131"), Some(s("2024-01-31")));
    assert_eq!(dash_day("202401"), Some(s("2024-01-")));
    assert_eq!(dash_day("2024013"), Some(s("2024-01-3")));
    assert_eq!(dash_day("20240"), None);
    assert_eq!(dash_day(""), None);
    assert_eq!(dash_day("NA"), None);
    assert_eq!(dash_day("2024é1x"), Some(s("2024-é-1x")));
    assert_eq!(dash_day("202é01"), None);
    assert_eq!(dash_day("20240é"), None);
}

#[test]
fn search_results_of_the_downloader() {
    let parts = v(&[
        "Artist A", "20240131", "Song One", "id1", "3:05",
        "Artist B", "20231224", "Song Two", "id2", "4:10",
        "Artist C", "20220101", "Song One again", "id1", "3:06",
        "left", "over",
    ]);
    let (ids, rows) = search_ytdlp(&parts).unwrap();
    assert_eq!(ids, v(&["id1", "id2"]));
    assert_eq!(
        rows,
        vec![
            v(&["Name", "Artist", "Duration", "Upload Date"]),
            v(&["Song One", "Artist A", "3:05", "2024-01-31"]),
            v(&["Song Two", "Artist B", "4:10", "2023-12-24"]),
        ]
    );
    let (ids, rows) = search_ytdlp(&v(&["a", "b", "c", "d"])).unwrap();
    assert!(ids.is_empty());
    assert_eq!(rows, vec![v(&["Name", "Artist", "Duration", "Upload Date"])]);
    assert_eq!(search_ytdlp(&v(&["a", "NA", "c", "d", "e"])), None);
}

#[test]
fn infos_of_a_link() {
    let parts = v(&["Artist A", "Song One", "id1", "Artist B", "Song Two", "id2", "left"]);
    assert_eq!(
        ytdlp_get_info_from_link(&parts),
        vec![(s("Song One"), s("Artist A"), s("id1")), (s("Song Two"), s("Artist B"), s("id2"))]
    );
    assert_eq!(ytdlp_get_info_from_link(&v(&["a", "b"])), vec![]);
}

#[test]
fn the_configuration_is_filled_with_defaults() {
    let base = PathBuf::from("/music");
    let c = fill_uninitialized_values(
        UserConfigYAML { audio_format: None, display_visualizer: None },
        base.clone(),
    );
    assert_eq!(c.base_dir, base);
    assert_eq!(c.audio_format, "mp3");
    assert!(c.display_visualizer);
    let c = fill_uninitialized_values(
        UserConfigYAML { audio_format: Some(s("flac")), display_visualizer: Some(false) },
        base.clone(),
    );
    assert_eq!(c.audio_format, "flac");
    assert!(!c.display_visualizer);
    let d = UserConfigYAML::default();
    assert_eq!(d.audio_format, Some(s("mp3")));
    assert_eq!(d.display_visualizer, Some(true));
}

#[test]
fn the_progress_of_a_track() {
    assert_eq!(get_progress_display_str(0, 0), "0:00/0:00");
    assert_eq!(get_progress_display_str(65, 185), "1:05/3:05");
    assert_eq!(get_progress_display_str(3599, 3600), "59:59/60:00");
}
