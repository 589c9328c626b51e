use mprs::db::TrackTags;
use mprs::state::filter_state::F1State;
use mprs::state::notification_state::NotificationState;
use mprs::state::scrollable_state::ScrollableState;
use mprs::state::scrollable_state::Selection;
use mprs::state::tracklist_state::TracklistItem;
use mprs::state::tracklist_state::TracklistState;
use mprs::text::join;
use mprs::text::split;
use mprs::utils::MetadataReadError;
use mprs::utils::RawTags;
use mprs::utils::duration_to_str;
use mprs::utils::f1_state_enum_to_str;
use mprs::utils::get_metadata;
use mprs::utils::is_staged_track;
use mprs::utils::parse_bool;
use mprs::utils::wrap_string;
#[test]
fn durations_are_minutes_and_two_digit_seconds() {
    assert_eq!(duration_to_str(0), "0:00");
    assert_eq!(duration_to_str(5), "0:05");
    assert_eq!(duration_to_str(59), "0:59");
    assert_eq!(duration_to_str(60), "1:00");
    assert_eq!(duration_to_str(185), "3:05");
    assert_eq!(duration_to_str(3600), "60:00");
    assert_eq!(duration_to_str(u32::MAX), "71582788:15");
}

#[test]
fn group_names() {
    assert_eq!(f1_state_enum_to_str(&F1State::All), "All");
    assert_eq!(f1_state_enum_to_str(&F1State::Playlists), "Playlists");
    assert_eq!(f1_state_enum_to_str(&F1State::Artists), "Artists");
    assert_eq!(f1_state_enum_to_str(&F1State::Albums), "Albums");
}

#[test]
fn only_the_word_true_is_true() {
    assert!(parse_bool("true"));
    assert!(!parse_bool("false"));
    assert!(!parse_bool("True"));
    assert!(!parse_bool(""));
    assert!(!parse_bool("true "));
    assert!(!parse_bool("1"));
}

#[test]
fn tracklist_rows() {
    let mut list = TracklistState::default();
    assert!(list.items.is_empty());
    list.add_item(
        3,
        "Song".to_string(),
        vec!["A".to_string(), "B".to_string(), "C".to_string()],
        "Album".to_string(),
        75,
    );
    list.add_item(4, "Other".to_string(), vec![], String::new(), 600);
    list.add_item(5, "Solo".to_string(), vec!["A".to_string()], "X".to_string(), 9);
    assert_eq!(
        list.items[0],
        TracklistItem {
            id: 3,
            name: "Song".to_string(),
            artist: "A, B, C".to_string(),
            album: "Album".to_string(),
            duration: "1:15".to_string(),
        }
    );
    assert_eq!(list.items[1].artist, "");
    assert_eq!(list.items[1].duration, "10:00");
    assert_eq!(list.items[2].artist, "A");
    assert_eq!(list.items[2].clone(), list.items[2]);
    list.empty();
    assert!(list.items.is_empty());
}

fn scroller(options: usize, selected: Option<usize>) -> ScrollableState<u32, Selection> {
    ScrollableState { state: Selection { selected }, options: (0..options as u32).collect() }
}

#[test]
fn scrolling_stops_at_both_ends() {
    let mut s = scroller(5, Some(2));
    s.scroll(1);
    assert_eq!(s.get_current_selection_idx(), Some(3));
    s.scroll(10);
    assert_eq!(s.get_current_selection_idx(), Some(4));
    s.scroll(-2);
    assert_eq!(s.get_current_selection_idx(), Some(2));
    s.scroll(-20);
    assert_eq!(s.get_current_selection_idx(), Some(0));
    s.scroll(i32::MIN);
    assert_eq!(s.get_current_selection_idx(), Some(0));
    s.scroll(i32::MAX);
    assert_eq!(s.get_current_selection_idx(), Some(4));
    s.scroll_up_single();
    assert_eq!(s.get_current_selection_idx(), Some(3));
    s.scroll_down_single();
    s.scroll_down_single();
    assert_eq!(s.get_current_selection_idx(), Some(4));
    s.scroll(0);
    assert_eq!(s.get_current_selection_idx(), Some(4));
}

#[test]
fn scrolling_from_outside_the_list_comes_back_in() {
    let mut s = scroller(3, Some(10));
    s.scroll(-1);
    assert_eq!(s.get_current_selection_idx(), Some(2));
    let mut s = scroller(3, Some(10));
    s.scroll(1);
    assert_eq!(s.get_current_selection_idx(), Some(2));
}

#[test]
fn scrolling_without_a_selection_changes_nothing() {
    let mut s = scroller(0, None);
    s.scroll(3);
    s.scroll_up_single();
    s.scroll_down_single();
    s.set_scroll(2);
    assert_eq!(s.get_current_selection_idx(), None);
    assert_eq!(s.get_current_selection(), None);
}

#[test]
fn selecting_an_option() {
    let mut s = scroller(4, Some(0));
    assert_eq!(s.get_current_selection(), Some(0));
    s.set_scroll(2);
    assert_eq!(s.get_current_selection_idx(), Some(2));
    assert_eq!(s.get_current_selection(), Some(2));
    s.set_scroll_last();
    assert_eq!(s.get_current_selection(), Some(3));
    s.set_scroll(9);
    assert_eq!(s.get_current_selection_idx(), Some(9));
    assert_eq!(s.get_current_selection(), None);
}

#[test]
fn splitting_on_a_character() {
    assert_eq!(split("a/b/c", '/'), vec!["a", "b", "c"]);
    assert_eq!(split("abc", '/'), vec!["abc"]);
    assert_eq!(split("", '/'), vec![""]);
    assert_eq!(split("/", '/'), vec!["", ""]);
    assert_eq!(split("a//b/", '/'), vec!["a", "", "b", ""]);
    assert_eq!(split("é/✓", '/'), vec!["é", "✓"]);
}

#[test]
fn joining_with_a_separator() {
    let parts = |p: &[&str]| -> Vec<String> { p.iter().map(|x| x.to_string()).collect() };
    assert_eq!(join(&parts(&[]), ", "), "");
    assert_eq!(join(&parts(&["a"]), ", "), "a");
    assert_eq!(join(&parts(&["a", "b"]), ", "), "a, b");
    assert_eq!(join(&parts(&["", "", ""]), "/"), "//");
}

#[test]
fn metadata_from_tags() {
    assert_eq!(get_metadata(None, 10), Err(MetadataReadError::NoTag));
    assert_eq!(
        get_metadata(Some(RawTags { title: None, artist: Some("A".to_string()), album: None }), 10),
        Err(MetadataReadError::NoTitle)
    );
    assert_eq!(
        get_metadata(
            Some(RawTags {
                title: Some("Song".to_string()),
                artist: Some("A/B C/D".to_string()),
                album: Some("X".to_string()),
            }),
            185,
        ),
        Ok(TrackTags {
            name: "Song".to_string(),
            artists: Some(vec!["A".to_string(), "B C".to_string(), "D".to_string()]),
            album: Some("X".to_string()),
            duration: 185,
        })
    );
    assert_eq!(
        get_metadata(Some(RawTags { title: Some("S".to_string()), artist: None, album: None }), 4294967296 + 7),
        Ok(TrackTags { name: "S".to_string(), artists: None, album: None, duration: 7 })
    );
}

#[test]
fn hidden_files_are_not_staged_tracks() {
    assert!(is_staged_track("song.mp3"));
    assert!(!is_staged_track(".DS_Store"));
    assert!(!is_staged_track("."));
    assert!(is_staged_track(""));
    assert!(is_staged_track("a.b"));
}

#[test]
fn wrapping_puts_the_line_feeds_at_the_last_full_line() {
    let wrap = |text: &str, n: u32| -> String {
        let mut s = text.to_string();
        wrap_string(&mut s, n);
        s
    };
    assert_eq!(wrap("abcdefgh", 3), "abcdef\n\ngh");
    assert_eq!(wrap("abcdef", 3), "abcdef\n\n");
    assert_eq!(wrap("ab", 3), "ab");
    assert_eq!(wrap("", 1), "");
    assert_eq!(wrap("abc", 1), "abc\n\n\n");
    assert_eq!(wrap("héllo", 2), "héllo\n\n\n");
}

#[test]
fn notifications_expire_after_their_time_limit() {
    let mut n = NotificationState::default();
    assert_eq!(n.message, "");
    assert_eq!(n.time_limit_s, None);
    n.set_message("hello".to_string(), Some(3));
    assert_eq!(n.message, "hello");
    assert_eq!(n.time_limit_s, Some(3));
    assert!(n.stopwatch.is_running());
    n.expire(3);
    assert_eq!(n.message, "hello");
    n.update_message();
    assert_eq!(n.message, "hello");
    n.expire(4);
    assert_eq!(n.message, "");
    assert_eq!(n.time_limit_s, None);
    assert!(!n.stopwatch.is_running());
    n.set_message("stay".to_string(), None);
    assert!(!n.stopwatch.is_running());
    n.expire(u64::MAX);
    n.update_message();
    assert_eq!(n.message, "stay");
    n.set_message("now".to_string(), Some(0));
    n.expire(0);
    assert_eq!(n.message, "now");
    n.clear_message();
    assert_eq!(n.message, "");
    assert_eq!(n.time_limit_s, None);
    assert_eq!(n.stopwatch.elapsed_ms(), 0);
}
