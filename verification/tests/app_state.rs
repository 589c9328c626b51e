use mprs::db::NotFoundError;
use mprs::db::TrackDB;
use mprs::db::TrackTags;
use mprs::mpv::next_prev;
use mprs::mpv::parse_status;
use mprs::mpv::status_changed;
use mprs::mpv::status_from_words;
use mprs::mpv::PlayerStatus;
use mprs::state::filter_state::F1State;
use mprs::state::state::AppState;
use mprs::track_queue::TrackQueue;
use mprs::track_queue::TrackType;

fn s(text: &str) -> String {
    text.to_string()
}

fn tags(name: &str, artists: Option<&[&str]>, album: Option<&str>, duration: u32) -> TrackTags {
    TrackTags {
        name: s(name),
        artists: artists.map(|a| a.iter().map(|x| s(x)).collect()),
        album: album.map(s),
        duration,
    }
}

fn sample() -> AppState {
    let mut db = TrackDB::new();
    db.add_track(tags("One", Some(&["A", "B"]), Some("X"), 61), None);
    db.add_track(tags("Two", Some(&["B"]), None, 20), Some(s("Road")));
    db.add_track(tags("Three", None, Some("X"), 30), Some(s("Road")));
    db.add_track(tags("Four", None, None, 40), Some(s("Road")));
    db.create_playlist(s("Empty"));
    AppState::new(db)
}

fn row_ids(state: &AppState) -> Vec<u32> {
    state.tracklist_state.items.iter().map(|r| r.id).collect()
}

#[test]
fn the_state_starts_with_the_first_playlist() {
    let state = sample();
    assert_eq!(state.f1_state, F1State::Playlists);
    assert_eq!(state.f2_state, "Empty");
    assert!(state.paused);
    assert!(!state.shuffle);
    assert_eq!(state.get_curr_track_id(), None);
    assert_eq!(state.get_curr_track_info(), None);
    assert_eq!(state.get_curr_track_file_name(), None);
    assert!(state.tracklist_state.items.is_empty());
    let state = AppState::new(TrackDB::new());
    assert_eq!(state.f2_state, "Liked");
}

#[test]
fn the_displayed_tracklist_is_the_selected_bucket() {
    let mut state = sample();
    assert_eq!(state.get_curr_displayed_tracklist(), Vec::<u32>::new());
    state.f2_state = s("Road");
    assert_eq!(state.get_curr_displayed_tracklist(), vec![2, 3, 4]);
    state.f1_state = F1State::Artists;
    state.f2_state = s("B");
    assert_eq!(state.get_curr_displayed_tracklist(), vec![1, 2]);
    state.f2_state = s("Nobody");
    assert_eq!(state.get_curr_displayed_tracklist(), Vec::<u32>::new());
    state.f1_state = F1State::All;
    state.f2_state = s("All");
    assert_eq!(state.get_curr_displayed_tracklist(), vec![1, 2, 3, 4]);
}

#[test]
fn the_selected_track_is_resolved_through_the_library() {
    let mut state = sample();
    state.trackqueue.curr_track = TrackType::ExQueueTrack(1);
    assert_eq!(state.get_curr_track_id(), Some(1));
    assert_eq!(state.get_curr_track_info().unwrap().name, "One");
    assert_eq!(state.get_curr_track_file_name(), Some(s("One - 1.mp3")));
    state.trackqueue.curr_track = TrackType::RegQueueTrack(77);
    assert_eq!(state.get_curr_track_info(), None);
    assert_eq!(state.get_curr_track_file_name(), None);
}

#[test]
fn queueing_the_selected_bucket_and_a_playlist() {
    let mut state = sample();
    state.f2_state = s("Road");
    state.trackqueue.add_to_reg_queue(9);
    state.add_curr_tracklist_to_regular_queue();
    assert_eq!(state.trackqueue.reg_queue, vec![9, 2, 3, 4]);
    state.trackqueue.add_to_queue(8);
    state.trackqueue.played_tracks = vec![7];
    state.trackqueue.curr_track = TrackType::RegQueueTrack(9);
    state.add_playlist_to_queue(&s("Liked"));
    assert_eq!(state.trackqueue.reg_queue, vec![1]);
    assert!(state.trackqueue.exp_queue.is_empty());
    assert!(state.trackqueue.played_tracks.is_empty());
    assert_eq!(state.trackqueue.curr_track, TrackType::RegQueueTrack(9));
    state.add_playlist_to_queue(&s("Nope"));
    assert!(state.trackqueue.reg_queue.is_empty());
}

#[test]
fn selecting_a_track_queues_the_rest_of_the_bucket() {
    let mut state = sample();
    state.f2_state = s("Road");
    state.trackqueue.played_tracks = vec![1];
    assert!(state.select_track(3));
    assert_eq!(state.trackqueue.curr_track, TrackType::RegQueueTrack(3));
    assert_eq!(state.trackqueue.reg_queue, vec![4, 2]);
    assert!(state.trackqueue.played_tracks.is_empty());
    assert!(!state.select_track(1));
    assert_eq!(state.trackqueue.curr_track, TrackType::RegQueueTrack(3));
    assert_eq!(state.trackqueue.reg_queue, vec![4, 2]);
    state.shuffle = true;
    assert!(state.select_track(2));
    let mut rest = state.trackqueue.reg_queue.clone();
    rest.sort();
    assert_eq!(rest, vec![3, 4]);
}

#[test]
fn the_shuffle_switch_is_followed_once() {
    let mut state = sample();
    state.f2_state = s("Road");
    state.select_track(3);
    state.update_shuffle();
    assert_eq!(state.trackqueue.reg_queue, vec![4, 2]);
    state.shuffle = true;
    state.update_shuffle();
    assert!(state.prev_state.shuffle);
    let mut rest = state.trackqueue.reg_queue.clone();
    rest.sort();
    assert_eq!(rest, vec![2, 4]);
    state.trackqueue.reg_queue = vec![2, 4];
    state.trackqueue.played_tracks = vec![1];
    state.shuffle = false;
    state.update_shuffle();
    assert!(!state.prev_state.shuffle);
    assert_eq!(state.trackqueue.reg_queue, vec![4, 2]);
    assert!(state.trackqueue.played_tracks.is_empty());
    state.shuffle = true;
    state.update_shuffle();
    state.trackqueue.reg_queue = vec![2];
    state.trackqueue.curr_track = TrackType::RegQueueTrack(1);
    state.shuffle = false;
    state.update_shuffle();
    assert_eq!(state.trackqueue.reg_queue, vec![2]);
    assert!(!state.prev_state.shuffle);
}

#[test]
fn deleting_a_track_removes_it_everywhere() {
    let mut state = sample();
    state.f2_state = s("Road");
    state.refresh_tracklist();
    state.select_track(3);
    state.trackqueue.add_to_queue(2);
    state.trackqueue.add_to_queue(4);
    state.trackqueue.played_tracks = vec![2, 1, 2];
    assert_eq!(state.delete_track(3), None);
    assert!(state.trackdb.contains_track(3));
    let removed = state.delete_track(2).unwrap().unwrap();
    assert_eq!(removed.name, "Two");
    assert!(!state.trackdb.contains_track(2));
    assert_eq!(row_ids(&state), vec![3, 4]);
    assert_eq!(state.trackqueue.reg_queue, vec![4]);
    assert_eq!(state.trackqueue.exp_queue, vec![4]);
    assert_eq!(state.trackqueue.played_tracks, vec![1]);
    assert_eq!(state.trackqueue.curr_track, TrackType::RegQueueTrack(3));
    assert_eq!(state.delete_track(2), Some(Err(NotFoundError { id: 2 })));
}

#[test]
fn forgetting_a_track_keeps_the_selection() {
    let mut q = TrackQueue::new();
    q.reg_queue = vec![1, 2, 1, 3];
    q.exp_queue = vec![1];
    q.played_tracks = vec![4, 1];
    q.curr_track = TrackType::RegQueueTrack(1);
    q.forget_track(1);
    assert_eq!(q.reg_queue, vec![2, 3]);
    assert!(q.exp_queue.is_empty());
    assert_eq!(q.played_tracks, vec![4]);
    assert_eq!(q.curr_track, TrackType::RegQueueTrack(1));
    q.forget_track(9);
    assert_eq!(q.reg_queue, vec![2, 3]);
}

#[test]
fn another_group_selects_its_first_bucket() {
    let mut state = sample();
    state.sync_filter_selection();
    assert_eq!(state.f2_state, "Empty");
    state.f1_state = F1State::Artists;
    state.sync_filter_selection();
    assert_eq!(state.f2_state, "A");
    assert_eq!(state.prev_state.f1_state, F1State::Artists);
    state.f2_state = s("B");
    state.sync_filter_selection();
    assert_eq!(state.f2_state, "B");
    state.f1_state = F1State::All;
    state.sync_filter_selection();
    assert_eq!(state.f2_state, "All");
    state.f1_state = F1State::Albums;
    state.sync_filter_selection();
    assert_eq!(state.f2_state, "None");
    assert_eq!(state.filter_options(), vec![s("None"), s("X")]);
    state.f1_state = F1State::Playlists;
    assert_eq!(state.filter_options(), vec![s("Empty"), s("Liked"), s("Road")]);
}

#[test]
fn another_bucket_rebuilds_the_track_list() {
    let mut state = sample();
    assert!(state.refresh_tracklist());
    assert!(state.tracklist_state.items.is_empty());
    assert!(!state.refresh_tracklist());
    state.f2_state = s("Liked");
    assert!(state.refresh_tracklist());
    assert_eq!(row_ids(&state), vec![1]);
    let row = &state.tracklist_state.items[0];
    assert_eq!(row.name, "One");
    assert_eq!(row.artist, "A, B");
    assert_eq!(row.album, "X");
    assert_eq!(row.duration, "1:01");
    state.f2_state = s("Road");
    assert!(state.refresh_tracklist());
    assert_eq!(row_ids(&state), vec![2, 3, 4]);
    assert_eq!(state.tracklist_state.items[0].album, "");
    assert_eq!(state.tracklist_state.items[1].artist, "");
    assert_eq!(state.prev_state.f2_state, (F1State::Playlists, s("Road")));
    state.f2_state = s("Gone");
    assert!(state.refresh_tracklist());
    assert!(state.tracklist_state.items.is_empty());
}

#[test]
fn downloads_are_counted_and_then_taken_in() {
    let mut state = sample();
    assert!(!state.download_progress(12, &s("Road")));
    assert_eq!(state.notification.message, "Downloading tracks, 12 remaining...");
    assert_eq!(state.notification.time_limit_s, None);
    assert!(!state.download_progress(0, &s("")));
    assert_eq!(state.notification.message, "Downloading tracks, 12 remaining...");
    assert!(state.download_progress(0, &s("Road")));
    assert_eq!(state.notification.message, "All tracks downloaded");
    assert_eq!(state.notification.time_limit_s, Some(3));
}

#[test]
fn missing_rows_are_appended() {
    let mut state = sample();
    state.f2_state = s("Road");
    state.refresh_tracklist();
    state.add_missing_rows();
    assert_eq!(row_ids(&state), vec![2, 3, 4]);
    state.trackdb.add_all_tracks(
        Some(s("Road")),
        vec![tags("Five", Some(&["C"]), None, 5), tags("Six", None, None, 6)],
    );
    state.add_missing_rows();
    assert_eq!(row_ids(&state), vec![2, 3, 4, 5, 6]);
    assert_eq!(state.tracklist_state.items[3].artist, "C");
    assert_eq!(state.tracklist_state.items[4].duration, "0:06");
    state.tracklist_state.remove_with_id(3);
    state.tracklist_state.remove_with_id(5);
    state.add_missing_rows();
    assert_eq!(row_ids(&state), vec![2, 4, 6, 3, 5]);
}

#[test]
fn the_player_status_is_three_words() {
    let on = PlayerStatus { paused: true, next: false, prev: true };
    assert_eq!(parse_status("true false true"), Some(on));
    assert_eq!(parse_status("  true\tfalse\n true  extra"), Some(on));
    assert_eq!(
        parse_status("yes no maybe"),
        Some(PlayerStatus { paused: false, next: false, prev: false })
    );
    assert_eq!(parse_status("true false"), None);
    assert_eq!(parse_status(""), None);
    assert_eq!(status_from_words(&vec![s("false"), s("true"), s("false")]),
        Some(PlayerStatus { paused: false, next: true, prev: false }));
    assert_eq!(status_from_words(&vec![s("true true true")]), None);
}

#[test]
fn a_status_is_news_if_it_is_new() {
    assert!(status_changed(&s("true false false"), &s("")));
    assert!(status_changed(&s("true false false"), &s("false false false")));
    assert!(!status_changed(&s("true false false"), &s("true false false")));
    assert!(!status_changed(&s(""), &s("true false false")));
    assert!(!status_changed(&s(""), &s("")));
}

fn playing(ids: &[u32], steps: usize) -> TrackQueue {
    let mut q = TrackQueue::new();
    for id in ids {
        q.add_to_reg_queue(*id);
    }
    for _ in 0..steps {
        q.next_track();
    }
    q
}

#[test]
fn next_and_previous_move_the_queue() {
    let idle = PlayerStatus { paused: false, next: false, prev: false };
    let mut q = playing(&[1, 2, 3], 2);
    assert!(!next_prev(&mut q, &idle, 100));
    assert_eq!(q.curr_track, TrackType::RegQueueTrack(2));
    assert!(next_prev(&mut q, &PlayerStatus { next: true, ..idle }, 100));
    assert_eq!(q.curr_track, TrackType::RegQueueTrack(3));
    assert!(next_prev(&mut q, &PlayerStatus { prev: true, ..idle }, 3));
    assert_eq!(q.curr_track, TrackType::RegQueueTrack(2));
    assert!(next_prev(&mut q, &PlayerStatus { prev: true, ..idle }, 4));
    assert_eq!(q.curr_track, TrackType::RegQueueTrack(2));
    assert_eq!(q.played_tracks, vec![1]);
    assert!(next_prev(&mut q, &PlayerStatus { next: true, prev: true, ..idle }, 100));
    assert_eq!(q.curr_track, TrackType::RegQueueTrack(2));
    assert_eq!(q.reg_queue, vec![3]);
    assert_eq!(q.played_tracks, vec![1]);
}
