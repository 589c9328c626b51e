use mprs::db::TrackDB;
use mprs::db::TrackInfo;
use mprs::db::TrackTags;
use mprs::snapshot::Snapshot;
use mprs::snapshot::StorageError;
use mprs::state::filter_state::F1State;

fn s(text: &str) -> String {
    text.to_string()
}

fn tags(name: &str, artists: Option<&[&str]>, album: Option<&str>, duration: u32) -> TrackTags {
    TrackTags {
        name: s(name),
        artists: artists.map(|a| a.iter().map(|x| s(x)).collect()),
        album: album.map(s),
        duration,
    }
}

fn track(id: u32, playlist: &str) -> TrackInfo {
    TrackInfo { id, name: s("t"), artists: None, album: None, playlist: s(playlist), duration: 1 }
}

fn empty_snapshot() -> Snapshot {
    Snapshot {
        playlists: vec![(s("Liked"), vec![])],
        artists: vec![(s("None"), vec![])],
        albums: vec![(s("None"), vec![])],
        all: vec![(s("All"), vec![])],
        tracks: vec![],
        max_id: 0,
    }
}

fn one_track_snapshot() -> Snapshot {
    Snapshot {
        playlists: vec![(s("Liked"), vec![1])],
        artists: vec![(s("None"), vec![1])],
        albums: vec![(s("None"), vec![1])],
        all: vec![(s("All"), vec![1])],
        tracks: vec![track(1, "Liked")],
        max_id: 1,
    }
}

fn sample_library() -> TrackDB {
    let mut db = TrackDB::new();
    db.create_playlist(s("Road"));
    db.add_track(tags("One", Some(&["A", "B"]), Some("X"), 10), None);
    db.add_track(tags("Two", Some(&["B"]), None, 20), Some(s("Road")));
    db.add_track(tags("Three", None, Some("X"), 30), Some(s("Road")));
    db.add_track(tags("Four", Some(&["C"]), Some("Y"), 40), None);
    db.remove_track(4).unwrap();
    db.change_title(1, s("Uno")).unwrap();
    db
}

fn assert_same(a: &TrackDB, b: &TrackDB) {
    assert_eq!(a.max_id(), b.max_id());
    assert_eq!(a.len(), b.len());
    for id in 0..=a.max_id() {
        assert_eq!(a.get_track(id), b.get_track(id));
    }
    for group in [F1State::Playlists, F1State::Artists, F1State::Albums, F1State::All] {
        assert_eq!(a.track_filter_cache(group).to_entries(), b.track_filter_cache(group).to_entries());
    }
}

#[test]
fn snapshot_of_the_empty_library() {
    let db = TrackDB::new();
    let snapshot = db.to_snapshot();
    assert_eq!(snapshot, empty_snapshot());
    let back = TrackDB::from_snapshot(snapshot).unwrap();
    assert_same(&db, &back);
}

#[test]
fn snapshot_of_one_track() {
    let mut db = TrackDB::new();
    db.add_track(tags("t", None, None, 1), None);
    let snapshot = db.to_snapshot();
    assert_eq!(snapshot, one_track_snapshot());
    let back = TrackDB::from_snapshot(snapshot).unwrap();
    assert_same(&db, &back);
}

#[test]
fn snapshot_round_trip_of_several_tracks() {
    let db = sample_library();
    let snapshot = db.to_snapshot();
    assert_eq!(snapshot.max_id, 4);
    assert_eq!(snapshot.playlists, vec![(s("Liked"), vec![1]), (s("Road"), vec![2, 3])]);
    assert_eq!(
        snapshot.artists,
        vec![(s("A"), vec![1]), (s("B"), vec![2, 1]), (s("None"), vec![3])]
    );
    assert_eq!(snapshot.albums, vec![(s("None"), vec![2]), (s("X"), vec![3, 1])]);
    assert_eq!(snapshot.all, vec![(s("All"), vec![2, 3, 1])]);
    assert_eq!(snapshot.tracks.iter().map(|t| t.id).collect::<Vec<u32>>(), vec![2, 3, 1]);
    let back = TrackDB::from_snapshot(snapshot).unwrap();
    assert_same(&db, &back);
    assert_eq!(back.to_snapshot(), db.to_snapshot());
}

#[test]
fn a_restored_library_goes_on_like_the_one_it_was_taken_from() {
    let mut a = sample_library();
    let mut b = TrackDB::from_snapshot(a.to_snapshot()).unwrap();
    for db in [&mut a, &mut b] {
        assert_eq!(db.add_track(tags("Five", Some(&["A"]), None, 50), None).id, 5);
        db.remove_playlist(&s("Road")).unwrap();
    }
    assert_same(&a, &b);
}

#[test]
fn init_without_a_snapshot_is_the_empty_library() {
    let db = TrackDB::init(None).unwrap();
    assert_eq!(db.to_snapshot(), empty_snapshot());
}

#[test]
fn init_with_a_snapshot_restores_it() {
    let db = TrackDB::init(Some(one_track_snapshot())).unwrap();
    assert_eq!(db.get_track(1), Some(&track(1, "Liked")));
    assert_eq!(db.max_id(), 1);
}

#[test]
fn init_with_a_corrupt_snapshot_is_an_error() {
    let mut snapshot = one_track_snapshot();
    snapshot.all = vec![(s("All"), vec![])];
    assert_eq!(TrackDB::init(Some(snapshot)).err(), Some(StorageError::Corrupt));
}

fn corrupt(change: fn(&mut Snapshot)) {
    let mut snapshot = TrackDB::from_snapshot(one_track_snapshot()).unwrap().to_snapshot();
    change(&mut snapshot);
    assert_eq!(TrackDB::from_snapshot(snapshot).err(), Some(StorageError::Corrupt));
}

#[test]
fn names_out_of_order_are_corrupt() {
    corrupt(|x| x.playlists = vec![(s("Road"), vec![]), (s("Liked"), vec![1])]);
}

#[test]
fn a_name_twice_is_corrupt() {
    corrupt(|x| x.playlists = vec![(s("Liked"), vec![1]), (s("Liked"), vec![])]);
}

#[test]
fn a_missing_sentinel_is_corrupt() {
    corrupt(|x| x.artists = vec![]);
    corrupt(|x| x.albums = vec![]);
    corrupt(|x| x.all = vec![]);
    corrupt(|x| {
        x.playlists = vec![(s("Road"), vec![1])];
        x.tracks = vec![track(1, "Road")];
    });
}

#[test]
fn a_second_name_in_the_list_of_every_track_is_corrupt() {
    corrupt(|x| x.all = vec![(s("All"), vec![1]), (s("Else"), vec![])]);
    corrupt(|x| x.all = vec![(s("Else"), vec![1])]);
}

#[test]
fn an_id_twice_in_a_bucket_is_corrupt() {
    corrupt(|x| x.all = vec![(s("All"), vec![1, 1])]);
    corrupt(|x| x.playlists = vec![(s("Liked"), vec![1, 1])]);
}

#[test]
fn an_id_without_a_record_is_corrupt() {
    corrupt(|x| x.all = vec![(s("All"), vec![1, 2])]);
    corrupt(|x| x.tracks = vec![]);
}

#[test]
fn a_record_that_is_not_filed_is_corrupt() {
    corrupt(|x| x.all = vec![(s("All"), vec![])]);
    corrupt(|x| x.playlists = vec![(s("Liked"), vec![])]);
    corrupt(|x| x.artists = vec![(s("None"), vec![])]);
    corrupt(|x| x.albums = vec![(s("None"), vec![])]);
}

#[test]
fn a_record_filed_under_a_wrong_name_is_corrupt() {
    corrupt(|x| x.playlists = vec![(s("Liked"), vec![1]), (s("Road"), vec![1])]);
    corrupt(|x| x.artists = vec![(s("A"), vec![1]), (s("None"), vec![1])]);
    corrupt(|x| x.albums = vec![(s("A"), vec![1]), (s("None"), vec![1])]);
}

#[test]
fn an_empty_artist_or_album_bucket_is_corrupt() {
    corrupt(|x| x.artists = vec![(s("A"), vec![]), (s("None"), vec![1])]);
    corrupt(|x| x.albums = vec![(s("A"), vec![]), (s("None"), vec![1])]);
}

#[test]
fn an_empty_playlist_is_not_corrupt() {
    let mut snapshot = one_track_snapshot();
    snapshot.playlists = vec![(s("Liked"), vec![1]), (s("Road"), vec![])];
    assert!(TrackDB::from_snapshot(snapshot).is_ok());
}

#[test]
fn two_tracks_with_one_id_are_corrupt() {
    corrupt(|x| x.tracks = vec![track(1, "Liked"), track(1, "Liked")]);
}

#[test]
fn an_id_above_the_greatest_id_is_corrupt() {
    corrupt(|x| x.max_id = 0);
    let mut snapshot = one_track_snapshot();
    snapshot.max_id = 7;
    assert_eq!(TrackDB::from_snapshot(snapshot).unwrap().max_id(), 7);
}
