use mprs::buckets::BucketMap;
use mprs::db::NotFoundError;
use mprs::db::TrackDB;
use mprs::db::TrackInfo;
use mprs::db::TrackTags;
use mprs::state::filter_state::F1State;

fn s(text: &str) -> String {
    text.to_string()
}

fn tags(name: &str, artists: Option<&[&str]>, album: Option<&str>, duration: u32) -> TrackTags {
    TrackTags {
        name: s(name),
        artists: artists.map(|a| a.iter().map(|x| s(x)).collect()),
        album: album.map(s),
        duration,
    }
}

fn bucket(db: &TrackDB, group: F1State, key: &str) -> Option<Vec<u32>> {
    db.track_filter_cache(group).get(&s(key)).cloned()
}

fn keys(db: &TrackDB, group: F1State) -> Vec<String> {
    db.track_filter_cache(group).keys()
}

fn groups() -> [F1State; 4] {
    [F1State::Playlists, F1State::Artists, F1State::Albums, F1State::All]
}

fn belongs(info: &TrackInfo, group: F1State, key: &str) -> bool {
    match group {
        F1State::Playlists => info.playlist == key,
        F1State::Albums => match &info.album {
            Some(a) => a == key,
            None => key == "None",
        },
        F1State::Artists => match &info.artists {
            Some(names) => names.iter().any(|n| n == key),
            None => key == "None",
        },
        F1State::All => key == "All",
    }
}

fn keys_of(info: &TrackInfo, group: F1State) -> Vec<String> {
    match group {
        F1State::Playlists => vec![info.playlist.clone()],
        F1State::Albums => vec![info.album.clone().unwrap_or(s("None"))],
        F1State::Artists => match &info.artists {
            Some(names) => names.clone(),
            None => vec![s("None")],
        },
        F1State::All => vec![s("All")],
    }
}

/// Checks by hand that the buckets agree with the records.
fn assert_consistent(db: &TrackDB) {
    for group in groups() {
        let map: &BucketMap = db.track_filter_cache(group);
        let names = map.keys();
        for w in names.windows(2) {
            assert!(w[0] < w[1], "bucket names out of order: {:?}", names);
        }
        for name in &names {
            let ids = map.get(name).unwrap();
            for (i, id) in ids.iter().enumerate() {
                assert!(!ids[..i].contains(id), "id {} twice under {:?}", id, name);
                let info = db.get_track(*id).expect("a bucket holds an id without a record");
                assert!(belongs(info, group, name));
            }
            if (group == F1State::Artists || group == F1State::Albums) && name != "None" {
                assert!(!ids.is_empty(), "empty bucket {:?} was kept", name);
            }
        }
    }
    for id in 0..=db.max_id() {
        if let Some(info) = db.get_track(id) {
            assert_eq!(info.id, id);
            for group in groups() {
                for key in keys_of(info, group) {
                    let ids = bucket(db, group, &key).expect("a track's bucket is missing");
                    assert!(ids.contains(&id));
                }
            }
        }
    }
    assert!(bucket(db, F1State::Playlists, "Liked").is_some());
    assert!(bucket(db, F1State::Artists, "None").is_some());
    assert!(bucket(db, F1State::Albums, "None").is_some());
    assert_eq!(keys(db, F1State::All), vec![s("All")]);
    assert_eq!(bucket(db, F1State::All, "All").unwrap().len(), db.len());
}

#[test]
fn new_library_has_the_four_empty_buckets() {
    let db = TrackDB::new();
    assert_eq!(db.max_id(), 0);
    assert_eq!(db.len(), 0);
    assert_eq!(keys(&db, F1State::Playlists), vec![s("Liked")]);
    assert_eq!(keys(&db, F1State::Artists), vec![s("None")]);
    assert_eq!(keys(&db, F1State::Albums), vec![s("None")]);
    assert_eq!(keys(&db, F1State::All), vec![s("All")]);
    for group in groups() {
        for key in keys(&db, group) {
            assert_eq!(bucket(&db, group, &key), Some(vec![]));
        }
    }
    assert_consistent(&db);
}

#[test]
fn add_track_files_the_track_everywhere() {
    let mut db = TrackDB::new();
    let info = db.add_track(tags("Song", Some(&["A", "B"]), Some("Album"), 180), None);
    assert_eq!(
        info,
        TrackInfo {
            id: 1,
            name: s("Song"),
            artists: Some(vec![s("A"), s("B")]),
            album: Some(s("Album")),
            playlist: s("Liked"),
            duration: 180,
        }
    );
    assert_eq!(db.max_id(), 1);
    assert_eq!(db.get_track(1), Some(&info));
    assert!(db.contains_track(1));
    assert!(!db.contains_track(2));
    assert_eq!(bucket(&db, F1State::Playlists, "Liked"), Some(vec![1]));
    assert_eq!(bucket(&db, F1State::Artists, "A"), Some(vec![1]));
    assert_eq!(bucket(&db, F1State::Artists, "B"), Some(vec![1]));
    assert_eq!(bucket(&db, F1State::Artists, "None"), Some(vec![]));
    assert_eq!(bucket(&db, F1State::Albums, "Album"), Some(vec![1]));
    assert_eq!(bucket(&db, F1State::Albums, "None"), Some(vec![]));
    assert_eq!(bucket(&db, F1State::All, "All"), Some(vec![1]));
    assert_consistent(&db);
}

#[test]
fn a_track_without_artists_or_album_goes_under_none() {
    let mut db = TrackDB::new();
    db.add_track(tags("Song", None, None, 10), Some(s("Road")));
    assert_eq!(bucket(&db, F1State::Playlists, "Road"), Some(vec![1]));
    assert_eq!(bucket(&db, F1State::Playlists, "Liked"), Some(vec![]));
    assert_eq!(bucket(&db, F1State::Artists, "None"), Some(vec![1]));
    assert_eq!(bucket(&db, F1State::Albums, "None"), Some(vec![1]));
    assert_consistent(&db);
}

#[test]
fn an_empty_list_of_artists_is_not_the_same_as_none() {
    let mut db = TrackDB::new();
    let info = db.add_track(tags("Song", Some(&[]), None, 10), None);
    assert_eq!(info.artists, Some(vec![]));
    assert_eq!(db.get_track(1).unwrap().artists, Some(vec![]));
    assert_eq!(keys(&db, F1State::Artists), vec![s("None")]);
    assert_eq!(bucket(&db, F1State::Artists, "None"), Some(vec![]));
    assert_consistent(&db);
    db.remove_track(1).unwrap();
    assert_consistent(&db);
}

#[test]
fn an_artist_credited_twice_is_filed_once() {
    let mut db = TrackDB::new();
    db.add_track(tags("Song", Some(&["A", "A"]), None, 10), None);
    assert_eq!(bucket(&db, F1State::Artists, "A"), Some(vec![1]));
    assert_consistent(&db);
    db.remove_track(1).unwrap();
    assert_eq!(bucket(&db, F1State::Artists, "A"), None);
    assert_consistent(&db);
}

#[test]
fn artist_names_are_compared_exactly() {
    let mut db = TrackDB::new();
    db.add_track(tags("One", Some(&["abba"]), None, 10), None);
    db.add_track(tags("Two", Some(&["ABBA"]), None, 10), None);
    assert_eq!(bucket(&db, F1State::Artists, "abba"), Some(vec![1]));
    assert_eq!(bucket(&db, F1State::Artists, "ABBA"), Some(vec![2]));
    assert_eq!(keys(&db, F1State::Artists), vec![s("ABBA"), s("None"), s("abba")]);
}

#[test]
fn names_that_equal_the_sentinels_keep_the_sentinel_buckets() {
    let mut db = TrackDB::new();
    db.add_track(tags("One", Some(&["None"]), Some("None"), 10), None);
    db.add_track(tags("Two", None, None, 10), None);
    assert_eq!(bucket(&db, F1State::Artists, "None"), Some(vec![1, 2]));
    assert_eq!(bucket(&db, F1State::Albums, "None"), Some(vec![1, 2]));
    db.remove_track(1).unwrap();
    db.remove_track(2).unwrap();
    assert_eq!(bucket(&db, F1State::Artists, "None"), Some(vec![]));
    assert_eq!(bucket(&db, F1State::Albums, "None"), Some(vec![]));
    assert_consistent(&db);
}

#[test]
fn remove_track_takes_the_track_out_of_every_bucket() {
    let mut db = TrackDB::new();
    db.add_track(tags("One", Some(&["A", "B"]), Some("X"), 10), None);
    db.add_track(tags("Two", Some(&["B"]), Some("Y"), 20), None);
    let removed = db.remove_track(1).unwrap();
    assert_eq!(removed.id, 1);
    assert_eq!(removed.name, "One");
    assert_eq!(db.get_track(1), None);
    assert_eq!(db.len(), 1);
    assert_eq!(bucket(&db, F1State::Playlists, "Liked"), Some(vec![2]));
    assert_eq!(bucket(&db, F1State::Artists, "A"), None);
    assert_eq!(bucket(&db, F1State::Artists, "B"), Some(vec![2]));
    assert_eq!(bucket(&db, F1State::Albums, "X"), None);
    assert_eq!(bucket(&db, F1State::Albums, "Y"), Some(vec![2]));
    assert_eq!(bucket(&db, F1State::All, "All"), Some(vec![2]));
    assert_eq!(keys(&db, F1State::Artists), vec![s("B"), s("None")]);
    assert_consistent(&db);
}

#[test]
fn remove_track_of_an_unknown_id_is_an_error() {
    let mut db = TrackDB::new();
    db.add_track(tags("One", None, None, 10), None);
    assert_eq!(db.remove_track(7), Err(NotFoundError { id: 7 }));
    assert_eq!(db.len(), 1);
    assert_eq!(bucket(&db, F1State::All, "All"), Some(vec![1]));
    assert_consistent(&db);
}

#[test]
fn ids_are_not_given_out_twice() {
    let mut db = TrackDB::new();
    db.add_track(tags("One", None, None, 10), None);
    db.add_track(tags("Two", None, None, 10), None);
    db.remove_track(2).unwrap();
    let info = db.add_track(tags("Three", None, None, 10), None);
    assert_eq!(info.id, 3);
    assert_eq!(db.max_id(), 3);
    db.remove_track(1).unwrap();
    db.remove_track(3).unwrap();
    assert_eq!(db.max_id(), 3);
    assert_eq!(db.add_track(tags("Four", None, None, 10), None).id, 4);
}

#[test]
fn edit_track_keeps_the_duration() {
    let mut db = TrackDB::new();
    db.add_track(tags("A", None, None, 180), None);
    let mut edited = db.get_track(1).unwrap().clone();
    edited.duration = 999;
    edited.name = s("B");
    db.edit_track(edited).unwrap();
    assert_eq!(db.get_track(1).unwrap().duration, 180);
    assert_eq!(db.get_track(1).unwrap().name, "B");
    assert_consistent(&db);
}

#[test]
fn edit_track_files_the_track_anew() {
    let mut db = TrackDB::new();
    db.add_track(tags("One", Some(&["A"]), Some("X"), 10), None);
    db.add_track(tags("Two", Some(&["A"]), Some("X"), 20), None);
    let rename = db
        .edit_track(TrackInfo {
            id: 1,
            name: s("Uno"),
            artists: Some(vec![s("C")]),
            album: None,
            playlist: s("Road"),
            duration: 0,
        })
        .unwrap();
    assert_eq!(rename.from, "One - 1.mp3");
    assert_eq!(rename.to, "Uno - 1.mp3");
    assert_eq!(bucket(&db, F1State::Playlists, "Liked"), Some(vec![2]));
    assert_eq!(bucket(&db, F1State::Playlists, "Road"), Some(vec![1]));
    assert_eq!(bucket(&db, F1State::Artists, "A"), Some(vec![2]));
    assert_eq!(bucket(&db, F1State::Artists, "C"), Some(vec![1]));
    assert_eq!(bucket(&db, F1State::Albums, "X"), Some(vec![2]));
    assert_eq!(bucket(&db, F1State::Albums, "None"), Some(vec![1]));
    assert_eq!(bucket(&db, F1State::All, "All"), Some(vec![2, 1]));
    assert_eq!(db.get_track(1).unwrap().duration, 10);
    assert_consistent(&db);
}

#[test]
fn edit_track_of_an_unknown_id_is_an_error() {
    let mut db = TrackDB::new();
    db.add_track(tags("One", None, None, 10), None);
    let r = db.edit_track(TrackInfo {
        id: 5,
        name: s("X"),
        artists: None,
        album: None,
        playlist: s("Liked"),
        duration: 1,
    });
    assert_eq!(r, Err(NotFoundError { id: 5 }));
    assert_eq!(db.len(), 1);
    assert_consistent(&db);
}

#[test]
fn change_functions_edit_one_field() {
    let mut db = TrackDB::new();
    db.add_track(tags("One", Some(&["A"]), Some("X"), 10), None);
    db.change_playlist(1, s("Road")).unwrap();
    assert_eq!(db.get_track(1).unwrap().playlist, "Road");
    assert_eq!(bucket(&db, F1State::Playlists, "Road"), Some(vec![1]));
    assert_eq!(bucket(&db, F1State::Playlists, "Liked"), Some(vec![]));
    let rename = db.change_title(1, s("Uno/Dos")).unwrap();
    assert_eq!(rename.from, "One - 1.mp3");
    assert_eq!(rename.to, "UnoDos - 1.mp3");
    assert_eq!(db.get_track(1).unwrap().name, "Uno/Dos");
    db.change_artists(1, Some(vec![s("B"), s("C")])).unwrap();
    assert_eq!(keys(&db, F1State::Artists), vec![s("B"), s("C"), s("None")]);
    db.change_artists(1, None).unwrap();
    assert_eq!(keys(&db, F1State::Artists), vec![s("None")]);
    assert_eq!(bucket(&db, F1State::Artists, "None"), Some(vec![1]));
    db.change_album(1, None).unwrap();
    assert_eq!(keys(&db, F1State::Albums), vec![s("None")]);
    db.change_album(1, Some(s("Y"))).unwrap();
    assert_eq!(bucket(&db, F1State::Albums, "Y"), Some(vec![1]));
    assert_eq!(db.get_track(1).unwrap().duration, 10);
    assert_consistent(&db);
    assert_eq!(db.change_playlist(9, s("Z")), Err(NotFoundError { id: 9 }));
    assert_eq!(db.change_title(9, s("Z")), Err(NotFoundError { id: 9 }));
    assert_eq!(db.change_artists(9, None), Err(NotFoundError { id: 9 }));
    assert_eq!(db.change_album(9, None), Err(NotFoundError { id: 9 }));
    assert_eq!(bucket(&db, F1State::Playlists, "Z"), None);
    assert_consistent(&db);
}

#[test]
fn create_playlist_twice_leaves_one_empty_bucket() {
    let mut db = TrackDB::new();
    assert!(db.create_playlist(s("P")));
    assert!(!db.create_playlist(s("P")));
    assert_eq!(keys(&db, F1State::Playlists), vec![s("Liked"), s("P")]);
    assert_eq!(bucket(&db, F1State::Playlists, "P"), Some(vec![]));
    assert_consistent(&db);
}

#[test]
fn create_playlist_keeps_the_tracks_of_an_existing_playlist() {
    let mut db = TrackDB::new();
    db.add_track(tags("One", None, None, 10), Some(s("P")));
    assert!(!db.create_playlist(s("P")));
    assert_eq!(bucket(&db, F1State::Playlists, "P"), Some(vec![1]));
}

#[test]
fn remove_playlist_removes_its_tracks() {
    let mut db = TrackDB::new();
    db.create_playlist(s("P"));
    db.add_track(tags("Keep", Some(&["A"]), Some("X"), 10), None);
    db.add_track(tags("One", Some(&["A"]), Some("X"), 10), Some(s("P")));
    db.add_track(tags("Two", Some(&["B"]), None, 10), Some(s("P")));
    let removed = db.remove_playlist(&s("P")).unwrap();
    assert_eq!(removed.iter().map(|t| t.id).collect::<Vec<u32>>(), vec![2, 3]);
    assert_eq!(removed[0].name, "One");
    assert_eq!(removed[1].name, "Two");
    assert_eq!(db.get_track(2), None);
    assert_eq!(db.get_track(3), None);
    assert!(db.get_track(1).is_some());
    assert_eq!(keys(&db, F1State::Playlists), vec![s("Liked")]);
    for group in groups() {
        for key in keys(&db, group) {
            let ids = bucket(&db, group, &key).unwrap();
            assert!(!ids.contains(&2));
            assert!(!ids.contains(&3));
        }
    }
    assert_eq!(bucket(&db, F1State::Artists, "B"), None);
    assert_eq!(bucket(&db, F1State::Artists, "A"), Some(vec![1]));
    assert_consistent(&db);
}

#[test]
fn remove_playlist_liked_changes_nothing() {
    let mut db = TrackDB::new();
    db.add_track(tags("One", None, None, 10), None);
    assert_eq!(db.remove_playlist(&s("Liked")), None);
    assert_eq!(bucket(&db, F1State::Playlists, "Liked"), Some(vec![1]));
    assert_eq!(db.len(), 1);
    assert_consistent(&db);
}

#[test]
fn remove_playlist_of_an_unknown_name_changes_nothing() {
    let mut db = TrackDB::new();
    db.add_track(tags("One", None, None, 10), None);
    assert_eq!(db.remove_playlist(&s("Nope")), None);
    assert_eq!(db.len(), 1);
    assert_consistent(&db);
}

#[test]
fn remove_playlist_of_an_empty_playlist() {
    let mut db = TrackDB::new();
    db.create_playlist(s("P"));
    assert_eq!(db.remove_playlist(&s("P")), Some(vec![]));
    assert_eq!(keys(&db, F1State::Playlists), vec![s("Liked")]);
}

#[test]
fn add_all_tracks_gives_out_ids_in_order() {
    let mut db = TrackDB::new();
    db.add_track(tags("Zero", None, None, 1), None);
    let added = db.add_all_tracks(
        Some(s("P")),
        vec![
            tags("One", Some(&["A"]), None, 10),
            tags("Two", None, Some("X"), 20),
            tags("Three", Some(&["A", "B"]), Some("X"), 30),
        ],
    );
    assert_eq!(added.iter().map(|t| t.id).collect::<Vec<u32>>(), vec![2, 3, 4]);
    assert_eq!(added[2].name, "Three");
    assert_eq!(added[2].playlist, "P");
    assert_eq!(added[1].duration, 20);
    assert_eq!(db.max_id(), 4);
    assert_eq!(db.get_track(3), Some(&added[1]));
    assert_eq!(bucket(&db, F1State::Playlists, "P"), Some(vec![2, 3, 4]));
    assert_eq!(bucket(&db, F1State::Artists, "A"), Some(vec![2, 4]));
    assert_eq!(bucket(&db, F1State::Albums, "X"), Some(vec![3, 4]));
    assert_eq!(bucket(&db, F1State::All, "All"), Some(vec![1, 2, 3, 4]));
    assert_consistent(&db);
}

#[test]
fn add_all_tracks_defaults_to_liked_and_accepts_nothing() {
    let mut db = TrackDB::new();
    assert_eq!(db.add_all_tracks(None, vec![]), vec![]);
    assert_eq!(db.max_id(), 0);
    let added = db.add_all_tracks(None, vec![tags("One", None, None, 10)]);
    assert_eq!(added[0].playlist, "Liked");
    assert_eq!(bucket(&db, F1State::Playlists, "Liked"), Some(vec![1]));
}

#[test]
fn file_names_have_no_path_separator() {
    let info = TrackInfo {
        id: 7,
        name: s("a/b"),
        artists: None,
        album: None,
        playlist: s("Liked"),
        duration: 0,
    };
    assert_eq!(info.get_file_name(), "ab - 7.mp3");
    let info = TrackInfo { id: 4294967295, name: s("//AC/DC//"), ..info };
    assert_eq!(info.get_file_name(), "ACDC - 4294967295.mp3");
    let info = TrackInfo { id: 120, name: s("Ünïcödé ✓"), ..info };
    assert_eq!(info.get_file_name(), "Ünïcödé ✓ - 120.mp3");
}

#[test]
fn bucket_names_are_listed_in_byte_order() {
    let mut db = TrackDB::new();
    for name in ["b", "a", "é", "Z", "ab", "", "a b", "zz", "€"] {
        db.create_playlist(s(name));
    }
    let mut expected: Vec<String> =
        ["b", "a", "é", "Z", "ab", "", "a b", "zz", "€", "Liked"].iter().map(|x| s(x)).collect();
    expected.sort();
    assert_eq!(keys(&db, F1State::Playlists), expected);
    assert_consistent(&db);
}

#[test]
fn buckets_stay_consistent_over_a_long_run() {
    let mut db = TrackDB::new();
    let names = ["A", "B", "C", "None", "Liked", "All", "x/y"];
    let mut seed: u32 = 12345;
    let mut next = |n: u32| -> u32 {
        seed = seed.wrapping_mul(1664525).wrapping_add(1013904223);
        (seed >> 8) % n
    };
    for step in 0..400 {
        match next(6) {
            0 | 1 => {
                let artists = match next(3) {
                    0 => None,
                    1 => Some(vec![s(names[next(7) as usize])]),
                    _ => Some(vec![s(names[next(7) as usize]), s(names[next(7) as usize])]),
                };
                let album = if next(2) == 0 { None } else { Some(s(names[next(7) as usize])) };
                let playlist = if next(2) == 0 { None } else { Some(s(names[next(7) as usize])) };
                let before = db.max_id();
                let info =
                    db.add_track(TrackTags { name: s("t"), artists, album, duration: step }, playlist);
                assert_eq!(info.id, before + 1);
            }
            2 => {
                let id = next(db.max_id() + 2);
                let had = db.contains_track(id);
                assert_eq!(db.remove_track(id).is_ok(), had);
                assert!(!db.contains_track(id));
            }
            3 => {
                let id = next(db.max_id() + 2);
                let duration = db.get_track(id).map(|t| t.duration);
                let r = db.edit_track(TrackInfo {
                    id,
                    name: s("e"),
                    artists: Some(vec![s(names[next(7) as usize])]),
                    album: None,
                    playlist: s(names[next(7) as usize]),
                    duration: 4242,
                });
                assert_eq!(r.is_ok(), duration.is_some());
                assert_eq!(db.get_track(id).map(|t| t.duration), duration);
            }
            4 => {
                db.create_playlist(s(names[next(7) as usize]));
            }
            _ => {
                let name = s(names[next(7) as usize]);
                let r = db.remove_playlist(&name);
                if name == "Liked" {
                    assert_eq!(r, None);
                } else if r.is_some() {
                    assert_eq!(bucket(&db, F1State::Playlists, &name), None);
                }
            }
        }
        assert_consistent(&db);
    }
}
