//! The state of the application as far as it decides what is shown and what
//! plays: the library, the queue, and the selections of the user.

use crate::buckets::Buckets;
use crate::consts::NOTIFICATION_TIMEOUT_S;
use crate::db::file_name;
use crate::db::NotFoundError;
use crate::db::TrackDB;
use crate::db::TrackInfo;
use crate::library::lemma_filed_is_track;
use crate::library::Library;
use crate::library::liked;
use crate::library::TrackRecord;
use crate::state::filter_state::F1State;
use crate::state::notification_state::NotificationState;
use crate::state::tracklist_state::Row;
use crate::state::tracklist_state::row_of;
use crate::state::tracklist_state::TracklistState;
use crate::track_queue::QueueState;
use crate::track_queue::rotated_after;
use crate::track_queue::TrackQueue;
use crate::track_queue::TrackType;
use vstd::prelude::*;
use vstd::string::StringExecFns;

verus! {

/// The selections of the previous frame, kept to tell what has changed.
pub struct PrevState {
    pub f1_state: F1State,
    pub f2_state: (F1State, String),
    pub trackid: Option<u32>,
    pub shuffle: bool,
}

/// The library, the queue and the selections of the user.
pub struct AppState {
    pub paused: bool,
    pub shuffle: bool,
    pub notification: NotificationState,
    pub tracklist_state: TracklistState,
    /// The selected group of buckets.
    pub f1_state: F1State,
    /// The name of the selected bucket.
    pub f2_state: String,
    pub trackdb: TrackDB,
    pub trackqueue: TrackQueue,
    pub prev_state: PrevState,
    pub curr_trackinfo: Option<TrackInfo>,
    pub new_playlist_name: String,
    pub new_track_search_term: String,
}

/// The ids of the bucket `key`, or none where there is no such bucket.
pub open spec fn bucket_ids(buckets: Buckets, key: Seq<char>) -> Seq<u32> {
    if buckets.contains_key(key) {
        buckets[key]
    } else {
        Seq::empty()
    }
}

/// The row that shows a track: a track without artists has an empty artist
/// column, a track without album an empty album column.
pub open spec fn row_of_record(rec: TrackRecord) -> Row {
    row_of(
        rec.id,
        rec.name,
        match rec.artists {
            Some(names) => names,
            None => Seq::empty(),
        },
        match rec.album {
            Some(a) => a,
            None => Seq::empty(),
        },
        rec.duration,
    )
}

/// The test that an id is not among `present`.
pub open spec fn absent_from(present: Seq<u32>) -> spec_fn(u32) -> bool {
    |id: u32| !present.contains(id)
}

/// The ids of the tracks that the rows show.
pub open spec fn row_ids(rows: Seq<Row>) -> Seq<u32> {
    Seq::new(rows.len(), |i: int| rows[i].id)
}

/// The notification that counts the downloads that are still running.
pub open spec fn download_notice(remaining: nat) -> Seq<char> {
    "Downloading tracks, "@ + crate::text::decimal(remaining) + " remaining..."@
}

/// The rows that show the tracks `ids` of the library, in their order.
pub open spec fn rows_for(lib: Library, ids: Seq<u32>) -> Seq<Row> {
    Seq::new(ids.len(), |i: int| row_of_record(lib.records[ids[i]]))
}

impl AppState {
    /// The ids of the selected bucket.
    pub open spec fn displayed(&self) -> Seq<u32> {
        bucket_ids(self.trackdb@.group(self.f1_state), self.f2_state@)
    }

    /// The state at start: the playlists are selected, and of them the first
    /// in the order of their names; nothing plays.
    pub fn new(trackdb: TrackDB) -> (state: Self)
        requires
            trackdb.wf(),
        ensures
            state.trackdb == trackdb,
            state.trackqueue@ == QueueState::empty(),
            state.f1_state == F1State::Playlists,
            state.trackdb@.playlists.contains_key(state.f2_state@),
            forall|k: Seq<char>| #[trigger]
                state.trackdb@.playlists.contains_key(k) ==> k == state.f2_state@
                    || crate::buckets::key_lt(state.f2_state@, k),
            state.paused,
            !state.shuffle,
            !state.prev_state.shuffle,
            state.tracklist_state.rows() == Seq::<Row>::empty(),
    {
        let playlists = trackdb.track_filter_cache(F1State::Playlists);
        proof {
            playlists.lemma_entries();
            let keys = playlists.key_seq();
            if keys.len() == 0 {
                assert(playlists@.dom().contains(liked()));
            }
            assert forall|k: Seq<char>| #[trigger] playlists@.contains_key(k) implies k == keys[0]
                || crate::buckets::key_lt(keys[0], k) by {
                assert(keys.to_set().contains(k));
                let i = choose|i: int| 0 <= i < keys.len() && keys[i] == k;
                if i > 0 {
                    assert(crate::buckets::key_lt(keys[0], keys[i]));
                }
            }
        }
        let default_playlist = playlists.key_at(0).clone();
        let prev_state = PrevState {
            f1_state: F1State::Playlists,
            f2_state: (F1State::All, String::from_str("All")),
            trackid: None,
            shuffle: false,
        };
        AppState {
            paused: true,
            shuffle: false,
            notification: NotificationState::default(),
            tracklist_state: TracklistState::default(),
            f1_state: F1State::Playlists,
            f2_state: default_playlist,
            trackdb,
            trackqueue: TrackQueue::new(),
            prev_state,
            curr_trackinfo: None,
            new_playlist_name: String::new(),
            new_track_search_term: String::new(),
        }
    }

    /// The id of the selected track.
    pub fn get_curr_track_id(&self) -> (id: Option<u32>)
        ensures
            id == self.trackqueue@.current.id(),
    {
        self.trackqueue.get_curr_track()
    }

    /// The metadata of the selected track, if a track is selected and the
    /// library holds it.
    pub fn get_curr_track_info(&self) -> (r: Option<&TrackInfo>)
        ensures
            match self.trackqueue@.current.id() {
                Some(id) => if self.trackdb@.records.contains_key(id) {
                    r matches Some(info) && info@ == self.trackdb@.records[id]
                } else {
                    r is None
                },
                None => r is None,
            },
    {
        match self.trackqueue.get_curr_track() {
            Some(id) => self.trackdb.get_track(id),
            None => None,
        }
    }

    /// The file name of the selected track, if a track is selected and the
    /// library holds it.
    pub fn get_curr_track_file_name(&self) -> (r: Option<String>)
        ensures
            match self.trackqueue@.current.id() {
                Some(id) => if self.trackdb@.records.contains_key(id) {
                    r matches Some(name) && name@ == file_name(self.trackdb@.records[id])
                } else {
                    r is None
                },
                None => r is None,
            },
    {
        match self.get_curr_track_info() {
            Some(info) => Some(info.get_file_name()),
            None => None,
        }
    }

    /// The ids of the selected bucket, in their order; none where the
    /// selected bucket does not exist.
    pub fn get_curr_displayed_tracklist(&self) -> (ids: Vec<u32>)
        requires
            self.trackdb.wf(),
        ensures
            ids@ == self.displayed(),
    {
        match self.trackdb.track_filter_cache(self.f1_state).get(&self.f2_state) {
            Some(ids) => ids.clone(),
            None => Vec::new(),
        }
    }

    /// Appends the ids of the selected bucket to the regular queue.
    pub fn add_curr_tracklist_to_regular_queue(&mut self)
        requires
            old(self).trackdb.wf(),
        ensures
            final(self).trackqueue@ == (QueueState {
                regular: old(self).trackqueue@.regular + old(self).displayed(),
                ..old(self).trackqueue@
            }),
            final(self).trackdb == old(self).trackdb,
    {
        let ids = self.get_curr_displayed_tracklist();
        let mut i: usize = 0;
        assert(self.trackqueue@.regular + ids@.take(0) =~= self.trackqueue@.regular);
        while i < ids.len()
            invariant
                i <= ids@.len(),
                self.trackqueue@ == (QueueState {
                    regular: old(self).trackqueue@.regular + ids@.take(i as int),
                    ..old(self).trackqueue@
                }),
                self.trackdb == old(self).trackdb,
            decreases ids@.len() - i,
        {
            self.trackqueue.add_to_reg_queue(ids[i]);
            assert((old(self).trackqueue@.regular + ids@.take(i as int)).push(ids@[i as int])
                =~= old(self).trackqueue@.regular + ids@.take(i + 1));
            i += 1;
        }
        assert(ids@.take(ids@.len() as int) =~= ids@);
    }

    /// Makes the playlist `playlist_name` the regular queue: both queues and
    /// the history are dropped, and the ids of the playlist are queued in
    /// their order. The selected track stays.
    pub fn add_playlist_to_queue(&mut self, playlist_name: &String)
        requires
            old(self).trackdb.wf(),
        ensures
            final(self).trackqueue@ == (QueueState {
                regular: bucket_ids(old(self).trackdb@.playlists, playlist_name@),
                current: old(self).trackqueue@.current,
                ..QueueState::empty()
            }),
            final(self).trackdb == old(self).trackdb,
    {
        self.trackqueue.empty_queue();
        match self.trackdb.track_filter_cache(F1State::Playlists).get(playlist_name) {
            Some(ids) => {
                let mut i: usize = 0;
                assert(ids@.take(0) =~= Seq::<u32>::empty());
                while i < ids.len()
                    invariant
                        i <= ids@.len(),
                        self.trackqueue@ == (QueueState {
                            regular: ids@.take(i as int),
                            current: old(self).trackqueue@.current,
                            ..QueueState::empty()
                        }),
                        self.trackdb == old(self).trackdb,
                    decreases ids@.len() - i,
                {
                    self.trackqueue.reg_queue.push(ids[i]);
                    assert(ids@.take(i as int).push(ids@[i as int]) =~= ids@.take(i + 1));
                    i += 1;
                }
                assert(ids@.take(ids@.len() as int) =~= ids@);
            },
            None => {},
        }
    }

    /// Whether the regular queue can be put in the order of the selected
    /// bucket: no track is selected, or the selected track is in the bucket.
    pub open spec fn can_reorder(&self) -> bool {
        self.trackqueue@.current.id() matches Some(id) ==> self.displayed().contains(id)
    }

    /// Follows the shuffle switch. When it has been switched on, the regular
    /// queue is shuffled. When it has been switched off, the regular queue
    /// goes back to the order of the selected bucket and continues after the
    /// selected track; where the selected track is not in that bucket, the
    /// queue stays as it is. When the switch has not changed, nothing changes.
    pub fn update_shuffle(&mut self)
        requires
            old(self).trackdb.wf(),
        ensures
            final(self).prev_state.shuffle == old(self).shuffle,
            final(self).shuffle == old(self).shuffle,
            final(self).trackdb == old(self).trackdb,
            final(self).trackqueue@.current == old(self).trackqueue@.current,
            final(self).trackqueue@.explicit == old(self).trackqueue@.explicit,
            old(self).shuffle == old(self).prev_state.shuffle ==> final(self).trackqueue@ == old(
                self,
            ).trackqueue@,
            old(self).shuffle && !old(self).prev_state.shuffle ==> final(self).trackqueue@.history
                == old(self).trackqueue@.history
                && final(self).trackqueue@.regular.to_multiset() == old(
                self,
            ).trackqueue@.regular.to_multiset(),
            !old(self).shuffle && old(self).prev_state.shuffle ==> final(self).trackqueue@ == (
            if old(self).can_reorder() {
                old(self).trackqueue@.after_reorder(old(self).displayed())
            } else {
                old(self).trackqueue@
            }),
    {
        if self.shuffle != self.prev_state.shuffle {
            if self.shuffle {
                self.trackqueue.shuffle_reg_queue();
            } else {
                let ids = self.get_curr_displayed_tracklist();
                let fits = match self.trackqueue.get_curr_track() {
                    Some(id) => crate::buckets::contains_id(&ids, id),
                    None => true,
                };
                if fits {
                    self.trackqueue.add_ordered_tracklist_to_reg_queue(ids);
                }
            }
            self.prev_state.shuffle = self.shuffle;
        }
    }

    /// Selects the track `id` of the selected bucket for playback: the
    /// regular queue becomes what follows the track in the bucket, then what
    /// precedes it, and is shuffled where the shuffle switch is on. The
    /// history is dropped. Returns whether the track was selected: a track
    /// that is not in the selected bucket is not, and nothing changes.
    pub fn select_track(&mut self, id: u32) -> (selected: bool)
        requires
            old(self).trackdb.wf(),
        ensures
            selected == old(self).displayed().contains(id),
            final(self).trackdb == old(self).trackdb,
            !selected ==> final(self).trackqueue@ == old(self).trackqueue@,
            selected ==> {
                &&& final(self).trackqueue@.current == TrackType::RegQueueTrack(id)
                &&& final(self).trackqueue@.explicit == old(self).trackqueue@.explicit
                &&& final(self).trackqueue@.history == Seq::<u32>::empty()
                &&& final(self).trackqueue@.regular.to_multiset() == rotated_after(
                    old(self).displayed(),
                    id,
                ).to_multiset()
                &&& !old(self).shuffle ==> final(self).trackqueue@.regular == rotated_after(
                    old(self).displayed(),
                    id,
                )
            },
    {
        let ids = self.get_curr_displayed_tracklist();
        if !crate::buckets::contains_id(&ids, id) {
            return false;
        }
        self.trackqueue.curr_track = TrackType::RegQueueTrack(id);
        self.trackqueue.add_ordered_tracklist_to_reg_queue(ids);
        if self.shuffle {
            self.trackqueue.shuffle_reg_queue();
        }
        true
    }

    /// Deletes the track `id` from the library, from the track list and from
    /// the queue. The track that is selected for playback cannot be deleted:
    /// asking for it changes nothing and returns `None`. Otherwise returns
    /// what removing the track from the library returned.
    pub fn delete_track(&mut self, id: u32) -> (r: Option<Result<TrackInfo, NotFoundError>>)
        requires
            old(self).trackdb.wf(),
        ensures
            final(self).trackdb.wf(),
            r is None <==> old(self).trackqueue@.current.id() == Some(id),
            r is None ==> final(self).trackdb == old(self).trackdb && final(self).trackqueue
                == old(self).trackqueue && final(self).tracklist_state == old(
                self,
            ).tracklist_state,
            r is Some ==> {
                &&& final(self).trackdb@ == old(self).trackdb@.removed(id)
                &&& final(self).trackqueue@ == old(self).trackqueue@.without_track(id)
                &&& final(self).tracklist_state.rows() == old(self).tracklist_state.rows().filter(
                    crate::state::tracklist_state::other_row(id),
                )
                &&& match r->0 {
                    Ok(info) => old(self).trackdb@.records.contains_key(id) && info@ == old(
                        self,
                    ).trackdb@.records[id],
                    Err(e) => !old(self).trackdb@.records.contains_key(id) && e.id == id,
                }
            },
    {
        match self.trackqueue.get_curr_track() {
            Some(current) => {
                if current == id {
                    return None;
                }
            },
            None => {},
        }
        let removed = self.trackdb.remove_track(id);
        self.tracklist_state.remove_with_id(id);
        self.trackqueue.forget_track(id);
        Some(removed)
    }

    /// Tells the user how the downloads stand, where `remaining` of them are
    /// still running and the downloaded tracks are to go to the playlist
    /// `playlist`. While downloads are running, the notification counts them
    /// and stays. Once none is running and a playlist is named, the
    /// notification says so for a few seconds. Returns whether the downloaded
    /// tracks are now to be taken into the library: they are when no download
    /// is running and a playlist is named.
    pub fn download_progress(&mut self, remaining: usize, playlist: &String) -> (ingest: bool)
        ensures
            ingest == (remaining == 0 && playlist@.len() > 0),
            final(self).trackdb == old(self).trackdb,
            final(self).trackqueue == old(self).trackqueue,
            final(self).tracklist_state == old(self).tracklist_state,
            remaining > 0 ==> final(self).notification.message@ == download_notice(remaining as nat)
                && final(self).notification.time_limit_s is None,
            ingest ==> final(self).notification.message@ == "All tracks downloaded"@
                && final(self).notification.time_limit_s == Some(NOTIFICATION_TIMEOUT_S),
            remaining == 0 && !ingest ==> final(self).notification.message == old(
                self,
            ).notification.message && final(self).notification.time_limit_s == old(
                self,
            ).notification.time_limit_s,
    {
        if remaining > 0 {
            let mut message = String::from_str("Downloading tracks, ");
            crate::text::push_decimal(&mut message, remaining as u64);
            message.append(" remaining...");
            self.notification.set_message(message, None);
            false
        } else if !playlist.as_str().is_empty() {
            self.notification.set_message(
                String::from_str("All tracks downloaded"),
                Some(NOTIFICATION_TIMEOUT_S),
            );
            true
        } else {
            false
        }
    }

    /// Appends a row to the track list for each track of the selected bucket
    /// that the track list does not show yet, in the order of the bucket.
    /// Where the track list has as many rows as the bucket has tracks,
    /// nothing is missing and nothing changes.
    pub fn add_missing_rows(&mut self)
        requires
            old(self).trackdb.wf(),
        ensures
            final(self).trackdb == old(self).trackdb,
            final(self).trackqueue == old(self).trackqueue,
            final(self).tracklist_state.rows() == if old(self).displayed().len() == old(
                self,
            ).tracklist_state.rows().len() {
                old(self).tracklist_state.rows()
            } else {
                old(self).tracklist_state.rows() + rows_for(
                    old(self).trackdb@,
                    old(self).displayed().filter(
                        absent_from(row_ids(old(self).tracklist_state.rows())),
                    ),
                )
            },
    {
        let ghost lib = self.trackdb@;
        let ghost shown = self.displayed();
        let ghost rows = self.tracklist_state.rows();
        let ghost test = absent_from(row_ids(rows));
        let mut present: Vec<u32> = Vec::new();
        let mut k: usize = 0;
        while k < self.tracklist_state.items.len()
            invariant
                k <= self.tracklist_state.items@.len(),
                rows == self.tracklist_state.rows(),
                present@ == row_ids(rows).take(k as int),
                self.trackdb == old(self).trackdb,
                self.trackqueue == old(self).trackqueue,
                self.tracklist_state == old(self).tracklist_state,
                self.f1_state == old(self).f1_state,
                self.f2_state == old(self).f2_state,
            decreases self.tracklist_state.items@.len() - k,
        {
            present.push(self.tracklist_state.items[k].id);
            assert(present@ =~= row_ids(rows).take(k + 1));
            k += 1;
        }
        assert(present@ =~= row_ids(rows));
        let ids = self.get_curr_displayed_tracklist();
        if ids.len() == present.len() {
            return ;
        }
        let mut i: usize = 0;
        proof {
            assert(shown.take(0).filter(test) =~= Seq::<u32>::empty()) by {
                assert(shown.take(0) =~= Seq::<u32>::empty());
            }
            assert(rows + rows_for(lib, Seq::<u32>::empty()) =~= rows);
        }
        while i < ids.len()
            invariant
                self.trackdb.wf(),
                self.trackdb == old(self).trackdb,
                self.trackqueue == old(self).trackqueue,
                self.f1_state == old(self).f1_state,
                self.f2_state == old(self).f2_state,
                lib == self.trackdb@,
                ids@ == shown,
                shown == self.displayed(),
                present@ == row_ids(rows),
                test == absent_from(row_ids(rows)),
                i <= ids@.len(),
                self.tracklist_state.rows() == rows + rows_for(
                    lib,
                    shown.take(i as int).filter(test),
                ),
            decreases ids@.len() - i,
        {
            let id = ids[i];
            let ghost before = shown.take(i as int).filter(test);
            proof {
                assert(shown.take(i + 1) =~= shown.take(i as int).push(id));
                Seq::lemma_filter_push(shown.take(i as int), id, test);
                assert(shown.contains(id));
                assert(lib.group(self.f1_state).contains_key(self.f2_state@));
                lemma_filed_is_track(lib, self.f2_state@, id);
            }
            if !crate::buckets::contains_id(&present, id) {
                match self.trackdb.get_track(id) {
                    Some(tinfo) => {
                        let artists = match &tinfo.artists {
                            Some(names) => crate::db::clone_names(names),
                            None => Vec::new(),
                        };
                        let album = match &tinfo.album {
                            Some(a) => a.clone(),
                            None => String::new(),
                        };
                        assert(artists.deep_view() =~= match tinfo@.artists {
                            Some(names) => names,
                            None => Seq::empty(),
                        });
                        self.tracklist_state.add_item(
                            id,
                            tinfo.name.clone(),
                            artists,
                            album,
                            tinfo.duration,
                        );
                    },
                    None => {},
                }
                assert((rows + rows_for(lib, before)).push(row_of_record(lib.records[id])) =~= rows
                    + rows_for(lib, before.push(id)));
            }
            i += 1;
        }
        assert(shown.take(shown.len() as int) =~= shown);
    }

    /// The names of the buckets of the selected group, in their order.
    pub fn filter_options(&self) -> (names: Vec<String>)
        requires
            self.trackdb.wf(),
        ensures
            names.deep_view().to_set() == self.trackdb@.group(self.f1_state).dom(),
            names.deep_view().no_duplicates(),
            crate::buckets::sorted_keys(names.deep_view()),
    {
        let buckets = self.trackdb.track_filter_cache(self.f1_state);
        proof {
            buckets.lemma_entries();
        }
        buckets.keys()
    }

    /// Follows the selection of the group: when another group has been
    /// selected, the first of its buckets in the order of their names becomes
    /// the selected bucket. Otherwise nothing changes.
    pub fn sync_filter_selection(&mut self)
        requires
            old(self).trackdb.wf(),
        ensures
            final(self).trackdb == old(self).trackdb,
            final(self).f1_state == old(self).f1_state,
            final(self).prev_state.f1_state == old(self).f1_state,
            old(self).f1_state == old(self).prev_state.f1_state ==> final(self).f2_state == old(
                self,
            ).f2_state,
            old(self).f1_state != old(self).prev_state.f1_state ==> {
                let names = old(self).trackdb@.group(old(self).f1_state);
                &&& names.contains_key(final(self).f2_state@)
                &&& forall|k: Seq<char>| #[trigger]
                    names.contains_key(k) ==> k == final(self).f2_state@ || crate::buckets::key_lt(
                        final(self).f2_state@,
                        k,
                    )
            },
    {
        if self.f1_state != self.prev_state.f1_state {
            self.prev_state.f1_state = self.f1_state;
            let buckets = self.trackdb.track_filter_cache(self.f1_state);
            proof {
                buckets.lemma_entries();
                let keys = buckets.key_seq();
                if keys.len() == 0 {
                    assert(self.trackdb@.playlists.dom().contains(liked()));
                    assert(self.trackdb@.artists.dom().contains(crate::library::none_key()));
                    assert(self.trackdb@.albums.dom().contains(crate::library::none_key()));
                    assert(self.trackdb@.all.dom().contains(crate::library::all_key()));
                }
                assert forall|k: Seq<char>| #[trigger] buckets@.contains_key(k) implies k == keys[0]
                    || crate::buckets::key_lt(keys[0], k) by {
                    assert(keys.to_set().contains(k));
                    let i = choose|i: int| 0 <= i < keys.len() && keys[i] == k;
                    if i > 0 {
                        assert(crate::buckets::key_lt(keys[0], keys[i]));
                    }
                }
            }
            self.f2_state = buckets.key_at(0).clone();
        }
    }

    /// Follows the selection of the bucket: when another bucket has been
    /// selected, the track list becomes the rows of its tracks, in their
    /// order; a bucket that does not exist gives an empty track list.
    /// Otherwise nothing changes. Returns whether the track list was rebuilt.
    pub fn refresh_tracklist(&mut self) -> (changed: bool)
        requires
            old(self).trackdb.wf(),
        ensures
            final(self).trackdb == old(self).trackdb,
            final(self).f1_state == old(self).f1_state,
            final(self).f2_state == old(self).f2_state,
            final(self).prev_state.f2_state.0 == old(self).f1_state,
            changed ==> final(self).prev_state.f2_state.1@ == old(self).f2_state@,
            changed == (old(self).f1_state != old(self).prev_state.f2_state.0 || old(
                self,
            ).f2_state@ != old(self).prev_state.f2_state.1@),
            changed ==> final(self).tracklist_state.rows() == rows_for(
                old(self).trackdb@,
                old(self).displayed(),
            ),
            !changed ==> final(self).tracklist_state == old(self).tracklist_state,
    {
        if self.f1_state == self.prev_state.f2_state.0 && self.f2_state
            == self.prev_state.f2_state.1 {
            return false;
        }
        self.prev_state.f2_state = (self.f1_state, self.f2_state.clone());
        self.tracklist_state.empty();
        let ghost lib = self.trackdb@;
        let ghost shown = self.displayed();
        match self.trackdb.track_filter_cache(self.f1_state).get(&self.f2_state) {
            Some(ids) => {
                let mut i: usize = 0;
                assert(rows_for(lib, shown.take(0)) =~= Seq::<Row>::empty());
                while i < ids.len()
                    invariant
                        self.trackdb.wf(),
                        self.trackdb == old(self).trackdb,
                        self.f1_state == old(self).f1_state,
                        self.f2_state == old(self).f2_state,
                        self.prev_state.f2_state.0 == old(self).f1_state,
                        self.prev_state.f2_state.1@ == old(self).f2_state@,
                        lib == self.trackdb@,
                        ids@ == shown,
                        lib.group(self.f1_state).contains_key(self.f2_state@),
                        lib.group(self.f1_state)[self.f2_state@] == shown,
                        i <= ids@.len(),
                        self.tracklist_state.rows() == rows_for(lib, shown.take(i as int)),
                    decreases ids@.len() - i,
                {
                    let id = ids[i];
                    proof {
                        assert(shown.contains(id));
                        lemma_filed_is_track(lib, self.f2_state@, id);
                    }
                    match self.trackdb.get_track(id) {
                        Some(tinfo) => {
                            let artists = match &tinfo.artists {
                                Some(names) => crate::db::clone_names(names),
                                None => Vec::new(),
                            };
                            let album = match &tinfo.album {
                                Some(a) => a.clone(),
                                None => String::new(),
                            };
                            assert(artists.deep_view() =~= match tinfo@.artists {
                                Some(names) => names,
                                None => Seq::empty(),
                            });
                            self.tracklist_state.add_item(
                                id,
                                tinfo.name.clone(),
                                artists,
                                album,
                                tinfo.duration,
                            );
                        },
                        None => {},
                    }
                    assert(rows_for(lib, shown.take(i as int)).push(
                        row_of_record(lib.records[id]),
                    ) =~= rows_for(lib, shown.take(i + 1)));
                    i += 1;
                }
                assert(shown.take(shown.len() as int) =~= shown);
            },
            None => {
                assert(rows_for(lib, shown) =~= Seq::<Row>::empty());
            },
        }
        true
    }
}

} // verus!
