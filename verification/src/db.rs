//! The track library: the metadata of every track, indexed by playlist,
//! artist and album.
//!
//! The library holds no file and writes none. Where an operation has a
//! counterpart on disk (a media file to move, rename or delete, the snapshot
//! to write), it returns what the caller needs to carry that out.

use crate::buckets::BucketMap;
use crate::library::all_key;
use crate::library::buckets_match;
use crate::library::lemma_added_wf;
use crate::library::lemma_edited_wf;
use crate::library::lemma_filed_is_track;
use crate::library::lemma_no_duplicate_ids;
use crate::library::lemma_removed_all_wf;
use crate::library::lemma_removed_wf;
use crate::library::lemma_track_is_filed;
use crate::library::lemma_with_playlist_wf;
use crate::library::lemma_without_playlist_wf;
use crate::library::Library;
use crate::library::liked;
use crate::library::none_key;
use crate::library::Tags;
use crate::library::TrackRecord;
use crate::library::with_ids;
use crate::library::without_ids;
use crate::snapshot::distinct_ids;
use crate::snapshot::ids_belong;
use crate::snapshot::is_pruned;
use crate::snapshot::lemma_records_of;
use crate::snapshot::lists_distinct;
use crate::snapshot::load_records;
use crate::snapshot::members;
use crate::snapshot::records_of;
use crate::snapshot::Snapshot;
use crate::snapshot::StorageError;
use crate::snapshot::track_ids;
use crate::snapshot::tracks_filed;
use crate::state::filter_state::F1State;
use crate::text::decimal;
use crate::text::digit;
use crate::text::lemma_decimal_digits;
use crate::text::lemma_stripped_lacks;
use crate::text::push_decimal;
use crate::text::push_stripped;
use crate::text::stripped;
use std::collections::BTreeMap;
use vstd::prelude::*;
use vstd::string::StringExecFns;

verus! {

/// The metadata of one track.
#[derive(Debug, PartialEq, Eq)]
pub struct TrackInfo {
    pub id: u32,
    pub name: String,
    pub artists: Option<Vec<String>>,
    pub album: Option<String>,
    pub playlist: String,
    pub duration: u32,
}

impl View for TrackInfo {
    type V = TrackRecord;

    open spec fn view(&self) -> TrackRecord {
        TrackRecord {
            id: self.id,
            name: self.name@,
            artists: match self.artists {
                Some(names) => Some(names.deep_view()),
                None => None,
            },
            album: match self.album {
                Some(a) => Some(a@),
                None => None,
            },
            playlist: self.playlist@,
            duration: self.duration,
        }
    }
}

impl Clone for TrackInfo {
    fn clone(&self) -> (r: Self)
        ensures
            r@ == self@,
    {
        let artists = match &self.artists {
            Some(names) => Some(clone_names(names)),
            None => None,
        };
        let album = match &self.album {
            Some(a) => Some(a.clone()),
            None => None,
        };
        TrackInfo {
            id: self.id,
            name: self.name.clone(),
            artists,
            album,
            playlist: self.playlist.clone(),
            duration: self.duration,
        }
    }
}

/// A copy of a list of names.
pub fn clone_names(names: &Vec<String>) -> (r: Vec<String>)
    ensures
        r.deep_view() == names.deep_view(),
{
    let mut r: Vec<String> = Vec::new();
    let mut i: usize = 0;
    while i < names.len()
        invariant
            i <= names@.len(),
            r@.len() == i,
            forall|j: int| 0 <= j < i ==> (#[trigger] r@[j])@ == names@[j]@,
        decreases names@.len() - i,
    {
        r.push(names[i].clone());
        i += 1;
    }
    assert(r.deep_view() =~= names.deep_view());
    r
}

/// The records that a map of metadata stands for.
pub open spec fn record_map(tracks: Map<u32, TrackInfo>) -> Map<u32, TrackRecord> {
    Map::new(|id: u32| tracks.contains_key(id), |id: u32| tracks[id]@)
}

/// The name of the media file of a track: the title without path separators,
/// the id, and the extension.
pub open spec fn file_name(rec: TrackRecord) -> Seq<char> {
    stripped(rec.name, '/') + " - "@ + decimal(rec.id as nat) + ".mp3"@
}

/// The file name of a track has no path separator in it, whatever the title
/// of the track: the file lies in the directory of the library itself.
pub proof fn lemma_file_name_flat(rec: TrackRecord)
    ensures
        !file_name(rec).contains('/'),
{
    reveal_strlit(" - ");
    reveal_strlit(".mp3");
    let title = stripped(rec.name, '/');
    let number = decimal(rec.id as nat);
    let name = file_name(rec);
    lemma_stripped_lacks(rec.name, '/');
    lemma_decimal_digits(rec.id as nat);
    if name.contains('/') {
        let i = choose|i: int| 0 <= i < name.len() && name[i] == '/';
        let a = title.len() as int;
        let b = a + 3;
        let c = b + number.len();
        if i < a {
            assert(title[i] == '/');
        } else if i < b {
            assert(name[i] == " - "@[i - a]);
        } else if i < c {
            assert(name[i] == number[i - b]);
            let d = choose|d: nat| d < 10 && number[i - b] == digit(d);
            assert(digit(d) != '/');
        } else {
            assert(name[i] == ".mp3"@[i - c]);
        }
    }
}

impl TrackInfo {
    /// The name under which the media file of this track is kept.
    pub fn get_file_name(&self) -> (name: String)
        ensures
            name@ == file_name(self@),
    {
        let mut name = String::new();
        push_stripped(&mut name, self.name.as_str(), '/');
        name.append(" - ");
        push_decimal(&mut name, self.id as u64);
        name.append(".mp3");
        assert(name@ =~= file_name(self@));
        name
    }
}

/// What the tags of a media file say about a track.
#[derive(Debug, PartialEq, Eq)]
pub struct TrackTags {
    pub name: String,
    pub artists: Option<Vec<String>>,
    pub album: Option<String>,
    pub duration: u32,
}

impl View for TrackTags {
    type V = Tags;

    open spec fn view(&self) -> Tags {
        Tags {
            name: self.name@,
            artists: match self.artists {
                Some(names) => Some(names.deep_view()),
                None => None,
            },
            album: match self.album {
                Some(a) => Some(a@),
                None => None,
            },
            duration: self.duration,
        }
    }
}

/// The view of an optional name.
pub open spec fn name_view(name: Option<String>) -> Option<Seq<char>> {
    match name {
        Some(n) => Some(n@),
        None => None,
    }
}

/// The media file of a track is to be renamed.
#[derive(Debug, PartialEq, Eq)]
pub struct FileRename {
    /// The file name that the track had.
    pub from: String,
    /// The file name that the track has now.
    pub to: String,
}

/// A track id that the library does not hold.
#[derive(Clone, Copy, Debug, PartialEq, Eq, Structural)]
pub struct NotFoundError {
    /// The id that was asked for.
    pub id: u32,
}

/// The track library.
pub struct TrackDB {
    playlists: BucketMap,
    artists: BucketMap,
    albums: BucketMap,
    all_tracks: BucketMap,
    trackmap: BTreeMap<u32, TrackInfo>,
    max_id: u32,
}

impl View for TrackDB {
    type V = Library;

    closed spec fn view(&self) -> Library {
        Library {
            records: record_map(self.trackmap@),
            playlists: self.playlists@,
            artists: self.artists@,
            albums: self.albums@,
            all: self.all_tracks@,
            max_id: self.max_id,
        }
    }
}

impl TrackDB {
    /// The bucket names of each group are kept in increasing order.
    pub closed spec fn sorted(&self) -> bool {
        &&& self.playlists.wf()
        &&& self.artists.wf()
        &&& self.albums.wf()
        &&& self.all_tracks.wf()
    }

    /// The library is well formed: its buckets agree with its records, and
    /// the bucket names are kept in order.
    pub open spec fn wf(&self) -> bool {
        self.sorted() && self@.wf()
    }

    /// The library without tracks: the playlist that always exists, the
    /// buckets for tracks without album or artists, and the list of every
    /// track, all empty.
    pub fn new() -> (db: Self)
        ensures
            db.wf(),
            db@ == Library::empty(),
    {
        let mut playlists = BucketMap::new();
        playlists.insert_key(String::from_str("Liked"));
        let mut albums = BucketMap::new();
        albums.insert_key(String::from_str("None"));
        let mut artists = BucketMap::new();
        artists.insert_key(String::from_str("None"));
        let mut all_tracks = BucketMap::new();
        all_tracks.insert_key(String::from_str("All"));
        let db = TrackDB {
            playlists,
            artists,
            albums,
            all_tracks,
            trackmap: BTreeMap::new(),
            max_id: 0,
        };
        proof {
            assert(db@.records =~= Map::<u32, TrackRecord>::empty());
            crate::library::lemma_empty_wf();
        }
        db
    }

    /// The greatest id that was ever given out.
    pub fn max_id(&self) -> (id: u32)
        ensures
            id == self@.max_id,
    {
        self.max_id
    }

    /// The number of tracks.
    pub fn len(&self) -> (n: usize)
        ensures
            n == self@.records.len(),
    {
        broadcast use vstd::std_specs::btree::group_btree_axioms;

        assert(self@.records.dom() =~= self.trackmap@.dom());
        self.trackmap.len()
    }

    /// The metadata of the track `id`, if the library holds it.
    pub fn get_track(&self, id: u32) -> (r: Option<&TrackInfo>)
        ensures
            match r {
                Some(info) => self@.records.contains_key(id) && info@ == self@.records[id],
                None => !self@.records.contains_key(id),
            },
    {
        self.trackmap.get(&id)
    }

    /// Whether the library holds the track `id`.
    pub fn contains_track(&self, id: u32) -> (r: bool)
        ensures
            r == self@.records.contains_key(id),
    {
        self.trackmap.contains_key(&id)
    }

    /// The buckets of one group.
    pub fn track_filter_cache(&self, group: F1State) -> (buckets: &BucketMap)
        ensures
            self.sorted() ==> buckets.wf(),
            buckets@ == self@.group(group),
    {
        match group {
            F1State::All => &self.all_tracks,
            F1State::Playlists => &self.playlists,
            F1State::Artists => &self.artists,
            F1State::Albums => &self.albums,
        }
    }
}

impl TrackDB {
    /// Files the track in the buckets: under its playlist, under each of its
    /// artists, under its album, and in the list of every track. The records
    /// are not touched.
    fn add_track_to_filter_cache(&mut self, track_info: &TrackInfo)
        requires
            old(self).sorted(),
        ensures
            final(self).sorted(),
            final(self)@ == old(self)@.index_insert(track_info@),
            final(self).trackmap == old(self).trackmap,
    {
        let id = track_info.id;
        let none = String::from_str("None");
        self.playlists.add_id(&track_info.playlist, id);
        match &track_info.artists {
            Some(names) => {
                let ghost keys = names.deep_view();
                let mut i: usize = 0;
                assert(keys.skip(0) =~= keys);
                while i < names.len()
                    invariant
                        keys == names.deep_view(),
                        i <= names@.len(),
                        self.artists.wf(),
                        with_ids(self.artists@, keys.skip(i as int), id) == with_ids(
                            old(self).artists@,
                            keys,
                            id,
                        ),
                        self.playlists.wf(),
                        self@.playlists == old(self)@.index_insert(track_info@).playlists,
                        self.albums == old(self).albums,
                        self.all_tracks == old(self).all_tracks,
                        self.trackmap == old(self).trackmap,
                        self.max_id == old(self).max_id,
                    decreases names@.len() - i,
                {
                    assert(keys.skip(i as int)[0] == names@[i as int]@);
                    assert(keys.skip(i as int).drop_first() =~= keys.skip(i + 1));
                    self.artists.add_id(&names[i], id);
                    i += 1;
                }
                assert(keys.skip(i as int).len() == 0);
            },
            None => {
                self.artists.add_id(&none, id);
                let ghost one = seq![none_key()];
                assert(one[0] == none_key());
                assert(one.drop_first().len() == 0);
                assert(with_ids(old(self).artists@, one, id) == with_ids(
                    self.artists@,
                    one.drop_first(),
                    id,
                ));
            },
        }
        assert(self.artists@ == old(self)@.index_insert(track_info@).artists);
        match &track_info.album {
            Some(a) => {
                self.albums.add_id(a, id);
            },
            None => {
                self.albums.add_id(&none, id);
            },
        }
        self.all_tracks.add_id(&String::from_str("All"), id);
        assert(self@.records =~= old(self)@.records);
    }

    /// Takes the track out of the buckets it is filed in. An artist or album
    /// bucket that is left empty is dropped, unless it is the one for tracks
    /// without such a name. The records are not touched.
    fn remove_track_from_filter_cache(&mut self, t_info: &TrackInfo)
        requires
            old(self).sorted(),
        ensures
            final(self).sorted(),
            final(self)@ == old(self)@.index_remove(t_info@),
            final(self).trackmap == old(self).trackmap,
    {
        let id = t_info.id;
        let none = String::from_str("None");
        self.playlists.remove_id(&t_info.playlist, id, false);
        self.all_tracks.remove_id(&String::from_str("All"), id, false);
        match &t_info.album {
            Some(a) => {
                self.albums.remove_id(a, id, *a != none);
            },
            None => {
                self.albums.remove_id(&none, id, false);
            },
        }
        match &t_info.artists {
            Some(names) => {
                let ghost keys = names.deep_view();
                let mut i: usize = 0;
                assert(keys.skip(0) =~= keys);
                while i < names.len()
                    invariant
                        keys == names.deep_view(),
                        none@ == none_key(),
                        i <= names@.len(),
                        self.artists.wf(),
                        without_ids(self.artists@, keys.skip(i as int), id) == without_ids(
                            old(self).artists@,
                            keys,
                            id,
                        ),
                        self.playlists.wf(),
                        self.albums.wf(),
                        self.all_tracks.wf(),
                        self@.playlists == old(self)@.index_remove(t_info@).playlists,
                        self@.albums == old(self)@.index_remove(t_info@).albums,
                        self@.all == old(self)@.index_remove(t_info@).all,
                        self.trackmap == old(self).trackmap,
                        self.max_id == old(self).max_id,
                    decreases names@.len() - i,
                {
                    assert(keys.skip(i as int)[0] == names@[i as int]@);
                    assert(keys.skip(i as int).drop_first() =~= keys.skip(i + 1));
                    self.artists.remove_id(&names[i], id, names[i] != none);
                    i += 1;
                }
                assert(keys.skip(i as int).len() == 0);
            },
            None => {
                self.artists.remove_id(&none, id, false);
                let ghost one = seq![none_key()];
                assert(one[0] == none_key());
                assert(one.drop_first().len() == 0);
                assert(without_ids(old(self).artists@, one, id) == without_ids(
                    self.artists@,
                    one.drop_first(),
                    id,
                ));
            },
        }
        assert(self.artists@ == old(self)@.index_remove(t_info@).artists);
        assert(self@.records =~= old(self)@.records);
    }

    /// Adds a new track with the tags `tags` to the playlist `playlist`, or to
    /// the playlist that always exists where none is named. The track gets
    /// the id after the greatest one given out. Returns its metadata.
    ///
    /// The media file of the track is to be stored under the file name of the
    /// returned metadata. Where that fails, the track is to be removed again.
    pub fn add_track(&mut self, tags: TrackTags, playlist: Option<String>) -> (added: TrackInfo)
        requires
            old(self).wf(),
            old(self)@.max_id < u32::MAX,
        ensures
            final(self).wf(),
            added@ == old(self)@.new_record(tags@, name_view(playlist)),
            final(self)@ == old(self)@.added(tags@, name_view(playlist)),
    {
        let new_track_id = self.max_id + 1;
        self.max_id = new_track_id;
        let t_info = TrackInfo {
            id: new_track_id,
            name: tags.name,
            duration: tags.duration,
            playlist: match playlist {
                Some(p) => p,
                None => String::from_str("Liked"),
            },
            artists: tags.artists,
            album: tags.album,
        };
        let added = t_info.clone();
        self.add_track_to_filter_cache(&t_info);
        self.trackmap.insert(new_track_id, t_info);
        proof {
            let target = old(self)@.added(tags@, name_view(playlist));
            lemma_added_wf(old(self)@, tags@, name_view(playlist));
            assert(self@.records =~= target.records);
        }
        added
    }

    /// Removes the track `track_id` and takes it out of every bucket it is
    /// filed in. Returns its metadata, or the error that there is no such
    /// track, in which case nothing changes.
    ///
    /// The media file of a removed track is the one named by the file name of
    /// the returned metadata.
    pub fn remove_track(&mut self, track_id: u32) -> (r: Result<TrackInfo, NotFoundError>)
        requires
            old(self).wf(),
        ensures
            final(self).wf(),
            match r {
                Ok(info) => old(self)@.records.contains_key(track_id) && info@
                    == old(self)@.records[track_id],
                Err(e) => !old(self)@.records.contains_key(track_id) && e.id == track_id,
            },
            final(self)@ == old(self)@.removed(track_id),
    {
        match self.trackmap.remove(&track_id) {
            Some(t_info) => {
                assert(t_info.id == track_id) by {
                    assert(old(self)@.records.contains_key(track_id));
                }
                self.remove_track_from_filter_cache(&t_info);
                proof {
                    lemma_removed_wf(old(self)@, track_id);
                    assert(self@.records =~= old(self)@.removed(track_id).records);
                }
                Ok(t_info)
            },
            None => {
                assert(self@.records =~= old(self)@.records);
                Err(NotFoundError { id: track_id })
            },
        }
    }
}

impl TrackDB {
    /// Replaces the metadata of the track `new_trackinfo.id`. The duration is
    /// not replaced: the track keeps the one it was added with, whatever the
    /// new metadata says. The track is taken out of the buckets it was filed
    /// in and filed anew, at the end of each bucket it now belongs to.
    ///
    /// Returns the file names of the track before and after, or the error
    /// that there is no such track, in which case nothing changes.
    pub fn edit_track(&mut self, new_trackinfo: TrackInfo) -> (r: Result<FileRename, NotFoundError>)
        requires
            old(self).wf(),
        ensures
            final(self).wf(),
            final(self)@ == old(self)@.edited(new_trackinfo@),
            match r {
                Ok(rename) => {
                    &&& old(self)@.records.contains_key(new_trackinfo.id)
                    &&& rename.from@ == file_name(old(self)@.records[new_trackinfo.id])
                    &&& rename.to@ == file_name(final(self)@.records[new_trackinfo.id])
                    &&& final(self)@.records[new_trackinfo.id].duration
                        == old(self)@.records[new_trackinfo.id].duration
                },
                Err(e) => !old(self)@.records.contains_key(new_trackinfo.id) && e.id
                    == new_trackinfo.id,
            },
    {
        let id = new_trackinfo.id;
        let prev_trackinfo = match self.trackmap.remove(&id) {
            Some(prev) => prev,
            None => {
                assert(self@.records =~= old(self)@.records);
                return Err(NotFoundError { id });
            },
        };
        assert(prev_trackinfo.id == id) by {
            assert(old(self)@.records.contains_key(id));
        }
        self.remove_track_from_filter_cache(&prev_trackinfo);
        let ghost asked = new_trackinfo@;
        let mut stored = new_trackinfo;
        stored.duration = prev_trackinfo.duration;
        self.add_track_to_filter_cache(&stored);
        let rename = FileRename {
            from: prev_trackinfo.get_file_name(),
            to: stored.get_file_name(),
        };
        self.trackmap.insert(id, stored);
        proof {
            lemma_edited_wf(old(self)@, asked);
            assert(self@.records =~= old(self)@.edited(asked).records);
        }
        Ok(rename)
    }

    /// Moves the track `track_id` to the playlist `new_playlist`.
    pub fn change_playlist(&mut self, track_id: u32, new_playlist: String) -> (r: Result<
        FileRename,
        NotFoundError,
    >)
        requires
            old(self).wf(),
        ensures
            final(self).wf(),
            r is Ok <==> old(self)@.records.contains_key(track_id),
            r matches Err(e) ==> e.id == track_id,
            old(self)@.records.contains_key(track_id) ==> final(self)@ == old(self)@.edited(
                TrackRecord { playlist: new_playlist@, ..old(self)@.records[track_id] },
            ),
            !old(self)@.records.contains_key(track_id) ==> final(self)@ == old(self)@,
    {
        let mut t_info = match self.trackmap.get(&track_id) {
            Some(info) => info.clone(),
            None => {
                return Err(NotFoundError { id: track_id });
            },
        };
        assert(t_info.id == track_id) by {
            assert(self@.records.contains_key(track_id));
        }
        t_info.playlist = new_playlist;
        self.edit_track(t_info)
    }

    /// Gives the track `track_id` the title `new_title`.
    pub fn change_title(&mut self, track_id: u32, new_title: String) -> (r: Result<
        FileRename,
        NotFoundError,
    >)
        requires
            old(self).wf(),
        ensures
            final(self).wf(),
            r is Ok <==> old(self)@.records.contains_key(track_id),
            r matches Err(e) ==> e.id == track_id,
            r matches Ok(rename) ==> rename.from@ == file_name(old(self)@.records[track_id])
                && rename.to@ == file_name(final(self)@.records[track_id]),
            old(self)@.records.contains_key(track_id) ==> final(self)@ == old(self)@.edited(
                TrackRecord { name: new_title@, ..old(self)@.records[track_id] },
            ),
            !old(self)@.records.contains_key(track_id) ==> final(self)@ == old(self)@,
    {
        let mut t_info = match self.trackmap.get(&track_id) {
            Some(info) => info.clone(),
            None => {
                return Err(NotFoundError { id: track_id });
            },
        };
        assert(t_info.id == track_id) by {
            assert(self@.records.contains_key(track_id));
        }
        t_info.name = new_title;
        self.edit_track(t_info)
    }

    /// Gives the track `track_id` the artists `new_artists`.
    pub fn change_artists(&mut self, track_id: u32, new_artists: Option<Vec<String>>) -> (r: Result<
        FileRename,
        NotFoundError,
    >)
        requires
            old(self).wf(),
        ensures
            final(self).wf(),
            r is Ok <==> old(self)@.records.contains_key(track_id),
            r matches Err(e) ==> e.id == track_id,
            old(self)@.records.contains_key(track_id) ==> final(self)@ == old(self)@.edited(
                TrackRecord {
                    artists: match new_artists {
                        Some(names) => Some(names.deep_view()),
                        None => None,
                    },
                    ..old(self)@.records[track_id]
                },
            ),
            !old(self)@.records.contains_key(track_id) ==> final(self)@ == old(self)@,
    {
        let mut t_info = match self.trackmap.get(&track_id) {
            Some(info) => info.clone(),
            None => {
                return Err(NotFoundError { id: track_id });
            },
        };
        assert(t_info.id == track_id) by {
            assert(self@.records.contains_key(track_id));
        }
        t_info.artists = new_artists;
        self.edit_track(t_info)
    }

    /// Gives the track `track_id` the album `new_album`.
    pub fn change_album(&mut self, track_id: u32, new_album: Option<String>) -> (r: Result<
        FileRename,
        NotFoundError,
    >)
        requires
            old(self).wf(),
        ensures
            final(self).wf(),
            r is Ok <==> old(self)@.records.contains_key(track_id),
            r matches Err(e) ==> e.id == track_id,
            old(self)@.records.contains_key(track_id) ==> final(self)@ == old(self)@.edited(
                TrackRecord { album: name_view(new_album), ..old(self)@.records[track_id] },
            ),
            !old(self)@.records.contains_key(track_id) ==> final(self)@ == old(self)@,
    {
        let mut t_info = match self.trackmap.get(&track_id) {
            Some(info) => info.clone(),
            None => {
                return Err(NotFoundError { id: track_id });
            },
        };
        assert(t_info.id == track_id) by {
            assert(self@.records.contains_key(track_id));
        }
        t_info.album = new_album;
        self.edit_track(t_info)
    }

    /// Removes the playlist `playlist_name` together with its tracks, which
    /// are removed one after the other in the order of the playlist. Nothing
    /// changes where the playlist does not exist, or where it is the playlist
    /// that always exists.
    ///
    /// Returns the metadata of the removed tracks, in that order, or `None`
    /// where nothing changed. The media files of the removed tracks are the
    /// ones named by their file names.
    pub fn remove_playlist(&mut self, playlist_name: &String) -> (r: Option<Vec<TrackInfo>>)
        requires
            old(self).wf(),
        ensures
            final(self).wf(),
            final(self)@ == old(self)@.without_playlist(playlist_name@),
            r is Some <==> old(self)@.playlist_removable(playlist_name@),
            r matches Some(tracks) ==> {
                let ids = old(self)@.playlists[playlist_name@];
                &&& tracks@.len() == ids.len()
                &&& forall|i: int|
                    0 <= i < ids.len() ==> (#[trigger] tracks@[i])@ == old(self)@.records[ids[i]]
            },
    {
        if *playlist_name == String::from_str("Liked") {
            return None;
        }
        let tracks = match self.playlists.get(playlist_name) {
            Some(v) => v.clone(),
            None => {
                return None;
            },
        };
        let ghost ids = tracks@;
        let mut removed: Vec<TrackInfo> = Vec::new();
        let mut i: usize = 0;
        proof {
            assert(ids.skip(0) =~= ids);
            lemma_no_duplicate_ids(self@, playlist_name@);
            assert forall|j: int| 0 <= j < ids.len() implies self@.records.contains_key(
                #[trigger] ids[j],
            ) by {
                assert(ids.contains(ids[j]));
                lemma_filed_is_track(self@, playlist_name@, ids[j]);
            }
        }
        while i < tracks.len()
            invariant
                ids == tracks@,
                ids.no_duplicates(),
                i <= ids.len(),
                self.wf(),
                self@.removed_all(ids.skip(i as int)) == old(self)@.removed_all(ids),
                forall|j: int|
                    i <= j < ids.len() ==> self@.records.contains_key(#[trigger] ids[j])
                        && self@.records[ids[j]] == old(self)@.records[ids[j]],
                removed@.len() == i,
                forall|j: int|
                    0 <= j < i ==> (#[trigger] removed@[j])@ == old(self)@.records[ids[j]],
            decreases ids.len() - i,
        {
            let ghost before = self@;
            assert(ids.skip(i as int)[0] == ids[i as int]);
            assert(ids.skip(i as int).drop_first() =~= ids.skip(i + 1));
            match self.remove_track(tracks[i]) {
                Ok(info) => {
                    removed.push(info);
                },
                Err(_) => {},
            }
            proof {
                lemma_removed_wf(before, ids[i as int]);
                assert forall|j: int| i + 1 <= j < ids.len() implies self@.records.contains_key(
                    #[trigger] ids[j],
                ) && self@.records[ids[j]] == old(self)@.records[ids[j]] by {
                    assert(ids[j] != ids[i as int]);
                    assert(before.records.contains_key(ids[j]));
                }
            }
            i += 1;
        }
        assert(ids.skip(i as int).len() == 0);
        proof {
            lemma_removed_all_wf(old(self)@, ids);
            lemma_without_playlist_wf(old(self)@, playlist_name@);
        }
        self.playlists.remove_key(playlist_name);
        assert(self@.records =~= old(self)@.without_playlist(playlist_name@).records);
        Some(removed)
    }

    /// Creates the empty playlist `playlist_name`. Where a playlist of that
    /// name exists, nothing changes. Returns whether the playlist was created.
    pub fn create_playlist(&mut self, playlist_name: String) -> (created: bool)
        requires
            old(self).wf(),
        ensures
            final(self).wf(),
            final(self)@ == old(self)@.with_playlist(playlist_name@),
            created == !old(self)@.playlists.contains_key(playlist_name@),
    {
        proof {
            lemma_with_playlist_wf(self@, playlist_name@);
        }
        let created = self.playlists.insert_key(playlist_name);
        assert(self@.records =~= old(self)@.records);
        created
    }

    /// Adds a new track for each of the tags `found`, in their order, to the
    /// playlist `playlist`, or to the playlist that always exists where none
    /// is named. Returns the metadata of the new tracks, in that order.
    ///
    /// The media file of each new track is to be stored under the file name
    /// of its metadata. Where that fails for a track, the track is to be
    /// removed again.
    pub fn add_all_tracks(&mut self, playlist: Option<String>, found: Vec<TrackTags>) -> (added: Vec<
        TrackInfo,
    >)
        requires
            old(self).wf(),
            old(self)@.max_id + found@.len() <= u32::MAX,
        ensures
            final(self).wf(),
            final(self)@ == old(self)@.added_all(tags_view(found@), name_view(playlist)),
            final(self)@.max_id == old(self)@.max_id + found@.len(),
            added@.len() == found@.len(),
            forall|i: int|
                0 <= i < found@.len() ==> {
                    &&& (#[trigger] added@[i])@.id == old(self)@.max_id + 1 + i
                    &&& final(self)@.records.contains_key(added@[i]@.id)
                    &&& final(self)@.records[added@[i]@.id] == added@[i]@
                    &&& added@[i]@ == (TrackRecord {
                        id: added@[i]@.id,
                        name: found@[i]@.name,
                        artists: found@[i]@.artists,
                        album: found@[i]@.album,
                        playlist: match playlist {
                            Some(p) => p@,
                            None => liked(),
                        },
                        duration: found@[i]@.duration,
                    })
                },
    {
        let ghost tags = tags_view(found@);
        let ghost target = name_view(playlist);
        let n = found.len();
        let mut found = found;
        let mut added: Vec<TrackInfo> = Vec::new();
        let mut i: usize = 0;
        assert(tags.skip(0) =~= tags);
        while i < n
            invariant
                n == tags.len(),
                i <= n,
                found@.len() == n - i,
                tags_view(found@) == tags.skip(i as int),
                target == name_view(playlist),
                self.wf(),
                self@.max_id == old(self)@.max_id + i,
                old(self)@.max_id + n <= u32::MAX,
                self@.added_all(tags.skip(i as int), target) == old(self)@.added_all(tags, target),
                added@.len() == i,
                forall|j: int|
                    0 <= j < i ==> {
                        &&& (#[trigger] added@[j])@.id == old(self)@.max_id + 1 + j
                        &&& self@.records.contains_key(added@[j]@.id)
                        &&& self@.records[added@[j]@.id] == added@[j]@
                        &&& added@[j]@ == (TrackRecord {
                            id: added@[j]@.id,
                            name: tags[j].name,
                            artists: tags[j].artists,
                            album: tags[j].album,
                            playlist: match target {
                                Some(p) => p,
                                None => liked(),
                            },
                            duration: tags[j].duration,
                        })
                    },
            decreases n - i,
        {
            let ghost before = self@;
            let ghost rest = found@;
            let t = found.remove(0);
            proof {
                assert(tags.skip(i as int)[0] == t@);
                assert(tags.skip(i as int).drop_first() =~= tags.skip(i + 1));
                assert(tags_view(found@) =~= tags.skip(i + 1));
                lemma_added_wf(before, t@, target);
            }
            let p = match &playlist {
                Some(p) => Some(p.clone()),
                None => None,
            };
            let info = self.add_track(t, p);
            added.push(info);
            i += 1;
        }
        assert(tags.skip(i as int).len() == 0);
        added
    }
}

/// Whether the buckets of one group agree with the records.
fn group_agrees(
    map: &BucketMap,
    records: &BTreeMap<u32, TrackInfo>,
    ids: &Vec<u32>,
    group: F1State,
) -> (r: bool)
    requires
        map.wf(),
        ids@.to_set() == records@.dom(),
        forall|id: u32| records@.contains_key(id) ==> (#[trigger] records@[id]).id == id,
    ensures
        r == buckets_match(map@, members(group, record_map(records@))),
{
    ids_belong(map, records, group) && tracks_filed(map, records, ids, group) && lists_distinct(
        map,
    )
}

impl TrackDB {
    /// A full copy of the library as plain values, to be written to disk.
    pub fn to_snapshot(&self) -> (snapshot: Snapshot)
        requires
            self.wf(),
        ensures
            snapshot.valid(),
            snapshot.state() == self@,
            track_ids(snapshot.tracks@) == self@.all[all_key()],
    {
        broadcast use vstd::std_specs::btree::group_btree_axioms;

        let playlists = self.playlists.to_entries();
        let artists = self.artists.to_entries();
        let albums = self.albums.to_entries();
        let all = self.all_tracks.to_entries();
        proof {
            self.playlists.lemma_entries();
            self.artists.lemma_entries();
            self.albums.lemma_entries();
            self.all_tracks.lemma_entries();
        }
        let mut tracks: Vec<TrackInfo> = Vec::new();
        let ghost lib = self@;
        let ghost listed = lib.all[all_key()];
        assert(lib.all.dom().contains(all_key()));
        match self.all_tracks.get(&String::from_str("All")) {
            Some(ids) => {
                let mut i: usize = 0;
                while i < ids.len()
                    invariant
                        self.wf(),
                        lib == self@,
                        ids@ == listed,
                        listed == lib.all[all_key()],
                        i <= ids@.len(),
                        tracks@.len() == i,
                        forall|j: int|
                            0 <= j < i ==> (#[trigger] tracks@[j]).id == listed[j] && tracks@[j]@
                                == lib.records[listed[j]],
                    decreases ids@.len() - i,
                {
                    let id = ids[i];
                    proof {
                        assert(listed.contains(id));
                        lemma_filed_is_track(lib, all_key(), id);
                    }
                    match self.trackmap.get(&id) {
                        Some(info) => {
                            tracks.push(info.clone());
                        },
                        None => {},
                    }
                    i += 1;
                }
            },
            None => {},
        }
        let snapshot = Snapshot { playlists, artists, albums, all, tracks, max_id: self.max_id };
        proof {
            let all_tracks = snapshot.tracks@;
            lemma_no_duplicate_ids(lib, all_key());
            assert(all_tracks.len() == listed.len());
            assert forall|a: int, b: int| 0 <= a < b < all_tracks.len() implies all_tracks[a].id
                != all_tracks[b].id by {
                assert(listed[a] != listed[b]);
            }
            let target = records_of(all_tracks);
            assert forall|id: u32| #[trigger] target.contains_key(id) implies lib.records.contains_key(
                id,
            ) && target[id] == lib.records[id] by {
                let j = track_ids(all_tracks).index_of(id);
                assert(track_ids(all_tracks)[j] == all_tracks[j].id);
                assert(listed.contains(listed[j]));
                lemma_filed_is_track(lib, all_key(), id);
                lemma_records_of(all_tracks, j);
            }
            assert forall|id: u32| #[trigger] lib.records.contains_key(id) implies target.contains_key(
                id,
            ) by {
                lemma_track_is_filed(lib, id);
                let j = choose|j: int| 0 <= j < listed.len() && listed[j] == id;
                assert(track_ids(all_tracks)[j] == id);
            }
            assert(target =~= lib.records);
            assert(track_ids(all_tracks) =~= listed);
        }
        snapshot
    }

    /// The library that a snapshot stands for, or the error that the snapshot
    /// is not a library: that its buckets do not agree with its records, that
    /// its bucket names are not in increasing order, or that two of its tracks
    /// have the same id.
    pub fn from_snapshot(snapshot: Snapshot) -> (r: Result<TrackDB, StorageError>)
        ensures
            r is Ok <==> snapshot.valid(),
            r matches Ok(db) ==> db.wf() && db@ == snapshot.state(),
    {
        broadcast use vstd::std_specs::btree::group_btree_axioms;

        let ghost state = snapshot.state();
        let ghost given = snapshot.tracks@;
        let Snapshot { playlists, artists, albums, all, tracks, max_id } = snapshot;
        let playlists = match BucketMap::from_entries(playlists) {
            Some(m) => m,
            None => {
                return Err(StorageError::Corrupt);
            },
        };
        let artists = match BucketMap::from_entries(artists) {
            Some(m) => m,
            None => {
                return Err(StorageError::Corrupt);
            },
        };
        let albums = match BucketMap::from_entries(albums) {
            Some(m) => m,
            None => {
                return Err(StorageError::Corrupt);
            },
        };
        let all_tracks = match BucketMap::from_entries(all) {
            Some(m) => m,
            None => {
                return Err(StorageError::Corrupt);
            },
        };
        let (trackmap, ids) = match load_records(tracks, max_id) {
            Some(loaded) => loaded,
            None => {
                proof {
                    if distinct_ids(given) && state.wf() {
                        assert forall|i: int| 0 <= i < given.len() implies (#[trigger] given[i]).id
                            <= max_id by {
                            lemma_records_of(given, i);
                            assert(state.records.contains_key(given[i].id));
                        }
                    }
                }
                return Err(StorageError::Corrupt);
            },
        };
        proof {
            assert(state.records.dom() =~= trackmap@.dom());
            assert forall|id: u32| #[trigger] state.records.contains_key(id) implies state.records[id].id
                == id && id <= max_id by {
                let j = track_ids(given).index_of(id);
                assert(track_ids(given)[j] == given[j].id);
                lemma_records_of(given, j);
            }
            all_tracks.lemma_entries();
        }
        let liked = String::from_str("Liked");
        let none = String::from_str("None");
        let named = playlists.contains_key(&liked) && artists.contains_key(&none)
            && albums.contains_key(&none) && all_tracks.len() == 1 && *all_tracks.key_at(0)
            == String::from_str("All");
        proof {
            let keys = all_tracks.key_seq();
            if all_tracks@.dom() == set![all_key()] {
                assert(keys.to_set().contains(all_key()));
                if keys.len() >= 2 {
                    assert(keys.to_set().contains(keys[0]));
                    assert(keys.to_set().contains(keys[1]));
                }
            }
            if keys.len() == 1 && keys[0] == all_key() {
                assert(keys.to_set() =~= set![all_key()]);
            }
        }
        if !named {
            return Err(StorageError::Corrupt);
        }
        if !is_pruned(&artists) || !is_pruned(&albums) {
            return Err(StorageError::Corrupt);
        }
        if !group_agrees(&playlists, &trackmap, &ids, F1State::Playlists) {
            return Err(StorageError::Corrupt);
        }
        if !group_agrees(&artists, &trackmap, &ids, F1State::Artists) {
            return Err(StorageError::Corrupt);
        }
        if !group_agrees(&albums, &trackmap, &ids, F1State::Albums) {
            return Err(StorageError::Corrupt);
        }
        if !group_agrees(&all_tracks, &trackmap, &ids, F1State::All) {
            return Err(StorageError::Corrupt);
        }
        let db = TrackDB { playlists, artists, albums, all_tracks, trackmap, max_id };
        assert(db@ == state);
        Ok(db)
    }

    /// The library at start: the one that the snapshot stands for where there
    /// is a snapshot, the library without tracks where there is none. A
    /// snapshot that is not a library is an error.
    pub fn init(snapshot: Option<Snapshot>) -> (r: Result<TrackDB, StorageError>)
        ensures
            match snapshot {
                Some(s) => (r is Ok <==> s.valid()) && (r matches Ok(db) ==> db.wf() && db@
                    == s.state()),
                None => r matches Ok(db) && db.wf() && db@ == Library::empty(),
            },
    {
        match snapshot {
            Some(s) => TrackDB::from_snapshot(s),
            None => Ok(TrackDB::new()),
        }
    }
}

/// Writing a snapshot of a library and reading it back gives the library:
/// whatever `to_snapshot` returns for a well formed library, `from_snapshot`
/// accepts it and returns a library with the same records, the same buckets
/// and the same greatest id.
pub proof fn lemma_snapshot_round_trip(
    db: TrackDB,
    snapshot: Snapshot,
    r: Result<TrackDB, StorageError>,
)
    requires
        db.wf(),
        call_ensures(TrackDB::to_snapshot, (&db,), snapshot),
        call_ensures(TrackDB::from_snapshot, (snapshot,), r),
    ensures
        r is Ok,
        r->Ok_0.wf(),
        r->Ok_0@ == db@,
{
}

/// The views of a list of tags.
pub open spec fn tags_view(found: Seq<TrackTags>) -> Seq<Tags> {
    Seq::new(found.len(), |i: int| found[i]@)
}

} // verus!
