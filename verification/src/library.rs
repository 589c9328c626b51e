//! The mathematical model of the track library: the records, the four groups
//! of buckets that index them, and what each operation does to them.
//!
//! The buckets are derived data. [`Library::wf`] states when they agree with
//! the records, and the lemmas of this module show that every operation keeps
//! them in agreement.

use crate::buckets::Buckets;
use crate::buckets::with;
use crate::buckets::with_id;
use crate::buckets::with_key;
use crate::buckets::without;
use crate::buckets::without_id;
use crate::state::filter_state::F1State;
use crate::track_queue::lemma_position_of_bounds;
use crate::track_queue::position_of;
use vstd::prelude::*;

verus! {

/// The metadata of one track.
pub struct TrackRecord {
    pub id: u32,
    pub name: Seq<char>,
    pub artists: Option<Seq<Seq<char>>>,
    pub album: Option<Seq<char>>,
    pub playlist: Seq<char>,
    pub duration: u32,
}

/// The playlist that always exists and that takes the tracks added without a
/// playlist.
pub open spec fn liked() -> Seq<char> {
    "Liked"@
}

/// The bucket of the tracks without an album, and of those without artists.
pub open spec fn none_key() -> Seq<char> {
    "None"@
}

/// The one bucket of the group that lists every track.
pub open spec fn all_key() -> Seq<char> {
    "All"@
}

impl TrackRecord {
    /// The album bucket that the track is filed under.
    pub open spec fn album_key(self) -> Seq<char> {
        match self.album {
            Some(a) => a,
            None => none_key(),
        }
    }

    /// The artist buckets that the track is filed under: one for each credited
    /// artist, the bucket of the tracks without artists where the credits are
    /// absent, none where the list of credits is empty.
    pub open spec fn artist_keys(self) -> Seq<Seq<char>> {
        match self.artists {
            Some(names) => names,
            None => seq![none_key()],
        }
    }
}

/// What the tags of a media file say about a track.
pub struct Tags {
    pub name: Seq<char>,
    pub artists: Option<Seq<Seq<char>>>,
    pub album: Option<Seq<char>>,
    pub duration: u32,
}

/// A pairing of track ids with bucket names: which id belongs under which name.
pub type Membership = Set<(u32, Seq<char>)>;

/// Each track under its playlist.
pub open spec fn playlist_members(records: Map<u32, TrackRecord>) -> Membership {
    Set::new(|p: (u32, Seq<char>)| records.contains_key(p.0) && records[p.0].playlist == p.1)
}

/// Each track under its album.
pub open spec fn album_members(records: Map<u32, TrackRecord>) -> Membership {
    Set::new(|p: (u32, Seq<char>)| records.contains_key(p.0) && records[p.0].album_key() == p.1)
}

/// Each track under each of its artists.
pub open spec fn artist_members(records: Map<u32, TrackRecord>) -> Membership {
    Set::new(
        |p: (u32, Seq<char>)| records.contains_key(p.0) && records[p.0].artist_keys().contains(p.1),
    )
}

/// Each track under the one name of the group that lists every track.
pub open spec fn all_members(records: Map<u32, TrackRecord>) -> Membership {
    Set::new(|p: (u32, Seq<char>)| records.contains_key(p.0) && p.1 == all_key())
}

/// The buckets hold exactly the ids that belong under their names, each once.
pub open spec fn buckets_match(m: Buckets, members: Membership) -> bool {
    &&& forall|k: Seq<char>, id: u32|
        m.contains_key(k) && #[trigger] m[k].contains(id) ==> members.contains((id, k))
    &&& forall|id: u32, k: Seq<char>| #[trigger]
        members.contains((id, k)) ==> m.contains_key(k) && m[k].contains(id)
    &&& forall|k: Seq<char>| m.contains_key(k) ==> (#[trigger] m[k]).no_duplicates()
}

/// No bucket but the one for tracks without a name of this kind is empty.
pub open spec fn pruned(m: Buckets) -> bool {
    forall|k: Seq<char>| m.contains_key(k) && k != none_key() ==> (#[trigger] m[k]).len() > 0
}

/// The buckets after `id` has been filed under each of `keys`, in their order.
pub open spec fn with_ids(m: Buckets, keys: Seq<Seq<char>>, id: u32) -> Buckets
    decreases keys.len(),
{
    if keys.len() == 0 {
        m
    } else {
        with_ids(with_id(m, keys[0], id), keys.drop_first(), id)
    }
}

/// The buckets after `id` has been taken out of each of the buckets `keys`, in
/// their order. A bucket that is left empty is dropped, unless it is the one
/// for tracks without a name of this kind.
pub open spec fn without_ids(m: Buckets, keys: Seq<Seq<char>>, id: u32) -> Buckets
    decreases keys.len(),
{
    if keys.len() == 0 {
        m
    } else {
        without_ids(
            without_id(m, keys[0], id, keys[0] != none_key()),
            keys.drop_first(),
            id,
        )
    }
}

/// The state of the track library.
pub struct Library {
    /// The tracks by id.
    pub records: Map<u32, TrackRecord>,
    /// The tracks of each playlist.
    pub playlists: Buckets,
    /// The tracks of each artist.
    pub artists: Buckets,
    /// The tracks of each album.
    pub albums: Buckets,
    /// Every track, under one name.
    pub all: Buckets,
    /// The greatest id that was ever given out.
    pub max_id: u32,
}

impl Library {
    /// The library without tracks: one empty bucket in each group.
    pub open spec fn empty() -> Library {
        Library {
            records: Map::empty(),
            playlists: Map::empty().insert(liked(), Seq::empty()),
            artists: Map::empty().insert(none_key(), Seq::empty()),
            albums: Map::empty().insert(none_key(), Seq::empty()),
            all: Map::empty().insert(all_key(), Seq::empty()),
            max_id: 0,
        }
    }

    /// The buckets of one group.
    pub open spec fn group(self, group: F1State) -> Buckets {
        match group {
            F1State::All => self.all,
            F1State::Playlists => self.playlists,
            F1State::Artists => self.artists,
            F1State::Albums => self.albums,
        }
    }

    /// The buckets agree with the records.
    ///
    /// Every track is filed under its playlist, under its album, under each of
    /// its artists and under the name that lists every track, and the buckets
    /// hold nothing else and no id twice. An artist or album bucket that is
    /// empty does not exist, except the one for tracks without such a name;
    /// the playlists persist when empty, and so does the list of every track.
    /// No id is greater than the greatest id given out.
    pub open spec fn wf(self) -> bool {
        &&& self.records.dom().finite()
        &&& forall|id: u32| #[trigger]
            self.records.contains_key(id) ==> self.records[id].id == id && id <= self.max_id
        &&& buckets_match(self.playlists, playlist_members(self.records))
        &&& buckets_match(self.artists, artist_members(self.records))
        &&& buckets_match(self.albums, album_members(self.records))
        &&& buckets_match(self.all, all_members(self.records))
        &&& self.playlists.contains_key(liked())
        &&& self.artists.contains_key(none_key())
        &&& self.albums.contains_key(none_key())
        &&& self.all.dom() == set![all_key()]
        &&& pruned(self.artists)
        &&& pruned(self.albums)
    }

    /// The state after `rec` has been filed in the buckets.
    pub open spec fn index_insert(self, rec: TrackRecord) -> Library {
        Library {
            playlists: with_id(self.playlists, rec.playlist, rec.id),
            artists: with_ids(self.artists, rec.artist_keys(), rec.id),
            albums: with_id(self.albums, rec.album_key(), rec.id),
            all: with_id(self.all, all_key(), rec.id),
            ..self
        }
    }

    /// The state after `rec` has been taken out of the buckets.
    pub open spec fn index_remove(self, rec: TrackRecord) -> Library {
        Library {
            playlists: without_id(self.playlists, rec.playlist, rec.id, false),
            artists: without_ids(self.artists, rec.artist_keys(), rec.id),
            albums: without_id(self.albums, rec.album_key(), rec.id, rec.album_key() != none_key()),
            all: without_id(self.all, all_key(), rec.id, false),
            ..self
        }
    }

    /// The state after the track `rec` has been added.
    pub open spec fn inserted(self, rec: TrackRecord) -> Library {
        Library { records: self.records.insert(rec.id, rec), ..self.index_insert(rec) }
    }

    /// The state after the track `id` has been removed. Without such a track
    /// nothing changes.
    pub open spec fn removed(self, id: u32) -> Library {
        if self.records.contains_key(id) {
            Library { records: self.records.remove(id), ..self.index_remove(self.records[id]) }
        } else {
            self
        }
    }

    /// The state after the tracks `ids` have been removed one after the other.
    pub open spec fn removed_all(self, ids: Seq<u32>) -> Library
        decreases ids.len(),
    {
        if ids.len() == 0 {
            self
        } else {
            self.removed(ids[0]).removed_all(ids.drop_first())
        }
    }

    /// The record that an edit to `rec` stores: `rec` with the duration that
    /// the library has for the track.
    pub open spec fn edit_record(self, rec: TrackRecord) -> TrackRecord {
        TrackRecord { duration: self.records[rec.id].duration, ..rec }
    }

    /// The state after the track `rec.id` has been replaced by `rec`. The
    /// duration is not replaced. Without such a track nothing changes.
    pub open spec fn edited(self, rec: TrackRecord) -> Library {
        if self.records.contains_key(rec.id) {
            self.removed(rec.id).inserted(self.edit_record(rec))
        } else {
            self
        }
    }

    /// The record of a new track with the tags `tags`: it gets the id after
    /// the greatest one given out, and the playlist that always exists where
    /// none is named.
    pub open spec fn new_record(self, tags: Tags, playlist: Option<Seq<char>>) -> TrackRecord {
        TrackRecord {
            id: (self.max_id + 1) as u32,
            name: tags.name,
            artists: tags.artists,
            album: tags.album,
            playlist: match playlist {
                Some(p) => p,
                None => liked(),
            },
            duration: tags.duration,
        }
    }

    /// The state after a new track with the tags `tags` has been added.
    pub open spec fn added(self, tags: Tags, playlist: Option<Seq<char>>) -> Library {
        let rec = self.new_record(tags, playlist);
        (Library { max_id: rec.id, ..self }).inserted(rec)
    }

    /// The state after new tracks with the tags `tags` have been added, in
    /// their order.
    pub open spec fn added_all(self, tags: Seq<Tags>, playlist: Option<Seq<char>>) -> Library
        decreases tags.len(),
    {
        if tags.len() == 0 {
            self
        } else {
            self.added(tags[0], playlist).added_all(tags.drop_first(), playlist)
        }
    }

    /// The state after the playlist `name` has been created, unless it exists.
    pub open spec fn with_playlist(self, name: Seq<char>) -> Library {
        Library { playlists: with_key(self.playlists, name), ..self }
    }

    /// Whether removing the playlist `name` changes anything: it exists and is
    /// not the playlist that always exists.
    pub open spec fn playlist_removable(self, name: Seq<char>) -> bool {
        name != liked() && self.playlists.contains_key(name)
    }

    /// The state after the playlist `name` has been removed together with its
    /// tracks.
    pub open spec fn without_playlist(self, name: Seq<char>) -> Library {
        if self.playlist_removable(name) {
            let emptied = self.removed_all(self.playlists[name]);
            Library { playlists: emptied.playlists.remove(name), ..emptied }
        } else {
            self
        }
    }
}

/// What `with` holds: the ids of the list and `id`, none of them twice if none
/// was there twice before.
pub proof fn lemma_with_holds(ids: Seq<u32>, id: u32)
    ensures
        forall|x: u32| with(ids, id).contains(x) <==> ids.contains(x) || x == id,
        ids.no_duplicates() ==> with(ids, id).no_duplicates(),
        with(ids, id).len() > 0,
{
    let after = with(ids, id);
    if ids.contains(id) {
        let i = choose|i: int| 0 <= i < ids.len() && ids[i] == id;
        assert(0 <= i < ids.len());
    } else {
        assert(after[ids.len() as int] == id);
        assert forall|x: u32| after.contains(x) implies ids.contains(x) || x == id by {
            let i = choose|i: int| 0 <= i < after.len() && after[i] == x;
            if i < ids.len() {
                assert(ids[i] == x);
            }
        }
        assert forall|x: u32| ids.contains(x) implies after.contains(x) by {
            let i = choose|i: int| 0 <= i < ids.len() && ids[i] == x;
            assert(after[i] == x);
        }
    }
}

/// What `without` holds of a list that holds no id twice: the ids of the list
/// but `id`, none of them twice.
pub proof fn lemma_without_holds(ids: Seq<u32>, id: u32)
    requires
        ids.no_duplicates(),
    ensures
        forall|x: u32| without(ids, id).contains(x) <==> ids.contains(x) && x != id,
        without(ids, id).no_duplicates(),
{
    let after = without(ids, id);
    if ids.contains(id) {
        lemma_position_of_bounds(ids, id);
        let p = position_of(ids, id);
        assert forall|x: u32| after.contains(x) implies ids.contains(x) && x != id by {
            let i = choose|i: int| 0 <= i < after.len() && after[i] == x;
            let i0 = if i < p { i } else { i + 1 };
            assert(ids[i0] == x);
        }
        assert forall|x: u32| ids.contains(x) && x != id implies after.contains(x) by {
            let i = choose|i: int| 0 <= i < ids.len() && ids[i] == x;
            if i < p {
                assert(after[i] == x);
            } else {
                assert(after[i - 1] == x);
            }
        }
        assert forall|i: int, j: int| 0 <= i < after.len() && 0 <= j < after.len() && i != j implies after[i]
            != after[j] by {
            let i0 = if i < p { i } else { i + 1 };
            let j0 = if j < p { j } else { j + 1 };
            assert(after[i] == ids[i0]);
            assert(after[j] == ids[j0]);
        }
    }
}

/// Filing an id under a name keeps the buckets in agreement with the
/// membership that has the pair added.
pub proof fn lemma_with_id_matches(m: Buckets, members: Membership, k: Seq<char>, id: u32)
    requires
        buckets_match(m, members),
    ensures
        buckets_match(with_id(m, k, id), members.insert((id, k))),
        pruned(m) ==> pruned(with_id(m, k, id)),
        with_id(m, k, id).dom() == m.dom().insert(k),
{
    let m2 = with_id(m, k, id);
    let members2 = members.insert((id, k));
    if m.contains_key(k) {
        lemma_with_holds(m[k], id);
    } else {
        assert(seq![id][0] == id);
    }
    assert forall|k2: Seq<char>, x: u32| m2.contains_key(k2) && #[trigger] m2[k2].contains(
        x,
    ) implies members2.contains((x, k2)) by {
        if k2 == k {
            if x != id {
                assert(m.contains_key(k));
                assert(m[k].contains(x));
            }
        } else {
            assert(m[k2].contains(x));
        }
    }
    assert forall|x: u32, k2: Seq<char>| #[trigger] members2.contains((x, k2)) implies m2.contains_key(
        k2,
    ) && m2[k2].contains(x) by {
        if (x, k2) != (id, k) {
            assert(members.contains((x, k2)));
        }
    }
    assert forall|k2: Seq<char>| m2.contains_key(k2) implies (#[trigger] m2[k2]).no_duplicates() by {
        if k2 != k {
            assert(m[k2].no_duplicates());
        } else if m.contains_key(k) {
            assert(m[k].no_duplicates());
        }
    }
    if pruned(m) {
        assert forall|k2: Seq<char>| m2.contains_key(k2) && k2 != none_key() implies (
        #[trigger] m2[k2]).len() > 0 by {
            if k2 != k {
                assert(m[k2].len() > 0);
            }
        }
    }
    assert(m2.dom() =~= m.dom().insert(k));
}

/// Taking an id out of a bucket keeps the buckets in agreement with the
/// membership that has the pair removed.
pub proof fn lemma_without_id_matches(
    m: Buckets,
    members: Membership,
    k: Seq<char>,
    id: u32,
    prune: bool,
)
    requires
        buckets_match(m, members),
    ensures
        buckets_match(without_id(m, k, id, prune), members.remove((id, k))),
        pruned(m) && prune == (k != none_key()) ==> pruned(without_id(m, k, id, prune)),
        !prune ==> without_id(m, k, id, prune).dom() == m.dom(),
        forall|k2: Seq<char>| k2 != k && m.contains_key(k2) ==> without_id(m, k, id, prune).contains_key(k2),
{
    let m2 = without_id(m, k, id, prune);
    let members2 = members.remove((id, k));
    if m.contains_key(k) {
        assert(m[k].no_duplicates());
        lemma_without_holds(m[k], id);
        let rest = without(m[k], id);
        assert forall|k2: Seq<char>, x: u32| m2.contains_key(k2) && #[trigger] m2[k2].contains(
            x,
        ) implies members2.contains((x, k2)) by {
            if k2 == k {
                assert(m[k].contains(x));
            } else {
                assert(m[k2].contains(x));
            }
        }
        assert forall|x: u32, k2: Seq<char>| #[trigger] members2.contains((x, k2)) implies m2.contains_key(
            k2,
        ) && m2[k2].contains(x) by {
            assert(members.contains((x, k2)));
            if k2 == k {
                assert(rest.contains(x));
                assert(rest.len() > 0);
            }
        }
        assert forall|k2: Seq<char>| m2.contains_key(k2) implies (
        #[trigger] m2[k2]).no_duplicates() by {
            if k2 != k {
                assert(m[k2].no_duplicates());
            }
        }
        if pruned(m) && prune == (k != none_key()) {
            assert forall|k2: Seq<char>| m2.contains_key(k2) && k2 != none_key() implies (
            #[trigger] m2[k2]).len() > 0 by {
                if k2 != k {
                    assert(m[k2].len() > 0);
                }
            }
        }
        if !prune {
            assert(m2.dom() =~= m.dom());
        }
    } else {
        assert(members2 =~= members);
    }
}

/// The pairs of `id` with each of `keys`.
pub open spec fn pairs(id: u32, keys: Seq<Seq<char>>) -> Membership {
    Set::new(|p: (u32, Seq<char>)| p.0 == id && keys.contains(p.1))
}

/// Filing an id under several names keeps the buckets in agreement with the
/// membership that has those pairs added.
pub proof fn lemma_with_ids_matches(m: Buckets, members: Membership, keys: Seq<Seq<char>>, id: u32)
    requires
        buckets_match(m, members),
    ensures
        buckets_match(with_ids(m, keys, id), members + pairs(id, keys)),
        pruned(m) ==> pruned(with_ids(m, keys, id)),
        forall|k: Seq<char>| m.contains_key(k) ==> with_ids(m, keys, id).contains_key(k),
    decreases keys.len(),
{
    if keys.len() == 0 {
        assert(members + pairs(id, keys) =~= members);
    } else {
        let m1 = with_id(m, keys[0], id);
        let members1 = members.insert((id, keys[0]));
        let rest = keys.drop_first();
        lemma_with_id_matches(m, members, keys[0], id);
        lemma_with_ids_matches(m1, members1, rest, id);
        assert forall|p: (u32, Seq<char>)| (members1 + pairs(id, rest)).contains(p) <==> (members
            + pairs(id, keys)).contains(p) by {
            if p.0 == id && rest.contains(p.1) {
                let i = choose|i: int| 0 <= i < rest.len() && rest[i] == p.1;
                assert(keys[i + 1] == p.1);
            }
            if p.0 == id && keys.contains(p.1) && p.1 != keys[0] {
                let i = choose|i: int| 0 <= i < keys.len() && keys[i] == p.1;
                assert(rest[i - 1] == p.1);
            }
        }
        assert(members1 + pairs(id, rest) =~= members + pairs(id, keys));
        assert forall|k: Seq<char>| m.contains_key(k) implies with_ids(m, keys, id).contains_key(
            k,
        ) by {
            assert(m1.dom().contains(k));
        }
    }
}

/// Taking an id out of several buckets keeps the buckets in agreement with
/// the membership that has those pairs removed.
pub proof fn lemma_without_ids_matches(
    m: Buckets,
    members: Membership,
    keys: Seq<Seq<char>>,
    id: u32,
)
    requires
        buckets_match(m, members),
    ensures
        buckets_match(without_ids(m, keys, id), members - pairs(id, keys)),
        pruned(m) ==> pruned(without_ids(m, keys, id)),
        m.contains_key(none_key()) ==> without_ids(m, keys, id).contains_key(none_key()),
    decreases keys.len(),
{
    if keys.len() == 0 {
        assert(members - pairs(id, keys) =~= members);
    } else {
        let prune = keys[0] != none_key();
        let m1 = without_id(m, keys[0], id, prune);
        let members1 = members.remove((id, keys[0]));
        let rest = keys.drop_first();
        lemma_without_id_matches(m, members, keys[0], id, prune);
        lemma_without_ids_matches(m1, members1, rest, id);
        assert forall|p: (u32, Seq<char>)| (members1 - pairs(id, rest)).contains(p) <==> (members
            - pairs(id, keys)).contains(p) by {
            if p.0 == id && rest.contains(p.1) {
                let i = choose|i: int| 0 <= i < rest.len() && rest[i] == p.1;
                assert(keys[i + 1] == p.1);
            }
            if p.0 == id && keys.contains(p.1) && p.1 != keys[0] {
                let i = choose|i: int| 0 <= i < keys.len() && keys[i] == p.1;
                assert(rest[i - 1] == p.1);
            }
        }
        assert(members1 - pairs(id, rest) =~= members - pairs(id, keys));
    }
}

/// The library without tracks is well formed.
pub proof fn lemma_empty_wf()
    ensures
        Library::empty().wf(),
{
    let s = Library::empty();
    assert(s.all.dom() =~= set![all_key()]);
}

/// Adding a track with a fresh id keeps the buckets in agreement with the
/// records.
pub proof fn lemma_inserted_wf(s: Library, rec: TrackRecord)
    requires
        s.wf(),
        !s.records.contains_key(rec.id),
        rec.id <= s.max_id,
    ensures
        s.inserted(rec).wf(),
{
    let t = s.inserted(rec);
    let id = rec.id;
    lemma_with_id_matches(s.playlists, playlist_members(s.records), rec.playlist, id);
    assert(playlist_members(t.records) =~= playlist_members(s.records).insert((id, rec.playlist)));
    lemma_with_id_matches(s.albums, album_members(s.records), rec.album_key(), id);
    assert(album_members(t.records) =~= album_members(s.records).insert((id, rec.album_key())));
    lemma_with_id_matches(s.all, all_members(s.records), all_key(), id);
    assert(all_members(t.records) =~= all_members(s.records).insert((id, all_key())));
    assert(t.all.dom() =~= set![all_key()]);
    lemma_with_ids_matches(s.artists, artist_members(s.records), rec.artist_keys(), id);
    assert(artist_members(t.records) =~= artist_members(s.records) + pairs(id, rec.artist_keys()));
}

/// Adding a new track keeps the buckets in agreement with the records, as
/// long as there is an id left to give out.
pub proof fn lemma_added_wf(s: Library, tags: Tags, playlist: Option<Seq<char>>)
    requires
        s.wf(),
        s.max_id < u32::MAX,
    ensures
        s.added(tags, playlist).wf(),
        s.added(tags, playlist).max_id == s.max_id + 1,
        s.added(tags, playlist).records == s.records.insert(
            (s.max_id + 1) as u32,
            s.new_record(tags, playlist),
        ),
        !s.records.contains_key((s.max_id + 1) as u32),
{
    let rec = s.new_record(tags, playlist);
    let bumped = Library { max_id: rec.id, ..s };
    if s.records.contains_key(rec.id) {
        assert(rec.id <= s.max_id);
    }
    assert(bumped.wf());
    lemma_inserted_wf(bumped, rec);
}

/// Removing a track keeps the buckets in agreement with the records.
pub proof fn lemma_removed_wf(s: Library, id: u32)
    requires
        s.wf(),
    ensures
        s.removed(id).wf(),
        s.removed(id).max_id == s.max_id,
        s.removed(id).records == s.records.remove(id),
        s.removed(id).playlists.dom() == s.playlists.dom(),
{
    if s.records.contains_key(id) {
        let t = s.removed(id);
        let rec = s.records[id];
        lemma_without_id_matches(s.playlists, playlist_members(s.records), rec.playlist, id, false);
        assert(playlist_members(t.records) =~= playlist_members(s.records).remove(
            (id, rec.playlist),
        ));
        let prune = rec.album_key() != none_key();
        lemma_without_id_matches(s.albums, album_members(s.records), rec.album_key(), id, prune);
        assert(album_members(t.records) =~= album_members(s.records).remove((id, rec.album_key())));
        lemma_without_id_matches(s.all, all_members(s.records), all_key(), id, false);
        assert(all_members(t.records) =~= all_members(s.records).remove((id, all_key())));
        lemma_without_ids_matches(s.artists, artist_members(s.records), rec.artist_keys(), id);
        assert(artist_members(t.records) =~= artist_members(s.records) - pairs(
            id,
            rec.artist_keys(),
        ));
    } else {
        assert(s.records.remove(id) =~= s.records);
    }
}

/// Replacing the metadata of a track keeps the buckets in agreement with the
/// records.
pub proof fn lemma_edited_wf(s: Library, rec: TrackRecord)
    requires
        s.wf(),
    ensures
        s.edited(rec).wf(),
{
    if s.records.contains_key(rec.id) {
        lemma_removed_wf(s, rec.id);
        lemma_inserted_wf(s.removed(rec.id), s.edit_record(rec));
    }
}

/// Removing several tracks keeps the buckets in agreement with the records,
/// and removes exactly those tracks.
pub proof fn lemma_removed_all_wf(s: Library, ids: Seq<u32>)
    requires
        s.wf(),
    ensures
        s.removed_all(ids).wf(),
        s.removed_all(ids).max_id == s.max_id,
        s.removed_all(ids).records == s.records.remove_keys(ids.to_set()),
        s.removed_all(ids).playlists.dom() == s.playlists.dom(),
    decreases ids.len(),
{
    if ids.len() == 0 {
        assert(s.records.remove_keys(ids.to_set()) =~= s.records);
    } else {
        let s1 = s.removed(ids[0]);
        let rest = ids.drop_first();
        lemma_removed_wf(s, ids[0]);
        lemma_removed_all_wf(s1, rest);
        assert forall|x: u32| ids.to_set().contains(x) <==> x == ids[0] || rest.to_set().contains(
            x,
        ) by {
            if ids.contains(x) && x != ids[0] {
                let i = choose|i: int| 0 <= i < ids.len() && ids[i] == x;
                assert(rest[i - 1] == x);
            }
            if rest.contains(x) {
                let i = choose|i: int| 0 <= i < rest.len() && rest[i] == x;
                assert(ids[i + 1] == x);
            }
            if x == ids[0] {
                assert(ids[0] == x);
            }
        }
        assert(s1.records.remove_keys(rest.to_set()) =~= s.records.remove_keys(ids.to_set()));
    }
}

/// Creating a playlist keeps the buckets in agreement with the records.
pub proof fn lemma_with_playlist_wf(s: Library, name: Seq<char>)
    requires
        s.wf(),
    ensures
        s.with_playlist(name).wf(),
{
    let t = s.with_playlist(name);
    if !s.playlists.contains_key(name) {
        let members = playlist_members(s.records);
        assert forall|k: Seq<char>, id: u32| t.playlists.contains_key(k)
            && #[trigger] t.playlists[k].contains(id) implies members.contains((id, k)) by {
            if k != name {
                assert(s.playlists[k].contains(id));
            }
        }
        assert forall|k: Seq<char>| t.playlists.contains_key(k) implies (
        #[trigger] t.playlists[k]).no_duplicates() by {
            if k != name {
                assert(s.playlists[k].no_duplicates());
            }
        }
    }
}

/// Removing a playlist keeps the buckets in agreement with the records.
pub proof fn lemma_without_playlist_wf(s: Library, name: Seq<char>)
    requires
        s.wf(),
    ensures
        s.without_playlist(name).wf(),
{
    if s.playlist_removable(name) {
        let ids = s.playlists[name];
        let e = s.removed_all(ids);
        let t = s.without_playlist(name);
        lemma_removed_all_wf(s, ids);
        let members = playlist_members(e.records);
        assert forall|x: u32| #[trigger] e.records.contains_key(x) implies e.records[x].playlist
            != name by {
            if e.records[x].playlist == name {
                assert(playlist_members(s.records).contains((x, name)));
                assert(ids.contains(x));
            }
        }
        assert forall|k: Seq<char>, id: u32| t.playlists.contains_key(k)
            && #[trigger] t.playlists[k].contains(id) implies members.contains((id, k)) by {
            assert(e.playlists[k].contains(id));
        }
        assert forall|id: u32, k: Seq<char>| #[trigger] members.contains((id, k)) implies t.playlists.contains_key(
        k) && t.playlists[k].contains(id) by {
            assert(e.records.contains_key(id));
        }
        assert forall|k: Seq<char>| t.playlists.contains_key(k) implies (
        #[trigger] t.playlists[k]).no_duplicates() by {
            assert(e.playlists[k].no_duplicates());
        }
    }
}

/// In a library whose buckets agree with its records, every track is found
/// in each bucket it belongs to: under its playlist, under its album, under
/// each of its artists, and in the list of every track.
pub proof fn lemma_track_is_filed(s: Library, id: u32)
    requires
        s.wf(),
        s.records.contains_key(id),
    ensures
        s.playlists.contains_key(s.records[id].playlist),
        s.playlists[s.records[id].playlist].contains(id),
        s.albums.contains_key(s.records[id].album_key()),
        s.albums[s.records[id].album_key()].contains(id),
        s.all[all_key()].contains(id),
        forall|a: Seq<char>| #[trigger]
            s.records[id].artist_keys().contains(a) ==> s.artists.contains_key(a)
                && s.artists[a].contains(id),
{
    let rec = s.records[id];
    assert(playlist_members(s.records).contains((id, rec.playlist)));
    assert(album_members(s.records).contains((id, rec.album_key())));
    assert(all_members(s.records).contains((id, all_key())));
    assert forall|a: Seq<char>| #[trigger] rec.artist_keys().contains(a) implies s.artists.contains_key(
        a,
    ) && s.artists[a].contains(id) by {
        assert(artist_members(s.records).contains((id, a)));
    }
}

/// In a library whose buckets agree with its records, an id found in a
/// bucket is the id of a track that belongs there.
pub proof fn lemma_filed_is_track(s: Library, k: Seq<char>, id: u32)
    requires
        s.wf(),
    ensures
        s.playlists.contains_key(k) && s.playlists[k].contains(id) ==> s.records.contains_key(id)
            && s.records[id].playlist == k,
        s.albums.contains_key(k) && s.albums[k].contains(id) ==> s.records.contains_key(id)
            && s.records[id].album_key() == k,
        s.artists.contains_key(k) && s.artists[k].contains(id) ==> s.records.contains_key(id)
            && s.records[id].artist_keys().contains(k),
        s.all.contains_key(k) && s.all[k].contains(id) ==> s.records.contains_key(id) && k
            == all_key(),
{
    if s.playlists.contains_key(k) && s.playlists[k].contains(id) {
        assert(playlist_members(s.records).contains((id, k)));
    }
    if s.albums.contains_key(k) && s.albums[k].contains(id) {
        assert(album_members(s.records).contains((id, k)));
    }
    if s.artists.contains_key(k) && s.artists[k].contains(id) {
        assert(artist_members(s.records).contains((id, k)));
    }
    if s.all.contains_key(k) && s.all[k].contains(id) {
        assert(all_members(s.records).contains((id, k)));
    }
}

/// In a library whose buckets agree with its records, no bucket holds an id
/// twice.
pub proof fn lemma_no_duplicate_ids(s: Library, k: Seq<char>)
    requires
        s.wf(),
    ensures
        s.playlists.contains_key(k) ==> s.playlists[k].no_duplicates(),
        s.artists.contains_key(k) ==> s.artists[k].no_duplicates(),
        s.albums.contains_key(k) ==> s.albums[k].no_duplicates(),
        s.all.contains_key(k) ==> s.all[k].no_duplicates(),
{
}

/// The greatest id given out never goes down, whatever is removed or edited,
/// and a new track gets an id that no track has had before: the one after
/// the greatest id given out, which is greater than the id of every record.
pub proof fn lemma_ids_are_not_reused(
    s: Library,
    id: u32,
    rec: TrackRecord,
    name: Seq<char>,
    tags: Tags,
    playlist: Option<Seq<char>>,
)
    requires
        s.wf(),
    ensures
        s.removed(id).max_id == s.max_id,
        s.edited(rec).max_id == s.max_id,
        s.with_playlist(name).max_id == s.max_id,
        s.without_playlist(name).max_id == s.max_id,
        s.max_id < u32::MAX ==> s.added(tags, playlist).max_id == s.max_id + 1,
        s.max_id < u32::MAX ==> s.new_record(tags, playlist).id == s.max_id + 1,
        forall|other: u32| #[trigger] s.records.contains_key(other) ==> other < s.max_id + 1,
{
    if s.playlist_removable(name) {
        lemma_removed_all_wf(s, s.playlists[name]);
    }
}

/// An edit never changes the duration of a track, whatever duration the new
/// metadata carries.
pub proof fn lemma_edit_keeps_duration(s: Library, rec: TrackRecord)
    requires
        s.records.contains_key(rec.id),
    ensures
        s.edited(rec).records.contains_key(rec.id),
        s.edited(rec).records[rec.id].duration == s.records[rec.id].duration,
        s.edited(rec).records.dom() == s.records.dom(),
{
    assert(s.edited(rec).records.dom() =~= s.records.dom());
}

/// Creating a playlist twice is creating it once: the second call changes
/// nothing, and a playlist that was created is empty.
pub proof fn lemma_create_playlist_idempotent(s: Library, name: Seq<char>)
    ensures
        s.with_playlist(name).with_playlist(name) == s.with_playlist(name),
        s.with_playlist(name).playlists.contains_key(name),
        !s.playlists.contains_key(name) ==> s.with_playlist(name).playlists[name]
            == Seq::<u32>::empty(),
        s.with_playlist(name).playlists.dom() == s.playlists.dom().insert(name),
{
    assert(s.with_playlist(name).playlists.dom() =~= s.playlists.dom().insert(name));
}

/// Removing a playlist removes its tracks with it: afterwards the playlist
/// does not exist, none of its tracks is a record or is found in any bucket,
/// and every other track is as it was. The playlist that always exists is not
/// removed.
pub proof fn lemma_remove_playlist_cascades(s: Library, name: Seq<char>)
    requires
        s.wf(),
    ensures
        s.without_playlist(liked()) == s,
        s.playlist_removable(name) ==> !s.without_playlist(name).playlists.contains_key(name),
        s.playlist_removable(name) ==> s.without_playlist(name).playlists.dom()
            == s.playlists.dom().remove(name),
        forall|id: u32| #[trigger]
            s.records.contains_key(id) && s.playlist_removable(name) ==> (
            s.without_playlist(name).records.contains_key(id) <==> s.records[id].playlist != name),
        forall|id: u32| #[trigger]
            s.without_playlist(name).records.contains_key(id) ==> s.records.contains_key(id)
                && s.without_playlist(name).records[id] == s.records[id],
        forall|id: u32, k: Seq<char>|
            s.playlist_removable(name) && s.records.contains_key(id) && s.records[id].playlist
                == name && s.without_playlist(name).playlists.contains_key(k)
                ==> !#[trigger] s.without_playlist(name).playlists[k].contains(id),
        forall|id: u32, k: Seq<char>|
            s.playlist_removable(name) && s.records.contains_key(id) && s.records[id].playlist
                == name && s.without_playlist(name).artists.contains_key(k)
                ==> !#[trigger] s.without_playlist(name).artists[k].contains(id),
        forall|id: u32, k: Seq<char>|
            s.playlist_removable(name) && s.records.contains_key(id) && s.records[id].playlist
                == name && s.without_playlist(name).albums.contains_key(k)
                ==> !#[trigger] s.without_playlist(name).albums[k].contains(id),
        forall|id: u32, k: Seq<char>|
            s.playlist_removable(name) && s.records.contains_key(id) && s.records[id].playlist
                == name && s.without_playlist(name).all.contains_key(k)
                ==> !#[trigger] s.without_playlist(name).all[k].contains(id),
{
    if s.playlist_removable(name) {
        let ids = s.playlists[name];
        let t = s.without_playlist(name);
        lemma_removed_all_wf(s, ids);
        lemma_without_playlist_wf(s, name);
        assert(t.playlists.dom() =~= s.playlists.dom().remove(name));
        assert forall|id: u32| #[trigger] s.records.contains_key(id) implies (
        t.records.contains_key(id) <==> s.records[id].playlist != name) by {
            if s.records[id].playlist == name {
                assert(playlist_members(s.records).contains((id, name)));
                assert(ids.contains(id));
            }
            if !t.records.contains_key(id) {
                assert(ids.contains(id));
                assert(playlist_members(s.records).contains((id, name)));
            }
        }
        assert forall|id: u32, k: Seq<char>|
            s.records.contains_key(id) && s.records[id].playlist == name implies !(
            t.playlists.contains_key(k) && t.playlists[k].contains(id)) && !(
            t.artists.contains_key(k) && t.artists[k].contains(id)) && !(t.albums.contains_key(k)
                && t.albums[k].contains(id)) && !(t.all.contains_key(k) && t.all[k].contains(
            id,
        )) by {
            assert(!t.records.contains_key(id));
            lemma_filed_is_track(t, k, id);
        }
    }
}

} // verus!
