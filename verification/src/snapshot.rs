//! Snapshots: a full copy of the library as plain values, and the test that
//! such values are a library.
//!
//! A snapshot is what is written to disk and read back. What is read back
//! comes from outside, so nothing is believed of it: it becomes a library only
//! if its buckets agree with its records.

use crate::buckets::BucketMap;
use crate::buckets::buckets_of;
use crate::buckets::contains_id;
use crate::buckets::entry_keys;
use crate::buckets::entry_lists;
use crate::buckets::sorted_keys;
use crate::db::record_map;
use crate::db::TrackInfo;
use crate::library::album_members;
use crate::library::all_key;
use crate::library::all_members;
use crate::library::artist_members;
use crate::library::Library;
use crate::library::Membership;
use crate::library::none_key;
use crate::library::playlist_members;
use crate::library::pruned;
use crate::library::TrackRecord;
use crate::state::filter_state::F1State;
use std::collections::BTreeMap;
use std::collections::BTreeSet;
use vstd::prelude::*;
use vstd::string::StringExecFns;

verus! {

/// A snapshot that is not a library.
#[derive(Clone, Copy, Debug, PartialEq, Eq, Structural)]
pub enum StorageError {
    /// The buckets of the snapshot do not agree with its records, or its
    /// names or ids are not as a library keeps them.
    Corrupt,
}

/// A full copy of a library: the buckets of each group as pairs of a name and
/// its ids, the metadata of every track, and the greatest id given out.
#[derive(Debug, PartialEq, Eq)]
pub struct Snapshot {
    pub playlists: Vec<(String, Vec<u32>)>,
    pub artists: Vec<(String, Vec<u32>)>,
    pub albums: Vec<(String, Vec<u32>)>,
    pub all: Vec<(String, Vec<u32>)>,
    pub tracks: Vec<TrackInfo>,
    pub max_id: u32,
}

/// No two of the tracks have the same id.
pub open spec fn distinct_ids(tracks: Seq<TrackInfo>) -> bool {
    forall|i: int, j: int| 0 <= i < j < tracks.len() ==> tracks[i].id != tracks[j].id
}

/// The ids of the tracks, in their order.
pub open spec fn track_ids(tracks: Seq<TrackInfo>) -> Seq<u32> {
    Seq::new(tracks.len(), |i: int| tracks[i].id)
}

/// The records that a list of tracks stands for.
pub open spec fn records_of(tracks: Seq<TrackInfo>) -> Map<u32, TrackRecord> {
    Map::new(
        |id: u32| track_ids(tracks).contains(id),
        |id: u32| tracks[track_ids(tracks).index_of(id)]@,
    )
}

impl Snapshot {
    /// The library that the snapshot stands for.
    pub open spec fn state(&self) -> Library {
        Library {
            records: records_of(self.tracks@),
            playlists: buckets_of(entry_keys(self.playlists@), entry_lists(self.playlists@)),
            artists: buckets_of(entry_keys(self.artists@), entry_lists(self.artists@)),
            albums: buckets_of(entry_keys(self.albums@), entry_lists(self.albums@)),
            all: buckets_of(entry_keys(self.all@), entry_lists(self.all@)),
            max_id: self.max_id,
        }
    }

    /// The snapshot is a library: the names of each group are in strictly
    /// increasing order, no two tracks have the same id, and the buckets
    /// agree with the records.
    pub open spec fn valid(&self) -> bool {
        &&& sorted_keys(entry_keys(self.playlists@))
        &&& sorted_keys(entry_keys(self.artists@))
        &&& sorted_keys(entry_keys(self.albums@))
        &&& sorted_keys(entry_keys(self.all@))
        &&& distinct_ids(self.tracks@)
        &&& self.state().wf()
    }
}

/// The membership of one group: which id belongs under which name.
pub open spec fn members(group: F1State, records: Map<u32, TrackRecord>) -> Membership {
    match group {
        F1State::All => all_members(records),
        F1State::Playlists => playlist_members(records),
        F1State::Artists => artist_members(records),
        F1State::Albums => album_members(records),
    }
}

/// Whether a track belongs under the name `key` in the group `group`.
pub open spec fn belongs_under(rec: TrackRecord, group: F1State, key: Seq<char>) -> bool {
    match group {
        F1State::All => key == all_key(),
        F1State::Playlists => rec.playlist == key,
        F1State::Artists => rec.artist_keys().contains(key),
        F1State::Albums => rec.album_key() == key,
    }
}

/// The membership of a group holds the pairs of a track and a name that the
/// track belongs under.
pub proof fn lemma_members(group: F1State, records: Map<u32, TrackRecord>, id: u32, key: Seq<char>)
    ensures
        members(group, records).contains((id, key)) <==> records.contains_key(id) && belongs_under(
            records[id],
            group,
            key,
        ),
{
}

/// In a list of tracks with distinct ids, each track is the record of its id.
pub proof fn lemma_records_of(tracks: Seq<TrackInfo>, i: int)
    requires
        distinct_ids(tracks),
        0 <= i < tracks.len(),
    ensures
        records_of(tracks).contains_key(tracks[i].id),
        records_of(tracks)[tracks[i].id] == tracks[i]@,
{
    let ids = track_ids(tracks);
    assert(ids[i] == tracks[i].id);
    let j = ids.index_of(tracks[i].id);
    assert(ids[j] == tracks[j].id);
}

/// The tracks as a map from their ids, and their ids in order, if no two
/// tracks have the same id and no id is greater than `max_id`.
pub fn load_records(tracks: Vec<TrackInfo>, max_id: u32) -> (r: Option<
    (BTreeMap<u32, TrackInfo>, Vec<u32>),
>)
    ensures
        r is Some <==> distinct_ids(tracks@) && forall|i: int|
            0 <= i < tracks@.len() ==> (#[trigger] tracks@[i]).id <= max_id,
        r matches Some((map, ids)) ==> {
            &&& record_map(map@) == records_of(tracks@)
            &&& ids@ == track_ids(tracks@)
            &&& ids@.no_duplicates()
            &&& ids@.to_set() == map@.dom()
            &&& map@.dom().finite()
            &&& forall|id: u32| map@.contains_key(id) ==> (#[trigger] map@[id]).id == id
        },
{
    broadcast use vstd::std_specs::btree::group_btree_axioms;

    let ghost all = tracks@;
    let mut ids: Vec<u32> = Vec::new();
    let mut i: usize = 0;
    while i < tracks.len()
        invariant
            all == tracks@,
            i <= all.len(),
            ids@ == track_ids(all).take(i as int),
            forall|j: int| 0 <= j < i ==> (#[trigger] all[j]).id <= max_id,
        decreases all.len() - i,
    {
        if tracks[i].id > max_id {
            return None;
        }
        ids.push(tracks[i].id);
        assert(ids@ =~= track_ids(all).take(i + 1));
        i += 1;
    }
    assert(ids@ =~= track_ids(all));
    let mut map: BTreeMap<u32, TrackInfo> = BTreeMap::new();
    let mut rest = tracks;
    while rest.len() > 0
        invariant
            all == tracks@,
            rest@.len() <= all.len(),
            forall|j: int| 0 <= j < rest@.len() ==> rest@[j] == all[j],
            forall|a: int, b: int|
                rest@.len() <= a < b < all.len() ==> (#[trigger] all[a]).id != (
                #[trigger] all[b]).id,
            forall|j: int|
                rest@.len() <= j < all.len() ==> map@.contains_key((#[trigger] all[j]).id)
                    && map@[all[j].id] == all[j],
            forall|id: u32|
                map@.contains_key(id) ==> exists|j: int|
                    rest@.len() <= j < all.len() && (#[trigger] all[j]).id == id,
        decreases rest@.len(),
    {
        let ghost k = rest@.len() - 1;
        let last = rest.pop();
        match last {
            Some(info) => {
                let id = info.id;
                if map.contains_key(&id) {
                    proof {
                        let j = choose|j: int| k < j < all.len() && (#[trigger] all[j]).id == id;
                        assert(all[k].id == all[j].id);
                    }
                    return None;
                }
                map.insert(id, info);
                assert forall|a: int, b: int| k <= a < b < all.len() implies (#[trigger] all[a]).id
                    != (#[trigger] all[b]).id by {
                    if a == k && all[b].id == id {
                        assert(map@.contains_key(all[b].id));
                    }
                }
            },
            None => {},
        }
    }
    proof {
        assert(distinct_ids(all));
        let target = records_of(all);
        assert forall|id: u32| #[trigger] target.contains_key(id) implies map@.contains_key(id) by {
            let j = track_ids(all).index_of(id);
            assert(all[j].id == id);
        }
        assert forall|id: u32| #[trigger] map@.contains_key(id) implies target.contains_key(id)
            && target[id] == map@[id]@ by {
            let j = choose|j: int| 0 <= j < all.len() && (#[trigger] all[j]).id == id;
            lemma_records_of(all, j);
        }
        assert(record_map(map@) =~= target);
        assert forall|a: int, b: int| 0 <= a < ids@.len() && 0 <= b < ids@.len() && a != b implies ids@[a]
            != ids@[b] by {
            if a < b {
                assert(all[a].id != all[b].id);
            } else {
                assert(all[b].id != all[a].id);
            }
        }
        assert(ids@.to_set() =~= map@.dom()) by {
            assert forall|id: u32| ids@.contains(id) <==> map@.contains_key(id) by {
                if ids@.contains(id) {
                    let j = choose|j: int| 0 <= j < ids@.len() && ids@[j] == id;
                    assert(all[j].id == id);
                }
                if map@.contains_key(id) {
                    let j = choose|j: int| 0 <= j < all.len() && (#[trigger] all[j]).id == id;
                    assert(ids@[j] == id);
                }
            }
        }
    }
    Some((map, ids))
}

/// Whether the track belongs under the name `key` in the group `group`.
pub fn belongs(info: &TrackInfo, group: F1State, key: &String) -> (r: bool)
    ensures
        r == belongs_under(info@, group, key@),
{
    match group {
        F1State::All => *key == String::from_str("All"),
        F1State::Playlists => info.playlist == *key,
        F1State::Albums => match &info.album {
            Some(a) => *a == *key,
            None => *key == String::from_str("None"),
        },
        F1State::Artists => match &info.artists {
            Some(names) => {
                let ghost keys = names.deep_view();
                let mut i: usize = 0;
                while i < names.len()
                    invariant
                        keys == names.deep_view(),
                        keys == info@.artist_keys(),
                        group == F1State::Artists,
                        i <= names@.len(),
                        forall|j: int| 0 <= j < i ==> keys[j] != key@,
                    decreases names@.len() - i,
                {
                    assert(keys[i as int] == names@[i as int]@);
                    if names[i] == *key {
                        assert(info@.artist_keys().contains(key@));
                        return true;
                    }
                    i += 1;
                }
                assert(info@.artist_keys() == keys);
                false
            },
            None => {
                assert(seq![none_key()][0] == none_key());
                *key == String::from_str("None")
            },
        },
    }
}

/// Whether every id in the buckets is the id of a track that belongs there.
pub fn ids_belong(map: &BucketMap, records: &BTreeMap<u32, TrackInfo>, group: F1State) -> (r: bool)
    requires
        map.wf(),
    ensures
        r == forall|k: Seq<char>, id: u32|
            map@.contains_key(k) && #[trigger] map@[k].contains(id) ==> members(
                group,
                record_map(records@),
            ).contains((id, k)),
{
    broadcast use vstd::std_specs::btree::group_btree_axioms;

    let ghost keys = map.key_seq();
    let ghost lists = map.lists();
    let ghost held = members(group, record_map(records@));
    proof {
        map.lemma_entries();
    }
    let mut i: usize = 0;
    while i < map.len()
        invariant
            keys == map.key_seq(),
            lists == map.lists(),
            keys.len() == lists.len(),
            held == members(group, record_map(records@)),
            i <= keys.len(),
            forall|a: int, id: u32|
                0 <= a < i && #[trigger] lists[a].contains(id) ==> held.contains((id, keys[a])),
            forall|a: int|
                0 <= a < keys.len() ==> map@.contains_key(#[trigger] keys[a]) && map@[keys[a]]
                    == lists[a],
        decreases keys.len() - i,
    {
        let key = map.key_at(i);
        let ids = map.ids_at(i);
        let mut j: usize = 0;
        while j < ids.len()
            invariant
                ids@ == lists[i as int],
                key@ == keys[i as int],
                i < keys.len(),
                keys.len() == lists.len(),
                held == members(group, record_map(records@)),
                j <= ids@.len(),
                forall|b: int| 0 <= b < j ==> held.contains((#[trigger] ids@[b], key@)),
                map@.contains_key(keys[i as int]) && map@[keys[i as int]] == lists[i as int],
            decreases ids@.len() - j,
        {
            let id = ids[j];
            let ok = match records.get(&id) {
                Some(info) => belongs(info, group, key),
                None => false,
            };
            proof {
                lemma_members(group, record_map(records@), id, key@);
            }
            if !ok {
                assert(map@[key@].contains(id));
                return false;
            }
            j += 1;
        }
        assert forall|a: int, id: u32| 0 <= a < i + 1 && #[trigger] lists[a].contains(
            id,
        ) implies held.contains((id, keys[a])) by {
            if a == i {
                let b = choose|b: int| 0 <= b < ids@.len() && ids@[b] == id;
                assert(held.contains((ids@[b], key@)));
            }
        }
        i += 1;
    }
    assert forall|k: Seq<char>, id: u32| map@.contains_key(k) && #[trigger] map@[k].contains(
        id,
    ) implies held.contains((id, k)) by {
        assert(keys.to_set().contains(k));
        let a = choose|a: int| 0 <= a < keys.len() && keys[a] == k;
        assert(lists[a].contains(id));
    }
    true
}

/// Whether no list holds an id twice.
pub fn no_id_twice(ids: &Vec<u32>) -> (r: bool)
    ensures
        r == ids@.no_duplicates(),
{
    broadcast use vstd::std_specs::btree::group_btree_axioms;

    let mut seen: BTreeSet<u32> = BTreeSet::new();
    let mut i: usize = 0;
    while i < ids.len()
        invariant
            i <= ids@.len(),
            seen@ == ids@.take(i as int).to_set(),
            ids@.take(i as int).no_duplicates(),
        decreases ids@.len() - i,
    {
        let fresh = seen.insert(ids[i]);
        if !fresh {
            proof {
                let b = choose|b: int|
                    0 <= b < ids@.take(i as int).len() && ids@.take(i as int)[b] == ids@[i as int];
                assert(ids@[b] == ids@[i as int]);
            }
            return false;
        }
        proof {
            let before = ids@.take(i as int);
            let after = ids@.take(i + 1);
            assert(after =~= before.push(ids@[i as int]));
            assert(after.to_set() =~= before.to_set().insert(ids@[i as int])) by {
                assert forall|x: u32| after.contains(x) <==> before.contains(x) || x == ids@[i as int] by {
                    if before.contains(x) {
                        let b = choose|b: int| 0 <= b < before.len() && before[b] == x;
                        assert(after[b] == x);
                    }
                    if x == ids@[i as int] {
                        assert(after[i as int] == x);
                    }
                    if after.contains(x) {
                        let b = choose|b: int| 0 <= b < after.len() && after[b] == x;
                        if b < i {
                            assert(before[b] == x);
                        }
                    }
                }
            }
            assert forall|a: int, b: int| 0 <= a < after.len() && 0 <= b < after.len() && a
                != b implies after[a] != after[b] by {
                if a < i && b < i {
                    assert(before[a] != before[b]);
                } else if a < i {
                    assert(before.contains(before[a]));
                } else {
                    assert(before.contains(before[b]));
                }
            }
        }
        i += 1;
    }
    assert(ids@.take(ids@.len() as int) =~= ids@);
    true
}

/// Whether no bucket holds an id twice.
pub fn lists_distinct(map: &BucketMap) -> (r: bool)
    requires
        map.wf(),
    ensures
        r == forall|k: Seq<char>| map@.contains_key(k) ==> (#[trigger] map@[k]).no_duplicates(),
{
    let ghost keys = map.key_seq();
    let ghost lists = map.lists();
    proof {
        map.lemma_entries();
    }
    let mut i: usize = 0;
    while i < map.len()
        invariant
            keys == map.key_seq(),
            lists == map.lists(),
            keys.len() == lists.len(),
            i <= keys.len(),
            forall|a: int| 0 <= a < i ==> (#[trigger] lists[a]).no_duplicates(),
            forall|a: int|
                0 <= a < keys.len() ==> map@.contains_key(#[trigger] keys[a]) && map@[keys[a]]
                    == lists[a],
        decreases keys.len() - i,
    {
        if !no_id_twice(map.ids_at(i)) {
            assert(map@.contains_key(keys[i as int]));
            return false;
        }
        i += 1;
    }
    assert forall|k: Seq<char>| map@.contains_key(k) implies (#[trigger] map@[k]).no_duplicates() by {
        assert(keys.to_set().contains(k));
        let a = choose|a: int| 0 <= a < keys.len() && keys[a] == k;
        assert(lists[a].no_duplicates());
    }
    true
}

/// Whether no bucket but the one for tracks without a name of this kind is
/// empty.
pub fn is_pruned(map: &BucketMap) -> (r: bool)
    requires
        map.wf(),
    ensures
        r == pruned(map@),
{
    let ghost keys = map.key_seq();
    let ghost lists = map.lists();
    let none = String::from_str("None");
    proof {
        map.lemma_entries();
    }
    let mut i: usize = 0;
    while i < map.len()
        invariant
            keys == map.key_seq(),
            lists == map.lists(),
            keys.len() == lists.len(),
            none@ == none_key(),
            i <= keys.len(),
            forall|a: int| 0 <= a < i && keys[a] != none_key() ==> (#[trigger] lists[a]).len() > 0,
            forall|a: int|
                0 <= a < keys.len() ==> map@.contains_key(#[trigger] keys[a]) && map@[keys[a]]
                    == lists[a],
        decreases keys.len() - i,
    {
        if *map.key_at(i) != none && map.ids_at(i).len() == 0 {
            assert(map@.contains_key(keys[i as int]));
            return false;
        }
        i += 1;
    }
    assert forall|k: Seq<char>| map@.contains_key(k) && k != none_key() implies (
    #[trigger] map@[k]).len() > 0 by {
        assert(keys.to_set().contains(k));
        let a = choose|a: int| 0 <= a < keys.len() && keys[a] == k;
        assert(lists[a].len() > 0);
    }
    true
}

/// Whether the bucket `key` exists and holds `id`.
pub fn holds(map: &BucketMap, key: &String, id: u32) -> (r: bool)
    requires
        map.wf(),
    ensures
        r == (map@.contains_key(key@) && map@[key@].contains(id)),
{
    match map.get(key) {
        Some(ids) => contains_id(ids, id),
        None => false,
    }
}

/// Whether the track is found in every bucket of the group that it belongs
/// under.
pub fn is_filed(map: &BucketMap, info: &TrackInfo, group: F1State) -> (r: bool)
    requires
        map.wf(),
    ensures
        r == forall|k: Seq<char>| #[trigger]
            belongs_under(info@, group, k) ==> map@.contains_key(k) && map@[k].contains(info.id),
{
    let id = info.id;
    match group {
        F1State::All => {
            let r = holds(map, &String::from_str("All"), id);
            assert(belongs_under(info@, group, all_key()));
            r
        },
        F1State::Playlists => {
            let r = holds(map, &info.playlist, id);
            assert(belongs_under(info@, group, info.playlist@));
            r
        },
        F1State::Albums => match &info.album {
            Some(a) => {
                let r = holds(map, a, id);
                assert(belongs_under(info@, group, a@));
                r
            },
            None => {
                let r = holds(map, &String::from_str("None"), id);
                assert(belongs_under(info@, group, none_key()));
                r
            },
        },
        F1State::Artists => match &info.artists {
            Some(names) => {
                let ghost keys = names.deep_view();
                let mut i: usize = 0;
                while i < names.len()
                    invariant
                        keys == names.deep_view(),
                        keys == info@.artist_keys(),
                        group == F1State::Artists,
                        id == info.id,
                        map.wf(),
                        i <= names@.len(),
                        forall|j: int|
                            0 <= j < i ==> map@.contains_key(#[trigger] keys[j])
                                && map@[keys[j]].contains(id),
                    decreases names@.len() - i,
                {
                    assert(keys[i as int] == names@[i as int]@);
                    if !holds(map, &names[i], id) {
                        assert(info@.artist_keys().contains(keys[i as int]));
                        assert(belongs_under(info@, group, keys[i as int]));
                        return false;
                    }
                    i += 1;
                }
                assert forall|k: Seq<char>| #[trigger]
                    belongs_under(info@, group, k) implies map@.contains_key(k)
                    && map@[k].contains(id) by {
                    let j = choose|j: int| 0 <= j < keys.len() && keys[j] == k;
                    assert(map@.contains_key(keys[j]));
                }
                true
            },
            None => {
                let r = holds(map, &String::from_str("None"), id);
                assert(seq![none_key()][0] == none_key());
                assert(belongs_under(info@, group, none_key()));
                r
            },
        },
    }
}

/// Whether every track is found in every bucket of the group that it
/// belongs under. `ids` lists the ids of the tracks.
pub fn tracks_filed(
    map: &BucketMap,
    records: &BTreeMap<u32, TrackInfo>,
    ids: &Vec<u32>,
    group: F1State,
) -> (r: bool)
    requires
        map.wf(),
        ids@.to_set() == records@.dom(),
        forall|id: u32| records@.contains_key(id) ==> (#[trigger] records@[id]).id == id,
    ensures
        r == forall|id: u32, k: Seq<char>| #[trigger]
            members(group, record_map(records@)).contains((id, k)) ==> map@.contains_key(k)
                && map@[k].contains(id),
{
    broadcast use vstd::std_specs::btree::group_btree_axioms;

    let ghost held = members(group, record_map(records@));
    let mut i: usize = 0;
    while i < ids.len()
        invariant
            map.wf(),
            ids@.to_set() == records@.dom(),
            forall|id: u32| records@.contains_key(id) ==> (#[trigger] records@[id]).id == id,
            held == members(group, record_map(records@)),
            i <= ids@.len(),
            forall|j: int, k: Seq<char>|
                0 <= j < i && #[trigger] held.contains((ids@[j], k)) ==> map@.contains_key(k)
                    && map@[k].contains(ids@[j]),
        decreases ids@.len() - i,
    {
        let id = ids[i];
        assert(ids@.to_set().contains(id)) by {
            assert(ids@[i as int] == id);
        }
        let ok = match records.get(&id) {
            Some(info) => is_filed(map, info, group),
            None => false,
        };
        if !ok {
            proof {
                let info = records@[id];
                let k = choose|k: Seq<char>| #[trigger]
                    belongs_under(info@, group, k) && !(map@.contains_key(k) && map@[k].contains(
                        id,
                    ));
                lemma_members(group, record_map(records@), id, k);
            }
            return false;
        }
        assert forall|j: int, k: Seq<char>| 0 <= j < i + 1 && #[trigger] held.contains(
            (ids@[j], k),
        ) implies map@.contains_key(k) && map@[k].contains(ids@[j]) by {
            if j == i {
                lemma_members(group, record_map(records@), id, k);
            }
        }
        i += 1;
    }
    assert forall|id: u32, k: Seq<char>| #[trigger] held.contains((id, k)) implies map@.contains_key(
        k,
    ) && map@[k].contains(id) by {
        lemma_members(group, record_map(records@), id, k);
        assert(ids@.to_set().contains(id));
        let j = choose|j: int| 0 <= j < ids@.len() && ids@[j] == id;
        assert(held.contains((ids@[j], k)));
    }
    true
}

} // verus!
