//! Buckets: named, ordered lists of track ids.
//!
//! A [`BucketMap`] maps a name (a playlist, an artist, an album) to the ids
//! filed under it. The names are kept in increasing order of their UTF-8
//! bytes, which is the order in which `String` compares, so no name occurs
//! twice and the names are listed alphabetically.

use crate::track_queue::position_of;
use vstd::prelude::*;
use vstd::utf8::encode_utf8;
use vstd::utf8::encode_utf8_decode_utf8;

verus! {

/// The contents of a [`BucketMap`]: the ids filed under each name.
pub type Buckets = Map<Seq<char>, Seq<u32>>;

/// Lexicographic order on byte strings: `a` comes strictly before `b`.
pub open spec fn bytes_lt(a: Seq<u8>, b: Seq<u8>) -> bool
    decreases a.len(),
{
    if b.len() == 0 {
        false
    } else if a.len() == 0 {
        true
    } else if a[0] != b[0] {
        a[0] < b[0]
    } else {
        bytes_lt(a.drop_first(), b.drop_first())
    }
}

/// The order of bucket names: by the bytes of their UTF-8 encoding.
pub open spec fn key_lt(a: Seq<char>, b: Seq<char>) -> bool {
    bytes_lt(encode_utf8(a), encode_utf8(b))
}

/// The names are in strictly increasing order.
pub open spec fn sorted_keys(keys: Seq<Seq<char>>) -> bool {
    forall|i: int, j: int| 0 <= i < j < keys.len() ==> key_lt(#[trigger] keys[i], #[trigger] keys[j])
}

/// `ids` without `id`: its first occurrence is taken out. A list that holds
/// no id twice then no longer holds `id`.
pub open spec fn without(ids: Seq<u32>, id: u32) -> Seq<u32> {
    if ids.contains(id) {
        ids.remove(position_of(ids, id))
    } else {
        ids
    }
}

/// `ids` with `id`: appended at the end unless the list holds it already.
pub open spec fn with(ids: Seq<u32>, id: u32) -> Seq<u32> {
    if ids.contains(id) {
        ids
    } else {
        ids.push(id)
    }
}

/// The buckets after `id` has been filed under `key`. A bucket that does not
/// exist yet is created.
pub open spec fn with_id(m: Buckets, key: Seq<char>, id: u32) -> Buckets {
    if m.contains_key(key) {
        m.insert(key, with(m[key], id))
    } else {
        m.insert(key, seq![id])
    }
}

/// The buckets after `id` has been taken out of the bucket `key`. With
/// `prune`, a bucket that is left empty is dropped.
pub open spec fn without_id(m: Buckets, key: Seq<char>, id: u32, prune: bool) -> Buckets {
    if !m.contains_key(key) {
        m
    } else if prune && without(m[key], id).len() == 0 {
        m.remove(key)
    } else {
        m.insert(key, without(m[key], id))
    }
}

/// The buckets after an empty bucket `key` has been created, unless there is
/// one of that name already.
pub open spec fn with_key(m: Buckets, key: Seq<char>) -> Buckets {
    if m.contains_key(key) {
        m
    } else {
        m.insert(key, Seq::empty())
    }
}

/// No byte string comes before itself.
pub proof fn lemma_bytes_lt_irreflexive(a: Seq<u8>)
    ensures
        !bytes_lt(a, a),
    decreases a.len(),
{
    if a.len() > 0 {
        lemma_bytes_lt_irreflexive(a.drop_first());
    }
}

/// The order of byte strings is transitive.
pub proof fn lemma_bytes_lt_transitive(a: Seq<u8>, b: Seq<u8>, c: Seq<u8>)
    requires
        bytes_lt(a, b),
        bytes_lt(b, c),
    ensures
        bytes_lt(a, c),
    decreases a.len(),
{
    if a.len() > 0 && a[0] == b[0] && b[0] == c[0] {
        lemma_bytes_lt_transitive(a.drop_first(), b.drop_first(), c.drop_first());
    }
}

/// Of two different byte strings one comes before the other.
pub proof fn lemma_bytes_lt_total(a: Seq<u8>, b: Seq<u8>)
    ensures
        bytes_lt(a, b) || a == b || bytes_lt(b, a),
    decreases a.len(),
{
    if a.len() > 0 && b.len() > 0 && a[0] == b[0] {
        lemma_bytes_lt_total(a.drop_first(), b.drop_first());
        if a.drop_first() == b.drop_first() {
            assert(a =~= seq![a[0]] + a.drop_first());
            assert(b =~= seq![b[0]] + b.drop_first());
        }
    } else if a.len() == 0 && b.len() == 0 {
        assert(a =~= b);
    }
}

/// Two byte strings that agree on their first `n` bytes compare as their
/// remainders do.
pub proof fn lemma_bytes_lt_common_prefix(a: Seq<u8>, b: Seq<u8>, n: int)
    requires
        0 <= n <= a.len(),
        n <= b.len(),
        a.take(n) == b.take(n),
    ensures
        bytes_lt(a, b) == bytes_lt(a.skip(n), b.skip(n)),
    decreases n,
{
    if n == 0 {
        assert(a.skip(0) =~= a);
        assert(b.skip(0) =~= b);
    } else {
        assert(a[0] == a.take(n)[0]);
        assert(b[0] == b.take(n)[0]);
        let a1 = a.drop_first();
        let b1 = b.drop_first();
        assert(a1.take(n - 1) =~= a.take(n).drop_first());
        assert(b1.take(n - 1) =~= b.take(n).drop_first());
        lemma_bytes_lt_common_prefix(a1, b1, n - 1);
        assert(a1.skip(n - 1) =~= a.skip(n));
        assert(b1.skip(n - 1) =~= b.skip(n));
    }
}

/// No name comes before itself.
pub proof fn lemma_key_lt_irreflexive(a: Seq<char>)
    ensures
        !key_lt(a, a),
{
    lemma_bytes_lt_irreflexive(encode_utf8(a));
}

/// The order of names is transitive.
pub proof fn lemma_key_lt_transitive(a: Seq<char>, b: Seq<char>, c: Seq<char>)
    requires
        key_lt(a, b),
        key_lt(b, c),
    ensures
        key_lt(a, c),
{
    lemma_bytes_lt_transitive(encode_utf8(a), encode_utf8(b), encode_utf8(c));
}

/// Of two different names one comes before the other.
pub proof fn lemma_key_lt_total(a: Seq<char>, b: Seq<char>)
    ensures
        key_lt(a, b) || a == b || key_lt(b, a),
{
    lemma_bytes_lt_total(encode_utf8(a), encode_utf8(b));
    encode_utf8_decode_utf8(a);
    encode_utf8_decode_utf8(b);
}

/// Whether `a` comes strictly before `b` in the order of bucket names.
pub fn key_less(a: &str, b: &str) -> (r: bool)
    ensures
        r == key_lt(a@, b@),
{
    let x = a.as_bytes();
    let y = b.as_bytes();
    let mut i: usize = 0;
    while i < x.len() && i < y.len()
        invariant
            x@ == encode_utf8(a@),
            y@ == encode_utf8(b@),
            i <= x@.len(),
            i <= y@.len(),
            x@.take(i as int) == y@.take(i as int),
        decreases x@.len() - i,
    {
        if x[i] != y[i] {
            proof {
                lemma_bytes_lt_common_prefix(x@, y@, i as int);
            }
            return x[i] < y[i];
        }
        assert(x@.take(i + 1) =~= x@.take(i as int).push(x@[i as int]));
        assert(y@.take(i + 1) =~= y@.take(i as int).push(y@[i as int]));
        i += 1;
    }
    proof {
        lemma_bytes_lt_common_prefix(x@, y@, i as int);
    }
    x.len() < y.len()
}

/// The buckets that a list of names and the list of their ids stand for.
pub open spec fn buckets_of(keys: Seq<Seq<char>>, lists: Seq<Seq<u32>>) -> Buckets {
    Map::new(|k: Seq<char>| keys.contains(k), |k: Seq<char>| lists[keys.index_of(k)])
}

/// In a sorted list of names no name occurs twice.
pub proof fn lemma_sorted_distinct(keys: Seq<Seq<char>>, i: int, j: int)
    requires
        sorted_keys(keys),
        0 <= i < keys.len(),
        0 <= j < keys.len(),
        i != j,
    ensures
        keys[i] != keys[j],
{
    lemma_key_lt_irreflexive(keys[i]);
}

/// In a sorted list of names, the index of a name is the place where it stands.
proof fn lemma_index_of_sorted(keys: Seq<Seq<char>>, i: int)
    requires
        sorted_keys(keys),
        0 <= i < keys.len(),
    ensures
        keys.contains(keys[i]),
        keys.index_of(keys[i]) == i,
{
    let j = keys.index_of(keys[i]);
    if j != i {
        lemma_sorted_distinct(keys, i, j);
    }
}

/// The bucket of the name at a place is the list at that place.
proof fn lemma_buckets_at(keys: Seq<Seq<char>>, lists: Seq<Seq<u32>>, i: int)
    requires
        sorted_keys(keys),
        0 <= i < keys.len(),
    ensures
        buckets_of(keys, lists).contains_key(keys[i]),
        buckets_of(keys, lists)[keys[i]] == lists[i],
{
    lemma_index_of_sorted(keys, i);
}

/// Replacing the list at a place replaces the bucket of the name at that place.
proof fn lemma_buckets_update(keys: Seq<Seq<char>>, lists: Seq<Seq<u32>>, i: int, l: Seq<u32>)
    requires
        sorted_keys(keys),
        keys.len() == lists.len(),
        0 <= i < keys.len(),
    ensures
        buckets_of(keys, lists.update(i, l)) == buckets_of(keys, lists).insert(keys[i], l),
{
    let a = buckets_of(keys, lists.update(i, l));
    let b = buckets_of(keys, lists).insert(keys[i], l);
    lemma_index_of_sorted(keys, i);
    assert forall|k: Seq<char>| a.contains_key(k) implies #[trigger] a[k] == b[k] by {
        let j = keys.index_of(k);
        if j != i {
            lemma_sorted_distinct(keys, i, j);
        }
    }
    assert(a =~= b);
}

/// A name that is put between the names before it and the names after it
/// keeps the list sorted, and was not in the list.
proof fn lemma_sorted_insert(keys: Seq<Seq<char>>, p: int, k: Seq<char>)
    requires
        sorted_keys(keys),
        0 <= p <= keys.len(),
        forall|i: int| 0 <= i < p ==> key_lt(#[trigger] keys[i], k),
        forall|i: int| p <= i < keys.len() ==> key_lt(k, #[trigger] keys[i]),
    ensures
        sorted_keys(keys.insert(p, k)),
        !keys.contains(k),
{
    let after = keys.insert(p, k);
    assert forall|i: int, j: int| 0 <= i < j < after.len() implies key_lt(
        #[trigger] after[i],
        #[trigger] after[j],
    ) by {
        if i < p && j > p {
            assert(after[i] == keys[i]);
            assert(after[j] == keys[j - 1]);
        } else if i > p {
            assert(after[i] == keys[i - 1]);
            assert(after[j] == keys[j - 1]);
        }
    }
    lemma_key_lt_irreflexive(k);
}

/// Putting a new name and its list in at a place adds a bucket.
proof fn lemma_buckets_insert(
    keys: Seq<Seq<char>>,
    lists: Seq<Seq<u32>>,
    p: int,
    k: Seq<char>,
    l: Seq<u32>,
)
    requires
        0 <= p <= keys.len(),
        keys.len() == lists.len(),
        sorted_keys(keys),
        sorted_keys(keys.insert(p, k)),
    ensures
        buckets_of(keys.insert(p, k), lists.insert(p, l)) == buckets_of(keys, lists).insert(k, l),
{
    let keys2 = keys.insert(p, k);
    let lists2 = lists.insert(p, l);
    let a = buckets_of(keys2, lists2);
    let b = buckets_of(keys, lists).insert(k, l);
    assert(keys2[p] == k);
    assert forall|x: Seq<char>| a.contains_key(x) <==> b.contains_key(x) by {
        if a.contains_key(x) {
            let j = keys2.index_of(x);
            if j < p {
                assert(keys[j] == x);
            } else if j > p {
                assert(keys[j - 1] == x);
            }
        }
        if b.contains_key(x) && x != k {
            let j = keys.index_of(x);
            if j < p {
                assert(keys2[j] == x);
            } else {
                assert(keys2[j + 1] == x);
            }
        }
    }
    assert forall|x: Seq<char>| a.contains_key(x) implies #[trigger] a[x] == b[x] by {
        let j = keys2.index_of(x);
        if j < p {
            assert(keys[j] == x);
            lemma_index_of_sorted(keys, j);
            lemma_sorted_distinct(keys2, j, p);
        } else if j > p {
            assert(keys[j - 1] == x);
            lemma_index_of_sorted(keys, j - 1);
            lemma_sorted_distinct(keys2, j, p);
        }
    }
    assert(a =~= b);
}

/// Taking a name out keeps the list sorted.
proof fn lemma_sorted_remove(keys: Seq<Seq<char>>, p: int)
    requires
        sorted_keys(keys),
        0 <= p < keys.len(),
    ensures
        sorted_keys(keys.remove(p)),
{
    let after = keys.remove(p);
    assert forall|i: int, j: int| 0 <= i < j < after.len() implies key_lt(
        #[trigger] after[i],
        #[trigger] after[j],
    ) by {
        let i0 = if i < p { i } else { i + 1 };
        let j0 = if j < p { j } else { j + 1 };
        assert(after[i] == keys[i0]);
        assert(after[j] == keys[j0]);
    }
}

/// Taking the name and the list at a place out drops the bucket of that name.
proof fn lemma_buckets_remove(keys: Seq<Seq<char>>, lists: Seq<Seq<u32>>, p: int)
    requires
        sorted_keys(keys),
        keys.len() == lists.len(),
        0 <= p < keys.len(),
    ensures
        buckets_of(keys.remove(p), lists.remove(p)) == buckets_of(keys, lists).remove(keys[p]),
{
    let keys2 = keys.remove(p);
    let lists2 = lists.remove(p);
    let a = buckets_of(keys2, lists2);
    let b = buckets_of(keys, lists).remove(keys[p]);
    lemma_sorted_remove(keys, p);
    assert forall|x: Seq<char>| a.contains_key(x) <==> b.contains_key(x) by {
        if a.contains_key(x) {
            let j = keys2.index_of(x);
            let j0 = if j < p { j } else { j + 1 };
            assert(keys[j0] == x);
            lemma_sorted_distinct(keys, j0, p);
        }
        if b.contains_key(x) {
            let j = keys.index_of(x);
            if j < p {
                assert(keys2[j] == x);
            } else {
                assert(keys2[j - 1] == x);
            }
        }
    }
    assert forall|x: Seq<char>| a.contains_key(x) implies #[trigger] a[x] == b[x] by {
        let j = keys2.index_of(x);
        let j0 = if j < p { j } else { j + 1 };
        assert(keys[j0] == x);
        lemma_index_of_sorted(keys, j0);
    }
    assert(a =~= b);
}

/// One bucket: a name and the ids filed under it, in the order in which they
/// were filed.
pub struct Bucket {
    key: String,
    ids: Vec<u32>,
}

/// Buckets by name, in increasing order of the names.
pub struct BucketMap {
    entries: Vec<Bucket>,
}

impl View for BucketMap {
    type V = Buckets;

    closed spec fn view(&self) -> Buckets {
        buckets_of(self.key_seq(), self.lists())
    }
}

impl BucketMap {
    /// The names of the buckets in the order in which they are kept.
    pub closed spec fn key_seq(&self) -> Seq<Seq<char>> {
        Seq::new(self.entries@.len(), |i: int| self.entries@[i].key@)
    }

    /// The id lists of the buckets in the order in which they are kept.
    pub closed spec fn lists(&self) -> Seq<Seq<u32>> {
        Seq::new(self.entries@.len(), |i: int| self.entries@[i].ids@)
    }

    /// The names are in strictly increasing order.
    pub closed spec fn wf(&self) -> bool {
        sorted_keys(self.key_seq())
    }

    /// The kept lists are the buckets: the names are those of the map, each
    /// once and in increasing order, and each list is the bucket of its name.
    pub proof fn lemma_entries(&self)
        requires
            self.wf(),
        ensures
            sorted_keys(self.key_seq()),
            self.key_seq().no_duplicates(),
            self.key_seq().len() == self.lists().len(),
            self@ == buckets_of(self.key_seq(), self.lists()),
            self@.dom() == self.key_seq().to_set(),
            forall|i: int|
                0 <= i < self.key_seq().len() ==> self@.contains_key(#[trigger] self.key_seq()[i])
                    && self@[self.key_seq()[i]] == self.lists()[i],
    {
        let keys = self.key_seq();
        assert forall|i: int, j: int| 0 <= i < keys.len() && 0 <= j < keys.len() && i != j implies keys[i]
            != keys[j] by {
            lemma_sorted_distinct(keys, i, j);
        }
        assert(self@.dom() =~= keys.to_set());
        assert forall|i: int| 0 <= i < keys.len() implies self@.contains_key(#[trigger] keys[i])
            && self@[keys[i]] == self.lists()[i] by {
            lemma_buckets_at(keys, self.lists(), i);
        }
    }

    /// No buckets.
    pub fn new() -> (m: Self)
        ensures
            m.wf(),
            m@ == Map::<Seq<char>, Seq<u32>>::empty(),
    {
        let m = BucketMap { entries: Vec::new() };
        assert(m@ =~= Map::<Seq<char>, Seq<u32>>::empty());
        m
    }

    /// The number of buckets.
    pub fn len(&self) -> (n: usize)
        ensures
            n == self.key_seq().len(),
    {
        self.entries.len()
    }

    /// The name of the bucket at position `i` in the order of the names.
    pub fn key_at(&self, i: usize) -> (key: &String)
        requires
            i < self.key_seq().len(),
        ensures
            key@ == self.key_seq()[i as int],
    {
        &self.entries[i].key
    }

    /// The ids of the bucket at position `i` in the order of the names.
    pub fn ids_at(&self, i: usize) -> (ids: &Vec<u32>)
        requires
            i < self.key_seq().len(),
        ensures
            ids@ == self.lists()[i as int],
    {
        &self.entries[i].ids
    }

    /// Where `key` stands among the names, or would have to be put: every name
    /// before that position comes before `key`, and `key` comes before every
    /// name from there on unless it is the name at that position.
    fn locate(&self, key: &String) -> (r: (usize, bool))
        requires
            self.wf(),
        ensures
            r.0 <= self.key_seq().len(),
            r.1 == self@.contains_key(key@),
            r.1 ==> r.0 < self.key_seq().len() && self.key_seq()[r.0 as int] == key@,
            forall|i: int| 0 <= i < r.0 ==> key_lt(#[trigger] self.key_seq()[i], key@),
            !r.1 ==> forall|i: int|
                r.0 <= i < self.key_seq().len() ==> key_lt(key@, #[trigger] self.key_seq()[i]),
    {
        let ghost keys = self.key_seq();
        let mut lo: usize = 0;
        let mut hi: usize = self.entries.len();
        while lo < hi
            invariant
                keys == self.key_seq(),
                sorted_keys(keys),
                lo <= hi <= keys.len(),
                keys.len() == self.entries@.len(),
                forall|i: int| 0 <= i < lo ==> key_lt(#[trigger] keys[i], key@),
                forall|i: int| hi <= i < keys.len() ==> !key_lt(#[trigger] keys[i], key@),
            decreases hi - lo,
        {
            let mid = lo + (hi - lo) / 2;
            if key_less(self.entries[mid].key.as_str(), key.as_str()) {
                assert forall|i: int| 0 <= i < mid + 1 implies key_lt(#[trigger] keys[i], key@) by {
                    if i < mid {
                        lemma_key_lt_transitive(keys[i], keys[mid as int], key@);
                    }
                }
                lo = mid + 1;
            } else {
                assert forall|i: int| mid <= i < keys.len() implies !key_lt(
                    #[trigger] keys[i],
                    key@,
                ) by {
                    if i > mid && key_lt(keys[i], key@) {
                        lemma_key_lt_transitive(keys[mid as int], keys[i], key@);
                    }
                }
                hi = mid;
            }
        }
        let found = lo < self.entries.len() && self.entries[lo].key == *key;
        proof {
            if found {
                lemma_buckets_at(keys, self.lists(), lo as int);
            } else {
                assert forall|i: int| 0 <= i < keys.len() implies keys[i] != key@ && (lo <= i
                    ==> key_lt(key@, #[trigger] keys[i])) by {
                    if i < lo {
                        lemma_key_lt_irreflexive(key@);
                    } else {
                        lemma_key_lt_total(keys[i], key@);
                        if keys[i] == key@ {
                            assert(i > lo);
                            assert(key_lt(keys[lo as int], keys[i]));
                        }
                    }
                }
                assert(!keys.contains(key@));
            }
        }
        (lo, found)
    }

    /// Whether there is a bucket of that name.
    pub fn contains_key(&self, key: &String) -> (r: bool)
        requires
            self.wf(),
        ensures
            r == self@.contains_key(key@),
    {
        self.locate(key).1
    }

    /// The ids filed under `key`, if there is a bucket of that name.
    pub fn get(&self, key: &String) -> (r: Option<&Vec<u32>>)
        requires
            self.wf(),
        ensures
            match r {
                Some(ids) => self@.contains_key(key@) && ids@ == self@[key@],
                None => !self@.contains_key(key@),
            },
    {
        let (p, found) = self.locate(key);
        if found {
            proof {
                lemma_buckets_at(self.key_seq(), self.lists(), p as int);
            }
            Some(&self.entries[p].ids)
        } else {
            None
        }
    }

    /// The names of the buckets, in increasing order.
    pub fn keys(&self) -> (names: Vec<String>)
        ensures
            names.deep_view() == self.key_seq(),
    {
        let mut names: Vec<String> = Vec::new();
        let mut i: usize = 0;
        while i < self.entries.len()
            invariant
                i <= self.entries@.len(),
                names@.len() == i,
                forall|j: int| 0 <= j < i ==> (#[trigger] names@[j])@ == self.entries@[j].key@,
            decreases self.entries@.len() - i,
        {
            names.push(self.entries[i].key.clone());
            i += 1;
        }
        assert(names.deep_view() =~= self.key_seq());
        names
    }

    /// Creates an empty bucket `key` unless there is one of that name.
    /// Returns whether it was created.
    pub fn insert_key(&mut self, key: String) -> (created: bool)
        requires
            old(self).wf(),
        ensures
            final(self).wf(),
            created == !old(self)@.contains_key(key@),
            final(self)@ == with_key(old(self)@, key@),
    {
        let (p, found) = self.locate(&key);
        if found {
            return false;
        }
        proof {
            lemma_sorted_insert(self.key_seq(), p as int, key@);
            lemma_buckets_insert(
                self.key_seq(),
                self.lists(),
                p as int,
                key@,
                Seq::<u32>::empty(),
            );
        }
        self.entries.insert(p, Bucket { key, ids: Vec::new() });
        assert(self.key_seq() =~= old(self).key_seq().insert(p as int, key@));
        assert(self.lists() =~= old(self).lists().insert(p as int, Seq::<u32>::empty()));
        true
    }

    /// Files `id` under `key`, at the end of the bucket, unless the bucket
    /// holds it already. A bucket that does not exist yet is created.
    pub fn add_id(&mut self, key: &String, id: u32)
        requires
            old(self).wf(),
        ensures
            final(self).wf(),
            final(self)@ == with_id(old(self)@, key@, id),
    {
        let (p, found) = self.locate(key);
        if found {
            proof {
                lemma_buckets_at(self.key_seq(), self.lists(), p as int);
            }
            if !contains_id(&self.entries[p].ids, id) {
                self.entries[p].ids.push(id);
            }
            proof {
                let l = with(old(self).lists()[p as int], id);
                lemma_buckets_update(old(self).key_seq(), old(self).lists(), p as int, l);
                assert(self.key_seq() =~= old(self).key_seq());
                assert(self.lists() =~= old(self).lists().update(p as int, l));
            }
        } else {
            proof {
                lemma_sorted_insert(self.key_seq(), p as int, key@);
                lemma_buckets_insert(self.key_seq(), self.lists(), p as int, key@, seq![id]);
            }
            let mut ids: Vec<u32> = Vec::new();
            ids.push(id);
            self.entries.insert(p, Bucket { key: key.clone(), ids });
            assert(self.key_seq() =~= old(self).key_seq().insert(p as int, key@));
            assert(self.lists() =~= old(self).lists().insert(p as int, seq![id]));
        }
    }

    /// Takes `id` out of the bucket `key`. With `prune`, a bucket that is left
    /// empty is dropped. Without a bucket of that name nothing changes.
    pub fn remove_id(&mut self, key: &String, id: u32, prune: bool)
        requires
            old(self).wf(),
        ensures
            final(self).wf(),
            final(self)@ == without_id(old(self)@, key@, id, prune),
    {
        let (p, found) = self.locate(key);
        if !found {
            return ;
        }
        proof {
            lemma_buckets_at(self.key_seq(), self.lists(), p as int);
        }
        remove_first(&mut self.entries[p].ids, id);
        let ghost l = without(old(self).lists()[p as int], id);
        assert(self.key_seq() =~= old(self).key_seq());
        assert(self.lists() =~= old(self).lists().update(p as int, l));
        if prune && self.entries[p].ids.len() == 0 {
            proof {
                lemma_sorted_remove(old(self).key_seq(), p as int);
                lemma_buckets_remove(old(self).key_seq(), old(self).lists(), p as int);
            }
            self.entries.remove(p);
            assert(self.key_seq() =~= old(self).key_seq().remove(p as int));
            assert(self.lists() =~= old(self).lists().remove(p as int));
        } else {
            proof {
                lemma_buckets_update(old(self).key_seq(), old(self).lists(), p as int, l);
            }
        }
    }

    /// Drops the bucket `key` and returns the ids that were filed under it.
    pub fn remove_key(&mut self, key: &String) -> (removed: Option<Vec<u32>>)
        requires
            old(self).wf(),
        ensures
            final(self).wf(),
            final(self)@ == old(self)@.remove(key@),
            match removed {
                Some(ids) => old(self)@.contains_key(key@) && ids@ == old(self)@[key@],
                None => !old(self)@.contains_key(key@),
            },
    {
        let (p, found) = self.locate(key);
        if !found {
            assert(self@.remove(key@) =~= self@);
            return None;
        }
        proof {
            lemma_buckets_at(self.key_seq(), self.lists(), p as int);
            lemma_sorted_remove(self.key_seq(), p as int);
            lemma_buckets_remove(self.key_seq(), self.lists(), p as int);
        }
        let bucket = self.entries.remove(p);
        assert(self.key_seq() =~= old(self).key_seq().remove(p as int));
        assert(self.lists() =~= old(self).lists().remove(p as int));
        Some(bucket.ids)
    }
}

/// Whether `ids` holds `id`.
pub fn contains_id(ids: &Vec<u32>, id: u32) -> (r: bool)
    ensures
        r == ids@.contains(id),
{
    let mut i: usize = 0;
    while i < ids.len()
        invariant
            i <= ids@.len(),
            forall|j: int| 0 <= j < i ==> ids@[j] != id,
        decreases ids@.len() - i,
    {
        if ids[i] == id {
            return true;
        }
        i += 1;
    }
    false
}

/// Takes the first occurrence of `id` out of `ids`.
pub fn remove_first(ids: &mut Vec<u32>, id: u32)
    ensures
        final(ids)@ == without(old(ids)@, id),
{
    let mut i: usize = 0;
    while i < ids.len()
        invariant
            i <= ids@.len(),
            ids@ == old(ids)@,
            forall|j: int| 0 <= j < i ==> ids@[j] != id,
        decreases ids@.len() - i,
    {
        if ids[i] == id {
            proof {
                crate::track_queue::lemma_position_of_first(ids@, id, i as int);
            }
            ids.remove(i);
            return ;
        }
        i += 1;
    }
}

/// The names of a list of buckets given as pairs.
pub open spec fn entry_keys(entries: Seq<(String, Vec<u32>)>) -> Seq<Seq<char>> {
    Seq::new(entries.len(), |i: int| entries[i].0@)
}

/// The id lists of a list of buckets given as pairs.
pub open spec fn entry_lists(entries: Seq<(String, Vec<u32>)>) -> Seq<Seq<u32>> {
    Seq::new(entries.len(), |i: int| entries[i].1@)
}

impl BucketMap {
    /// The buckets as pairs of a name and its ids, in the order of the names.
    pub fn to_entries(&self) -> (entries: Vec<(String, Vec<u32>)>)
        ensures
            entry_keys(entries@) == self.key_seq(),
            entry_lists(entries@) == self.lists(),
    {
        let mut entries: Vec<(String, Vec<u32>)> = Vec::new();
        let mut i: usize = 0;
        while i < self.entries.len()
            invariant
                i <= self.entries@.len(),
                entries@.len() == i,
                forall|j: int|
                    0 <= j < i ==> (#[trigger] entries@[j]).0@ == self.entries@[j].key@
                        && entries@[j].1@ == self.entries@[j].ids@,
            decreases self.entries@.len() - i,
        {
            entries.push((self.entries[i].key.clone(), self.entries[i].ids.clone()));
            i += 1;
        }
        assert(entry_keys(entries@) =~= self.key_seq());
        assert(entry_lists(entries@) =~= self.lists());
        entries
    }

    /// The buckets given as pairs of a name and its ids, if the names are in
    /// strictly increasing order.
    pub fn from_entries(entries: Vec<(String, Vec<u32>)>) -> (r: Option<BucketMap>)
        ensures
            r is Some <==> sorted_keys(entry_keys(entries@)),
            r matches Some(m) ==> m.wf() && m.key_seq() == entry_keys(entries@) && m.lists()
                == entry_lists(entries@) && m@ == buckets_of(
                entry_keys(entries@),
                entry_lists(entries@),
            ),
    {
        let ghost keys = entry_keys(entries@);
        let ghost lists = entry_lists(entries@);
        let mut i: usize = 0;
        while i < entries.len()
            invariant
                keys == entry_keys(entries@),
                i <= entries@.len(),
                sorted_keys(keys.take(i as int)),
            decreases entries@.len() - i,
        {
            if i > 0 && !key_less(entries[i - 1].0.as_str(), entries[i].0.as_str()) {
                assert(!sorted_keys(keys)) by {
                    assert(keys[i - 1] == entries@[i - 1].0@);
                    assert(keys[i as int] == entries@[i as int].0@);
                }
                return None;
            }
            proof {
                let before = keys.take(i as int);
                let after = keys.take(i + 1);
                assert forall|a: int, b: int| 0 <= a < b < after.len() implies key_lt(
                    #[trigger] after[a],
                    #[trigger] after[b],
                ) by {
                    if b < i {
                        assert(key_lt(before[a], before[b]));
                    } else if a < i - 1 {
                        assert(key_lt(before[a], before[i - 1]));
                        lemma_key_lt_transitive(keys[a], keys[i - 1], keys[i as int]);
                    }
                }
            }
            i += 1;
        }
        assert(keys.take(entries@.len() as int) =~= keys);
        let mut m = BucketMap { entries: Vec::new() };
        let mut entries = entries;
        let ghost n = entries@.len();
        while entries.len() > 0
            invariant
                n == keys.len(),
                n == lists.len(),
                entries@.len() <= n,
                forall|j: int|
                    0 <= j < entries@.len() ==> (#[trigger] entries@[j]).0@ == keys[j]
                        && entries@[j].1@ == lists[j],
                forall|j: int|
                    0 <= j < m.entries@.len() ==> (#[trigger] m.entries@[j]).key@ == keys[n - 1
                        - j] && m.entries@[j].ids@ == lists[n - 1 - j],
                m.entries@.len() + entries@.len() == n,
            decreases entries@.len(),
        {
            let last = entries.pop();
            match last {
                Some((key, ids)) => {
                    m.entries.push(Bucket { key, ids });
                },
                None => {},
            }
        }
        reverse_buckets(&mut m.entries);
        assert(m.key_seq() =~= keys);
        assert(m.lists() =~= lists);
        Some(m)
    }
}

/// Puts the buckets in the opposite order.
fn reverse_buckets(v: &mut Vec<Bucket>)
    ensures
        final(v)@.len() == old(v)@.len(),
        forall|j: int| 0 <= j < old(v)@.len() ==> final(v)@[j] == old(v)@[old(v)@.len() - 1 - j],
{
    let mut out: Vec<Bucket> = Vec::new();
    let ghost n = v@.len();
    while v.len() > 0
        invariant
            v@.len() <= n,
            n == old(v)@.len(),
            out@.len() + v@.len() == n,
            forall|j: int| 0 <= j < v@.len() ==> v@[j] == old(v)@[j],
            forall|j: int| 0 <= j < out@.len() ==> out@[j] == old(v)@[n - 1 - j],
        decreases v@.len(),
    {
        let last = v.pop();
        match last {
            Some(b) => {
                out.push(b);
            },
            None => {},
        }
    }
    *v = out;
}

} // verus!
