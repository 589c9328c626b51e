//! The playback queue: a three-tier scheduler that decides which track id
//! plays next or previous.
//!
//! Tracks that the user asked for explicitly ("play next", "add to queue")
//! are consumed before the regular rotation. Tracks taken from the regular
//! rotation are remembered in a history; when both queues run dry the history
//! becomes the new rotation, so a rotation repeats without losing or
//! duplicating a track.

use rand::seq::SliceRandom;
use rand::thread_rng;
use vstd::prelude::*;
use vstd::seq_lib::lemma_multiset_commutative;

verus! {

/// The track that is selected for playback, tagged by the queue it was taken from.
#[derive(Clone, Copy, Debug, PartialEq, Eq, Structural)]
pub enum TrackType {
    /// A track taken from the regular rotation.
    RegQueueTrack(u32),
    /// A track taken from the explicit queue.
    ExQueueTrack(u32),
    /// Nothing is selected.
    NoTrack,
}

impl TrackType {
    /// The id that the tag carries, if any.
    pub open spec fn id(self) -> Option<u32> {
        match self {
            TrackType::RegQueueTrack(t) => Some(t),
            TrackType::ExQueueTrack(t) => Some(t),
            TrackType::NoTrack => None,
        }
    }
}

/// The mathematical state of a [`TrackQueue`].
pub struct QueueState {
    /// Tracks the user asked for, consumed before the regular rotation.
    pub explicit: Seq<u32>,
    /// The upcoming tracks of the rotation.
    pub regular: Seq<u32>,
    /// The selected track.
    pub current: TrackType,
    /// Tracks of the rotation that have played, most recent last.
    pub history: Seq<u32>,
}

/// The index of the first occurrence of `t` in `ids`, or `ids.len()` if there is none.
pub open spec fn position_of(ids: Seq<u32>, t: u32) -> int
    decreases ids.len(),
{
    if ids.len() == 0 {
        0
    } else if ids[0] == t {
        0
    } else {
        1 + position_of(ids.drop_first(), t)
    }
}

/// The test that an id is not `id`.
pub open spec fn other_than_id(id: u32) -> spec_fn(u32) -> bool {
    |x: u32| x != id
}

/// `ids` rotated so that it starts right after the first occurrence of `t`
/// and wraps around to the elements that preceded it; `t` itself is left out.
pub open spec fn rotated_after(ids: Seq<u32>, t: u32) -> Seq<u32> {
    let p = position_of(ids, t);
    ids.subrange(p + 1, ids.len() as int) + ids.subrange(0, p)
}

impl QueueState {
    /// The state of a queue that holds nothing.
    pub open spec fn empty() -> QueueState {
        QueueState {
            explicit: Seq::empty(),
            regular: Seq::empty(),
            current: TrackType::NoTrack,
            history: Seq::empty(),
        }
    }

    /// The history once the selected track has been retired: a track of the
    /// regular rotation is appended, any other selection leaves it as it is.
    pub open spec fn retired_history(self) -> Seq<u32> {
        match self.current {
            TrackType::RegQueueTrack(t) => self.history.push(t),
            _ => self.history,
        }
    }

    /// The state after advancing to the next track.
    pub open spec fn after_next(self) -> QueueState {
        let history = self.retired_history();
        if self.explicit.len() > 0 {
            QueueState {
                explicit: self.explicit.drop_first(),
                regular: self.regular,
                current: TrackType::ExQueueTrack(self.explicit[0]),
                history,
            }
        } else if self.regular.len() > 0 {
            QueueState {
                explicit: self.explicit,
                regular: self.regular.drop_first(),
                current: TrackType::RegQueueTrack(self.regular[0]),
                history,
            }
        } else if history.len() > 0 {
            QueueState {
                explicit: self.explicit,
                regular: history.drop_first(),
                current: TrackType::RegQueueTrack(history[0]),
                history: Seq::empty(),
            }
        } else {
            QueueState {
                explicit: self.explicit,
                regular: self.regular,
                current: TrackType::NoTrack,
                history,
            }
        }
    }

    /// The state after stepping back to the previous track.
    pub open spec fn after_prev(self) -> QueueState {
        if self.history.len() == 0 {
            self
        } else {
            QueueState {
                explicit: match self.current {
                    TrackType::ExQueueTrack(t) => seq![t] + self.explicit,
                    _ => self.explicit,
                },
                regular: match self.current {
                    TrackType::RegQueueTrack(t) => seq![t] + self.regular,
                    _ => self.regular,
                },
                current: TrackType::RegQueueTrack(self.history.last()),
                history: self.history.drop_last(),
            }
        }
    }

    /// The state after the rotation has been replaced by the ordered list
    /// `ids`, continuing right after the selected track.
    pub open spec fn after_reorder(self, ids: Seq<u32>) -> QueueState {
        match self.current.id() {
            Some(t) => QueueState {
                explicit: self.explicit,
                regular: rotated_after(ids, t),
                current: self.current,
                history: Seq::empty(),
            },
            None => self,
        }
    }

    /// The state after the track `id` has been taken out of both queues and
    /// of the history, wherever it occurs. The selected track stays.
    pub open spec fn without_track(self, id: u32) -> QueueState {
        QueueState {
            explicit: self.explicit.filter(other_than_id(id)),
            regular: self.regular.filter(other_than_id(id)),
            current: self.current,
            history: self.history.filter(other_than_id(id)),
        }
    }

    /// One full pass over the regular rotation: what has played, the selected
    /// track if it came from the rotation, and what is still to come.
    pub open spec fn rotation(self) -> Seq<u32> {
        self.retired_history() + self.regular
    }
}

/// The playback queue.
#[derive(Debug)]
pub struct TrackQueue {
    pub reg_queue: Vec<u32>,
    pub exp_queue: Vec<u32>,
    pub curr_track: TrackType,
    pub played_tracks: Vec<u32>,
}

impl View for TrackQueue {
    type V = QueueState;

    open spec fn view(&self) -> QueueState {
        QueueState {
            explicit: self.exp_queue@,
            regular: self.reg_queue@,
            current: self.curr_track,
            history: self.played_tracks@,
        }
    }
}

/// Calls `rand::seq::SliceRandom::shuffle` with the thread-local generator of
/// `rand::thread_rng`. The shuffle only swaps elements of the slice, so the
/// result holds the same ids as often as before; which order comes out is
/// left open. The generator panics if the operating system cannot seed it.
#[verifier::external_body]
fn shuffle_ids(ids: &mut Vec<u32>)
    ensures
        final(ids)@.to_multiset() == old(ids)@.to_multiset(),
{
    ids.shuffle(&mut thread_rng());
}

impl TrackQueue {
    /// A queue that holds nothing and has no track selected.
    pub fn new() -> (q: Self)
        ensures
            q@ == QueueState::empty(),
    {
        TrackQueue {
            reg_queue: Vec::new(),
            exp_queue: Vec::new(),
            curr_track: TrackType::NoTrack,
            played_tracks: Vec::new(),
        }
    }

    /// Permutes the regular queue at random. The explicit queue, the history
    /// and the selected track stay as they are.
    pub fn shuffle_reg_queue(&mut self)
        ensures
            final(self)@.regular.to_multiset() == old(self)@.regular.to_multiset(),
            final(self)@.regular.len() == old(self)@.regular.len(),
            final(self)@.explicit == old(self)@.explicit,
            final(self)@.history == old(self)@.history,
            final(self)@.current == old(self)@.current,
    {
        let ghost before = self.reg_queue@;
        shuffle_ids(&mut self.reg_queue);
        proof {
            before.to_multiset_ensures();
            self.reg_queue@.to_multiset_ensures();
        }
    }

    /// Drops both queues and the history. The selected track stays.
    pub fn empty_queue(&mut self)
        ensures
            final(self)@ == (QueueState { current: old(self)@.current, ..QueueState::empty() }),
    {
        self.reg_queue = Vec::new();
        self.exp_queue = Vec::new();
        self.played_tracks = Vec::new();
    }

    /// Drops the regular queue and the history. The explicit queue and the
    /// selected track stay.
    pub fn empty_reg_queue(&mut self)
        ensures
            final(self)@ == (QueueState {
                regular: Seq::empty(),
                history: Seq::empty(),
                ..old(self)@
            }),
    {
        self.reg_queue = Vec::new();
        self.played_tracks = Vec::new();
    }

    /// Puts `p` at the head of the explicit queue, before everything that was
    /// asked for earlier.
    pub fn play_next(&mut self, p: u32)
        ensures
            final(self)@ == (QueueState { explicit: seq![p] + old(self)@.explicit, ..old(self)@ }),
    {
        self.exp_queue.insert(0, p);
        assert(self.exp_queue@ =~= seq![p] + old(self).exp_queue@);
    }

    /// Appends `p` to the explicit queue.
    pub fn add_to_queue(&mut self, p: u32)
        ensures
            final(self)@ == (QueueState { explicit: old(self)@.explicit.push(p), ..old(self)@ }),
    {
        self.exp_queue.push(p);
    }

    /// Appends `p` to the regular queue.
    pub fn add_to_reg_queue(&mut self, p: u32)
        ensures
            final(self)@ == (QueueState { regular: old(self)@.regular.push(p), ..old(self)@ }),
    {
        self.reg_queue.push(p);
    }

    /// Puts `p` at the head of the regular queue.
    pub fn prepend_to_reg_queue(&mut self, p: u32)
        ensures
            final(self)@ == (QueueState { regular: seq![p] + old(self)@.regular, ..old(self)@ }),
    {
        self.reg_queue.insert(0, p);
        assert(self.reg_queue@ =~= seq![p] + old(self).reg_queue@);
    }

    /// The id of the selected track, if one is selected.
    pub fn get_curr_track(&self) -> (id: Option<u32>)
        ensures
            id == self@.current.id(),
    {
        match self.curr_track {
            TrackType::RegQueueTrack(t) => Some(t),
            TrackType::ExQueueTrack(t) => Some(t),
            TrackType::NoTrack => None,
        }
    }

    /// Advances to the next track.
    ///
    /// A selected track of the regular rotation moves to the history. The
    /// next track is the head of the explicit queue; if that is empty, the
    /// head of the regular queue; if both are empty, the history becomes the
    /// regular queue and its head is taken. With nothing anywhere, no track
    /// is selected.
    pub fn next_track(&mut self)
        ensures
            final(self)@ == old(self)@.after_next(),
    {
        if let TrackType::RegQueueTrack(t) = self.curr_track {
            self.played_tracks.push(t);
        }
        self.curr_track = TrackType::NoTrack;

        if self.exp_queue.len() > 0 {
            let t = self.exp_queue.remove(0);
            self.curr_track = TrackType::ExQueueTrack(t);
            assert(self.exp_queue@ =~= old(self).exp_queue@.drop_first());
        } else if self.reg_queue.len() > 0 {
            let t = self.reg_queue.remove(0);
            self.curr_track = TrackType::RegQueueTrack(t);
            assert(self.reg_queue@ =~= old(self).reg_queue@.drop_first());
        } else if self.played_tracks.len() > 0 {
            let ghost history = self.played_tracks@;
            let t = self.played_tracks.remove(0);
            self.reg_queue.append(&mut self.played_tracks);
            self.curr_track = TrackType::RegQueueTrack(t);
            assert(self.reg_queue@ =~= history.drop_first());
        }
    }

    /// Steps back to the track that played last.
    ///
    /// With an empty history nothing changes. Otherwise the selected track
    /// returns to the head of the queue it was taken from, and the most recent
    /// entry of the history is selected as a track of the regular rotation.
    pub fn prev_track(&mut self)
        ensures
            final(self)@ == old(self)@.after_prev(),
    {
        if self.played_tracks.len() > 0 {
            match self.curr_track {
                TrackType::RegQueueTrack(t) => {
                    self.reg_queue.insert(0, t);
                    assert(self.reg_queue@ =~= seq![t] + old(self).reg_queue@);
                },
                TrackType::ExQueueTrack(t) => {
                    self.exp_queue.insert(0, t);
                    assert(self.exp_queue@ =~= seq![t] + old(self).exp_queue@);
                },
                TrackType::NoTrack => {},
            }
            let last = self.played_tracks.pop();
            match last {
                Some(t) => {
                    self.curr_track = TrackType::RegQueueTrack(t);
                },
                None => {},
            }
            assert(self.played_tracks@ =~= old(self).played_tracks@.drop_last());
        }
    }

    /// Takes the track `id` out of both queues and of the history, wherever
    /// it occurs. The selected track stays.
    pub fn forget_track(&mut self, id: u32)
        ensures
            final(self)@ == old(self)@.without_track(id),
    {
        retain_other(&mut self.reg_queue, id);
        retain_other(&mut self.exp_queue, id);
        retain_other(&mut self.played_tracks, id);
    }

    /// Replaces the regular rotation by the ordered list `tids`, continuing
    /// right after the selected track: the ids that follow its first
    /// occurrence come first, then the ids that precede it. The history is
    /// dropped. With no track selected nothing changes.
    pub fn add_ordered_tracklist_to_reg_queue(&mut self, tids: Vec<u32>)
        requires
            old(self)@.current.id() matches Some(t) ==> tids@.contains(t),
        ensures
            final(self)@ == old(self)@.after_reorder(tids@),
    {
        if let Some(tid) = self.get_curr_track() {
            self.empty_reg_queue();
            let n = tids.len();
            let mut p: usize = 0;
            while p < n && tids[p] != tid
                invariant
                    n == tids@.len(),
                    p <= n,
                    tids@.contains(tid),
                    forall|j: int| 0 <= j < p ==> tids@[j] != tid,
                decreases n - p,
            {
                p += 1;
            }
            proof {
                lemma_position_of_first(tids@, tid, p as int);
            }
            let mut i: usize = p + 1;
            while i < n
                invariant
                    n == tids@.len(),
                    p < n,
                    p + 1 <= i <= n,
                    self.reg_queue@ == tids@.subrange(p + 1, i as int),
                    self.played_tracks@ == Seq::<u32>::empty(),
                    self.exp_queue@ == old(self).exp_queue@,
                    self.curr_track == old(self).curr_track,
                decreases n - i,
            {
                self.add_to_reg_queue(tids[i]);
                i += 1;
                assert(self.reg_queue@ =~= tids@.subrange(p + 1, i as int));
            }
            let mut j: usize = 0;
            while j < p
                invariant
                    n == tids@.len(),
                    p < n,
                    j <= p,
                    self.reg_queue@ == tids@.subrange(p + 1, n as int) + tids@.subrange(0, j as int),
                    self.played_tracks@ == Seq::<u32>::empty(),
                    self.exp_queue@ == old(self).exp_queue@,
                    self.curr_track == old(self).curr_track,
                decreases p - j,
            {
                self.add_to_reg_queue(tids[j]);
                j += 1;
                assert(self.reg_queue@ =~= tids@.subrange(p + 1, n as int) + tids@.subrange(
                    0,
                    j as int,
                ));
            }
        }
    }
}

/// Takes every occurrence of `id` out of `ids`.
pub fn retain_other(ids: &mut Vec<u32>, id: u32)
    ensures
        final(ids)@ == old(ids)@.filter(other_than_id(id)),
{
    let ghost keep = other_than_id(id);
    let mut kept: Vec<u32> = Vec::new();
    let mut i: usize = 0;
    assert(ids@.take(0).filter(keep) =~= Seq::<u32>::empty()) by {
        assert(ids@.take(0) =~= Seq::<u32>::empty());
    }
    while i < ids.len()
        invariant
            keep == other_than_id(id),
            ids@ == old(ids)@,
            i <= ids@.len(),
            kept@ == ids@.take(i as int).filter(keep),
        decreases ids@.len() - i,
    {
        proof {
            assert(ids@.take(i + 1) =~= ids@.take(i as int).push(ids@[i as int]));
            Seq::lemma_filter_push(ids@.take(i as int), ids@[i as int], keep);
        }
        if ids[i] != id {
            kept.push(ids[i]);
        }
        i += 1;
    }
    assert(ids@.take(ids@.len() as int) =~= ids@);
    *ids = kept;
}

/// An index that holds `t` and has no `t` before it is the position of `t`.
pub proof fn lemma_position_of_first(ids: Seq<u32>, t: u32, p: int)
    requires
        0 <= p <= ids.len(),
        p < ids.len() ==> ids[p] == t,
        forall|j: int| 0 <= j < p ==> ids[j] != t,
    ensures
        position_of(ids, t) == p,
    decreases ids.len(),
{
    if ids.len() > 0 && ids[0] != t {
        let rest = ids.drop_first();
        assert forall|j: int| 0 <= j < p - 1 implies rest[j] != t by {
            assert(rest[j] == ids[j + 1]);
        }
        lemma_position_of_first(rest, t, p - 1);
    }
}

/// Advancing keeps the pass over the regular rotation as it is, element for
/// element: a track only moves between the upcoming part, the selection and
/// the history, and when the history is recycled it comes back in its order.
/// No track of the rotation is lost or doubled.
pub proof fn lemma_next_keeps_rotation(s: QueueState)
    ensures
        s.after_next().rotation() == s.rotation(),
{
    let history = s.retired_history();
    if s.explicit.len() > 0 {
    } else if s.regular.len() > 0 {
        assert(history.push(s.regular[0]) + s.regular.drop_first() =~= history + s.regular);
    } else if history.len() > 0 {
        assert(Seq::<u32>::empty().push(history[0]) + history.drop_first() =~= history
            + s.regular);
    }
}

/// Stepping back keeps the pass over the regular rotation as it is, element
/// for element.
pub proof fn lemma_prev_keeps_rotation(s: QueueState)
    ensures
        s.after_prev().rotation() == s.rotation(),
{
    if s.history.len() > 0 {
        let back = s.history.drop_last().push(s.history.last());
        assert(back =~= s.history);
        match s.current {
            TrackType::RegQueueTrack(t) => {
                assert(back + (seq![t] + s.regular) =~= s.history.push(t) + s.regular);
            },
            _ => {},
        }
    }
}

/// Where no id occurs twice in the pass over the regular rotation, a selected
/// track of the rotation is neither in the history nor among the upcoming
/// tracks.
pub proof fn lemma_distinct_rotation_excludes_current(s: QueueState, t: u32)
    requires
        s.rotation().no_duplicates(),
        s.current == TrackType::RegQueueTrack(t),
    ensures
        !s.history.contains(t),
        !s.regular.contains(t),
{
    let r = s.rotation();
    let at = s.history.len() as int;
    assert(r[at] == t);
    if s.history.contains(t) {
        let i = choose|i: int| 0 <= i < s.history.len() && s.history[i] == t;
        assert(r[i] == t);
    }
    if s.regular.contains(t) {
        let i = choose|i: int| 0 <= i < s.regular.len() && s.regular[i] == t;
        assert(r[at + 1 + i] == t);
    }
}

/// The position of an id that occurs is the index of its first occurrence.
pub proof fn lemma_position_of_bounds(ids: Seq<u32>, t: u32)
    requires
        ids.contains(t),
    ensures
        0 <= position_of(ids, t) < ids.len(),
        ids[position_of(ids, t)] == t,
        forall|j: int| 0 <= j < position_of(ids, t) ==> ids[j] != t,
    decreases ids.len(),
{
    if ids[0] != t {
        let rest = ids.drop_first();
        let i = choose|i: int| 0 <= i < ids.len() && ids[i] == t;
        assert(rest[i - 1] == t);
        lemma_position_of_bounds(rest, t);
        let p = position_of(rest, t);
        assert(ids[p + 1] == rest[p]);
        assert forall|j: int| 0 <= j < p + 1 implies ids[j] != t by {
            if j > 0 {
                assert(ids[j] == rest[j - 1]);
            }
        }
    }
}

/// Reordering around the selected track keeps every other id of the list: the
/// selected track followed by the new regular queue holds the ids of the list
/// as often as the list does.
pub proof fn lemma_reorder_keeps_ids(ids: Seq<u32>, t: u32)
    requires
        ids.contains(t),
    ensures
        (seq![t] + rotated_after(ids, t)).to_multiset() == ids.to_multiset(),
{
    broadcast use lemma_multiset_commutative;

    lemma_position_of_bounds(ids, t);
    let p = position_of(ids, t);
    let before = ids.subrange(0, p);
    let after = ids.subrange(p + 1, ids.len() as int);
    assert(ids =~= before + (seq![t] + after));
    assert(seq![t] + rotated_after(ids, t) =~= (seq![t] + after) + before);
}

} // verus!
