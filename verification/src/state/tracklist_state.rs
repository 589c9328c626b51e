//! The rows of the track list as they are shown.

use crate::text::join;
use crate::text::joined;
use crate::utils::duration_text;
use crate::utils::duration_to_str;
use vstd::prelude::*;

verus! {

/// One row of the track list.
#[derive(Debug, PartialEq, Eq)]
pub struct TracklistItem {
    pub id: u32,
    pub name: String,
    pub artist: String,
    pub album: String,
    pub duration: String,
}

/// One row of the track list, as mathematical values.
pub struct Row {
    pub id: u32,
    pub name: Seq<char>,
    pub artist: Seq<char>,
    pub album: Seq<char>,
    pub duration: Seq<char>,
}

impl View for TracklistItem {
    type V = Row;

    open spec fn view(&self) -> Row {
        Row {
            id: self.id,
            name: self.name@,
            artist: self.artist@,
            album: self.album@,
            duration: self.duration@,
        }
    }
}

impl Clone for TracklistItem {
    fn clone(&self) -> (r: Self)
        ensures
            r@ == self@,
    {
        TracklistItem {
            id: self.id,
            name: self.name.clone(),
            artist: self.artist.clone(),
            album: self.album.clone(),
            duration: self.duration.clone(),
        }
    }
}

/// The row that shows a track: the artists joined by a comma and a space, the
/// duration as minutes and seconds.
pub open spec fn row_of(
    id: u32,
    name: Seq<char>,
    artists: Seq<Seq<char>>,
    album: Seq<char>,
    duration: u32,
) -> Row {
    Row { id, name, artist: joined(artists, ", "@), album, duration: duration_text(duration) }
}

/// The test that a row does not show the track `id`.
pub open spec fn other_row(id: u32) -> spec_fn(Row) -> bool {
    |row: Row| row.id != id
}

/// The rows of the track list.
pub struct TracklistState {
    pub items: Vec<TracklistItem>,
}

impl TracklistState {
    /// The rows as mathematical values.
    pub open spec fn rows(&self) -> Seq<Row> {
        Seq::new(self.items@.len(), |i: int| self.items@[i]@)
    }

    /// Drops the rows that show the track `id`.
    pub fn remove_with_id(&mut self, id: u32)
        ensures
            final(self).rows() == old(self).rows().filter(other_row(id)),
    {
        let ghost keep = other_row(id);
        let ghost rows = self.rows();
        let mut kept: Vec<TracklistItem> = Vec::new();
        let ghost mut kept_rows: Seq<Row> = Seq::empty();
        assert(rows.take(0).filter(keep) =~= Seq::<Row>::empty()) by {
            assert(rows.take(0) =~= Seq::<Row>::empty());
        }
        let n = self.items.len();
        let mut i: usize = 0;
        while i < n
            invariant
                keep == other_row(id),
                n == rows.len(),
                i <= n,
                self.items@.len() == n - i,
                forall|j: int| 0 <= j < n - i ==> (#[trigger] self.items@[j])@ == rows[i + j],
                kept@.len() == kept_rows.len(),
                forall|j: int| 0 <= j < kept@.len() ==> (#[trigger] kept@[j])@ == kept_rows[j],
                kept_rows == rows.take(i as int).filter(keep),
            decreases n - i,
        {
            let item = self.items.remove(0);
            proof {
                assert(item@ == rows[i as int]);
                assert(rows.take(i + 1) =~= rows.take(i as int).push(rows[i as int]));
                Seq::lemma_filter_push(rows.take(i as int), rows[i as int], keep);
            }
            if item.id != id {
                proof {
                    kept_rows = kept_rows.push(item@);
                }
                kept.push(item);
            }
            i += 1;
        }
        assert(rows.take(n as int) =~= rows);
        self.items = kept;
        assert(self.rows() =~= kept_rows);
    }

    /// Drops every row.
    pub fn empty(&mut self)
        ensures
            final(self).rows() == Seq::<Row>::empty(),
    {
        self.items.clear();
        assert(self.rows() =~= Seq::<Row>::empty());
    }

    /// Appends the row that shows the given track.
    pub fn add_item(
        &mut self,
        id: u32,
        name: String,
        artists: Vec<String>,
        album: String,
        duration: u32,
    )
        ensures
            final(self).rows() == old(self).rows().push(
                row_of(id, name@, artists.deep_view(), album@, duration),
            ),
    {
        self.items.push(
            TracklistItem {
                id,
                name,
                album,
                artist: join(&artists, ", "),
                duration: duration_to_str(duration),
            },
        );
        assert(self.rows() =~= old(self).rows().push(
            row_of(id, name@, artists.deep_view(), album@, duration),
        ));
    }
}

impl Default for TracklistState {
    fn default() -> (s: Self)
        ensures
            s.rows() == Seq::<Row>::empty(),
    {
        let s = TracklistState { items: Vec::new() };
        assert(s.rows() =~= Seq::<Row>::empty());
        s
    }
}

} // verus!
