//! What is made of the output of the video downloader: the lines that it
//! prints for a search become a table of results.

use crate::text::pieces;
use crate::text::split;
use vstd::prelude::*;
use vstd::string::StringExecFns;
use vstd::utf8::decode_utf8;
use vstd::utf8::encode_utf8;
use vstd::utf8::encode_utf8_decode_utf8;
use vstd::utf8::encode_utf8_valid_utf8;
use vstd::utf8::is_char_boundary;
use vstd::utf8::is_char_boundary_iff_not_is_continuation_byte;
use vstd::utf8::is_char_boundary_start_end_of_seq;
use vstd::utf8::valid_utf8_split;

verus! {

/// How many lines the downloader prints for one result of a search.
pub const N_OUTPUT_ITEMS: usize = 5;

/// The test that a text is not empty.
pub open spec fn not_empty() -> spec_fn(Seq<char>) -> bool {
    |s: Seq<char>| s.len() > 0
}

/// The lines that the downloader has printed: the pieces of its output
/// between the line feeds, without the empty ones.
pub open spec fn output_lines_of(output: Seq<char>) -> Seq<Seq<char>> {
    pieces(output, '\n').filter(not_empty())
}

/// The lines that the downloader has printed.
pub fn output_lines(output: &str) -> (r: Vec<String>)
    ensures
        r.deep_view() == output_lines_of(output@),
{
    let parts = split(output, '\n');
    let ghost views = parts.deep_view();
    let ghost keep = not_empty();
    let mut r: Vec<String> = Vec::new();
    let mut i: usize = 0;
    assert(views.take(0).filter(keep) =~= Seq::<Seq<char>>::empty()) by {
        assert(views.take(0) =~= Seq::<Seq<char>>::empty());
    }
    assert(r.deep_view() =~= Seq::<Seq<char>>::empty());
    while i < parts.len()
        invariant
            views == parts.deep_view(),
            keep == not_empty(),
            i <= parts@.len(),
            r.deep_view() == views.take(i as int).filter(keep),
        decreases parts@.len() - i,
    {
        let ghost before = r.deep_view();
        proof {
            assert(views.take(i + 1) =~= views.take(i as int).push(views[i as int]));
            Seq::lemma_filter_push(views.take(i as int), views[i as int], keep);
            assert(views[i as int] == parts@[i as int]@);
        }
        if !parts[i].as_str().is_empty() {
            r.push(parts[i].clone());
            assert(r.deep_view() =~= before.push(views[i as int]));
        }
        i += 1;
    }
    assert(views.take(parts@.len() as int) =~= views);
    r
}

/// Whether a day is written so that it can be cut into a year of four
/// bytes, a month of two and a rest: both cuts lie between two characters.
pub open spec fn can_dash(day: Seq<char>) -> bool {
    is_char_boundary(encode_utf8(day), 4) && is_char_boundary(encode_utf8(day), 6)
}

/// A day with a dash after its first four bytes and another after its next
/// two: the day `20240131` becomes `2024-01-31`.
pub open spec fn dashed(day: Seq<char>) -> Seq<char> {
    let bytes = encode_utf8(day);
    decode_utf8(bytes.subrange(0, 4)).push('-') + decode_utf8(bytes.subrange(4, 6)).push('-')
        + decode_utf8(bytes.subrange(6, bytes.len() as int))
}

/// The day with dashes between year, month and the rest, if it can be cut so.
pub fn dash_day(day: &str) -> (r: Option<String>)
    ensures
        r is Some <==> can_dash(day@),
        r matches Some(text) ==> text@ == dashed(day@),
{
    broadcast use vstd::string::group_string_axioms;

    let ghost bytes = encode_utf8(day@);
    if !day.is_char_boundary(4) || !day.is_char_boundary(6) {
        return None;
    }
    proof {
        encode_utf8_valid_utf8(day@);
        valid_utf8_split(bytes, 4);
    }
    let (year, rest) = day.split_at(4);
    proof {
        let tail = bytes.subrange(4, bytes.len() as int);
        assert(encode_utf8(rest@) == tail);
        if bytes.len() > 6 {
            is_char_boundary_iff_not_is_continuation_byte(bytes, 6);
            assert(tail[2] == bytes[6]);
            is_char_boundary_iff_not_is_continuation_byte(tail, 2);
        } else {
            is_char_boundary_start_end_of_seq(tail);
        }
    }
    let (month, date) = rest.split_at(2);
    proof {
        let tail = bytes.subrange(4, bytes.len() as int);
        assert(tail.subrange(0, 2) =~= bytes.subrange(4, 6));
        assert(tail.subrange(2, tail.len() as int) =~= bytes.subrange(6, bytes.len() as int));
        encode_utf8_decode_utf8(year@);
        encode_utf8_decode_utf8(month@);
        encode_utf8_decode_utf8(date@);
    }
    let mut text = String::from_str(year);
    crate::text::push_char(&mut text, '-');
    text.append(month);
    crate::text::push_char(&mut text, '-');
    text.append(date);
    assert(text@ =~= dashed(day@));
    Some(text)
}

/// The table of the results of a search, made of the first `n` results that
/// the lines `parts` describe, and the ids of its rows.
///
/// The downloader prints five lines for each result: the artist, the day of
/// the upload, the title, the id and the duration. The table starts with the
/// row of its headings. Each result adds a row of title, artist, duration and
/// day, unless a result with the same id has added one before.
pub struct Found {
    pub ids: Seq<Seq<char>>,
    pub rows: Seq<Seq<Seq<char>>>,
}

/// The headings of the table of results.
pub open spec fn headings() -> Seq<Seq<char>> {
    seq!["Name"@, "Artist"@, "Duration"@, "Upload Date"@]
}

/// The table made of the first `n` results that the lines `parts` describe.
pub open spec fn found_in(parts: Seq<Seq<char>>, n: nat) -> Found
    decreases n,
{
    if n == 0 {
        Found { ids: Seq::empty(), rows: seq![headings()] }
    } else {
        let before = found_in(parts, (n - 1) as nat);
        let at = 5 * (n - 1);
        let id = parts[at + 3];
        if before.ids.contains(id) {
            before
        } else {
            Found {
                ids: before.ids.push(id),
                rows: before.rows.push(
                    seq![parts[at + 2], parts[at], parts[at + 4], dashed(parts[at + 1])],
                ),
            }
        }
    }
}

/// Whether the day of each of the first `n` results can be written with
/// dashes.
pub open spec fn days_can_dash(parts: Seq<Seq<char>>, n: nat) -> bool {
    forall|k: int| 0 <= k < n ==> can_dash(#[trigger] parts[5 * k + 1])
}

/// The views of the rows of a table.
pub open spec fn rows_view(rows: Seq<Vec<String>>) -> Seq<Seq<Seq<char>>> {
    Seq::new(rows.len(), |i: int| rows[i].deep_view())
}

/// Whether `texts` holds `text`.
pub fn holds_text(texts: &Vec<String>, text: &String) -> (r: bool)
    ensures
        r == texts.deep_view().contains(text@),
{
    let ghost views = texts.deep_view();
    let mut i: usize = 0;
    while i < texts.len()
        invariant
            views == texts.deep_view(),
            i <= texts@.len(),
            forall|j: int| 0 <= j < i ==> views[j] != text@,
        decreases texts@.len() - i,
    {
        assert(views[i as int] == texts@[i as int]@);
        if texts[i] == *text {
            return true;
        }
        i += 1;
    }
    false
}

/// The table of the results of a search that the downloader has printed as
/// the lines `parts`, and the ids of its rows: every five lines describe a
/// result, and lines that are left over are not looked at. `None` where the
/// day of a result cannot be written with dashes.
pub fn search_ytdlp(parts: &Vec<String>) -> (r: Option<(Vec<String>, Vec<Vec<String>>)>)
    ensures
        r is Some <==> days_can_dash(parts.deep_view(), parts@.len() / 5),
        r matches Some(table) ==> {
            let found = found_in(parts.deep_view(), parts@.len() / 5);
            &&& table.0.deep_view() == found.ids
            &&& rows_view(table.1@) == found.rows
        },
{
    let ghost lines = parts.deep_view();
    let len = parts.len();
    let n = len / N_OUTPUT_ITEMS;
    let mut id_vec: Vec<String> = Vec::new();
    let mut search_results: Vec<Vec<String>> = Vec::new();
    let mut header: Vec<String> = Vec::new();
    header.push(String::from_str("Name"));
    header.push(String::from_str("Artist"));
    header.push(String::from_str("Duration"));
    header.push(String::from_str("Upload Date"));
    assert(header.deep_view() =~= headings());
    search_results.push(header);
    assert(rows_view(search_results@) =~= seq![headings()]);
    assert(id_vec.deep_view() =~= Seq::<Seq<char>>::empty());
    let mut i: usize = 0;
    while i < n
        invariant
            lines == parts.deep_view(),
            len == parts@.len(),
            n == len / 5,
            i <= n,
            days_can_dash(lines, i as nat),
            id_vec.deep_view() == found_in(lines, i as nat).ids,
            rows_view(search_results@) == found_in(lines, i as nat).rows,
        decreases n - i,
    {
        assert(5 * i + 4 < len);
        let at = 5 * i;
        let artist = parts[at].clone();
        let upload_date = &parts[at + 1];
        let name = parts[at + 2].clone();
        let id = parts[at + 3].clone();
        let duration = parts[at + 4].clone();
        proof {
            assert(lines[at as int] == parts@[at as int]@);
            assert(lines[at + 1] == parts@[at + 1]@);
            assert(lines[at + 2] == parts@[at + 2]@);
            assert(lines[at + 3] == parts@[at + 3]@);
            assert(lines[at + 4] == parts@[at + 4]@);
        }
        let formatted_upload_date = match dash_day(upload_date.as_str()) {
            Some(day) => day,
            None => {
                assert(!can_dash(lines[5 * (i as int) + 1]));
                return None;
            },
        };
        let ghost ids_before = id_vec.deep_view();
        let ghost rows_before = rows_view(search_results@);
        if !holds_text(&id_vec, &id) {
            id_vec.push(id);
            let mut row: Vec<String> = Vec::new();
            row.push(name);
            row.push(artist);
            row.push(duration);
            row.push(formatted_upload_date);
            assert(row.deep_view() =~= seq![
                lines[at + 2],
                lines[at as int],
                lines[at + 4],
                dashed(lines[at + 1]),
            ]);
            search_results.push(row);
            assert(id_vec.deep_view() =~= ids_before.push(lines[at + 3]));
            assert(rows_view(search_results@) =~= rows_before.push(row.deep_view()));
        }
        assert forall|k: int| 0 <= k < i + 1 implies can_dash(#[trigger] lines[5 * k + 1]) by {
            if k == i {
                assert(lines[5 * k + 1] == lines[at + 1]);
            }
        }
        i += 1;
    }
    Some((id_vec, search_results))
}

/// The titles, artists and ids of the first `n` results that the lines
/// `parts` describe, three lines for each: the artist, the title and the id.
pub open spec fn infos_in(parts: Seq<Seq<char>>, n: nat) -> Seq<(Seq<char>, Seq<char>, Seq<char>)> {
    Seq::new(n, |i: int| (parts[3 * i + 1], parts[3 * i], parts[3 * i + 2]))
}

/// The view of a list of triples of texts.
pub open spec fn triples_view(v: Seq<(String, String, String)>) -> Seq<
    (Seq<char>, Seq<char>, Seq<char>),
> {
    Seq::new(v.len(), |i: int| (v[i].0@, v[i].1@, v[i].2@))
}

/// The title, the artist and the id of each result that the downloader has
/// printed for a link as the lines `parts`: every three lines describe a
/// result, and lines that are left over are not looked at.
pub fn ytdlp_get_info_from_link(parts: &Vec<String>) -> (results: Vec<(String, String, String)>)
    ensures
        triples_view(results@) == infos_in(parts.deep_view(), parts@.len() / 3),
{
    let ghost lines = parts.deep_view();
    let len = parts.len();
    let n_results = len / 3;
    let mut results: Vec<(String, String, String)> = Vec::new();
    let mut i: usize = 0;
    while i < n_results
        invariant
            lines == parts.deep_view(),
            len == parts@.len(),
            n_results == len / 3,
            i <= n_results,
            results@.len() == i,
            forall|j: int|
                0 <= j < i ==> (#[trigger] results@[j]).0@ == lines[3 * j + 1] && results@[j].1@
                    == lines[3 * j] && results@[j].2@ == lines[3 * j + 2],
        decreases n_results - i,
    {
        assert(3 * i + 2 < len);
        let artist = parts[3 * i].clone();
        let track_name = parts[3 * i + 1].clone();
        let id = parts[3 * i + 2].clone();
        proof {
            assert(lines[3 * i] == parts@[3 * i]@);
            assert(lines[3 * i + 1] == parts@[3 * i + 1]@);
            assert(lines[3 * i + 2] == parts@[3 * i + 2]@);
        }
        results.push((track_name, artist, id));
        i += 1;
    }
    assert(triples_view(results@) =~= infos_in(lines, n_results as nat));
    results
}

} // verus!
