//! Small conversions between values and the text that shows them.

use crate::db::TrackTags;
use crate::state::filter_state::F1State;
use crate::text::decimal;
use crate::text::decimal_two;
use crate::text::pieces;
use crate::text::push_char;
use crate::text::push_decimal;
use crate::text::push_decimal_two;
use crate::text::split;
use vstd::prelude::*;
use vstd::string::StringExecFns;
use vstd::utf8::encode_scalar;
use vstd::utf8::encode_utf8;
use vstd::utf8::encode_utf8_valid_utf8;
use vstd::utf8::is_char_boundary;
use vstd::utf8::is_char_boundary_iff_not_is_continuation_byte;
use vstd::utf8::is_continuation_byte;

verus! {

/// A duration in seconds as minutes and seconds: the minutes in decimal, a
/// colon, and the seconds with two digits.
pub open spec fn duration_text(duration: u32) -> Seq<char> {
    decimal((duration / 60) as nat).push(':') + decimal_two((duration % 60) as nat)
}

/// The duration as minutes and seconds, `M:SS`.
pub fn duration_to_str(duration: u32) -> (s: String)
    ensures
        s@ == duration_text(duration),
{
    let min = duration / 60;
    let secs = duration - (min * 60);
    let mut s = String::new();
    push_decimal(&mut s, min as u64);
    push_char(&mut s, ':');
    push_decimal_two(&mut s, secs as u64);
    assert(s@ =~= duration_text(duration));
    s
}

/// The time played and the whole time of a track, each as minutes and
/// seconds, with a slash between them.
pub fn get_progress_display_str(secs_played: u32, total_secs: u32) -> (s: String)
    ensures
        s@ == duration_text(secs_played).push('/') + duration_text(total_secs),
{
    let mut s = duration_to_str(secs_played);
    push_char(&mut s, '/');
    s.append(duration_to_str(total_secs).as_str());
    s
}

/// The name of a group of buckets.
pub open spec fn f1_state_name(f1_state: F1State) -> Seq<char> {
    match f1_state {
        F1State::All => "All"@,
        F1State::Playlists => "Playlists"@,
        F1State::Artists => "Artists"@,
        F1State::Albums => "Albums"@,
    }
}

/// The name of a group of buckets.
pub fn f1_state_enum_to_str(f1_state: &F1State) -> (s: String)
    ensures
        s@ == f1_state_name(*f1_state),
{
    match f1_state {
        F1State::All => String::from_str("All"),
        F1State::Playlists => String::from_str("Playlists"),
        F1State::Artists => String::from_str("Artists"),
        F1State::Albums => String::from_str("Albums"),
    }
}

/// Whether `s` is the word `true`. Anything else counts as false.
pub fn parse_bool(s: &str) -> (b: bool)
    ensures
        b == (s@ == "true"@),
{
    String::from_str(s) == String::from_str("true")
}

/// The tags of a media file as they are read from it.
#[derive(Debug, PartialEq, Eq)]
pub struct RawTags {
    pub title: Option<String>,
    /// The artists in one string, separated by `/`.
    pub artist: Option<String>,
    pub album: Option<String>,
}

/// Why the tags of a media file do not describe a track.
#[derive(Clone, Copy, Debug, PartialEq, Eq, Structural)]
pub enum MetadataReadError {
    /// The file has no tag.
    NoTag,
    /// The tag of the file has no title.
    NoTitle,
}

/// A duration of `secs` seconds as the library keeps it: its low 32 bits.
pub open spec fn duration_of(secs: u64) -> u32 {
    (secs % 0x1_0000_0000) as u32
}

/// What the tags of a media file say about a track: the title, the artists
/// that the artist string names between its `/`, the album, and the duration
/// in whole seconds. A file without a tag or without a title is an error.
pub fn get_metadata(tag: Option<RawTags>, duration_secs: u64) -> (r: Result<
    TrackTags,
    MetadataReadError,
>)
    ensures
        match tag {
            None => r == Err::<TrackTags, MetadataReadError>(MetadataReadError::NoTag),
            Some(raw) => match raw.title {
                None => r == Err::<TrackTags, MetadataReadError>(MetadataReadError::NoTitle),
                Some(title) => {
                    &&& r is Ok
                    &&& r->Ok_0@.name == title@
                    &&& r->Ok_0@.album == crate::db::name_view(raw.album)
                    &&& r->Ok_0@.duration == duration_of(duration_secs)
                    &&& match raw.artist {
                        Some(names) => r->Ok_0@.artists == Some(pieces(names@, '/')),
                        None => r->Ok_0@.artists is None,
                    }
                },
            },
        },
{
    let raw = match tag {
        Some(raw) => raw,
        None => {
            return Err(MetadataReadError::NoTag);
        },
    };
    let name = match raw.title {
        Some(title) => title,
        None => {
            return Err(MetadataReadError::NoTitle);
        },
    };
    let artists = match &raw.artist {
        Some(names) => Some(split(names.as_str(), '/')),
        None => None,
    };
    let duration = (duration_secs % 0x1_0000_0000) as u32;
    Ok(TrackTags { name, artists, album: raw.album, duration })
}

/// Whether a file of the staging directory is taken in as a track: every
/// file but those whose name starts with a dot.
pub fn is_staged_track(file_name: &str) -> (r: bool)
    ensures
        r == !(file_name@.len() > 0 && file_name@[0] == '.'),
{
    broadcast use vstd::string::group_string_axioms;

    let mut it = file_name.chars();
    match it.next() {
        Some(first) => first != '.',
        None => true,
    }
}

/// Calls `String::insert`, which puts the character at the byte position
/// `idx` and moves what follows behind it. It panics where `idx` is greater
/// than the length of the string in bytes or does not lie between two
/// characters.
#[verifier::external_body]
fn insert_char(s: &mut String, idx: usize, c: char)
    requires
        is_char_boundary(encode_utf8(old(s)@), idx as int),
    ensures
        encode_utf8(final(s)@) == encode_utf8(old(s)@).subrange(0, idx as int) + encode_scalar(
            c as u32,
        ) + encode_utf8(old(s)@).subrange(idx as int, encode_utf8(old(s)@).len() as int),
{
    s.insert(idx, c);
}

/// The byte position at which `wrap_string` breaks a text of `len` bytes into
/// lines of `n` bytes: the end of the last full line.
pub open spec fn wrap_position(len: nat, n: u32) -> int {
    (len / (n as nat)) * n
}

/// The bytes of a text after `wrap_string`: one line feed for each full line
/// of `n` bytes, all of them put at the end of the last full line.
pub open spec fn wrapped(bytes: Seq<u8>, n: u32) -> Seq<u8> {
    let p = wrap_position(bytes.len(), n);
    bytes.subrange(0, p) + Seq::new(bytes.len() / (n as nat), |i: int| 10u8) + bytes.subrange(
        p,
        bytes.len() as int,
    )
}

/// Puts a line feed into `s` for each full line of `n` bytes that `s` has,
/// all of them at the end of the last full line. That position must lie
/// between two characters.
pub fn wrap_string(s: &mut String, n: u32)
    requires
        n > 0,
        encode_utf8(old(s)@).len() <= u32::MAX,
        is_char_boundary(
            encode_utf8(old(s)@),
            wrap_position(encode_utf8(old(s)@).len(), n),
        ),
    ensures
        encode_utf8(final(s)@) == wrapped(encode_utf8(old(s)@), n),
{
    let ghost bytes = encode_utf8(s@);
    let len = s.as_str().len();
    let c = (len as u32) / n;
    assert(c * n <= len) by (nonlinear_arith)
        requires
            c == (len as u32) / n,
            n > 0,
            len <= u32::MAX,
    ;
    let at = (c as usize) * (n as usize);
    let ghost p = at as int;
    let mut i: u32 = 0;
    assert(bytes.subrange(0, p) + Seq::new(0, |j: int| 10u8) + bytes.subrange(
        p,
        bytes.len() as int,
    ) =~= bytes);
    while i < c
        invariant
            i <= c,
            c == bytes.len() / (n as nat),
            p == at,
            p == wrap_position(bytes.len(), n),
            0 <= p <= bytes.len(),
            encode_utf8(s@) == bytes.subrange(0, p) + Seq::new(i as nat, |j: int| 10u8)
                + bytes.subrange(p, bytes.len() as int),
            is_char_boundary(encode_utf8(s@), p),
        decreases c - i,
    {
        let ghost before = encode_utf8(s@);
        insert_char(s, at, '\n');
        proof {
            let after = encode_utf8(s@);
            lemma_line_feed();
            assert(after =~= bytes.subrange(0, p) + Seq::new((i + 1) as nat, |j: int| 10u8)
                + bytes.subrange(p, bytes.len() as int));
            encode_utf8_valid_utf8(s@);
            assert(after[p] == 10u8);
            assert(!is_continuation_byte(10u8)) by (bit_vector);
            is_char_boundary_iff_not_is_continuation_byte(after, p);
        }
        i += 1;
    }
}

/// A line feed is one byte in UTF-8.
proof fn lemma_line_feed()
    ensures
        encode_scalar('\n' as u32) == seq![10u8],
{
    assert('\n' as u32 == 10u32);
    assert(vstd::utf8::has_width_1_encoding(10u32)) by (bit_vector);
    assert(vstd::utf8::leading_byte_width_1(10u32) == 10u8) by (bit_vector);
    assert(encode_scalar(10u32) =~= seq![10u8]);
}

/// What a key press asks for.
#[derive(Clone, Copy, Debug, PartialEq, Eq, Structural)]
pub enum UserInput {
    Quit,
    DoNothing,
    FocusLower,
    FocusUpper,
    FocusLeft,
    FocusRight,
    SelectLower,
    SelectUpper,
    Select,
    JumpToBottom,
    JumpToTop,
    JumpMultipleDown,
    JumpMultipleUp,
    Delete,
    ConfirmYes,
    ConfirmNo,
    ToggleShuffle,
    AddToQueue,
    AddTrackOrPlaylist,
    Escape,
}

} // verus!
