//! What is made of the answers of the search service and of the tools that
//! come with the downloader: search results, and the credentials that the
//! downloader ships in its configuration.

use crate::text::contains_text;
use crate::text::has_infix;
use crate::text::lines;
use crate::text::lines_of;
use crate::text::pieces;
use crate::text::split;
use vstd::prelude::*;
use vstd::string::StringExecFns;

verus! {

/// A track that a search has found.
#[derive(Debug, PartialEq, Eq)]
pub struct SearchResult {
    pub name: String,
    pub artists: Vec<String>,
    pub album: String,
    pub id: String,
    pub duration: u64,
}

/// The address of a track of the music service.
pub open spec fn track_url(id: Seq<char>) -> Seq<char> {
    "http://open.spotify.com/track/"@ + id
}

/// The id in the name that the music service gives a track: the third of the
/// pieces between the colons of the name, if there are three.
pub open spec fn id_in(uri: Seq<char>) -> Option<Seq<char>> {
    if pieces(uri, ':').len() >= 3 {
        Some(pieces(uri, ':')[2])
    } else {
        None
    }
}

/// The id in the name that the music service gives a track.
pub fn track_id_of(uri: &str) -> (r: Option<String>)
    ensures
        r is Some <==> id_in(uri@) is Some,
        r matches Some(id) ==> id@ == id_in(uri@)->0,
{
    let parts = split(uri, ':');
    if parts.len() >= 3 {
        assert(parts.deep_view()[2] == parts@[2]@);
        Some(parts[2].clone())
    } else {
        None
    }
}

impl SearchResult {
    /// The address of the track.
    pub fn get_url(&self) -> (url: String)
        ensures
            url@ == track_url(self.id@),
    {
        let mut url = String::from_str("http://open.spotify.com/track/");
        url.append(self.id.as_str());
        url
    }

    /// The search result for a track that the music service describes by its
    /// title, its album, its artists, its name at the service and its
    /// duration in seconds. A name without an id gives no result. The
    /// duration is taken as an unsigned number: a negative one wraps around.
    pub fn new(name: String, album: String, artists: Vec<String>, uri: &str, duration_secs: i64) -> (r:
        Option<SearchResult>)
        ensures
            r is Some <==> id_in(uri@) is Some,
            r matches Some(found) ==> {
                &&& found.name == name
                &&& found.album == album
                &&& found.artists == artists
                &&& found.id@ == id_in(uri@)->0
                &&& found.duration == if duration_secs < 0 {
                    duration_secs + 0x1_0000_0000_0000_0000
                } else {
                    duration_secs as int
                }
            },
    {
        match track_id_of(uri) {
            Some(id) => {
                let duration = #[verifier::truncate]
                (duration_secs as u64);
                assert(duration == if duration_secs < 0 {
                    duration_secs + 0x1_0000_0000_0000_0000
                } else {
                    duration_secs as int
                }) by (bit_vector)
                    requires
                        duration == #[verifier::truncate]
                        (duration_secs as u64),
                ;
                Some(SearchResult { name, artists, album, id, duration })
            },
            None => None,
        }
    }
}

/// Whether a line of `text` names `word`.
pub open spec fn some_line_has(text: Seq<char>, word: Seq<char>) -> bool {
    exists|i: int| 0 <= i < lines_of(text).len() && has_infix(#[trigger] lines_of(text)[i], word)
}

/// Whether the list of installed packages names `package`.
pub fn lists_package(listing: &str, package: &str) -> (r: bool)
    ensures
        r == some_line_has(listing@, package@),
{
    let all = lines(listing);
    let ghost views = all.deep_view();
    let mut i: usize = 0;
    while i < all.len()
        invariant
            views == all.deep_view(),
            views == lines_of(listing@),
            i <= all@.len(),
            forall|j: int| 0 <= j < i ==> !has_infix(#[trigger] views[j], package@),
        decreases all@.len() - i,
    {
        assert(views[i as int] == all@[i as int]@);
        if contains_text(all[i].as_str(), package) {
            return true;
        }
        i += 1;
    }
    false
}

/// What the lines that name `word` hold in the field `field` between the
/// occurrences of `sep`, put one after the other. A line that names `word`
/// but has no such field makes the whole meaningless.
pub open spec fn fields_of(
    all: Seq<Seq<char>>,
    word: Seq<char>,
    sep: char,
    field: int,
) -> Option<Seq<Seq<char>>>
    decreases all.len(),
{
    if all.len() == 0 {
        Some(Seq::empty())
    } else {
        match fields_of(all.drop_last(), word, sep, field) {
            None => None,
            Some(found) => if has_infix(all.last(), word) {
                if field < pieces(all.last(), sep).len() {
                    Some(found.push(pieces(all.last(), sep)[field]))
                } else {
                    None
                }
            } else {
                Some(found)
            },
        }
    }
}

/// What the lines of `text` that name `word` hold in the field `field`
/// between the occurrences of `sep`, in the order of the lines. `None` where
/// a line that names `word` has no such field.
pub fn fields(text: &str, word: &str, sep: char, field: usize) -> (r: Option<Vec<String>>)
    ensures
        r is Some <==> fields_of(lines_of(text@), word@, sep, field as int) is Some,
        r matches Some(found) ==> found.deep_view() == fields_of(
            lines_of(text@),
            word@,
            sep,
            field as int,
        )->0,
{
    let all = lines(text);
    let ghost views = all.deep_view();
    let mut found: Vec<String> = Vec::new();
    let mut i: usize = 0;
    assert(views.take(0) =~= Seq::<Seq<char>>::empty());
    assert(found.deep_view() =~= Seq::<Seq<char>>::empty());
    while i < all.len()
        invariant
            views == all.deep_view(),
            views == lines_of(text@),
            i <= all@.len(),
            fields_of(views.take(i as int), word@, sep, field as int) == Some(found.deep_view()),
        decreases all@.len() - i,
    {
        let ghost before = found.deep_view();
        proof {
            assert(views.take(i + 1).drop_last() =~= views.take(i as int));
            assert(views.take(i + 1).last() == all@[i as int]@);
        }
        if contains_text(all[i].as_str(), word) {
            let parts = split(all[i].as_str(), sep);
            if field < parts.len() {
                found.push(parts[field].clone());
                assert(found.deep_view() =~= before.push(parts.deep_view()[field as int]));
            } else {
                proof {
                    lemma_fields_fail(views, i + 1, word@, sep, field as int);
                }
                return None;
            }
        }
        i += 1;
    }
    assert(views.take(all@.len() as int) =~= views);
    Some(found)
}

/// Once the lines up to some line make no sense, all the lines make none.
proof fn lemma_fields_fail(all: Seq<Seq<char>>, n: int, word: Seq<char>, sep: char, field: int)
    requires
        0 <= n <= all.len(),
        fields_of(all.take(n), word, sep, field) is None,
    ensures
        fields_of(all, word, sep, field) is None,
    decreases all.len() - n,
{
    if n < all.len() {
        assert(all.take(n + 1).drop_last() =~= all.take(n));
        lemma_fields_fail(all, n + 1, word, sep, field);
    } else {
        assert(all.take(n) =~= all);
    }
}

/// The texts put one after the other.
pub open spec fn concat(texts: Seq<Seq<char>>) -> Seq<char>
    decreases texts.len(),
{
    if texts.len() == 0 {
        Seq::empty()
    } else {
        concat(texts.drop_last()) + texts.last()
    }
}

/// The texts put one after the other.
pub fn concat_all(texts: &Vec<String>) -> (r: String)
    ensures
        r@ == concat(texts.deep_view()),
{
    let ghost views = texts.deep_view();
    let mut r = String::new();
    let mut i: usize = 0;
    assert(views.take(0) =~= Seq::<Seq<char>>::empty());
    while i < texts.len()
        invariant
            views == texts.deep_view(),
            i <= texts@.len(),
            r@ == concat(views.take(i as int)),
        decreases texts@.len() - i,
    {
        proof {
            assert(views.take(i + 1).drop_last() =~= views.take(i as int));
            assert(views.take(i + 1).last() == texts@[i as int]@);
        }
        r.append(texts[i].as_str());
        i += 1;
    }
    assert(views.take(texts@.len() as int) =~= views);
    r
}

/// The credentials in the configuration of the downloader: the client id is
/// what the lines that name `client_id` hold between their third and fourth
/// double quote, the client secret what the lines that name `client_secret`
/// hold there. `None` where such a line has fewer double quotes.
pub fn get_creds(config: &str) -> (r: Option<(String, String)>)
    ensures
        r is Some <==> fields_of(lines_of(config@), "client_id"@, '"', 3) is Some && fields_of(
            lines_of(config@),
            "client_secret"@,
            '"',
            3,
        ) is Some,
        r matches Some(creds) ==> creds.0@ == concat(
            fields_of(lines_of(config@), "client_id"@, '"', 3)->0,
        ) && creds.1@ == concat(fields_of(lines_of(config@), "client_secret"@, '"', 3)->0),
{
    let ids = match fields(config, "client_id", '"', 3) {
        Some(found) => found,
        None => {
            return None;
        },
    };
    let secrets = match fields(config, "client_secret", '"', 3) {
        Some(found) => found,
        None => {
            return None;
        },
    };
    Some((concat_all(&ids), concat_all(&secrets)))
}

/// The directories that the description of the installed downloader names as
/// its location: the second word of each line that names `Location`, in the
/// order of the lines. `None` where such a line has no second word.
pub fn locations(description: &str) -> (r: Option<Vec<String>>)
    ensures
        r is Some <==> fields_of(lines_of(description@), "Location"@, ' ', 1) is Some,
        r matches Some(found) ==> found.deep_view() == fields_of(
            lines_of(description@),
            "Location"@,
            ' ',
            1,
        )->0,
{
    fields(description, "Location", ' ', 1)
}

} // verus!
