//! What the player handler decides: how the status that the media player
//! reports is read, and what the queue does when the user asks the player
//! for the next or the previous track.

use crate::consts::PREV_SAME_TRACK_TIMEOUT_S;
use crate::track_queue::QueueState;
use crate::track_queue::TrackQueue;
use crate::utils::parse_bool;
use vstd::prelude::*;

verus! {

/// What the media player reports: whether it is paused, and whether the user
/// has asked it for the next or for the previous track.
#[derive(Clone, Copy, Debug, PartialEq, Eq, Structural)]
pub struct PlayerStatus {
    pub paused: bool,
    pub next: bool,
    pub prev: bool,
}

/// The words of a text: what `str::split_whitespace` yields for it, the
/// pieces of the text between its white space.
pub uninterp spec fn whitespace_words(text: Seq<char>) -> Seq<Seq<char>>;

/// Calls `str::split_whitespace` and collects the words that it yields. The
/// words depend on the text alone.
#[verifier::external_body]
fn split_words(text: &str) -> (words: Vec<String>)
    ensures
        words.deep_view() == whitespace_words(text@),
{
    text.split_whitespace().map(|w| w.to_string()).collect()
}

/// The status that a report of three words or more states: the first three
/// words say, in this order, whether the player is paused, whether the next
/// track is asked for and whether the previous one is; each counts as said
/// if it is the word `true`. A report of fewer words states nothing.
pub open spec fn status_of(words: Seq<Seq<char>>) -> Option<PlayerStatus> {
    if words.len() >= 3 {
        Some(
            PlayerStatus {
                paused: words[0] == "true"@,
                next: words[1] == "true"@,
                prev: words[2] == "true"@,
            },
        )
    } else {
        None
    }
}

/// The status that the words of a report state.
pub fn status_from_words(words: &Vec<String>) -> (r: Option<PlayerStatus>)
    ensures
        r == status_of(words.deep_view()),
{
    if words.len() < 3 {
        return None;
    }
    Some(
        PlayerStatus {
            paused: parse_bool(words[0].as_str()),
            next: parse_bool(words[1].as_str()),
            prev: parse_bool(words[2].as_str()),
        },
    )
}

/// The status that a report of the media player states.
pub fn parse_status(contents: &str) -> (r: Option<PlayerStatus>)
    ensures
        r == status_of(whitespace_words(contents@)),
{
    let words = split_words(contents);
    status_from_words(&words)
}

/// Whether a report of the media player is news: it is not empty, and it is
/// not the report that was read before.
pub fn status_changed(contents: &String, previous: &String) -> (r: bool)
    ensures
        r == (contents@.len() > 0 && contents@ != previous@),
{
    !(*contents == *previous || contents.as_str().is_empty())
}

/// The queue after the user has asked the player for the next track, for the
/// previous track, or for both. The next track is taken first. "Previous"
/// goes back a track only early in a track: once the track has played for
/// longer than a few seconds it starts the same track again, and the queue
/// stays. A track that has just been started by "next" has not played yet.
pub open spec fn after_status(queue: QueueState, status: PlayerStatus, elapsed_secs: u64) -> QueueState {
    let advanced = if status.next {
        queue.after_next()
    } else {
        queue
    };
    let played = if status.next {
        0
    } else {
        elapsed_secs
    };
    if status.prev && played <= PREV_SAME_TRACK_TIMEOUT_S {
        advanced.after_prev()
    } else {
        advanced
    }
}

/// Lets the queue follow what the user has asked the player for, where
/// `elapsed_secs` is the time that the selected track has played. Returns
/// whether the selected track is to be started: it is whenever the next or
/// the previous track was asked for.
pub fn next_prev(queue: &mut TrackQueue, status: &PlayerStatus, elapsed_secs: u64) -> (play: bool)
    ensures
        final(queue)@ == after_status(old(queue)@, *status, elapsed_secs),
        play == (status.next || status.prev),
{
    let mut played = elapsed_secs;
    if status.next {
        queue.next_track();
        played = 0;
    }
    if status.prev {
        if played <= PREV_SAME_TRACK_TIMEOUT_S {
            queue.prev_track();
        }
    }
    status.next || status.prev
}

} // verus!
