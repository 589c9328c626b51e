//! The numbers that the behaviour of the program is tuned with.

use vstd::prelude::*;

verus! {

/// The directory of the library, below the home directory of the user.
pub const MUSIC_DIR: &'static str = "mprs-tracks";

/// The staging directory for new tracks, below the directory of the library.
pub const NEWTRACKS_DIR: &'static str = "newtracks";

/// The file that holds the snapshot of the library, in its directory.
pub const CACHE_FILENAME: &'static str = ".trackdb";

/// The file through which the media player reports its status.
pub const MPV_STATUS_IPC_FILENAME: &'static str = ".mpv_status.txt";

/// The script that makes the media player report its status.
pub const MPV_LUASCRIPT_FILENAME: &'static str = "status_update.lua";

/// How long the player handler sleeps between two looks at the player, in
/// milliseconds.
pub const PLAYER_HANDLER_TIMEOUT_MS: u64 = 20;

/// How long the user interface waits before it draws again, in milliseconds.
pub const UI_SLEEP_DURATION_MS: u64 = 1000;

/// After how many seconds of a track "previous" starts the track again
/// instead of going back.
pub const PREV_SAME_TRACK_TIMEOUT_S: u64 = 3;

/// How long a key press is waited for, in milliseconds.
pub const KEY_INPUT_POLL_TIMEOUT_MS: u64 = 250;

/// How long a notification stays, in seconds.
pub const NOTIFICATION_TIMEOUT_S: u64 = 3;

/// How many results a search asks for.
pub const NUM_SEARCH_RESULTS: u32 = 10;

/// How many rows a jump over several rows passes.
pub const MULTIPLE_JUMP_DISTANCE: i32 = 20;

} // verus!
