//! A local music manager: the track library and the playback queue, with
//! what the program around them decides.
//!
//! The track library ([`db`]) keeps the metadata of every track and files
//! each track in buckets by playlist, artist and album ([`buckets`]). What a
//! library is, and what each operation does to it, is stated over a
//! mathematical model ([`library`]); every operation is proved to keep the
//! buckets in agreement with the records. A library is written to disk as a
//! snapshot and read back only if the snapshot is a library ([`snapshot`]).
//!
//! The playback queue ([`track_queue`]) decides which track plays next or
//! previous: tracks asked for explicitly come first, then the regular
//! rotation, which repeats when it has run out.
//!
//! The rest is what the user interface and the helpers of the program
//! compute: the state behind the window ([`state`]), the reports of the media
//! player ([`mpv`]), the answers of the search and download tools
//! ([`spotdl`], [`ytdlp`]), and the texts that are shown ([`utils`],
//! [`text`]). Nothing here reads or writes a file or starts a process.

pub mod buckets;
pub mod config;
pub mod consts;
pub mod db;
pub mod library;
pub mod mpv;
pub mod snapshot;
pub mod spotdl;
pub mod state;
pub mod text;
pub mod track_queue;
pub mod utils;
pub mod ytdlp;
