//! The engine of a resumable, parallel downloader of HLS streams: it reads
//! playlists, resolves addresses, binds keys, decides what a run has to
//! fetch and what follows each attempt, decrypts segments, measures
//! progress, and orders the files for the merge. It does no input or
//! output of its own; every function is specified and verified.
pub mod crypto;
pub mod download;
pub mod download_manager;
pub mod download_monitor;
pub mod hex;
pub mod key_tag;
pub mod manifest;
pub mod merge;
pub mod playlist;
pub mod scheduler;
pub mod segments;
pub mod text;
pub mod url;
