//! Converts a music library's playlists into `m3u` playlist files.
//!
//! The library holds the logic: the path model and the library-root
//! resolver, the file-URL codec, the track and playlist models and the
//! `m3u` rendering. Reading and writing files is left to the caller.
pub mod path_utils;
pub mod codec;
pub mod cli;
pub mod text;
pub mod track;
pub mod library_xml;
pub mod m3u;
pub mod track_record;
pub mod read_library_xml;
