//! The library as the media manager describes it: its tracks and playlists.
use crate::path_utils::{generate_itunes_prefix, is_marker_end, itunes_prefix_end, PrefixError};
use crate::track::Track;
use std::collections::HashMap;
use vstd::prelude::*;

verus! {

/// A reference from a playlist to a track of the library.
#[derive(Debug, Clone, Copy, PartialEq, Eq)]
pub struct PlaylistItem {
    pub track_id: i32,
}

/// A named, ordered list of track references; repeats are kept.
#[derive(Debug)]
pub struct Playlist {
    pub name: String,
    pub playlist_items: Vec<PlaylistItem>,
}

/// The tracks of the library by identifier, and its playlists in the order
/// the library declares them.
#[derive(Debug)]
pub struct LibraryXMLData {
    pub tracks: HashMap<i32, Track>,
    pub playlists: Vec<Playlist>,
}

/// Why the library root could not be found.
#[derive(Debug, Clone, Copy, PartialEq, Eq)]
pub enum LibraryError {
    /// The library has no playlist, or its first playlist is empty.
    NoFirstTrack,
    /// The first playlist's first track is not among the library's tracks.
    TrackNotFound,
    /// The first track has no location.
    NoLocation,
    /// The first track's location lies below no `Music` directory.
    Prefix(PrefixError),
}

impl LibraryError {
    pub fn message(&self) -> (r: String)
        ensures
            r@ == match self {
                LibraryError::NoFirstTrack => "Library has no first track"@,
                LibraryError::TrackNotFound => "Cannot find first track"@,
                LibraryError::NoLocation => "First track has no location"@,
                LibraryError::Prefix(_) => "Could not determine iTunes prefix from first track location"@,
            },
    {
        match self {
            LibraryError::NoFirstTrack => String::from_str("Library has no first track"),
            LibraryError::TrackNotFound => String::from_str("Cannot find first track"),
            LibraryError::NoLocation => String::from_str("First track has no location"),
            LibraryError::Prefix(e) => e.message(),
        }
    }
}

/// The track that the library root is read from: the first track of the
/// first playlist.
pub open spec fn first_track_id(lib: LibraryXMLData) -> Option<i32> {
    if lib.playlists@.len() > 0 && lib.playlists@[0].playlist_items@.len() > 0 {
        Some(lib.playlists@[0].playlist_items@[0].track_id)
    } else {
        None
    }
}

/// Finds the library root from the location of the first track of the first
/// playlist.
pub fn get_itunes_prefix<'a>(lib_xml: &'a LibraryXMLData) -> (r: Result<&'a str, LibraryError>)
    ensures
        match first_track_id(*lib_xml) {
            None => r == Err::<&str, LibraryError>(LibraryError::NoFirstTrack),
            Some(id) => if !lib_xml.tracks@.contains_key(id) {
                r == Err::<&str, LibraryError>(LibraryError::TrackNotFound)
            } else {
                match lib_xml.tracks@[id].location {
                    None => r == Err::<&str, LibraryError>(LibraryError::NoLocation),
                    Some(loc) => match r {
                        Ok(p) => exists|i: int|
                            itunes_prefix_end(loc@, i) && p@ == loc@.subrange(0, i),
                        Err(e) => e == LibraryError::Prefix(PrefixError) && forall|i: int|
                            !is_marker_end(loc@, i),
                    },
                }
            },
        },
{
    if lib_xml.playlists.len() == 0 || lib_xml.playlists[0].playlist_items.len() == 0 {
        return Err(LibraryError::NoFirstTrack);
    }
    let first_id = lib_xml.playlists[0].playlist_items[0].track_id;
    let first_track = match lib_xml.tracks.get(&first_id) {
        Some(t) => t,
        None => return Err(LibraryError::TrackNotFound),
    };
    let first_location = match &first_track.location {
        Some(l) => l,
        None => return Err(LibraryError::NoLocation),
    };
    match generate_itunes_prefix(first_location.as_str()) {
        Ok(p) => Ok(p),
        Err(e) => Err(LibraryError::Prefix(e)),
    }
}

} // verus!
