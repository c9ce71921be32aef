//! The flat track record of the library's key/value form, with every text
//! field present.
use crate::codec::{file_url_to_path, path_of_file_url, path_to_file_url};
use crate::m3u::rendered_location;
use crate::path_utils::{join_path, joined_path};
use vstd::prelude::*;

verus! {

/// The fields of a track record as values.
pub struct TrackFields {
    pub location: Seq<char>,
    pub duration_ms: i64,
    pub album: Seq<char>,
    pub name: Seq<char>,
    pub artist: Seq<char>,
    pub album_artist: Seq<char>,
    pub composer: Seq<char>,
}

/// A track with its location as a plain path; absent text fields are empty.
#[derive(Debug, Clone)]
pub struct TrackRecord {
    pub location: String,
    pub duration_ms: i64,
    pub album: String,
    pub name: String,
    pub artist: String,
    pub album_artist: String,
    pub composer: String,
}

impl View for TrackRecord {
    type V = TrackFields;

    open spec fn view(&self) -> TrackFields {
        TrackFields {
            location: self.location@,
            duration_ms: self.duration_ms,
            album: self.album@,
            name: self.name@,
            artist: self.artist@,
            album_artist: self.album_artist@,
            composer: self.composer@,
        }
    }
}

/// The older layout of a media library below a user's home directory, up to
/// and including the media folder.
pub const APPLE_PATH: &'static str =
    r"[\\/]Users[\\/][^\\/]+[\\/]Music[\\/](?:Music|iTunes)[\\/](?:iTunes(?: |%20)Media|Media\.localized)[\\/]";

/// `text` with every match of the regular expression `pattern` removed.
pub uninterp spec fn regex_removed(pattern: Seq<char>, text: Seq<char>) -> Seq<char>;

/// Relies on regex::Regex::new, which compiles `pattern` and fails only on
/// invalid syntax or a pattern over the size limit (neither holds of
/// `APPLE_PATH`), and Regex::replace_all, which removes every match.
#[verifier::external_body]
fn remove_matches(pattern: &str, text: &str) -> (r: Option<String>)
    requires
        pattern@ == APPLE_PATH@,
    ensures
        r is Some,
        r matches Some(s) ==> s@ == regex_removed(pattern@, text@),
{
    regex::Regex::new(pattern).ok().map(|re| re.replace_all(text, "").into_owned())
}

impl TrackRecord {
    /// A record whose location is given as a `file://` URL; `None` when the
    /// URL names no path.
    pub fn new(
        location: &str,
        duration_ms: i64,
        album: String,
        name: String,
        artist: String,
        album_artist: String,
        composer: String,
    ) -> (r: Option<TrackRecord>)
        ensures
            match path_of_file_url(location@) {
                None => r is None,
                Some(p) => r matches Some(t) && t@ == (TrackFields {
                    location: p,
                    duration_ms,
                    album: album@,
                    name: name@,
                    artist: artist@,
                    album_artist: album_artist@,
                    composer: composer@,
                }),
            },
    {
        match file_url_to_path(location) {
            Some(path) => Some(
                TrackRecord {
                    location: path,
                    duration_ms,
                    album,
                    name,
                    artist,
                    album_artist,
                    composer,
                },
            ),
            None => None,
        }
    }

    /// Moves the location from below the older library layout to below
    /// `new_path`, rendered as a `file://` URL when `use_file_url` is set.
    pub fn update_location(&mut self, new_path: &str, use_file_url: bool)
        ensures
            final(self)@ == (TrackFields {
                location: rendered_location(
                    joined_path(new_path@, regex_removed(APPLE_PATH@, old(self).location@)),
                    use_file_url,
                ),
                ..old(self)@
            }),
    {
        if let Some(stripped) = remove_matches(APPLE_PATH, self.location.as_str()) {
            let location = join_path(new_path, stripped.as_str());
            self.location = if use_file_url {
                path_to_file_url(location.as_str())
            } else {
                location
            };
        }
    }
}

} // verus!
