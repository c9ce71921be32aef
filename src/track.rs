//! The track model: one media item of the library.
use vstd::prelude::*;
use vstd::string::*;

verus! {

/// Shown for a track that carries no title.
pub open spec fn untitled_track() -> Seq<char> {
    "Untitled Track"@
}

/// Shown for a track that names no artist, album artist or composer.
pub open spec fn unknown_artist() -> Seq<char> {
    "Unknown Artist"@
}

/// One media item. Text fields are kept in Unicode Normalization Form C.
#[derive(Debug)]
pub struct Track {
    pub name: Option<String>,
    /// The absolute path of the media file.
    pub location: Option<String>,
    /// The length of the track in milliseconds.
    pub duration: i32,
    pub album_artist: Option<String>,
    pub artist: Option<String>,
    pub composer: Option<String>,
}

/// A white-space character of Unicode.
pub open spec fn is_white_space(c: char) -> bool {
    ||| '\u{9}' <= c <= '\u{d}'
    ||| c == ' '
    ||| c == '\u{85}'
    ||| c == '\u{a0}'
    ||| c == '\u{1680}'
    ||| '\u{2000}' <= c <= '\u{200a}'
    ||| c == '\u{2028}'
    ||| c == '\u{2029}'
    ||| c == '\u{202f}'
    ||| c == '\u{205f}'
    ||| c == '\u{3000}'
}

/// Text with nothing but white space in it, the empty text included.
pub open spec fn is_blank(s: Seq<char>) -> bool {
    forall|k: int| 0 <= k < s.len() ==> is_white_space(#[trigger] s[k])
}

fn is_white_space_char(c: char) -> (r: bool)
    ensures
        r == is_white_space(c),
{
    ('\u{9}' <= c && c <= '\u{d}') || c == ' ' || c == '\u{85}' || c == '\u{a0}' || c
        == '\u{1680}' || ('\u{2000}' <= c && c <= '\u{200a}') || c == '\u{2028}' || c
        == '\u{2029}' || c == '\u{202f}' || c == '\u{205f}' || c == '\u{3000}'
}

fn blank(s: &str) -> (r: bool)
    ensures
        r == is_blank(s@),
{
    let n = s.unicode_len();
    let mut i: usize = 0;
    while i < n
        invariant
            n == s@.len(),
            i <= n,
            forall|k: int| 0 <= k < i ==> is_white_space(#[trigger] s@[k]),
        decreases n - i,
    {
        if !is_white_space_char(s.get_char(i)) {
            return false;
        }
        i = i + 1;
    }
    true
}

/// A field that holds text that is not empty.
pub open spec fn is_filled(f: Option<String>) -> bool {
    f matches Some(v) && v@.len() > 0
}

impl Track {
    /// The artist shown for the track: the first of the artist, the album
    /// artist and the composer that is present and not empty, else a fixed
    /// placeholder.
    pub open spec fn artist_of(&self) -> Seq<char> {
        if is_filled(self.artist) {
            self.artist->0@
        } else if is_filled(self.album_artist) {
            self.album_artist->0@
        } else if is_filled(self.composer) {
            self.composer->0@
        } else {
            unknown_artist()
        }
    }

    /// The title shown for the track: its name, else (absent or blank) a
    /// fixed placeholder.
    pub open spec fn name_of(&self) -> Seq<char> {
        match self.name {
            Some(n) => if is_blank(n@) {
                untitled_track()
            } else {
                n@
            },
            None => untitled_track(),
        }
    }

    pub fn get_artist(&self) -> (r: &str)
        ensures
            r@ == self.artist_of(),
    {
        if let Some(a) = &self.artist {
            if !a.as_str().is_empty() {
                return a.as_str();
            }
        }
        if let Some(a) = &self.album_artist {
            if !a.as_str().is_empty() {
                return a.as_str();
            }
        }
        if let Some(c) = &self.composer {
            if !c.as_str().is_empty() {
                return c.as_str();
            }
        }
        "Unknown Artist"
    }

    pub fn get_name(&self) -> (r: &str)
        ensures
            r@ == self.name_of(),
    {
        match &self.name {
            Some(n) => if blank(n.as_str()) {
                "Untitled Track"
            } else {
                n.as_str()
            },
            None => "Untitled Track",
        }
    }
}

} // verus!
