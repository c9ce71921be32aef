//! The settings that one conversion run works with.
use crate::path_utils::{parent_dir, parent_of};
use vstd::prelude::*;

verus! {

/// What the user asked for on the command line.
#[derive(Debug)]
pub struct PlaylisterArgs {
    /// The library file to read.
    pub path: String,
    /// The directory that the playlist files are written to.
    pub output_path: String,
    /// The root that replaces the library's root in every track location.
    pub music_path: Option<String>,
    pub verbose: u8,
    /// Render locations as `file://` URLs rather than plain paths.
    pub use_file_url: bool,
    /// Also convert the playlists that the media manager generates itself.
    pub include_default_playlists: bool,
}

impl PlaylisterArgs {
    /// Settings from what the user gave; the output directory defaults to
    /// the directory of the library file. `None` when no output directory is
    /// given and the library path has no parent.
    pub fn from_parts(
        path: String,
        music_path: Option<String>,
        output_path: Option<String>,
        verbose: u8,
        use_file_url: bool,
        include_default_playlists: bool,
    ) -> (r: Option<PlaylisterArgs>)
        ensures
            match output_path {
                Some(o) => r matches Some(a) && a.output_path == o,
                None => match parent_of(path@) {
                    Some(p) => r matches Some(a) && a.output_path@ == p,
                    None => r is None,
                },
            },
            r matches Some(a) ==> a.path == path && a.music_path == music_path && a.verbose
                == verbose && a.use_file_url == use_file_url && a.include_default_playlists
                == include_default_playlists,
    {
        let output_path = match output_path {
            Some(o) => o,
            None => match parent_dir(path.as_str()) {
                Some(p) => p,
                None => return None,
            },
        };
        Some(
            PlaylisterArgs {
                path,
                output_path,
                music_path,
                verbose,
                use_file_url,
                include_default_playlists,
            },
        )
    }
}

} // verus!
