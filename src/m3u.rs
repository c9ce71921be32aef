//! Rendering of playlists in the `m3u` format, with each track's location
//! moved from the library's root to a target root.
use crate::cli::PlaylisterArgs;
use crate::codec::{file_url_of, path_to_file_url};
use crate::library_xml::{LibraryXMLData, Playlist, PlaylistItem};
use crate::path_utils::{join_path, joined_path, strip_dir_prefix, strip_path_prefix};
use crate::text::{decimal_of, digits, same_text};
use crate::track::Track;
use std::collections::HashMap;
use vstd::prelude::*;

verus! {

/// Whole seconds in `ms` milliseconds, rounded toward zero.
pub open spec fn seconds_of(ms: int) -> int {
    if ms >= 0 {
        ms / 1000
    } else {
        -((-ms) / 1000)
    }
}

/// The information line of a track.
pub open spec fn extinf_line(t: Track) -> Seq<char> {
    "#EXTINF:"@ + decimal_of(seconds_of(t.duration as int)) + ","@ + t.artist_of() + " - "@
        + t.name_of()
}

/// A track location moved from below the library root `prefix` to the
/// target root, if one is given; `None` when the location is not below
/// `prefix`.
pub open spec fn rewritten_location(
    loc: Seq<char>,
    prefix: Seq<char>,
    music_path: Option<String>,
) -> Option<Seq<char>> {
    match music_path {
        None => Some(loc),
        Some(m) => match strip_dir_prefix(loc, prefix) {
            Some(rest) => Some(joined_path(m@, rest)),
            None => None,
        },
    }
}

pub open spec fn rendered_location(p: Seq<char>, as_url: bool) -> Seq<char> {
    if as_url {
        file_url_of(p)
    } else {
        p
    }
}

/// The two lines of a track in a playlist file; `None` for a track without
/// location, or whose location cannot be moved to the target root.
pub open spec fn m3u_track_of(prefix: Seq<char>, args: PlaylisterArgs, t: Track) -> Option<
    Seq<char>,
> {
    match t.location {
        None => None,
        Some(loc) => match rewritten_location(loc@, prefix, args.music_path) {
            None => None,
            Some(p) => Some(extinf_line(t) + "\n"@ + rendered_location(p, args.use_file_url)),
        },
    }
}

/// The lines of one playlist reference; `None` when it names no track of
/// the table, or a track that is left out.
pub open spec fn item_lines(
    prefix: Seq<char>,
    args: PlaylisterArgs,
    tracks: Map<i32, Track>,
    item: PlaylistItem,
) -> Option<Seq<char>> {
    if tracks.contains_key(item.track_id) {
        m3u_track_of(prefix, args, tracks[item.track_id])
    } else {
        None
    }
}

/// The entries of a playlist's references that are kept, in their order.
pub open spec fn playlist_lines(
    prefix: Seq<char>,
    args: PlaylisterArgs,
    tracks: Map<i32, Track>,
    items: Seq<PlaylistItem>,
) -> Seq<Seq<char>>
    decreases items.len(),
{
    if items.len() == 0 {
        seq![]
    } else {
        let init = playlist_lines(prefix, args, tracks, items.drop_last());
        match item_lines(prefix, args, tracks, items.last()) {
            Some(l) => init.push(l),
            None => init,
        }
    }
}

/// Entries separated by newlines.
pub open spec fn join_lines(ls: Seq<Seq<char>>) -> Seq<char>
    decreases ls.len(),
{
    if ls.len() == 0 {
        seq![]
    } else if ls.len() == 1 {
        ls[0]
    } else {
        join_lines(ls.drop_last()) + seq!['\n'] + ls.last()
    }
}

/// A whole playlist file: the header, the name line and the entries.
pub open spec fn m3u_text(name: Seq<char>, lines: Seq<Seq<char>>) -> Seq<char> {
    "#EXTM3U\n#name="@ + name + "\n"@ + join_lines(lines)
}

pub open spec fn m3u_file_name(name: Seq<char>) -> Seq<char> {
    name + ".m3u"@
}

/// The whole seconds of a duration in milliseconds, in decimal.
fn seconds_text(ms: i32) -> (r: String)
    ensures
        r@ == decimal_of(seconds_of(ms as int)),
{
    let magnitude: u32 = if ms >= 0 {
        ms as u32
    } else {
        (-(ms as i64)) as u32
    };
    let secs = magnitude / 1000;
    let text = digits(secs as u64);
    if ms < 0 && secs > 0 {
        let mut s = String::from_str("-");
        proof {
            reveal_strlit("-");
        }
        s.append(text.as_str());
        s
    } else {
        text
    }
}

/// Renders one track as its information line and its location, moved to the
/// target root when one is given.
pub fn to_m3u_track(itunes_prefix: &str, args: &PlaylisterArgs, track: &Track) -> (r: Option<
    String,
>)
    ensures
        match r {
            Some(s) => m3u_track_of(itunes_prefix@, *args, *track) == Some(s@),
            None => m3u_track_of(itunes_prefix@, *args, *track) is None,
        },
{
    let name = track.get_name();
    let loc = match &track.location {
        Some(l) => l,
        None => return None,
    };
    let path: String = match &args.music_path {
        None => loc.clone(),
        Some(mpath) => match strip_path_prefix(loc.as_str(), itunes_prefix) {
            Some(rest) => join_path(mpath.as_str(), rest.as_str()),
            None => return None,
        },
    };
    let location = if args.use_file_url {
        path_to_file_url(path.as_str())
    } else {
        path
    };
    let mut line = String::from_str("#EXTINF:");
    let secs = seconds_text(track.duration);
    line.append(secs.as_str());
    line.append(",");
    line.append(track.get_artist());
    line.append(" - ");
    line.append(name);
    line.append("\n");
    line.append(location.as_str());
    Some(line)
}

/// Renders a playlist: its file name, and the text of the file with one
/// entry for each reference that resolves to a track that can be rendered,
/// in the playlist's order.
pub fn to_m3u_playlist(
    itunes_prefix: &str,
    args: &PlaylisterArgs,
    tracks: &HashMap<i32, Track>,
    playlist: &Playlist,
) -> (r: (String, String))
    ensures
        r.0@ == m3u_file_name(playlist.name@),
        r.1@ == m3u_text(
            playlist.name@,
            playlist_lines(itunes_prefix@, *args, tracks@, playlist.playlist_items@),
        ),
{
    let items = &playlist.playlist_items;
    let mut body = String::new();
    let mut count: usize = 0;
    let mut i: usize = 0;
    while i < items.len()
        invariant
            i <= items@.len(),
            body@ == join_lines(
                playlist_lines(itunes_prefix@, *args, tracks@, items@.subrange(0, i as int)),
            ),
            count == playlist_lines(
                itunes_prefix@,
                *args,
                tracks@,
                items@.subrange(0, i as int),
            ).len(),
            count <= i,
        decreases items@.len() - i,
    {
        let ghost before = playlist_lines(
            itunes_prefix@,
            *args,
            tracks@,
            items@.subrange(0, i as int),
        );
        let item = &items[i];
        proof {
            assert(items@.subrange(0, i + 1).drop_last() =~= items@.subrange(0, i as int));
            assert(items@.subrange(0, i + 1).last() == items@[i as int]);
        }
        match tracks.get(&item.track_id) {
            Some(t) => match to_m3u_track(itunes_prefix, args, t) {
                Some(line) => {
                    let ghost old_body = body@;
                    if count > 0 {
                        body.append("\n");
                        proof {
                            reveal_strlit("\n");
                        }
                    }
                    body.append(line.as_str());
                    proof {
                        assert(before.push(line@).drop_last() =~= before);
                    }
                    count = count + 1;
                },
                None => {},
            },
            None => {},
        }
        i = i + 1;
    }
    proof {
        assert(items@.subrange(0, items@.len() as int) =~= items@);
    }
    let mut file_name = playlist.name.clone();
    file_name.append(".m3u");
    let mut text = String::from_str("#EXTM3U\n#name=");
    text.append(playlist.name.as_str());
    text.append("\n");
    text.append(body.as_str());
    (file_name, text)
}

/// A reference to a track that has no location adds nothing to a playlist:
/// removing the reference leaves the entries, and their order, as they are.
pub proof fn lemma_missing_location_excluded(
    prefix: Seq<char>,
    args: PlaylisterArgs,
    tracks: Map<i32, Track>,
    items: Seq<PlaylistItem>,
    i: int,
)
    requires
        0 <= i < items.len(),
        tracks.contains_key(items[i].track_id),
        tracks[items[i].track_id].location is None,
    ensures
        playlist_lines(prefix, args, tracks, items) == playlist_lines(
            prefix,
            args,
            tracks,
            items.remove(i),
        ),
    decreases items.len(),
{
    if i == items.len() - 1 {
        assert(items.remove(i) =~= items.drop_last());
    } else {
        lemma_missing_location_excluded(prefix, args, tracks, items.drop_last(), i);
        assert(items.remove(i).drop_last() =~= items.drop_last().remove(i));
        assert(items.remove(i).last() == items.last());
    }
}

/// `name` is one of `names`.
pub open spec fn is_listed(name: Seq<char>, names: Seq<String>) -> bool {
    exists|j: int| 0 <= j < names.len() && names[j]@ == name
}

/// A playlist is converted unless it is one of the default playlists and
/// those were not asked for.
pub open spec fn converts_playlist(
    name: Seq<char>,
    args: PlaylisterArgs,
    default_lists: Seq<String>,
) -> bool {
    args.include_default_playlists || !is_listed(name, default_lists)
}

/// The files of all playlists that are converted, in the library's order.
pub open spec fn converted_files(
    prefix: Seq<char>,
    args: PlaylisterArgs,
    tracks: Map<i32, Track>,
    playlists: Seq<Playlist>,
    default_lists: Seq<String>,
) -> Seq<(Seq<char>, Seq<char>)>
    decreases playlists.len(),
{
    if playlists.len() == 0 {
        seq![]
    } else {
        let init = converted_files(prefix, args, tracks, playlists.drop_last(), default_lists);
        let p = playlists.last();
        if converts_playlist(p.name@, args, default_lists) {
            init.push(
                (
                    m3u_file_name(p.name@),
                    m3u_text(p.name@, playlist_lines(prefix, args, tracks, p.playlist_items@)),
                ),
            )
        } else {
            init
        }
    }
}

/// The playlists that the media manager generates itself.
pub fn default_playlists() -> (r: Vec<String>)
    ensures
        r@.len() == 3,
        r@[0]@ == "Downloaded"@,
        r@[1]@ == "Library"@,
        r@[2]@ == "Music"@,
{
    let mut r = Vec::new();
    r.push(String::from_str("Downloaded"));
    r.push(String::from_str("Library"));
    r.push(String::from_str("Music"));
    r
}

/// Whether `name` is one of `default_lists`.
pub fn is_default_playlist(name: &str, default_lists: &Vec<String>) -> (r: bool)
    ensures
        r == is_listed(name@, default_lists@),
{
    let mut j: usize = 0;
    while j < default_lists.len()
        invariant
            j <= default_lists@.len(),
            forall|k: int| 0 <= k < j ==> default_lists@[k]@ != name@,
        decreases default_lists@.len() - j,
    {
        if same_text(default_lists[j].as_str(), name) {
            return true;
        }
        j = j + 1;
    }
    false
}

/// Whether the playlist called `name` is converted.
pub fn should_convert(name: &str, args: &PlaylisterArgs, default_lists: &Vec<String>) -> (r: bool)
    ensures
        r == converts_playlist(name@, *args, default_lists@),
{
    args.include_default_playlists || !is_default_playlist(name, default_lists)
}

/// Renders every playlist of the library that is converted, in the
/// library's order, as a file name and the file's text.
pub fn convert_playlists(
    lib: &LibraryXMLData,
    itunes_prefix: &str,
    args: &PlaylisterArgs,
    default_lists: &Vec<String>,
) -> (r: Vec<(String, String)>)
    ensures
        r@.map_values(|f: (String, String)| (f.0@, f.1@)) == converted_files(
            itunes_prefix@,
            *args,
            lib.tracks@,
            lib.playlists@,
            default_lists@,
        ),
{
    let mut files: Vec<(String, String)> = Vec::new();
    let mut i: usize = 0;
    while i < lib.playlists.len()
        invariant
            i <= lib.playlists@.len(),
            files@.map_values(|f: (String, String)| (f.0@, f.1@)) == converted_files(
                itunes_prefix@,
                *args,
                lib.tracks@,
                lib.playlists@.subrange(0, i as int),
                default_lists@,
            ),
        decreases lib.playlists@.len() - i,
    {
        let playlist = &lib.playlists[i];
        proof {
            assert(lib.playlists@.subrange(0, i + 1).drop_last() =~= lib.playlists@.subrange(
                0,
                i as int,
            ));
        }
        if should_convert(playlist.name.as_str(), args, default_lists) {
            let file = to_m3u_playlist(itunes_prefix, args, &lib.tracks, playlist);
            let ghost old_files = files@;
            files.push(file);
            proof {
                assert(files@.map_values(|f: (String, String)| (f.0@, f.1@)) =~= old_files.map_values(
                    |f: (String, String)| (f.0@, f.1@),
                ).push((file.0@, file.1@)));
            }
        }
        i = i + 1;
    }
    proof {
        assert(lib.playlists@.subrange(0, lib.playlists@.len() as int) =~= lib.playlists@);
    }
    files
}

} // verus!
