//! Extraction of tracks and playlists from the library's key/value form.
use crate::cli::PlaylisterArgs;
use crate::codec::{file_url_to_path, nfc_of, normalize, path_of_file_url};
use crate::m3u::{converts_playlist, should_convert};
use crate::text::{decimal_of, decimal_text, same_text};
use crate::track_record::{TrackFields, TrackRecord};
use vstd::prelude::*;

verus! {

/// A value of the library's key/value form. Values of kinds that nothing
/// here reads (reals, dates, data, identifiers) are `Other`.
#[derive(Debug)]
pub enum PlistValue {
    Array(Vec<PlistValue>),
    Dictionary(Dictionary),
    Boolean(bool),
    Integer(i64),
    String(String),
    Other,
}

/// Keyed values; a key names its first entry.
#[derive(Debug)]
pub struct Dictionary {
    pub entries: Vec<(String, PlistValue)>,
}

/// Why a track could not be extracted.
#[derive(Debug, Clone, Copy, PartialEq, Eq)]
pub enum TrackDataError {
    MissingTrackId,
    NameNotString,
    MissingLocation,
    LocationNotString,
    /// The location is no `file://` URL that names a path.
    UndecodableLocation,
    /// The duration is present but no integer.
    TotalTimeNotInteger,
    AlbumNotString,
    ArtistNotString,
    AlbumArtistNotString,
    ComposerNotString,
}

/// Why a playlist could not be extracted.
#[derive(Debug, Clone, Copy, PartialEq, Eq)]
pub enum PlaylistDataError {
    MissingItems,
    ItemsNotArray,
    MissingName,
    NameNotString,
}

/// Why the playlists could not be extracted.
#[derive(Debug, Clone, Copy, PartialEq, Eq)]
pub enum LibraryDataError {
    MissingTracks,
    TracksNotDictionary,
    MissingPlaylists,
    PlaylistsNotArray,
    PlaylistNotDictionary,
    Playlist(PlaylistDataError),
}

/// The value of the first entry under `key`.
pub open spec fn lookup(entries: Seq<(String, PlistValue)>, key: Seq<char>) -> Option<PlistValue>
    decreases entries.len(),
{
    if entries.len() == 0 {
        None
    } else if entries[0].0@ == key {
        Some(entries[0].1)
    } else {
        lookup(entries.drop_first(), key)
    }
}

/// An optional text field is absent or holds a string.
pub open spec fn is_text_or_absent(v: Option<PlistValue>) -> bool {
    match v {
        None => true,
        Some(PlistValue::String(_)) => true,
        Some(_) => false,
    }
}

/// The string a field holds, or `default`.
pub open spec fn text_or(v: Option<PlistValue>, default: Seq<char>) -> Seq<char> {
    match v {
        Some(PlistValue::String(s)) => s@,
        _ => default,
    }
}

pub open spec fn integer_or_zero(v: Option<PlistValue>) -> i64 {
    match v {
        Some(PlistValue::Integer(n)) => n,
        _ => 0,
    }
}

/// The first check that a track's entries fail, in the order they are made.
pub open spec fn track_data_error(d: Seq<(String, PlistValue)>) -> Option<TrackDataError> {
    let location = lookup(d, "Location"@);
    let total = lookup(d, "Total Time"@);
    if lookup(d, "Track ID"@) is None {
        Some(TrackDataError::MissingTrackId)
    } else if !is_text_or_absent(lookup(d, "Name"@)) {
        Some(TrackDataError::NameNotString)
    } else if location is None {
        Some(TrackDataError::MissingLocation)
    } else if !(location matches Some(PlistValue::String(_))) {
        Some(TrackDataError::LocationNotString)
    } else if path_of_file_url(text_or(location, seq![])) is None {
        Some(TrackDataError::UndecodableLocation)
    } else if total is Some && !(total matches Some(PlistValue::Integer(_))) {
        Some(TrackDataError::TotalTimeNotInteger)
    } else if !is_text_or_absent(lookup(d, "Album"@)) {
        Some(TrackDataError::AlbumNotString)
    } else if !is_text_or_absent(lookup(d, "Artist"@)) {
        Some(TrackDataError::ArtistNotString)
    } else if !is_text_or_absent(lookup(d, "Album Artist"@)) {
        Some(TrackDataError::AlbumArtistNotString)
    } else if !is_text_or_absent(lookup(d, "Composer"@)) {
        Some(TrackDataError::ComposerNotString)
    } else {
        None
    }
}

/// The record of a track whose entries pass every check: text in
/// Normalization Form C, a missing name read as `Untitled`, other missing
/// text as empty and a missing duration as 0.
pub open spec fn track_fields_of(d: Seq<(String, PlistValue)>) -> TrackFields {
    TrackFields {
        location: match path_of_file_url(text_or(lookup(d, "Location"@), seq![])) {
            Some(p) => p,
            None => seq![],
        },
        duration_ms: integer_or_zero(lookup(d, "Total Time"@)),
        album: nfc_of(text_or(lookup(d, "Album"@), ""@)),
        name: nfc_of(text_or(lookup(d, "Name"@), "Untitled"@)),
        artist: nfc_of(text_or(lookup(d, "Artist"@), ""@)),
        album_artist: nfc_of(text_or(lookup(d, "Album Artist"@), ""@)),
        composer: nfc_of(text_or(lookup(d, "Composer"@), ""@)),
    }
}

/// Every text field of a record is in Normalization Form C.
pub open spec fn is_normalized(f: TrackFields) -> bool {
    &&& nfc_of(f.location) == f.location
    &&& nfc_of(f.album) == f.album
    &&& nfc_of(f.name) == f.name
    &&& nfc_of(f.artist) == f.artist
    &&& nfc_of(f.album_artist) == f.album_artist
    &&& nfc_of(f.composer) == f.composer
}

/// The value under `key`.
pub fn dict_get<'a>(d: &'a Dictionary, key: &str) -> (r: Option<&'a PlistValue>)
    ensures
        match r {
            Some(v) => lookup(d.entries@, key@) == Some(*v),
            None => lookup(d.entries@, key@) is None,
        },
{
    let n = d.entries.len();
    let mut i: usize = 0;
    assert(d.entries@.subrange(0, n as int) =~= d.entries@);
    while i < n
        invariant
            n == d.entries@.len(),
            i <= n,
            lookup(d.entries@, key@) == lookup(d.entries@.subrange(i as int, n as int), key@),
        decreases n - i,
    {
        proof {
            assert(d.entries@.subrange(i as int, n as int).drop_first() =~= d.entries@.subrange(
                i + 1,
                n as int,
            ));
        }
        if same_text(d.entries[i].0.as_str(), key) {
            return Some(&d.entries[i].1);
        }
        i = i + 1;
    }
    None
}

/// An optional text field in Normalization Form C, `default` when absent;
/// `None` when the field holds another kind of value.
fn text_field(d: &Dictionary, key: &str, default: &str) -> (r: Option<String>)
    ensures
        is_text_or_absent(lookup(d.entries@, key@)) == r is Some,
        r matches Some(s) ==> s@ == nfc_of(text_or(lookup(d.entries@, key@), default@)) && nfc_of(
            s@,
        ) == s@,
{
    match dict_get(d, key) {
        None => Some(normalize(default)),
        Some(PlistValue::String(s)) => Some(normalize(s.as_str())),
        Some(_) => None,
    }
}

/// Extracts the record of one track.
pub fn extract_track_data(track: &Dictionary) -> (r: Result<TrackRecord, TrackDataError>)
    ensures
        match r {
            Ok(t) => track_data_error(track.entries@) is None && t@ == track_fields_of(
                track.entries@,
            ) && is_normalized(t@),
            Err(e) => track_data_error(track.entries@) == Some(e),
        },
{
    if dict_get(track, "Track ID").is_none() {
        return Err(TrackDataError::MissingTrackId);
    }
    let name = match text_field(track, "Name", "Untitled") {
        Some(s) => s,
        None => return Err(TrackDataError::NameNotString),
    };
    let location = match dict_get(track, "Location") {
        None => return Err(TrackDataError::MissingLocation),
        Some(PlistValue::String(s)) => match file_url_to_path(s.as_str()) {
            Some(p) => p,
            None => return Err(TrackDataError::UndecodableLocation),
        },
        Some(_) => return Err(TrackDataError::LocationNotString),
    };
    let duration_ms = match dict_get(track, "Total Time") {
        None => 0,
        Some(PlistValue::Integer(n)) => *n,
        Some(_) => return Err(TrackDataError::TotalTimeNotInteger),
    };
    let album = match text_field(track, "Album", "") {
        Some(s) => s,
        None => return Err(TrackDataError::AlbumNotString),
    };
    let artist = match text_field(track, "Artist", "") {
        Some(s) => s,
        None => return Err(TrackDataError::ArtistNotString),
    };
    let album_artist = match text_field(track, "Album Artist", "") {
        Some(s) => s,
        None => return Err(TrackDataError::AlbumArtistNotString),
    };
    let composer = match text_field(track, "Composer", "") {
        Some(s) => s,
        None => return Err(TrackDataError::ComposerNotString),
    };
    Ok(TrackRecord { location, duration_ms, album, name, artist, album_artist, composer })
}

/// A track is kept in a playlist only when it carries a location.
pub fn valid_track(track: &Dictionary) -> (r: bool)
    ensures
        r == lookup(track.entries@, "Location"@) is Some,
{
    dict_get(track, "Location").is_some()
}

/// `acc` in front of a successful result; an error stays as it is.
pub open spec fn prefixed<T, E>(acc: Seq<T>, r: Result<Seq<T>, E>) -> Result<Seq<T>, E> {
    match r {
        Ok(s) => Ok(acc + s),
        Err(e) => Err(e),
    }
}

/// The entries of the track that a playlist reference names, looked up
/// among `all` by the decimal form of its identifier; `None` when the
/// reference resolves to no track.
pub open spec fn resolve_item(all: Seq<(String, PlistValue)>, item: PlistValue) -> Option<
    Seq<(String, PlistValue)>,
> {
    match item {
        PlistValue::Dictionary(d) => match lookup(d.entries@, "Track ID"@) {
            Some(PlistValue::Integer(id)) => match lookup(all, decimal_of(id as int)) {
                Some(PlistValue::Dictionary(t)) => Some(t.entries@),
                _ => None,
            },
            _ => None,
        },
        _ => None,
    }
}

/// A track of a playlist is kept when it has a location and its record can
/// be extracted.
pub open spec fn is_kept_track(t: Seq<(String, PlistValue)>) -> bool {
    lookup(t, "Location"@) is Some && track_data_error(t) is None
}

/// The records of a playlist's references, in order. A reference that
/// resolves to no track, or to a track that is not kept, is left out.
pub open spec fn playlist_records(all: Seq<(String, PlistValue)>, items: Seq<PlistValue>) -> Seq<
    TrackFields,
>
    decreases items.len(),
{
    if items.len() == 0 {
        seq![]
    } else {
        let rest = playlist_records(all, items.drop_first());
        match resolve_item(all, items[0]) {
            Some(t) => if is_kept_track(t) {
                seq![track_fields_of(t)] + rest
            } else {
                rest
            },
            None => rest,
        }
    }
}

/// A playlist's name and records.
pub open spec fn playlist_data_of(
    all: Seq<(String, PlistValue)>,
    play: Seq<(String, PlistValue)>,
) -> Result<(Seq<char>, Seq<TrackFields>), PlaylistDataError> {
    match lookup(play, "Playlist Items"@) {
        None => Err(PlaylistDataError::MissingItems),
        Some(PlistValue::Array(items)) => match lookup(play, "Name"@) {
            None => Err(PlaylistDataError::MissingName),
            Some(PlistValue::String(n)) => Ok((n@, playlist_records(all, items@))),
            Some(_) => Err(PlaylistDataError::NameNotString),
        },
        Some(_) => Err(PlaylistDataError::ItemsNotArray),
    }
}

/// A playlist that is left out by name: one of the default playlists, when
/// those were not asked for.
pub open spec fn is_skipped_playlist(
    p: Seq<(String, PlistValue)>,
    args: PlaylisterArgs,
    default_lists: Seq<String>,
) -> bool {
    lookup(p, "Name"@) matches Some(PlistValue::String(n)) && !converts_playlist(
        n@,
        args,
        default_lists,
    )
}

/// The names and records of the playlists that are converted, in order.
/// The first playlist that fails decides the error.
pub open spec fn playlists_data(
    all: Seq<(String, PlistValue)>,
    ps: Seq<PlistValue>,
    args: PlaylisterArgs,
    default_lists: Seq<String>,
) -> Result<Seq<(Seq<char>, Seq<TrackFields>)>, LibraryDataError>
    decreases ps.len(),
{
    if ps.len() == 0 {
        Ok(seq![])
    } else {
        let rest = playlists_data(all, ps.drop_first(), args, default_lists);
        match ps[0] {
            PlistValue::Dictionary(p) => if is_skipped_playlist(p.entries@, args, default_lists) {
                rest
            } else {
                match playlist_data_of(all, p.entries@) {
                    Err(e) => Err(LibraryDataError::Playlist(e)),
                    Ok(x) => prefixed(seq![x], rest),
                }
            },
            _ => Err(LibraryDataError::PlaylistNotDictionary),
        }
    }
}

/// The playlists of a whole library document.
pub open spec fn library_data_of(
    xml: Seq<(String, PlistValue)>,
    args: PlaylisterArgs,
    default_lists: Seq<String>,
) -> Result<Seq<(Seq<char>, Seq<TrackFields>)>, LibraryDataError> {
    match lookup(xml, "Tracks"@) {
        None => Err(LibraryDataError::MissingTracks),
        Some(PlistValue::Dictionary(t)) => match lookup(xml, "Playlists"@) {
            None => Err(LibraryDataError::MissingPlaylists),
            Some(PlistValue::Array(ps)) => playlists_data(t.entries@, ps@, args, default_lists),
            Some(_) => Err(LibraryDataError::PlaylistsNotArray),
        },
        Some(_) => Err(LibraryDataError::TracksNotDictionary),
    }
}

pub open spec fn records_view(v: Seq<TrackRecord>) -> Seq<TrackFields> {
    v.map_values(|t: TrackRecord| t@)
}

pub open spec fn playlists_view(v: Seq<(String, Vec<TrackRecord>)>) -> Seq<
    (Seq<char>, Seq<TrackFields>),
> {
    v.map_values(|x: (String, Vec<TrackRecord>)| (x.0@, records_view(x.1@)))
}

fn resolve_playlist_item<'a>(all_tracks: &'a Dictionary, item: &PlistValue) -> (r: Option<
    &'a Dictionary,
>)
    ensures
        match r {
            Some(t) => resolve_item(all_tracks.entries@, *item) == Some(t.entries@),
            None => resolve_item(all_tracks.entries@, *item) is None,
        },
{
    let d = match item {
        PlistValue::Dictionary(d) => d,
        _ => return None,
    };
    let id = match dict_get(d, "Track ID") {
        Some(PlistValue::Integer(n)) => *n,
        _ => return None,
    };
    let key = decimal_text(id);
    match dict_get(all_tracks, key.as_str()) {
        Some(PlistValue::Dictionary(t)) => Some(t),
        _ => None,
    }
}

/// Extracts a playlist's name and the records of its tracks, in order,
/// resolving each reference against `all_tracks`. References that resolve to
/// no track, and tracks without a location or whose record cannot be
/// extracted, are left out.
pub fn extract_playlist_data(all_tracks: &Dictionary, play: &Dictionary) -> (r: Result<
    (String, Vec<TrackRecord>),
    PlaylistDataError,
>)
    ensures
        match r {
            Ok(x) => playlist_data_of(all_tracks.entries@, play.entries@) == Ok::<
                (Seq<char>, Seq<TrackFields>),
                PlaylistDataError,
            >((x.0@, records_view(x.1@))),
            Err(e) => playlist_data_of(all_tracks.entries@, play.entries@) == Err::<
                (Seq<char>, Seq<TrackFields>),
                PlaylistDataError,
            >(e),
        },
{
    let items = match dict_get(play, "Playlist Items") {
        None => return Err(PlaylistDataError::MissingItems),
        Some(PlistValue::Array(items)) => items,
        Some(_) => return Err(PlaylistDataError::ItemsNotArray),
    };
    let name = match dict_get(play, "Name") {
        None => return Err(PlaylistDataError::MissingName),
        Some(PlistValue::String(name)) => name.clone(),
        Some(_) => return Err(PlaylistDataError::NameNotString),
    };
    let ghost all = all_tracks.entries@;
    let mut trks: Vec<TrackRecord> = Vec::new();
    let n = items.len();
    let mut i: usize = 0;
    proof {
        assert(items@.subrange(0, n as int) =~= items@);
        assert(records_view(trks@) + playlist_records(all, items@) =~= playlist_records(
            all,
            items@,
        ));
    }
    while i < n
        invariant
            n == items@.len(),
            i <= n,
            all == all_tracks.entries@,
            playlist_records(all, items@) == records_view(trks@) + playlist_records(
                all,
                items@.subrange(i as int, n as int),
            ),
        decreases n - i,
    {
        let ghost rest = items@.subrange(i as int, n as int);
        let ghost next = items@.subrange(i + 1, n as int);
        let ghost old = records_view(trks@);
        proof {
            assert(rest[0] == items@[i as int]);
            assert(rest.drop_first() =~= next);
        }
        if let Some(track) = resolve_playlist_item(all_tracks, &items[i]) {
            if valid_track(track) {
                if let Ok(rec) = extract_track_data(track) {
                    trks.push(rec);
                    proof {
                        assert(records_view(trks@) =~= old.push(rec@));
                        assert(old + (seq![rec@] + playlist_records(all, next)) =~= old.push(rec@)
                            + playlist_records(all, next));
                    }
                }
            }
        }
        i = i + 1;
    }
    proof {
        assert(items@.subrange(n as int, n as int) =~= Seq::<PlistValue>::empty());
        assert(records_view(trks@) + Seq::<TrackFields>::empty() =~= records_view(trks@));
    }
    Ok((name, trks))
}

/// Extracts the name and track records of every playlist of the library
/// that is converted, in the library's order: the default playlists
/// (`default_lists`) only when `args` asks for them.
pub fn extract_playlists(
    xml_data: &Dictionary,
    args: &PlaylisterArgs,
    default_lists: &Vec<String>,
) -> (r: Result<Vec<(String, Vec<TrackRecord>)>, LibraryDataError>)
    ensures
        match r {
            Ok(v) => library_data_of(xml_data.entries@, *args, default_lists@) == Ok::<
                Seq<(Seq<char>, Seq<TrackFields>)>,
                LibraryDataError,
            >(playlists_view(v@)),
            Err(e) => library_data_of(xml_data.entries@, *args, default_lists@) == Err::<
                Seq<(Seq<char>, Seq<TrackFields>)>,
                LibraryDataError,
            >(e),
        },
{
    let tracks = match dict_get(xml_data, "Tracks") {
        None => return Err(LibraryDataError::MissingTracks),
        Some(PlistValue::Dictionary(t)) => t,
        Some(_) => return Err(LibraryDataError::TracksNotDictionary),
    };
    let ps = match dict_get(xml_data, "Playlists") {
        None => return Err(LibraryDataError::MissingPlaylists),
        Some(PlistValue::Array(ps)) => ps,
        Some(_) => return Err(LibraryDataError::PlaylistsNotArray),
    };
    let ghost all = tracks.entries@;
    let ghost a = *args;
    let ghost dl = default_lists@;
    let mut out: Vec<(String, Vec<TrackRecord>)> = Vec::new();
    let n = ps.len();
    let mut i: usize = 0;
    proof {
        assert(ps@.subrange(0, n as int) =~= ps@);
        match playlists_data(all, ps@, a, dl) {
            Ok(s) => assert(playlists_view(out@) + s =~= s),
            Err(_) => {},
        }
    }
    while i < n
        invariant
            n == ps@.len(),
            i <= n,
            all == tracks.entries@,
            a == *args,
            dl == default_lists@,
            lookup(xml_data.entries@, "Tracks"@) == Some(PlistValue::Dictionary(*tracks)),
            lookup(xml_data.entries@, "Playlists"@) == Some(PlistValue::Array(*ps)),
            playlists_data(all, ps@, a, dl) == prefixed(
                playlists_view(out@),
                playlists_data(all, ps@.subrange(i as int, n as int), a, dl),
            ),
        decreases n - i,
    {
        let ghost rest = ps@.subrange(i as int, n as int);
        let ghost next = ps@.subrange(i + 1, n as int);
        proof {
            assert(rest[0] == ps@[i as int]);
            assert(rest.drop_first() =~= next);
        }
        let play = match &ps[i] {
            PlistValue::Dictionary(p) => p,
            _ => return Err(LibraryDataError::PlaylistNotDictionary),
        };
        let skipped = match dict_get(play, "Name") {
            Some(PlistValue::String(name)) => !should_convert(name.as_str(), args, default_lists),
            _ => false,
        };
        if !skipped {
            match extract_playlist_data(tracks, play) {
                Ok(x) => {
                    let ghost old = playlists_view(out@);
                    let ghost xv = (x.0@, records_view(x.1@));
                    out.push(x);
                    proof {
                        assert(playlists_view(out@) =~= old.push(xv));
                        match playlists_data(all, next, a, dl) {
                            Ok(s) => assert(old + (seq![xv] + s) =~= old.push(xv) + s),
                            Err(_) => {},
                        }
                    }
                },
                Err(e) => return Err(LibraryDataError::Playlist(e)),
            }
        }
        i = i + 1;
    }
    proof {
        assert(ps@.subrange(n as int, n as int) =~= Seq::<PlistValue>::empty());
        assert(playlists_view(out@) + Seq::<(Seq<char>, Seq<TrackFields>)>::empty()
            =~= playlists_view(out@));
    }
    Ok(out)
}

} // verus!
