use playlister::read_library_xml::{
    dict_get, extract_playlist_data, extract_playlists, extract_track_data, valid_track, Dictionary,
    LibraryDataError, PlaylistDataError, PlistValue, TrackDataError,
};
use playlister::cli::PlaylisterArgs;
use playlister::m3u::default_playlists;
use playlister::track_record::{TrackRecord, APPLE_PATH};

fn settings(include_default_playlists: bool) -> PlaylisterArgs {
    PlaylisterArgs {
        path: String::from("/lib.xml"),
        output_path: String::from("/"),
        music_path: None,
        verbose: 0,
        use_file_url: false,
        include_default_playlists,
    }
}

fn text(s: &str) -> PlistValue {
    PlistValue::String(String::from(s))
}

fn dict(entries: Vec<(&str, PlistValue)>) -> Dictionary {
    Dictionary { entries: entries.into_iter().map(|(k, v)| (String::from(k), v)).collect() }
}

fn full_track(id: i64, location: &str) -> Dictionary {
    dict(vec![
        ("Track ID", PlistValue::Integer(id)),
        ("Name", text("Cafe\u{301}")),
        ("Location", text(location)),
        ("Total Time", PlistValue::Integer(215000)),
        ("Album", text("Live")),
        ("Artist", text("Band")),
        ("Album Artist", text("The Band")),
        ("Composer", text("Writer")),
    ])
}

#[test]
fn dictionary_lookup_takes_first_entry() {
    let d = dict(vec![("a", PlistValue::Integer(1)), ("b", PlistValue::Boolean(true)), ("a", PlistValue::Integer(2))]);
    assert!(matches!(dict_get(&d, "a"), Some(PlistValue::Integer(1))));
    assert!(matches!(dict_get(&d, "b"), Some(PlistValue::Boolean(true))));
    assert!(dict_get(&d, "c").is_none());
}

#[test]
fn track_record_is_extracted() {
    let rec = extract_track_data(&full_track(7, "file:///Users/me/Music/Music/Media.localized/My%20Song.mp3")).unwrap();
    assert_eq!(rec.location, "/Users/me/Music/Music/Media.localized/My Song.mp3");
    assert_eq!(rec.duration_ms, 215000);
    assert_eq!(rec.name, "Caf\u{e9}");
    assert_eq!(rec.album, "Live");
    assert_eq!(rec.artist, "Band");
    assert_eq!(rec.album_artist, "The Band");
    assert_eq!(rec.composer, "Writer");
}

#[test]
fn track_record_defaults() {
    let d = dict(vec![
        ("Track ID", PlistValue::Integer(1)),
        ("Location", text("file:///x.mp3")),
        ("Total Time", PlistValue::Integer(-5)),
    ]);
    let rec = extract_track_data(&d).unwrap();
    assert_eq!(rec.name, "Untitled");
    assert_eq!(rec.location, "/x.mp3");
    assert_eq!(rec.duration_ms, -5);
    assert_eq!(rec.album, "");
    assert_eq!(rec.artist, "");
    assert_eq!(rec.album_artist, "");
    assert_eq!(rec.composer, "");
}

#[test]
fn missing_duration_reads_as_zero() {
    let d = dict(vec![("Track ID", PlistValue::Integer(1)), ("Location", text("file:///x.mp3"))]);
    assert_eq!(extract_track_data(&d).unwrap().duration_ms, 0);
}

#[test]
fn track_record_errors() {
    let base = |skip: &str, replace: Option<(&str, PlistValue)>| {
        let mut entries: Vec<(String, PlistValue)> = full_track(1, "file:///a.mp3")
            .entries
            .into_iter()
            .filter(|(k, _)| k != skip)
            .collect();
        if let Some((k, v)) = replace {
            entries.insert(0, (String::from(k), v));
        }
        Dictionary { entries }
    };
    let err = |d: Dictionary| extract_track_data(&d).unwrap_err();
    assert_eq!(err(base("Track ID", None)), TrackDataError::MissingTrackId);
    assert_eq!(err(base("", Some(("Name", PlistValue::Integer(3))))), TrackDataError::NameNotString);
    assert_eq!(err(base("Location", None)), TrackDataError::MissingLocation);
    assert_eq!(err(base("", Some(("Location", PlistValue::Boolean(false))))), TrackDataError::LocationNotString);
    assert_eq!(err(base("", Some(("Location", text("http://a/b"))))), TrackDataError::UndecodableLocation);
    assert_eq!(err(base("", Some(("Location", text("file:///%C3"))))), TrackDataError::UndecodableLocation);
    assert_eq!(err(base("", Some(("Total Time", text("3"))))), TrackDataError::TotalTimeNotInteger);
    assert_eq!(err(base("", Some(("Album", PlistValue::Other)))), TrackDataError::AlbumNotString);
    assert_eq!(err(base("", Some(("Artist", PlistValue::Other)))), TrackDataError::ArtistNotString);
    assert_eq!(err(base("", Some(("Album Artist", PlistValue::Other)))), TrackDataError::AlbumArtistNotString);
    assert_eq!(err(base("", Some(("Composer", PlistValue::Other)))), TrackDataError::ComposerNotString);
}

#[test]
fn only_tracks_with_location_are_valid() {
    assert!(valid_track(&full_track(1, "file:///a")));
    assert!(!valid_track(&dict(vec![("Track ID", PlistValue::Integer(1))])));
}

fn library_doc() -> Dictionary {
    let tracks = dict(vec![
        ("1", PlistValue::Dictionary(full_track(1, "file:///m/one.mp3"))),
        ("2", PlistValue::Dictionary(dict(vec![("Track ID", PlistValue::Integer(2)), ("Name", text("no file"))]))),
        ("-3", PlistValue::Dictionary(full_track(-3, "file:///m/three.mp3"))),
        ("4", PlistValue::Dictionary(full_track(4, "http://elsewhere/four.mp3"))),
        ("5", text("not a track")),
    ]);
    let item = |id: i64| PlistValue::Dictionary(dict(vec![("Track ID", PlistValue::Integer(id))]));
    let playlists = vec![
        PlistValue::Dictionary(dict(vec![
            ("Name", text("Library")),
            ("Master", PlistValue::Boolean(true)),
            ("Playlist Items", PlistValue::Array(vec![item(1)])),
        ])),
        PlistValue::Dictionary(dict(vec![
            ("Name", text("Mix")),
            (
                "Playlist Items",
                PlistValue::Array(vec![
                    item(-3),
                    item(2),
                    item(8),
                    item(4),
                    item(5),
                    PlistValue::Integer(1),
                    PlistValue::Dictionary(dict(vec![("Track ID", text("1"))])),
                    item(1),
                ]),
            ),
        ])),
        PlistValue::Dictionary(dict(vec![
            ("Name", text("Purchased")),
            ("Distinguished Kind", PlistValue::Integer(4)),
            ("Playlist Items", PlistValue::Array(vec![])),
        ])),
    ];
    dict(vec![("Tracks", PlistValue::Dictionary(tracks)), ("Playlists", PlistValue::Array(playlists))])
}

#[test]
fn playlists_are_filtered_by_name() {
    let defaults = default_playlists();
    let lists = extract_playlists(&library_doc(), &settings(false), &defaults).unwrap();
    let names: Vec<&str> = lists.iter().map(|(n, _)| n.as_str()).collect();
    assert_eq!(names, vec!["Mix", "Purchased"]);
    let locations: Vec<&str> = lists[0].1.iter().map(|r| r.location.as_str()).collect();
    assert_eq!(locations, vec!["/m/three.mp3", "/m/one.mp3"]);

    let all = extract_playlists(&library_doc(), &settings(true), &defaults).unwrap();
    let names: Vec<&str> = all.iter().map(|(n, _)| n.as_str()).collect();
    assert_eq!(names, vec!["Library", "Mix", "Purchased"]);
    assert_eq!(all[0].1.len(), 1);
    assert_eq!(all[0].1[0].location, "/m/one.mp3");
}

#[test]
fn unresolvable_references_are_skipped() {
    let doc = library_doc();
    let tracks = match dict_get(&doc, "Tracks") {
        Some(PlistValue::Dictionary(t)) => t,
        _ => panic!("no tracks"),
    };
    let item = |id: i64| PlistValue::Dictionary(dict(vec![("Track ID", PlistValue::Integer(id))]));
    let with = dict(vec![("Name", text("P")), ("Playlist Items", PlistValue::Array(vec![item(1), item(99), item(-3)]))]);
    let without = dict(vec![("Name", text("P")), ("Playlist Items", PlistValue::Array(vec![item(1), item(-3)]))]);
    let a = extract_playlist_data(tracks, &with).unwrap();
    let b = extract_playlist_data(tracks, &without).unwrap();
    assert_eq!(a.0, b.0);
    let la: Vec<&str> = a.1.iter().map(|r| r.location.as_str()).collect();
    let lb: Vec<&str> = b.1.iter().map(|r| r.location.as_str()).collect();
    assert_eq!(la, vec!["/m/one.mp3", "/m/three.mp3"]);
    assert_eq!(la, lb);
}

#[test]
fn playlist_errors() {
    let tracks = dict(vec![]);
    let err = |p: Dictionary| extract_playlist_data(&tracks, &p).unwrap_err();
    assert_eq!(err(dict(vec![("Name", text("P"))])), PlaylistDataError::MissingItems);
    assert_eq!(err(dict(vec![("Playlist Items", text("x"))])), PlaylistDataError::ItemsNotArray);
    assert_eq!(err(dict(vec![("Playlist Items", PlistValue::Array(vec![]))])), PlaylistDataError::MissingName);
    assert_eq!(
        err(dict(vec![("Name", PlistValue::Integer(1)), ("Playlist Items", PlistValue::Array(vec![]))])),
        PlaylistDataError::NameNotString
    );
    let (name, recs) =
        extract_playlist_data(&tracks, &dict(vec![("Name", text("P")), ("Playlist Items", PlistValue::Array(vec![]))]))
            .unwrap();
    assert_eq!(name, "P");
    assert!(recs.is_empty());
}

#[test]
fn library_errors() {
    let defaults = default_playlists();
    let err = |d: Dictionary| extract_playlists(&d, &settings(false), &defaults).unwrap_err();
    assert_eq!(err(dict(vec![])), LibraryDataError::MissingTracks);
    assert_eq!(err(dict(vec![("Tracks", text("t"))])), LibraryDataError::TracksNotDictionary);
    assert_eq!(err(dict(vec![("Tracks", PlistValue::Dictionary(dict(vec![])))])), LibraryDataError::MissingPlaylists);
    assert_eq!(
        err(dict(vec![("Tracks", PlistValue::Dictionary(dict(vec![]))), ("Playlists", text("p"))])),
        LibraryDataError::PlaylistsNotArray
    );
    assert_eq!(
        err(dict(vec![
            ("Tracks", PlistValue::Dictionary(dict(vec![]))),
            ("Playlists", PlistValue::Array(vec![PlistValue::Integer(1)]))
        ])),
        LibraryDataError::PlaylistNotDictionary
    );
    assert_eq!(
        err(dict(vec![
            ("Tracks", PlistValue::Dictionary(dict(vec![]))),
            ("Playlists", PlistValue::Array(vec![PlistValue::Dictionary(dict(vec![]))]))
        ])),
        LibraryDataError::Playlist(PlaylistDataError::MissingItems)
    );
}

fn record(location: &str) -> TrackRecord {
    TrackRecord {
        location: String::from(location),
        duration_ms: 1,
        album: String::new(),
        name: String::from("n"),
        artist: String::new(),
        album_artist: String::new(),
        composer: String::new(),
    }
}

#[test]
fn record_from_file_url() {
    let rec = TrackRecord::new(
        "file:///Users/me/Music/a%20b.mp3",
        3000,
        String::from("al"),
        String::from("na"),
        String::from("ar"),
        String::from("aa"),
        String::from("co"),
    )
    .unwrap();
    assert_eq!(rec.location, "/Users/me/Music/a b.mp3");
    assert_eq!(rec.duration_ms, 3000);
    assert_eq!(rec.album, "al");
    assert_eq!(rec.composer, "co");
    assert!(TrackRecord::new("/plain/path", 0, String::new(), String::new(), String::new(), String::new(), String::new()).is_none());
}

#[test]
fn record_location_moves_below_new_root() {
    assert!(APPLE_PATH.contains("Media"));
    let mut rec = record("/Users/Bob/Music/Music/Media.localized/Artist/Song.mp3");
    rec.update_location("/mnt/device", false);
    assert_eq!(rec.location, "/mnt/device/Artist/Song.mp3");

    let mut rec = record("/Users/Bob/Music/Music/Media.localized/Artist/Song.mp3");
    rec.update_location("/mnt/device", true);
    assert_eq!(rec.location, "file:///mnt/device/Artist/Song.mp3");

    let mut rec = record("/Users/me/Music/iTunes/iTunes Media/The Artist/Song.mp3");
    rec.update_location("/mnt/sd", true);
    assert_eq!(rec.location, "file:///mnt/sd/The%20Artist/Song.mp3");

    // a location outside the layout is absolute and stays as it is
    let mut rec = record("/elsewhere/Song.mp3");
    rec.update_location("/mnt/sd", false);
    assert_eq!(rec.location, "/elsewhere/Song.mp3");
    assert_eq!(rec.name, "n");
}
