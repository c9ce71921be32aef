use std::collections::HashMap;

use playlister::cli::PlaylisterArgs;
use playlister::library_xml::{LibraryXMLData, Playlist, PlaylistItem};
use playlister::m3u::{
    convert_playlists, default_playlists, is_default_playlist, should_convert, to_m3u_playlist,
    to_m3u_track,
};
use playlister::track::Track;

fn song(name: &str, location: Option<&str>, duration: i32) -> Track {
    Track {
        name: Some(String::from(name)),
        location: location.map(String::from),
        duration,
        artist: Some(String::from("dude")),
        album_artist: None,
        composer: None,
    }
}

fn args(music_path: Option<&str>, use_file_url: bool, include_default_playlists: bool) -> PlaylisterArgs {
    PlaylisterArgs {
        music_path: music_path.map(String::from),
        verbose: 1,
        use_file_url,
        path: String::from("/some/path"),
        output_path: String::from("/whatever"),
        include_default_playlists,
    }
}

#[test]
fn test_to_m3u_track_basic() {
    let track = Track {
        name: Some(String::from("Favorite Song")),
        location: Some(String::from("/foo/bar")),
        duration: 3000,
        artist: Some(String::from("dude")),
        album_artist: None,
        composer: None,
    };

    let args = PlaylisterArgs {
        music_path: Some(String::from("/baz")),
        verbose: 1,
        use_file_url: false,
        path: String::from("/some/path"),
        output_path: String::from("/whatever"),
        include_default_playlists: false,
    };

    let prefix = "/foo";
    let result = to_m3u_track(prefix, &args, &track);
    assert_eq!(result, Some(String::from("#EXTINF:3,dude - Favorite Song\n/baz/bar")));
}

#[test]
fn test_to_m3u_track_file_url() {
    let track = Track {
        name: Some(String::from("Favorite Song")),
        location: Some(String::from("/foo/bar")),
        duration: 3000,
        artist: Some(String::from("dude")),
        album_artist: None,
        composer: None,
    };

    let args = PlaylisterArgs {
        music_path: Some(String::from("/baz")),
        verbose: 1,
        use_file_url: true,
        path: String::from("/some/path"),
        output_path: String::from("/whatever"),
        include_default_playlists: false,
    };

    let prefix = "/foo";
    let result = to_m3u_track(prefix, &args, &track);
    assert_eq!(result, Some(String::from("#EXTINF:3,dude - Favorite Song\nfile:///baz/bar")));
}

#[test]
fn test_to_m3u_track_no_location() {
    let track = Track {
        name: Some(String::from("Favorite Song")),
        location: None,
        duration: 3000,
        artist: Some(String::from("dude")),
        album_artist: None,
        composer: None,
    };

    let args = PlaylisterArgs {
        music_path: Some(String::from("/baz")),
        verbose: 1,
        use_file_url: true,
        path: String::from("/some/path"),
        output_path: String::from("/whatever"),
        include_default_playlists: false,
    };

    let prefix = "/foo";
    let result = to_m3u_track(prefix, &args, &track);
    assert_eq!(result, None);
}

#[test]
fn test_to_m3u_no_music_path() {
    let track = Track {
        name: Some(String::from("Favorite Song")),
        location: Some(String::from("/foo/bar")),
        duration: 3000,
        artist: Some(String::from("dude")),
        album_artist: None,
        composer: None,
    };

    let args = PlaylisterArgs {
        music_path: None,
        verbose: 1,
        use_file_url: true,
        path: String::from("/some/path"),
        output_path: String::from("/whatever"),
        include_default_playlists: false,
    };

    let prefix = "/foo";
    let result = to_m3u_track(prefix, &args, &track);
    assert_eq!(result, Some(String::from("#EXTINF:3,dude - Favorite Song\nfile:///foo/bar")));
}

#[test]
fn test_to_m3u_playlist() {
    let prefix = "/foo";
    let playlist = Playlist {
        name: String::from("foobar"),
        playlist_items: vec![PlaylistItem { track_id: 1 }, PlaylistItem { track_id: 2 }],
    };

    let args = PlaylisterArgs {
        music_path: Some(String::from("/baz")),
        verbose: 1,
        use_file_url: true,
        path: String::from("/some/path"),
        output_path: String::from("/whatever"),
        include_default_playlists: false,
    };

    let tracks = HashMap::from([
        (1, Track {
            name: Some(String::from("Favorite Song")),
            location: Some(String::from("/foo/bar")),
            duration: 3000,
            artist: Some(String::from("dude")),
            album_artist: None,
            composer: None,
        }),
        (2, Track {
            name: Some(String::from("Least Favorite Song")),
            location: None,
            duration: 3000,
            artist: Some(String::from("dude")),
            album_artist: None,
            composer: None,
        }),
    ]);

    let expected = String::from("#EXTM3U\n#name=foobar\n#EXTINF:3,dude - Favorite Song\nfile:///baz/bar");
    let result = to_m3u_playlist(prefix, &args, &tracks, &playlist);
    assert_eq!(result, (String::from("foobar.m3u"), expected));
}

#[test]
fn prefix_is_replaced_by_target_root() {
    let prefix = "/Users/Bob/Music/Music/Media.localized";
    let track = song("Song", Some("/Users/Bob/Music/Music/Media.localized/Artist/Song.mp3"), 61000);
    let plain = to_m3u_track(prefix, &args(Some("/mnt/device"), false, false), &track);
    assert_eq!(plain, Some(String::from("#EXTINF:61,dude - Song\n/mnt/device/Artist/Song.mp3")));
}

#[test]
fn target_root_rendered_as_file_url() {
    let prefix = "/Users/Bob/Music/Music/Media.localized";
    let track = song("Song", Some("/Users/Bob/Music/Music/Media.localized/Artist/Song.mp3"), 61000);
    let url = to_m3u_track(prefix, &args(Some("/mnt/device"), true, false), &track);
    assert_eq!(url, Some(String::from("#EXTINF:61,dude - Song\nfile:///mnt/device/Artist/Song.mp3")));

    let spaced = song("My Song", Some("/Users/Bob/Music/Music/Media.localized/The Artist/My Song (live).mp3"), 0);
    let url = to_m3u_track(prefix, &args(Some("/mnt/device"), true, false), &spaced);
    assert_eq!(
        url,
        Some(String::from(
            "#EXTINF:0,dude - My Song\nfile:///mnt/device/The%20Artist/My%20Song%20%28live%29.mp3"
        ))
    );
}

#[test]
fn location_outside_prefix_is_skipped() {
    let track = song("Song", Some("/Volumes/Other/Song.mp3"), 3000);
    assert_eq!(to_m3u_track("/foo", &args(Some("/baz"), false, false), &track), None);
    // a sibling whose name merely starts with the prefix is not below it
    let sibling = song("Song", Some("/foobar/Song.mp3"), 3000);
    assert_eq!(to_m3u_track("/foo", &args(Some("/baz"), false, false), &sibling), None);
}

#[test]
fn seconds_round_toward_zero() {
    let a = args(None, false, false);
    assert_eq!(to_m3u_track("/", &a, &song("t", Some("/x"), 999)), Some(String::from("#EXTINF:0,dude - t\n/x")));
    assert_eq!(to_m3u_track("/", &a, &song("t", Some("/x"), -1500)), Some(String::from("#EXTINF:-1,dude - t\n/x")));
    assert_eq!(
        to_m3u_track("/", &a, &song("t", Some("/x"), i32::MIN)),
        Some(String::from("#EXTINF:-2147483,dude - t\n/x"))
    );
    assert_eq!(
        to_m3u_track("/", &a, &song("t", Some("/x"), 1234567)),
        Some(String::from("#EXTINF:1234,dude - t\n/x"))
    );
}

#[test]
fn missing_locations_leave_order_of_others() {
    let tracks = HashMap::from([
        (1, song("one", Some("/foo/1.mp3"), 1000)),
        (2, song("two", None, 2000)),
        (3, song("three", Some("/foo/3.mp3"), 3000)),
    ]);
    let playlist = Playlist {
        name: String::from("mix"),
        playlist_items: vec![
            PlaylistItem { track_id: 3 },
            PlaylistItem { track_id: 2 },
            PlaylistItem { track_id: 9 },
            PlaylistItem { track_id: 1 },
            PlaylistItem { track_id: 3 },
        ],
    };
    let (_, text) = to_m3u_playlist("/foo", &args(Some("/m"), false, false), &tracks, &playlist);
    assert_eq!(
        text,
        "#EXTM3U\n#name=mix\n#EXTINF:3,dude - three\n/m/3.mp3\n#EXTINF:1,dude - one\n/m/1.mp3\n#EXTINF:3,dude - three\n/m/3.mp3"
    );
}

#[test]
fn empty_playlist_has_header_only() {
    let playlist = Playlist { name: String::from("empty"), playlist_items: vec![] };
    let result = to_m3u_playlist("/foo", &args(None, false, false), &HashMap::new(), &playlist);
    assert_eq!(result, (String::from("empty.m3u"), String::from("#EXTM3U\n#name=empty\n")));
}

#[test]
fn library_playlist_is_excluded_unless_asked_for() {
    let defaults = default_playlists();
    assert_eq!(defaults, vec![String::from("Downloaded"), String::from("Library"), String::from("Music")]);
    assert!(is_default_playlist("Library", &defaults));
    assert!(!is_default_playlist("Faves", &defaults));
    assert!(!should_convert("Library", &args(None, false, false), &defaults));
    assert!(should_convert("Library", &args(None, false, true), &defaults));
    assert!(should_convert("Faves", &args(None, false, false), &defaults));

    let lib = LibraryXMLData {
        tracks: HashMap::from([(1, song("one", Some("/foo/1.mp3"), 1000))]),
        playlists: vec![
            Playlist { name: String::from("Library"), playlist_items: vec![PlaylistItem { track_id: 1 }] },
            Playlist { name: String::from("Road"), playlist_items: vec![PlaylistItem { track_id: 1 }] },
        ],
    };
    let without = convert_playlists(&lib, "/foo", &args(None, false, false), &defaults);
    assert_eq!(without.len(), 1);
    assert_eq!(without[0].0, "Road.m3u");
    let with = convert_playlists(&lib, "/foo", &args(None, false, true), &defaults);
    assert_eq!(with.len(), 2);
    assert_eq!(with[0].0, "Library.m3u");
    assert_eq!(with[1].0, "Road.m3u");
}

#[test]
fn faves_end_to_end() {
    let prefix = "/Users/Bob/Music/Music";
    let lib = LibraryXMLData {
        tracks: HashMap::from([
            (10, song("Here", Some("/Users/Bob/Music/Music/Media.localized/A/Here.m4a"), 200000)),
            (11, song("Gone", None, 100000)),
        ]),
        playlists: vec![Playlist {
            name: String::from("Faves"),
            playlist_items: vec![PlaylistItem { track_id: 10 }, PlaylistItem { track_id: 11 }],
        }],
    };
    let files = convert_playlists(&lib, prefix, &args(Some("/sd"), false, false), &default_playlists());
    assert_eq!(
        files,
        vec![(
            String::from("Faves.m3u"),
            String::from("#EXTM3U\n#name=Faves\n#EXTINF:200,dude - Here\n/sd/Media.localized/A/Here.m4a")
        )]
    );
    assert_eq!(files[0].1.matches("#EXTINF").count(), 1);
}
