use rlist_index::metadata::{create_fallback_metadata, metadata_from_probe, AudioProbe, TagFields};
use rlist_index::lyrics::get_lrc_path;
use rlist_index::text::{decimal_string, get_filename_without_ext, parse_id};

#[test]
fn test_get_filename_without_ext() {
    assert_eq!(
        get_filename_without_ext("/music/song.flac"),
        Some("song".to_string())
    );
    assert_eq!(
        get_filename_without_ext("artist - track.mp3"),
        Some("artist - track".to_string())
    );
}

#[test]
fn filename_edge_cases() {
    assert_eq!(get_filename_without_ext("/music/"), Some("music".to_string()));
    assert_eq!(get_filename_without_ext("a/b/"), Some("b".to_string()));
    assert_eq!(get_filename_without_ext("foo.txt/."), Some("foo".to_string()));
    assert_eq!(get_filename_without_ext("a/./b.mp3//"), Some("b".to_string()));
    assert_eq!(get_filename_without_ext("/"), None);
    assert_eq!(get_filename_without_ext("."), None);
    assert_eq!(get_filename_without_ext("/."), None);
    assert_eq!(get_filename_without_ext("/music/.."), None);
    assert_eq!(get_filename_without_ext(".hidden"), Some(".hidden".to_string()));
    assert_eq!(get_filename_without_ext("a/b.tar.gz"), Some("b.tar".to_string()));
    assert_eq!(get_filename_without_ext("noext"), Some("noext".to_string()));
}

#[test]
fn fallback_on_unparseable_file() {
    let r = metadata_from_probe("/root/b.xyz", None);
    assert_eq!(r.path, "/root/b.xyz");
    assert_eq!(r.title, Some("b".to_string()));
    assert_eq!(r.artist, None);
    assert_eq!(r.album, None);
    assert_eq!(r.track_number, None);
    assert_eq!(r.duration, None);
    assert_eq!(r.bitrate, None);
    assert_eq!(r.format, None);
    assert_eq!(r.album_art, None);
    let f = create_fallback_metadata("/root/b.xyz");
    assert_eq!(f.title, Some("b".to_string()));
}

fn tags(title: Option<&str>, pictures: Vec<Vec<u8>>) -> TagFields {
    TagFields {
        title: title.map(|t| t.to_string()),
        artist: Some("X".to_string()),
        album: Some("Y".to_string()),
        track: Some(3),
        pictures,
    }
}

#[test]
fn record_from_tags_prefers_primary_and_encodes_first_picture() {
    let probe = AudioProbe {
        duration_secs: 215,
        bitrate: Some(320),
        format: "Mpeg".to_string(),
        primary_tag: Some(tags(Some("Song"), vec![b"hello".to_vec(), b"other".to_vec()])),
        first_tag: Some(tags(Some("Ignored"), vec![])),
    };
    let r = metadata_from_probe("/m/a.mp3", Some(&probe));
    assert_eq!(r.title, Some("Song".to_string()));
    assert_eq!(r.artist, Some("X".to_string()));
    assert_eq!(r.album, Some("Y".to_string()));
    assert_eq!(r.track_number, Some(3));
    assert_eq!(r.duration, Some(215));
    assert_eq!(r.bitrate, Some(320));
    assert_eq!(r.format, Some("Mpeg".to_string()));
    assert_eq!(r.album_art, Some("aGVsbG8=".to_string()));
}

#[test]
fn record_falls_back_to_first_tag_and_file_name() {
    let probe = AudioProbe {
        duration_secs: 5_000_000_000,
        bitrate: None,
        format: "Flac".to_string(),
        primary_tag: None,
        first_tag: Some(tags(None, vec![])),
    };
    let r = metadata_from_probe("/m/untitled.flac", Some(&probe));
    assert_eq!(r.title, Some("untitled".to_string()));
    assert_eq!(r.duration, Some(i32::MAX));
    assert_eq!(r.album_art, None);
    assert_eq!(r.bitrate, None);
}

#[test]
fn record_without_tags_keeps_properties() {
    let probe = AudioProbe {
        duration_secs: 61,
        bitrate: Some(128),
        format: "Wav".to_string(),
        primary_tag: None,
        first_tag: None,
    };
    let r = metadata_from_probe("/m/raw.wav", Some(&probe));
    assert_eq!(r.title, Some("raw".to_string()));
    assert_eq!(r.artist, None);
    assert_eq!(r.duration, Some(61));
    assert_eq!(r.bitrate, Some(128));
    assert_eq!(r.format, Some("Wav".to_string()));
}

#[test]
fn decimal_round_trip() {
    assert_eq!(decimal_string(0), "0");
    assert_eq!(decimal_string(1234567890), "1234567890");
    assert_eq!(parse_id("x42y", 1, 3), Some(42));
    assert_eq!(parse_id("0", 0, 1), None);
    assert_eq!(parse_id("9223372036854775807", 0, 19), Some(i64::MAX));
    assert_eq!(parse_id("9223372036854775808", 0, 19), None);
    assert_eq!(parse_id("", 0, 0), None);
}

#[test]
fn lyrics_path_beside_music_file() {
    assert_eq!(get_lrc_path("/music/song.flac"), "/music/song.lrc");
    assert_eq!(get_lrc_path("/music/noext"), "/music/noext.lrc");
    assert_eq!(get_lrc_path("a.b.mp3"), "a.b.lrc");
    assert_eq!(get_lrc_path("/music/.hidden"), "/music/.hidden.lrc");
    assert_eq!(get_lrc_path("/music/"), "/music.lrc");
    assert_eq!(get_lrc_path("a/b/"), "a/b.lrc");
    assert_eq!(get_lrc_path("foo.txt/."), "foo.lrc");
    assert_eq!(get_lrc_path("/"), "/");
}
