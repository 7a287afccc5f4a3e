use rlist_index::index::{get_or_create_album, insert_or_update_track, Upsert};
use rlist_index::metadata::{AudioProbe, TagFields};
use rlist_index::model::TrackInsert;
use rlist_index::scan::{index_scanned_files, ScannedFile};
use rlist_index::store::Store;

fn record(path: &str, album: Option<&str>, artist: Option<&str>, art: Option<&str>) -> TrackInsert {
    TrackInsert {
        path: path.to_string(),
        title: Some("t".to_string()),
        artist: artist.map(|s| s.to_string()),
        album: album.map(|s| s.to_string()),
        track_number: None,
        duration: None,
        album_art: art.map(|s| s.to_string()),
        format: None,
        bitrate: None,
    }
}

#[test]
fn album_dedup_by_name_and_artist() {
    let mut store = Store::new();
    let name = "Abbey Road".to_string();
    let beatles = Some("The Beatles".to_string());
    let a = get_or_create_album(&mut store, &name, &beatles, &None);
    let b = get_or_create_album(&mut store, &name, &beatles, &None);
    let c = get_or_create_album(&mut store, &name, &None, &None);
    let d = get_or_create_album(&mut store, &name, &None, &None);
    assert_eq!(a, b);
    assert_ne!(a, c);
    assert_eq!(c, d);
    assert_eq!(store.albums.len(), 2);
}

#[test]
fn album_art_first_writer_wins() {
    let mut store = Store::new();
    insert_or_update_track(&mut store, &record("/1.mp3", Some("A"), None, None)).unwrap();
    insert_or_update_track(&mut store, &record("/2.mp3", Some("A"), None, Some("art1"))).unwrap();
    insert_or_update_track(&mut store, &record("/3.mp3", Some("A"), None, Some("art2"))).unwrap();
    assert_eq!(store.albums.len(), 1);
    assert_eq!(store.albums[0].art_data, Some("art1".to_string()));
}

#[test]
fn upsert_overwrites_fields_and_keeps_covers() {
    let mut store = Store::new();
    let first = insert_or_update_track(&mut store, &record("/1.mp3", Some("A"), Some("X"), None)).unwrap();
    assert_eq!(first, Upsert::Inserted(1));
    store.tracks[0].track_cover = Some("blob".to_string());
    let mut again = record("/1.mp3", None, Some("Z"), None);
    again.track_number = Some(4);
    let second = insert_or_update_track(&mut store, &again).unwrap();
    assert_eq!(second, Upsert::Updated(1));
    assert_eq!(store.tracks.len(), 1);
    let t = &store.tracks[0];
    assert_eq!(t.artist, Some("Z".to_string()));
    assert_eq!(t.album, None);
    assert_eq!(t.album_id, None);
    assert_eq!(t.track_number, Some(4));
    assert_eq!(t.track_cover, Some("blob".to_string()));
    assert_eq!(store.albums.len(), 1);
}

#[test]
fn track_without_album_gets_no_album() {
    let mut store = Store::new();
    insert_or_update_track(&mut store, &record("/1.mp3", Some("A"), Some("X"), None)).unwrap();
    insert_or_update_track(&mut store, &record("/2.mp3", None, Some("X"), None)).unwrap();
    assert_eq!(store.tracks[1].album_id, None);
    assert_eq!(store.tracks[1].track_number, None);
    assert_eq!(store.tracks[1].duration, None);
}

#[test]
fn upsert_fails_when_ids_run_out() {
    let mut store = Store::new();
    store.next_track_id = i64::MAX;
    let r = insert_or_update_track(&mut store, &record("/1.mp3", None, None, None));
    assert_eq!(r, Err("no track or album id is left to assign".to_string()));
    assert!(store.tracks.is_empty());
}

fn scenario_files() -> Vec<ScannedFile> {
    let probe = AudioProbe {
        duration_secs: 200,
        bitrate: Some(192),
        format: "Mpeg".to_string(),
        primary_tag: Some(TagFields {
            title: Some("Song".to_string()),
            artist: Some("X".to_string()),
            album: Some("Y".to_string()),
            track: None,
            pictures: vec![],
        }),
        first_tag: None,
    };
    vec![
        ScannedFile { path: "root/a.mp3".to_string(), probe: Ok(probe) },
        ScannedFile { path: "root/b.xyz".to_string(), probe: Err("unknown file type".to_string()) },
    ]
}

#[test]
fn end_to_end_scan() {
    let mut store = Store::new();
    let files = scenario_files();
    let r = index_scanned_files(&mut store, vec![], &files);
    assert_eq!(store.tracks.len(), 2);
    assert_eq!(store.albums.len(), 1);
    assert_eq!(store.albums[0].name, "Y");
    assert_eq!(store.albums[0].artist, Some("X".to_string()));
    let a = store.tracks.iter().find(|t| t.path == "root/a.mp3").unwrap();
    let b = store.tracks.iter().find(|t| t.path == "root/b.xyz").unwrap();
    assert_eq!(a.title, Some("Song".to_string()));
    assert_eq!(a.album_id, Some(store.albums[0].id));
    assert_eq!(b.title, Some("b".to_string()));
    assert_eq!(b.artist, None);
    assert_eq!(b.album, None);
    assert_eq!(b.album_id, None);
    assert_eq!(b.track_number, None);
    assert_eq!(b.duration, None);
    assert_eq!(r.tracks_added, 2);
    assert_eq!(r.errors.len(), 1);
    assert!(r.errors[0].contains("b.xyz"));
    assert_eq!(r.errors[0], "Failed to read audio file root/b.xyz: unknown file type");
}

#[test]
fn scan_twice_is_idempotent() {
    let mut store = Store::new();
    let files = scenario_files();
    let first = index_scanned_files(&mut store, vec!["walk error".to_string()], &files);
    assert_eq!(first.errors[0], "walk error");
    let ids: Vec<(i64, String)> = store.tracks.iter().map(|t| (t.id, t.path.clone())).collect();
    let albums: Vec<i64> = store.albums.iter().map(|a| a.id).collect();
    let second = index_scanned_files(&mut store, vec![], &files);
    assert_eq!(second.tracks_added, 0);
    assert_eq!(second.tracks_updated, 2);
    let ids2: Vec<(i64, String)> = store.tracks.iter().map(|t| (t.id, t.path.clone())).collect();
    let albums2: Vec<i64> = store.albums.iter().map(|a| a.id).collect();
    assert_eq!(ids, ids2);
    assert_eq!(albums, albums2);
}
