use rlist_index::covers::{
    clear_base64_covers, cover_id_from_path, get_batch_cover_paths, set_track_cover_path,
    sync_cover_paths_from_files,
};
use rlist_index::index::insert_or_update_track;
use rlist_index::migrate::{apply_cover_migration, plan_cover_migration, CoverTarget};
use rlist_index::model::{PlaylistTrack, Track, TrackInsert};
use rlist_index::playlist::add_track_to_playlist;
use rlist_index::store::Store;

fn record(path: &str, album: Option<&str>, art: Option<&str>) -> TrackInsert {
    TrackInsert {
        path: path.to_string(),
        title: None,
        artist: None,
        album: album.map(|s| s.to_string()),
        track_number: None,
        duration: None,
        album_art: art.map(|s| s.to_string()),
        format: None,
        bitrate: None,
    }
}

fn two_tracks() -> Store {
    let mut store = Store::new();
    insert_or_update_track(&mut store, &record("/m/1.mp3", Some("A"), Some("aGVsbG8="))).unwrap();
    insert_or_update_track(&mut store, &record("/m/2.mp3", None, None)).unwrap();
    store
}

#[test]
fn cover_ids_from_file_names() {
    assert_eq!(cover_id_from_path("/c/tracks/12.jpg"), Some(12));
    assert_eq!(cover_id_from_path("/c/tracks/7.JPEG"), Some(7));
    assert_eq!(cover_id_from_path("3.webp"), Some(3));
    assert_eq!(cover_id_from_path("/c/tracks/4.PnG"), Some(4));
    assert_eq!(cover_id_from_path("/c/tracks/0.png"), None);
    assert_eq!(cover_id_from_path("/c/tracks/-3.png"), None);
    assert_eq!(cover_id_from_path("/c/tracks/abc.jpg"), None);
    assert_eq!(cover_id_from_path("/c/tracks/5.gif"), None);
    assert_eq!(cover_id_from_path("/c/tracks/5"), None);
    assert_eq!(cover_id_from_path("/c/tracks/.jpg"), None);
    assert_eq!(cover_id_from_path("/c/tracks/99999999999999999999.jpg"), None);
}

#[test]
fn sync_ignores_unmatched_files() {
    let mut store = two_tracks();
    let r = sync_cover_paths_from_files(
        &mut store,
        &vec!["/c/tracks/999999.png".to_string(), "/c/tracks/notes.txt".to_string()],
        &vec![],
        vec![],
    );
    assert_eq!(r.tracks_migrated, 0);
    assert_eq!(r.total, 0);
    assert!(r.errors.is_empty());
    assert!(store.tracks.iter().all(|t| t.track_cover_path.is_none()));
}

#[test]
fn sync_sets_matching_paths() {
    let mut store = two_tracks();
    let r = sync_cover_paths_from_files(
        &mut store,
        &vec!["/c/tracks/2.PNG".to_string()],
        &vec!["/c/albums/1.jpg".to_string(), "/c/albums/8.jpg".to_string()],
        vec!["Failed to read albums directory".to_string()],
    );
    assert_eq!(r.tracks_migrated, 1);
    assert_eq!(r.albums_migrated, 1);
    assert_eq!(r.total, 2);
    assert_eq!(r.processed, 2);
    assert_eq!(r.errors.len(), 1);
    assert_eq!(store.tracks[1].track_cover_path, Some("/c/tracks/2.PNG".to_string()));
    assert_eq!(store.tracks[0].track_cover_path, None);
    assert_eq!(store.albums[0].art_path, Some("/c/albums/1.jpg".to_string()));
}

#[test]
fn migration_writes_then_skips() {
    let mut store = two_tracks();
    store.tracks[1].track_cover = Some("!!not base64!!".to_string());
    let jobs = plan_cover_migration(&store, "/c");
    assert_eq!(jobs.len(), 2);
    assert_eq!(jobs[0].target, CoverTarget::Track);
    assert_eq!(jobs[0].id, 2);
    assert_eq!(jobs[0].bytes, None);
    assert_eq!(jobs[1].target, CoverTarget::Album);
    assert_eq!(jobs[1].file_path, "/c/albums/1.jpg");
    assert_eq!(jobs[1].bytes, Some(b"hello".to_vec()));
    let outcomes = vec![None, None];
    let r = apply_cover_migration(&mut store, &jobs, &outcomes);
    assert_eq!(r.total, 3);
    assert_eq!(r.processed, 3);
    assert_eq!(r.tracks_migrated, 0);
    assert_eq!(r.albums_migrated, 1);
    assert_eq!(r.errors, vec!["Failed to decode the inline cover for /c/tracks/2.jpg".to_string()]);
    assert_eq!(store.albums[0].art_path, Some("/c/albums/1.jpg".to_string()));

    let again = plan_cover_migration(&store, "/c");
    assert!(again.iter().all(|j| j.bytes.is_none()));
    let r2 = apply_cover_migration(&mut store, &again, &vec![None; again.len()]);
    assert_eq!(r2.tracks_migrated + r2.albums_migrated, 0);
}

#[test]
fn migration_reports_write_failures() {
    let mut store = two_tracks();
    store.tracks[0].track_cover = Some("aGk=".to_string());
    let jobs = plan_cover_migration(&store, "/c");
    assert_eq!(jobs[0].file_path, "/c/tracks/1.jpg");
    assert_eq!(jobs[0].bytes, Some(b"hi".to_vec()));
    let r = apply_cover_migration(&mut store, &jobs, &vec![Some("disk full".to_string()), None]);
    assert_eq!(r.tracks_migrated, 0);
    assert_eq!(r.albums_migrated, 1);
    assert_eq!(r.errors, vec!["Failed to save cover /c/tracks/1.jpg: disk full".to_string()]);
    assert_eq!(store.tracks[0].track_cover_path, None);
    let retry = plan_cover_migration(&store, "/c");
    assert_eq!(retry.len(), 1);
}

#[test]
fn clearing_blobs_needs_a_path() {
    let mut store = two_tracks();
    store.tracks[0].track_cover = Some("x".to_string());
    store.tracks[1].track_cover = Some("y".to_string());
    set_track_cover_path(&mut store, 1, &"/c/tracks/1.jpg".to_string());
    let n = clear_base64_covers(&mut store);
    assert_eq!(n, 1);
    assert_eq!(store.tracks[0].track_cover, None);
    assert_eq!(store.tracks[1].track_cover, Some("y".to_string()));
    assert_eq!(store.albums[0].art_data, Some("aGVsbG8=".to_string()));
}

#[test]
fn batch_cover_paths() {
    let mut store = two_tracks();
    assert!(set_track_cover_path(&mut store, 2, &"/c/tracks/2.jpg".to_string()));
    assert!(!set_track_cover_path(&mut store, 42, &"/c/tracks/42.jpg".to_string()));
    let r = get_batch_cover_paths(&store, &vec![1, 2, 42]);
    assert_eq!(r, vec![(2, "/c/tracks/2.jpg".to_string())]);
}

#[test]
fn playlist_insert_dedup() {
    let mut store = two_tracks();
    add_track_to_playlist(&mut store, 1, 1).unwrap();
    add_track_to_playlist(&mut store, 1, 1).unwrap();
    assert_eq!(store.playlist_tracks.len(), 1);
    assert_eq!(store.playlist_tracks[0].position, 1);
    add_track_to_playlist(&mut store, 1, 2).unwrap();
    add_track_to_playlist(&mut store, 9, 2).unwrap();
    assert_eq!(store.playlist_tracks[1].position, 2);
    assert_eq!(store.playlist_tracks[2].position, 1);
}

#[test]
fn playlist_position_out_of_range() {
    let mut store = two_tracks();
    add_track_to_playlist(&mut store, 1, 1).unwrap();
    store.playlist_tracks[0].position = i32::MAX;
    assert!(add_track_to_playlist(&mut store, 1, 2).is_err());
    assert_eq!(store.playlist_tracks.len(), 1);
}

#[test]
fn orphaned_files_are_those_no_row_references() {
    let mut store = two_tracks();
    set_track_cover_path(&mut store, 1, &"/c/tracks/1.jpg".to_string());
    let files = vec![
        "/c/tracks/1.jpg".to_string(),
        "/c/tracks/2.jpg".to_string(),
        "/c/albums/1.jpg".to_string(),
    ];
    let r = rlist_index::covers::orphaned_cover_files(&store, &files);
    assert_eq!(r, vec!["/c/tracks/2.jpg".to_string(), "/c/albums/1.jpg".to_string()]);
}

fn row(id: i64, path: &str) -> Track {
    Track {
        id,
        path: path.to_string(),
        title: None,
        artist: None,
        album: None,
        track_number: None,
        duration: None,
        album_id: None,
        track_cover: None,
        track_cover_path: None,
    }
}

#[test]
fn store_from_rows_checks_invariants() {
    let mut store = Store::from_rows(vec![row(3, "/a"), row(7, "/b")], vec![], vec![], vec![]).unwrap();
    assert_eq!(store.next_track_id, 8);
    assert_eq!(store.next_album_id, 1);
    let r = insert_or_update_track(&mut store, &record("/c", None, None)).unwrap();
    assert_eq!(r, rlist_index::index::Upsert::Inserted(8));
    assert!(Store::from_rows(vec![row(3, "/a"), row(3, "/b")], vec![], vec![], vec![]).is_none());
    assert!(Store::from_rows(vec![row(3, "/a"), row(4, "/a")], vec![], vec![], vec![]).is_none());
    assert!(Store::from_rows(vec![row(0, "/a")], vec![], vec![], vec![]).is_none());
    let dup = PlaylistTrack { playlist_id: 1, track_id: 3, position: 1 };
    assert!(Store::from_rows(vec![row(3, "/a")], vec![], vec![], vec![dup, dup]).is_none());
}
