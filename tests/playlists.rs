use rlist_index::index::insert_or_update_track;
use rlist_index::model::{Playlist, PlaylistTrack, Track, TrackInsert};
use rlist_index::playlist::{
    add_track_to_playlist, create_playlist, delete_playlist, get_all_playlists, get_playlist_tracks,
    remove_track_from_playlist, rename_playlist,
};
use rlist_index::store::Store;

fn record(path: &str) -> TrackInsert {
    TrackInsert {
        path: path.to_string(),
        title: None,
        artist: None,
        album: None,
        track_number: None,
        duration: None,
        album_art: None,
        format: None,
        bitrate: None,
    }
}

#[test]
fn playlist_lifecycle() {
    let mut store = Store::new();
    for p in ["/a", "/b", "/c"] {
        insert_or_update_track(&mut store, &record(p)).unwrap();
    }
    let mix = create_playlist(&mut store, "Mix").unwrap();
    let other = create_playlist(&mut store, "Other").unwrap();
    assert_eq!((mix, other), (1, 2));
    add_track_to_playlist(&mut store, mix, 3).unwrap();
    add_track_to_playlist(&mut store, mix, 1).unwrap();
    add_track_to_playlist(&mut store, mix, 42).unwrap();
    let paths: Vec<String> = get_playlist_tracks(&store, mix).into_iter().map(|t| t.path).collect();
    assert_eq!(paths, vec!["/c".to_string(), "/a".to_string()]);
    assert!(remove_track_from_playlist(&mut store, mix, 3));
    assert!(!remove_track_from_playlist(&mut store, mix, 3));
    assert_eq!(store.playlist_tracks.len(), 2);
    assert_eq!(store.playlist_tracks[0].position, 2);
    assert!(rename_playlist(&mut store, other, "Renamed"));
    assert!(!rename_playlist(&mut store, 9, "Nothing"));
    let names: Vec<String> = get_all_playlists(&store).into_iter().map(|p: Playlist| p.name).collect();
    assert_eq!(names, vec!["Mix".to_string(), "Renamed".to_string()]);
    assert!(delete_playlist(&mut store, mix));
    assert!(!delete_playlist(&mut store, mix));
    assert_eq!(store.playlists.len(), 1);
    assert_eq!(store.playlist_tracks.len(), 2);
}

#[test]
fn playlist_ids_run_out() {
    let mut store = Store::new();
    store.next_playlist_id = i64::MAX;
    assert!(create_playlist(&mut store, "x").is_err());
    assert!(store.playlists.is_empty());
}

fn row(id: i64, path: &str) -> Track {
    Track {
        id,
        path: path.to_string(),
        title: None,
        artist: None,
        album: None,
        track_number: None,
        duration: None,
        album_id: None,
        track_cover: None,
        track_cover_path: None,
    }
}

#[test]
fn playlist_tracks_follow_positions() {
    let members = vec![
        PlaylistTrack { playlist_id: 1, track_id: 1, position: 3 },
        PlaylistTrack { playlist_id: 1, track_id: 2, position: 1 },
        PlaylistTrack { playlist_id: 2, track_id: 1, position: 1 },
        PlaylistTrack { playlist_id: 1, track_id: 3, position: 2 },
    ];
    let store = Store::from_rows(vec![row(1, "/a"), row(2, "/b"), row(3, "/c")], vec![], vec![], members).unwrap();
    let paths: Vec<String> = get_playlist_tracks(&store, 1).into_iter().map(|t| t.path).collect();
    assert_eq!(paths, vec!["/b".to_string(), "/c".to_string(), "/a".to_string()]);
}

#[test]
fn playlists_sorted_by_name() {
    let mut store = Store::new();
    create_playlist(&mut store, "b").unwrap();
    create_playlist(&mut store, "a").unwrap();
    create_playlist(&mut store, "B").unwrap();
    let names: Vec<String> = get_all_playlists(&store).into_iter().map(|p| p.name).collect();
    assert_eq!(names, vec!["B".to_string(), "a".to_string(), "b".to_string()]);
}
