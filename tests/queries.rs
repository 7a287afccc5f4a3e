use rlist_index::index::insert_or_update_track;
use rlist_index::model::TrackInsert;
use rlist_index::queries::{
    get_album_by_id, get_all_albums, get_all_artists, get_all_tracks, get_tracks_by_album, get_tracks_by_artist,
};
use rlist_index::store::Store;

fn record(path: &str, artist: Option<&str>, album: Option<&str>) -> TrackInsert {
    TrackInsert {
        path: path.to_string(),
        title: None,
        artist: artist.map(|s| s.to_string()),
        album: album.map(|s| s.to_string()),
        track_number: None,
        duration: None,
        album_art: None,
        format: None,
        bitrate: None,
    }
}

fn library() -> Store {
    let mut store = Store::new();
    for r in [
        record("/1", Some("X"), Some("Y")),
        record("/2", Some("X"), Some("Y")),
        record("/3", Some("X"), Some("Z")),
        record("/4", Some("W"), None),
        record("/5", None, Some("Y")),
    ] {
        insert_or_update_track(&mut store, &r).unwrap();
    }
    store
}

#[test]
fn artists_are_aggregated_from_tracks() {
    let store = library();
    let artists = get_all_artists(&store);
    assert_eq!(artists.len(), 2);
    assert_eq!(artists[0].name, "W");
    assert_eq!(artists[0].track_count, 1);
    assert_eq!(artists[0].album_count, 0);
    assert_eq!(artists[1].name, "X");
    assert_eq!(artists[1].track_count, 3);
    assert_eq!(artists[1].album_count, 2);
}

#[test]
fn tracks_by_album_and_artist() {
    let store = library();
    let y = get_tracks_by_album(&store, 1);
    assert_eq!(y.iter().map(|t| t.path.as_str()).collect::<Vec<_>>(), vec!["/1", "/2"]);
    let x = get_tracks_by_artist(&store, "X");
    assert_eq!(x.len(), 3);
    assert!(get_tracks_by_artist(&store, "nobody").is_empty());
    let album = get_album_by_id(&store, 3).unwrap();
    assert_eq!(album.name, "Y");
    assert_eq!(album.artist, None);
    assert!(get_album_by_id(&store, 9).is_none());
}

#[test]
fn albums_by_artist() {
    let store = library();
    let x = rlist_index::queries::get_albums_by_artist(&store, "X");
    let names: Vec<&str> = x.iter().map(|a| a.name.as_str()).collect();
    assert_eq!(names, vec!["Y", "Z"]);
    assert!(rlist_index::queries::get_albums_by_artist(&store, "W").is_empty());
}

fn numbered(path: &str, artist: &str, album: &str, number: Option<i32>, title: &str) -> TrackInsert {
    let mut r = record(path, Some(artist), Some(album));
    r.track_number = number;
    r.title = Some(title.to_string());
    r
}

#[test]
fn listings_are_sorted() {
    let mut store = Store::new();
    for r in [
        numbered("/1", "b", "B2", Some(2), "two"),
        numbered("/2", "b", "B2", None, "none"),
        numbered("/3", "b", "B1", Some(1), "one"),
        numbered("/4", "a", "A", Some(10), "ten"),
        numbered("/5", "b", "B2", Some(1), "zz"),
        numbered("/6", "b", "B2", Some(1), "aa"),
    ] {
        insert_or_update_track(&mut store, &r).unwrap();
    }
    let b2 = get_tracks_by_album(&store, 1);
    let paths: Vec<&str> = b2.iter().map(|t| t.path.as_str()).collect();
    assert_eq!(paths, vec!["/2", "/6", "/5", "/1"]);
    let by_b = get_tracks_by_artist(&store, "b");
    let paths: Vec<&str> = by_b.iter().map(|t| t.path.as_str()).collect();
    assert_eq!(paths, vec!["/3", "/2", "/6", "/5", "/1"]);
    let all = get_all_tracks(&store);
    assert_eq!(all[0].path, "/4");
    assert_eq!(all.len(), 6);
    let artists = get_all_artists(&store);
    assert_eq!(artists[0].name, "a");
    assert_eq!(artists[1].name, "b");
    let albums: Vec<String> = get_all_albums(&store).into_iter().map(|a| a.name).collect();
    assert_eq!(albums, vec!["A".to_string(), "B1".to_string(), "B2".to_string()]);
    let b_albums: Vec<String> = rlist_index::queries::get_albums_by_artist(&store, "b")
        .into_iter()
        .map(|a| a.name)
        .collect();
    assert_eq!(b_albums, vec!["B1".to_string(), "B2".to_string()]);
}

#[test]
fn albums_without_artist_come_first() {
    let mut store = Store::new();
    insert_or_update_track(&mut store, &record("/1", Some("X"), Some("A"))).unwrap();
    insert_or_update_track(&mut store, &record("/2", None, Some("Z"))).unwrap();
    let albums: Vec<String> = get_all_albums(&store).into_iter().map(|a| a.name).collect();
    assert_eq!(albums, vec!["Z".to_string(), "A".to_string()]);
}
