use vstd::prelude::*;

use crate::model::{clone_opt, same_opt, Album, AlbumView, Track, TrackInsert, TrackInsertView, TrackView};
use crate::model::opt_view;
use crate::store::{album_matches, albums_wf, view_albums, view_tracks, Store, StoreView};

verus! {

/// Merge policy for album art: a value already present is never replaced.
pub open spec fn first_writer_wins(existing: Option<Seq<char>>, offered: Option<Seq<char>>) -> Option<Seq<char>> {
    if existing is Some {
        existing
    } else {
        offered
    }
}

/// Merge policy for track fields: the latest scan's value replaces the stored one.
pub open spec fn last_writer_wins<T>(existing: T, offered: T) -> T {
    offered
}

/// The position of the album with key (name, artist), if there is one.
pub open spec fn album_index(als: Seq<AlbumView>, name: Seq<char>, artist: Option<Seq<char>>) -> Option<int> {
    if exists|i: int| 0 <= i < als.len() && album_matches(als[i], name, artist) {
        Some(choose|i: int| 0 <= i < als.len() && album_matches(als[i], name, artist))
    } else {
        None
    }
}

/// The position of the track at `path`, if there is one.
pub open spec fn track_index(ts: Seq<TrackView>, path: Seq<char>) -> Option<int> {
    if exists|i: int| 0 <= i < ts.len() && ts[i].path == path {
        Some(choose|i: int| 0 <= i < ts.len() && ts[i].path == path)
    } else {
        None
    }
}

/// Get-or-create of the album (name, artist): the store after it, and the
/// album's id. An existing album takes the offered art only if it has none.
pub open spec fn resolve_album(
    s: StoreView,
    name: Seq<char>,
    artist: Option<Seq<char>>,
    art: Option<Seq<char>>,
) -> (StoreView, i64) {
    match album_index(s.albums, name, artist) {
        Some(i) => (
            StoreView {
                albums: s.albums.update(
                    i,
                    AlbumView { art_data: first_writer_wins(s.albums[i].art_data, art), ..s.albums[i] },
                ),
                ..s
            },
            s.albums[i].id,
        ),
        None => (
            StoreView {
                albums: s.albums.push(
                    AlbumView { id: s.next_album_id, name, artist, art_data: art, art_path: None },
                ),
                next_album_id: (s.next_album_id + 1) as i64,
                ..s
            },
            s.next_album_id,
        ),
    }
}

/// Insert-or-overwrite of the track keyed by the record's path. Cover fields
/// of an existing track are kept; a new track has none.
pub open spec fn upsert_track(s: StoreView, rec: TrackInsertView, album_id: Option<i64>) -> StoreView {
    match track_index(s.tracks, rec.path) {
        Some(i) => StoreView {
            tracks: s.tracks.update(
                i,
                TrackView {
                    title: last_writer_wins(s.tracks[i].title, rec.title),
                    artist: last_writer_wins(s.tracks[i].artist, rec.artist),
                    album: last_writer_wins(s.tracks[i].album, rec.album),
                    track_number: last_writer_wins(s.tracks[i].track_number, rec.track_number),
                    duration: last_writer_wins(s.tracks[i].duration, rec.duration),
                    album_id: last_writer_wins(s.tracks[i].album_id, album_id),
                    ..s.tracks[i]
                },
            ),
            ..s
        },
        None => StoreView {
            tracks: s.tracks.push(
                TrackView {
                    id: s.next_track_id,
                    path: rec.path,
                    title: rec.title,
                    artist: rec.artist,
                    album: rec.album,
                    track_number: rec.track_number,
                    duration: rec.duration,
                    album_id,
                    track_cover: None,
                    track_cover_path: None,
                },
            ),
            next_track_id: (s.next_track_id + 1) as i64,
            ..s
        },
    }
}

/// The store can hand out one more track id and one more album id.
pub open spec fn has_room(s: StoreView) -> bool {
    s.next_track_id < i64::MAX && s.next_album_id < i64::MAX
}

/// The store after indexing one record: its album resolved (if it names
/// one), then its track upserted. Unchanged where ids have run out.
pub open spec fn index_record(s: StoreView, rec: TrackInsertView) -> StoreView {
    if !has_room(s) {
        s
    } else {
        match rec.album {
            Some(name) => {
                let (s1, id) = resolve_album(s, name, rec.artist, rec.album_art);
                upsert_track(s1, rec, Some(id))
            },
            None => upsert_track(s, rec, None),
        }
    }
}

/// How a track upsert went, with the track's id.
#[derive(Clone, Copy, PartialEq, Eq, Structural, Debug)]
pub enum Upsert {
    Inserted(i64),
    Updated(i64),
}

/// Finds the album with key (name, artist).
pub fn find_album(albums: &Vec<Album>, name: &String, artist: &Option<String>) -> (r: Option<usize>)
    requires
        albums_wf(view_albums(albums@), i64::MAX),
    ensures
        match r {
            Some(i) => album_index(view_albums(albums@), name@, opt_view(*artist)) == Some(i as int),
            None => album_index(view_albums(albums@), name@, opt_view(*artist)) is None,
        },
{
    let ghost als = view_albums(albums@);
    let ghost artist_v = opt_view(*artist);
    let mut i: usize = 0;
    while i < albums.len()
        invariant
            als == view_albums(albums@),
            albums_wf(als, i64::MAX),
            artist_v == opt_view(*artist),
            i <= albums.len(),
            forall|j: int| 0 <= j < i ==> !album_matches(#[trigger] als[j], name@, artist_v),
        decreases albums.len() - i,
    {
        if albums[i].name == *name && same_opt(&albums[i].artist, artist) {
            assert(album_matches(als[i as int], name@, artist_v));
            let ghost k = choose|k: int| 0 <= k < als.len() && album_matches(als[k], name@, artist_v);
            assert(k == i) by {
                if k != i {
                    assert(!album_matches(als[k], als[i as int].name, als[i as int].artist));
                }
            }
            return Some(i);
        }
        i = i + 1;
    }
    None
}


/// Finds the track stored at `path`.
pub fn find_track(tracks: &Vec<Track>, path: &String) -> (r: Option<usize>)
    requires
        crate::store::tracks_wf(view_tracks(tracks@), i64::MAX),
    ensures
        match r {
            Some(i) => track_index(view_tracks(tracks@), path@) == Some(i as int),
            None => track_index(view_tracks(tracks@), path@) is None,
        },
{
    let ghost ts = view_tracks(tracks@);
    let mut i: usize = 0;
    while i < tracks.len()
        invariant
            ts == view_tracks(tracks@),
            crate::store::tracks_wf(ts, i64::MAX),
            i <= tracks.len(),
            forall|j: int| 0 <= j < i ==> (#[trigger] ts[j]).path != path@,
        decreases tracks.len() - i,
    {
        if tracks[i].path == *path {
            let ghost k = choose|k: int| 0 <= k < ts.len() && ts[k].path == path@;
            assert(k == i) by {
                if k != i {
                    assert(ts[k].path != ts[i as int].path);
                }
            }
            return Some(i);
        }
        i = i + 1;
    }
    None
}

/// Resolves the album (name, artist), creating it if it does not exist, and
/// returns its id. The offered art is attached only to an album that has none.
pub fn get_or_create_album(
    store: &mut Store,
    name: &String,
    artist: &Option<String>,
    art_data: &Option<String>,
) -> (r: i64)
    requires
        old(store)@.wf(),
        old(store)@.next_album_id < i64::MAX,
    ensures
        final(store)@.wf(),
        (final(store)@, r) == resolve_album(old(store)@, name@, opt_view(*artist), opt_view(*art_data)),
{
    let ghost s = store@;
    match find_album(&store.albums, name, artist) {
        Some(i) => {
            let id = store.albums[i].id;
            let ghost a = s.albums[i as int];
            let ghost na = AlbumView { art_data: first_writer_wins(a.art_data, opt_view(*art_data)), ..a };
            if store.albums[i].art_data.is_none() && art_data.is_some() {
                let updated = Album {
                    id,
                    name: store.albums[i].name.clone(),
                    artist: clone_opt(&store.albums[i].artist),
                    art_data: clone_opt(art_data),
                    art_path: clone_opt(&store.albums[i].art_path),
                };
                store.albums.set(i, updated);
            }
            assert(store@.albums =~= s.albums.update(i as int, na));
            id
        },
        None => {
            let id = store.next_album_id;
            let created = Album {
                id,
                name: name.clone(),
                artist: clone_opt(artist),
                art_data: clone_opt(art_data),
                art_path: None,
            };
            store.albums.push(created);
            store.next_album_id = id + 1;
            assert(store@.albums =~= s.albums.push(
                AlbumView { id, name: name@, artist: opt_view(*artist), art_data: opt_view(*art_data), art_path: None },
            ));
            id
        },
    }
}

/// What upserting `rec` into `s` reports: an update of the track already at
/// its path, or the insertion of a track under the next id.
pub open spec fn upsert_outcome(s: StoreView, rec: TrackInsertView) -> Upsert {
    match track_index(s.tracks, rec.path) {
        Some(i) => Upsert::Updated(s.tracks[i].id),
        None => Upsert::Inserted(s.next_track_id),
    }
}

/// Indexes one metadata record: resolves its album (if it names one), then
/// inserts its track or overwrites the track already at its path. Fails,
/// changing nothing, only when the store has run out of ids.
pub fn insert_or_update_track(store: &mut Store, track: &TrackInsert) -> (r: Result<Upsert, String>)
    requires
        old(store)@.wf(),
    ensures
        final(store)@.wf(),
        final(store)@ == index_record(old(store)@, track@),
        r is Err <==> !has_room(old(store)@),
        r matches Err(e) ==> e@ == "no track or album id is left to assign"@,
        r is Ok ==> r == Ok::<Upsert, String>(upsert_outcome(old(store)@, track@)),
{
    if store.next_track_id == i64::MAX || store.next_album_id == i64::MAX {
        return Err(String::from_str("no track or album id is left to assign"));
    }
    let ghost s0 = store@;
    let album_id = match &track.album {
        Some(name) => Some(get_or_create_album(store, name, &track.artist, &track.album_art)),
        None => None,
    };
    let ghost s = store@;
    assert(s.tracks == s0.tracks && s.next_track_id == s0.next_track_id);
    match find_track(&store.tracks, &track.path) {
        Some(i) => {
            let id = store.tracks[i].id;
            let ghost t = s.tracks[i as int];
            let updated = Track {
                id,
                path: store.tracks[i].path.clone(),
                title: clone_opt(&track.title),
                artist: clone_opt(&track.artist),
                album: clone_opt(&track.album),
                track_number: track.track_number,
                duration: track.duration,
                album_id,
                track_cover: clone_opt(&store.tracks[i].track_cover),
                track_cover_path: clone_opt(&store.tracks[i].track_cover_path),
            };
            store.tracks.set(i, updated);
            assert(store@.tracks =~= s.tracks.update(
                i as int,
                TrackView {
                    title: track@.title,
                    artist: track@.artist,
                    album: track@.album,
                    track_number: track.track_number,
                    duration: track.duration,
                    album_id,
                    ..t
                },
            ));
            Ok(Upsert::Updated(id))
        },
        None => {
            let id = store.next_track_id;
            let created = Track {
                id,
                path: track.path.clone(),
                title: clone_opt(&track.title),
                artist: clone_opt(&track.artist),
                album: clone_opt(&track.album),
                track_number: track.track_number,
                duration: track.duration,
                album_id,
                track_cover: None,
                track_cover_path: None,
            };
            store.tracks.push(created);
            store.next_track_id = id + 1;
            assert(store@.tracks =~= s.tracks.push(
                TrackView {
                    id,
                    path: track@.path,
                    title: track@.title,
                    artist: track@.artist,
                    album: track@.album,
                    track_number: track.track_number,
                    duration: track.duration,
                    album_id,
                    track_cover: None,
                    track_cover_path: None,
                },
            ));
            Ok(Upsert::Inserted(id))
        },
    }
}

} // verus!
