use vstd::prelude::*;

use crate::model::{clone_opt, Album, AlbumView, MigrationProgress, Track, TrackView};
use crate::scan::view_strings;
use crate::store::{tracks_wf, view_tracks, Store, StoreView};
use crate::text::{
    ascii_lower, extension_of, file_name_of, file_name_span, lower_tail_equals, parse_id,
    parse_positive_id, stem_end, stem_of,
};

verus! {

/// The tracks with the cover file path of track `id` set to `p`.
pub open spec fn with_track_cover_path(ts: Seq<TrackView>, id: i64, p: Seq<char>) -> Seq<TrackView> {
    ts.map_values(|t: TrackView| if t.id == id { TrackView { track_cover_path: Some(p), ..t } } else { t })
}

/// The albums with the art file path of album `id` set to `p`.
pub open spec fn with_album_art_path(als: Seq<AlbumView>, id: i64, p: Seq<char>) -> Seq<AlbumView> {
    als.map_values(|a: AlbumView| if a.id == id { AlbumView { art_path: Some(p), ..a } } else { a })
}

pub open spec fn has_track(ts: Seq<TrackView>, id: i64) -> bool {
    exists|i: int| 0 <= i < ts.len() && ts[i].id == id
}

pub open spec fn has_album(als: Seq<AlbumView>, id: i64) -> bool {
    exists|i: int| 0 <= i < als.len() && als[i].id == id
}

/// Records `path` as the cover file of track `id`. Returns whether such a
/// track exists; where none does, nothing changes.
pub fn set_track_cover_path(store: &mut Store, id: i64, path: &String) -> (r: bool)
    requires
        old(store)@.wf(),
    ensures
        final(store)@ == (StoreView {
            tracks: with_track_cover_path(old(store)@.tracks, id, path@),
            ..old(store)@
        }),
        final(store)@.wf(),
        r == has_track(old(store)@.tracks, id),
{
    let ghost s = store@;
    let mut i: usize = 0;
    while i < store.tracks.len()
        invariant
            store@ == s,
            s == old(store)@,
            s.wf(),
            i <= store.tracks.len(),
            forall|j: int| 0 <= j < i ==> (#[trigger] s.tracks[j]).id != id,
        decreases store.tracks.len() - i,
    {
        if store.tracks[i].id == id {
            let t = &store.tracks[i];
            let updated = Track {
                id,
                path: t.path.clone(),
                title: clone_opt(&t.title),
                artist: clone_opt(&t.artist),
                album: clone_opt(&t.album),
                track_number: t.track_number,
                duration: t.duration,
                album_id: t.album_id,
                track_cover: clone_opt(&t.track_cover),
                track_cover_path: Some(path.clone()),
            };
            store.tracks.set(i, updated);
            assert(s.tracks[i as int].id == id);
            assert(store@.tracks =~= with_track_cover_path(s.tracks, id, path@)) by {
                assert forall|j: int| 0 <= j < s.tracks.len() && j != i implies s.tracks[j].id != id by {
                    assert(s.tracks[j].id != s.tracks[i as int].id);
                }
            }
            return true;
        }
        i = i + 1;
    }
    assert(with_track_cover_path(s.tracks, id, path@) =~= s.tracks);
    false
}

/// Records `path` as the art file of album `id`. Returns whether such an
/// album exists; where none does, nothing changes.
pub fn set_album_art_path(store: &mut Store, id: i64, path: &String) -> (r: bool)
    requires
        old(store)@.wf(),
    ensures
        final(store)@ == (StoreView {
            albums: with_album_art_path(old(store)@.albums, id, path@),
            ..old(store)@
        }),
        final(store)@.wf(),
        r == has_album(old(store)@.albums, id),
{
    let ghost s = store@;
    let mut i: usize = 0;
    while i < store.albums.len()
        invariant
            store@ == s,
            s == old(store)@,
            s.wf(),
            i <= store.albums.len(),
            forall|j: int| 0 <= j < i ==> (#[trigger] s.albums[j]).id != id,
        decreases store.albums.len() - i,
    {
        if store.albums[i].id == id {
            let a = &store.albums[i];
            let updated = Album {
                id,
                name: a.name.clone(),
                artist: clone_opt(&a.artist),
                art_data: clone_opt(&a.art_data),
                art_path: Some(path.clone()),
            };
            store.albums.set(i, updated);
            assert(s.albums[i as int].id == id);
            assert(store@.albums =~= with_album_art_path(s.albums, id, path@)) by {
                assert forall|j: int| 0 <= j < s.albums.len() && j != i implies s.albums[j].id != id by {
                    assert(s.albums[j].id != s.albums[i as int].id);
                }
            }
            return true;
        }
        i = i + 1;
    }
    assert(with_album_art_path(s.albums, id, path@) =~= s.albums);
    false
}

/// The recognised image extensions, compared without regard to ASCII case.
pub open spec fn is_image_extension(e: Seq<char>) -> bool {
    let l = ascii_lower(e);
    l == "jpg"@ || l == "jpeg"@ || l == "png"@ || l == "webp"@
}

/// The id a cover file's path names: its stem, read as a strictly positive
/// decimal id, where its extension is a recognised image extension.
pub open spec fn cover_id_of(p: Seq<char>) -> Option<i64> {
    match file_name_of(p) {
        Some(n) => match extension_of(n) {
            Some(e) => if is_image_extension(e) { parse_positive_id(stem_of(n)) } else { None },
            None => None,
        },
        None => None,
    }
}

/// Reads the id that a cover file's path names, if it names one.
pub fn cover_id_from_path(path: &str) -> (r: Option<i64>)
    ensures
        r == cover_id_of(path@),
{
    match file_name_span(path) {
        Some((s, e)) => {
            let name = path.substring_char(s, e);
            let k = stem_end(name);
            if k == e - s {
                return None;
            }
            let image = lower_tail_equals(name, k + 1, "jpg") || lower_tail_equals(name, k + 1, "jpeg")
                || lower_tail_equals(name, k + 1, "png") || lower_tail_equals(name, k + 1, "webp");
            if !image {
                return None;
            }
            parse_id(name, 0, k)
        },
        None => None,
    }
}

/// The tracks after recording each listed cover file, in order.
pub open spec fn sync_tracks(ts: Seq<TrackView>, files: Seq<Seq<char>>) -> Seq<TrackView>
    decreases files.len(),
{
    if files.len() == 0 {
        ts
    } else {
        let prev = sync_tracks(ts, files.drop_last());
        match cover_id_of(files.last()) {
            Some(id) => with_track_cover_path(prev, id, files.last()),
            None => prev,
        }
    }
}

/// The albums after recording each listed art file, in order.
pub open spec fn sync_albums(als: Seq<AlbumView>, files: Seq<Seq<char>>) -> Seq<AlbumView>
    decreases files.len(),
{
    if files.len() == 0 {
        als
    } else {
        let prev = sync_albums(als, files.drop_last());
        match cover_id_of(files.last()) {
            Some(id) => with_album_art_path(prev, id, files.last()),
            None => prev,
        }
    }
}

/// How many of the listed files name an existing track.
pub open spec fn matched_tracks(ts: Seq<TrackView>, files: Seq<Seq<char>>) -> nat
    decreases files.len(),
{
    if files.len() == 0 {
        0
    } else {
        matched_tracks(ts, files.drop_last()) + match cover_id_of(files.last()) {
            Some(id) => if has_track(ts, id) { 1nat } else { 0nat },
            None => 0nat,
        }
    }
}

/// How many of the listed files name an existing album.
pub open spec fn matched_albums(als: Seq<AlbumView>, files: Seq<Seq<char>>) -> nat
    decreases files.len(),
{
    if files.len() == 0 {
        0
    } else {
        matched_albums(als, files.drop_last()) + match cover_id_of(files.last()) {
            Some(id) => if has_album(als, id) { 1nat } else { 0nat },
            None => 0nat,
        }
    }
}

pub(crate) proof fn lemma_path_update_keeps_ids(ts: Seq<TrackView>, id: i64, p: Seq<char>, k: i64)
    ensures
        has_track(with_track_cover_path(ts, id, p), k) == has_track(ts, k),
        with_track_cover_path(ts, id, p).len() == ts.len(),
{
    let ts2 = with_track_cover_path(ts, id, p);
    if has_track(ts, k) {
        let i = choose|i: int| 0 <= i < ts.len() && ts[i].id == k;
        assert(ts2[i].id == k);
    }
    if has_track(ts2, k) {
        let i = choose|i: int| 0 <= i < ts2.len() && ts2[i].id == k;
        assert(ts[i].id == k);
    }
}

pub(crate) proof fn lemma_art_update_keeps_ids(als: Seq<AlbumView>, id: i64, p: Seq<char>, k: i64)
    ensures
        has_album(with_album_art_path(als, id, p), k) == has_album(als, k),
        with_album_art_path(als, id, p).len() == als.len(),
{
    let als2 = with_album_art_path(als, id, p);
    if has_album(als, k) {
        let i = choose|i: int| 0 <= i < als.len() && als[i].id == k;
        assert(als2[i].id == k);
    }
    if has_album(als2, k) {
        let i = choose|i: int| 0 <= i < als2.len() && als2[i].id == k;
        assert(als[i].id == k);
    }
}

proof fn lemma_sync_tracks_keeps_ids(ts: Seq<TrackView>, files: Seq<Seq<char>>, k: i64)
    ensures
        has_track(sync_tracks(ts, files), k) == has_track(ts, k),
    decreases files.len(),
{
    if files.len() > 0 {
        lemma_sync_tracks_keeps_ids(ts, files.drop_last(), k);
        if let Some(id) = cover_id_of(files.last()) {
            lemma_path_update_keeps_ids(sync_tracks(ts, files.drop_last()), id, files.last(), k);
        }
    }
}

proof fn lemma_sync_albums_keeps_ids(als: Seq<AlbumView>, files: Seq<Seq<char>>, k: i64)
    ensures
        has_album(sync_albums(als, files), k) == has_album(als, k),
    decreases files.len(),
{
    if files.len() > 0 {
        lemma_sync_albums_keeps_ids(als, files.drop_last(), k);
        if let Some(id) = cover_id_of(files.last()) {
            lemma_art_update_keeps_ids(sync_albums(als, files.drop_last()), id, files.last(), k);
        }
    }
}

/// Rebuilds cover and art paths from the files found under the cover
/// store's tracks and albums directories. A file whose name is no image
/// named by a positive id, or whose id has no row, is passed over without an
/// error. The report counts the rows whose path was set; its errors are those
/// met while listing the directories.
pub fn sync_cover_paths_from_files(
    store: &mut Store,
    track_files: &Vec<String>,
    album_files: &Vec<String>,
    listing_errors: Vec<String>,
) -> (r: MigrationProgress)
    requires
        old(store)@.wf(),
        track_files@.len() + album_files@.len() <= usize::MAX,
    ensures
        final(store)@.wf(),
        final(store)@ == (StoreView {
            tracks: sync_tracks(old(store)@.tracks, view_strings(track_files@)),
            albums: sync_albums(old(store)@.albums, view_strings(album_files@)),
            ..old(store)@
        }),
        r.tracks_migrated == matched_tracks(old(store)@.tracks, view_strings(track_files@)),
        r.albums_migrated == matched_albums(old(store)@.albums, view_strings(album_files@)),
        r.total == r.tracks_migrated + r.albums_migrated,
        r.processed == r.total,
        r.errors@ == listing_errors@,
{
    let ghost s0 = store@;
    let ghost tf = view_strings(track_files@);
    let ghost af = view_strings(album_files@);
    let mut tracks_synced: usize = 0;
    let mut i: usize = 0;
    while i < track_files.len()
        invariant
            i <= track_files.len(),
            tf == view_strings(track_files@),
            store@.wf(),
            store@ == (StoreView { tracks: sync_tracks(s0.tracks, tf.subrange(0, i as int)), ..s0 }),
            tracks_synced == matched_tracks(s0.tracks, tf.subrange(0, i as int)),
            tracks_synced <= i,
        decreases track_files.len() - i,
    {
        let ghost pre = tf.subrange(0, i as int);
        assert(tf.subrange(0, i as int + 1).drop_last() =~= pre);
        if let Some(id) = cover_id_from_path(track_files[i].as_str()) {
            proof {
                lemma_sync_tracks_keeps_ids(s0.tracks, pre, id);
            }
            if set_track_cover_path(store, id, &track_files[i]) {
                tracks_synced = tracks_synced + 1;
            }
        }
        i = i + 1;
    }
    assert(tf.subrange(0, track_files.len() as int) =~= tf);
    let mut albums_synced: usize = 0;
    let mut j: usize = 0;
    while j < album_files.len()
        invariant
            j <= album_files.len(),
            af == view_strings(album_files@),
            store@.wf(),
            store@ == (StoreView {
                tracks: sync_tracks(s0.tracks, tf),
                albums: sync_albums(s0.albums, af.subrange(0, j as int)),
                ..s0
            }),
            albums_synced == matched_albums(s0.albums, af.subrange(0, j as int)),
            albums_synced <= j,
            tracks_synced == matched_tracks(s0.tracks, tf),
            tracks_synced <= track_files.len(),
            track_files@.len() + album_files@.len() <= usize::MAX,
        decreases album_files.len() - j,
    {
        let ghost pre = af.subrange(0, j as int);
        assert(af.subrange(0, j as int + 1).drop_last() =~= pre);
        if let Some(id) = cover_id_from_path(album_files[j].as_str()) {
            proof {
                lemma_sync_albums_keeps_ids(s0.albums, pre, id);
            }
            if set_album_art_path(store, id, &album_files[j]) {
                albums_synced = albums_synced + 1;
            }
        }
        j = j + 1;
    }
    assert(af.subrange(0, album_files.len() as int) =~= af);
    MigrationProgress {
        total: tracks_synced + albums_synced,
        processed: tracks_synced + albums_synced,
        tracks_migrated: tracks_synced,
        albums_migrated: albums_synced,
        errors: listing_errors,
    }
}


/// A track whose cover has a file loses its inline blob.
pub open spec fn track_without_blob(t: TrackView) -> TrackView {
    if t.track_cover_path is Some {
        TrackView { track_cover: None, ..t }
    } else {
        t
    }
}

/// An album whose art has a file loses its inline blob.
pub open spec fn album_without_blob(a: AlbumView) -> AlbumView {
    if a.art_path is Some {
        AlbumView { art_data: None, ..a }
    } else {
        a
    }
}

/// How many tracks have a cover file path.
pub open spec fn tracks_with_path(ts: Seq<TrackView>) -> nat
    decreases ts.len(),
{
    if ts.len() == 0 {
        0
    } else {
        tracks_with_path(ts.drop_last()) + if ts.last().track_cover_path is Some { 1nat } else { 0nat }
    }
}

/// How many albums have an art file path.
pub open spec fn albums_with_path(als: Seq<AlbumView>) -> nat
    decreases als.len(),
{
    if als.len() == 0 {
        0
    } else {
        albums_with_path(als.drop_last()) + if als.last().art_path is Some { 1nat } else { 0nat }
    }
}

/// Drops the inline blob of every track and album that has a file path, and
/// returns how many rows have one. Rows without a file path keep their blob.
/// Nothing here checks that the files hold what the blobs held: callers run
/// this only once a migration has been verified.
pub fn clear_base64_covers(store: &mut Store) -> (r: usize)
    requires
        old(store)@.wf(),
        old(store)@.tracks.len() + old(store)@.albums.len() <= usize::MAX,
    ensures
        final(store)@.wf(),
        final(store)@ == (StoreView {
            tracks: old(store)@.tracks.map_values(|t: TrackView| track_without_blob(t)),
            albums: old(store)@.albums.map_values(|a: AlbumView| album_without_blob(a)),
            ..old(store)@
        }),
        r == tracks_with_path(old(store)@.tracks) + albums_with_path(old(store)@.albums),
{
    let ghost s0 = store@;
    let mut cleared: usize = 0;
    let mut i: usize = 0;
    while i < store.tracks.len()
        invariant
            i <= store.tracks.len(),
            store.tracks.len() == s0.tracks.len(),
            store@.albums == s0.albums,
            store@.playlist_tracks == s0.playlist_tracks,
            store@.playlists == s0.playlists,
            store@.next_playlist_id == s0.next_playlist_id,
            store@.next_track_id == s0.next_track_id,
            store@.next_album_id == s0.next_album_id,
            s0.wf(),
            s0.tracks.len() + s0.albums.len() <= usize::MAX,
            forall|j: int| 0 <= j < i ==> store@.tracks[j] == track_without_blob(#[trigger] s0.tracks[j]),
            forall|j: int| i <= j < store.tracks.len() ==> store@.tracks[j] == #[trigger] s0.tracks[j],
            cleared == tracks_with_path(s0.tracks.subrange(0, i as int)),
            cleared <= i,
        decreases store.tracks.len() - i,
    {
        assert(s0.tracks.subrange(0, i as int + 1).drop_last() =~= s0.tracks.subrange(0, i as int));
        if store.tracks[i].track_cover_path.is_some() {
            let t = &store.tracks[i];
            let updated = Track {
                id: t.id,
                path: t.path.clone(),
                title: clone_opt(&t.title),
                artist: clone_opt(&t.artist),
                album: clone_opt(&t.album),
                track_number: t.track_number,
                duration: t.duration,
                album_id: t.album_id,
                track_cover: None,
                track_cover_path: clone_opt(&t.track_cover_path),
            };
            store.tracks.set(i, updated);
            cleared = cleared + 1;
        }
        i = i + 1;
    }
    assert(s0.tracks.subrange(0, i as int) =~= s0.tracks);
    assert(store@.tracks =~= s0.tracks.map_values(|t: TrackView| track_without_blob(t)));
    let ghost cleared_tracks = cleared as int;
    let mut k: usize = 0;
    while k < store.albums.len()
        invariant
            k <= store.albums.len(),
            store.albums.len() == s0.albums.len(),
            store@.tracks == s0.tracks.map_values(|t: TrackView| track_without_blob(t)),
            store@.playlist_tracks == s0.playlist_tracks,
            store@.playlists == s0.playlists,
            store@.next_playlist_id == s0.next_playlist_id,
            store@.next_track_id == s0.next_track_id,
            store@.next_album_id == s0.next_album_id,
            s0.wf(),
            s0.tracks.len() + s0.albums.len() <= usize::MAX,
            forall|j: int| 0 <= j < k ==> store@.albums[j] == album_without_blob(#[trigger] s0.albums[j]),
            forall|j: int| k <= j < store.albums.len() ==> store@.albums[j] == #[trigger] s0.albums[j],
            cleared_tracks == tracks_with_path(s0.tracks),
            cleared_tracks <= s0.tracks.len(),
            cleared == cleared_tracks + albums_with_path(s0.albums.subrange(0, k as int)),
            cleared <= cleared_tracks + k,
        decreases store.albums.len() - k,
    {
        assert(s0.albums.subrange(0, k as int + 1).drop_last() =~= s0.albums.subrange(0, k as int));
        if store.albums[k].art_path.is_some() {
            let a = &store.albums[k];
            let updated = Album {
                id: a.id,
                name: a.name.clone(),
                artist: clone_opt(&a.artist),
                art_data: None,
                art_path: clone_opt(&a.art_path),
            };
            store.albums.set(k, updated);
            cleared = cleared + 1;
        }
        k = k + 1;
    }
    assert(s0.albums.subrange(0, k as int) =~= s0.albums);
    assert(store@.albums =~= s0.albums.map_values(|a: AlbumView| album_without_blob(a)));
    cleared
}

/// The cover file path of track `id`, if the track exists and has one.
pub open spec fn cover_path_of(ts: Seq<TrackView>, id: i64) -> Option<Seq<char>> {
    if has_track(ts, id) {
        ts[choose|i: int| 0 <= i < ts.len() && ts[i].id == id].track_cover_path
    } else {
        None
    }
}

/// For each requested id in order, the pair (id, cover file path) where that
/// track has a cover file.
pub open spec fn batch_cover_paths(ts: Seq<TrackView>, ids: Seq<i64>) -> Seq<(i64, Seq<char>)>
    decreases ids.len(),
{
    if ids.len() == 0 {
        Seq::empty()
    } else {
        let prev = batch_cover_paths(ts, ids.drop_last());
        match cover_path_of(ts, ids.last()) {
            Some(p) => prev.push((ids.last(), p)),
            None => prev,
        }
    }
}

/// Finds the track with id `id`.
pub fn find_track_by_id(tracks: &Vec<Track>, id: i64) -> (r: Option<usize>)
    requires
        tracks_wf(view_tracks(tracks@), i64::MAX),
    ensures
        match r {
            Some(i) => i < tracks@.len() && tracks@[i as int].id == id && view_tracks(tracks@)[i as int]
                == view_tracks(tracks@)[choose|k: int| 0 <= k < tracks@.len() && view_tracks(tracks@)[k].id == id],
            None => !has_track(view_tracks(tracks@), id),
        },
{
    let ghost ts = view_tracks(tracks@);
    let mut i: usize = 0;
    while i < tracks.len()
        invariant
            ts == view_tracks(tracks@),
            tracks_wf(ts, i64::MAX),
            i <= tracks.len(),
            forall|j: int| 0 <= j < i ==> (#[trigger] ts[j]).id != id,
        decreases tracks.len() - i,
    {
        if tracks[i].id == id {
            assert(ts[i as int].id == id);
            let ghost k = choose|k: int| 0 <= k < tracks@.len() && ts[k].id == id;
            assert(k == i) by {
                if k != i {
                    assert(ts[k].id != ts[i as int].id);
                }
            }
            return Some(i);
        }
        i = i + 1;
    }
    None
}

pub open spec fn view_pairs(v: Seq<(i64, String)>) -> Seq<(i64, Seq<char>)> {
    v.map_values(|p: (i64, String)| (p.0, p.1@))
}

/// Looks up the cover file paths of many tracks at once: for each requested
/// id in order, the pair (id, path) where that track has a cover file.
pub fn get_batch_cover_paths(store: &Store, track_ids: &Vec<i64>) -> (r: Vec<(i64, String)>)
    requires
        store@.wf(),
    ensures
        view_pairs(r@) == batch_cover_paths(store@.tracks, track_ids@),
{
    let ghost ts = store@.tracks;
    let mut out: Vec<(i64, String)> = Vec::new();
    let mut i: usize = 0;
    while i < track_ids.len()
        invariant
            ts == store@.tracks,
            store@.wf(),
            i <= track_ids.len(),
            view_pairs(out@) == batch_cover_paths(ts, track_ids@.subrange(0, i as int)),
        decreases track_ids.len() - i,
    {
        let ghost pre = track_ids@.subrange(0, i as int);
        assert(track_ids@.subrange(0, i as int + 1).drop_last() =~= pre);
        let id = track_ids[i];
        match find_track_by_id(&store.tracks, id) {
            Some(k) => {
                assert(has_track(ts, id)) by {
                    assert(ts[k as int].id == id);
                }
                match &store.tracks[k].track_cover_path {
                    Some(p) => {
                        let ghost before = view_pairs(out@);
                        out.push((id, p.clone()));
                        assert(view_pairs(out@) =~= before.push((id, p@)));
                    },
                    None => {},
                }
            },
            None => {},
        }
        i = i + 1;
    }
    assert(track_ids@.subrange(0, track_ids.len() as int) =~= track_ids@);
    out
}


/// Some track or album row holds `p` as its cover or art file path.
pub open spec fn is_referenced(s: StoreView, p: Seq<char>) -> bool {
    (exists|i: int| 0 <= i < s.tracks.len() && s.tracks[i].track_cover_path == Some(p))
        || (exists|i: int| 0 <= i < s.albums.len() && s.albums[i].art_path == Some(p))
}

/// The listed files that no row references, in order.
pub open spec fn orphaned(s: StoreView, files: Seq<Seq<char>>) -> Seq<Seq<char>>
    decreases files.len(),
{
    if files.len() == 0 {
        Seq::empty()
    } else {
        let prev = orphaned(s, files.drop_last());
        if is_referenced(s, files.last()) {
            prev
        } else {
            prev.push(files.last())
        }
    }
}

fn referenced(store: &Store, p: &String) -> (r: bool)
    ensures
        r == is_referenced(store@, p@),
{
    let ghost s = store@;
    let mut i: usize = 0;
    while i < store.tracks.len()
        invariant
            s == store@,
            i <= store.tracks.len(),
            forall|k: int| 0 <= k < i ==> (#[trigger] s.tracks[k]).track_cover_path != Some(p@),
        decreases store.tracks.len() - i,
    {
        match &store.tracks[i].track_cover_path {
            Some(q) => {
                if *q == *p {
                    assert(s.tracks[i as int].track_cover_path == Some(p@));
                    return true;
                }
            },
            None => {},
        }
        i = i + 1;
    }
    let mut k: usize = 0;
    while k < store.albums.len()
        invariant
            s == store@,
            k <= store.albums.len(),
            forall|j: int| 0 <= j < s.tracks.len() ==> (#[trigger] s.tracks[j]).track_cover_path != Some(p@),
            forall|j: int| 0 <= j < k ==> (#[trigger] s.albums[j]).art_path != Some(p@),
        decreases store.albums.len() - k,
    {
        match &store.albums[k].art_path {
            Some(q) => {
                if *q == *p {
                    assert(s.albums[k as int].art_path == Some(p@));
                    return true;
                }
            },
            None => {},
        }
        k = k + 1;
    }
    false
}

/// The cover files on disk that no track or album row references, in the
/// order listed: the files a cleanup removes.
pub fn orphaned_cover_files(store: &Store, files: &Vec<String>) -> (r: Vec<String>)
    ensures
        view_strings(r@) == orphaned(store@, view_strings(files@)),
{
    let ghost fv = view_strings(files@);
    let mut out: Vec<String> = Vec::new();
    let mut i: usize = 0;
    while i < files.len()
        invariant
            fv == view_strings(files@),
            i <= files.len(),
            view_strings(out@) == orphaned(store@, fv.subrange(0, i as int)),
        decreases files.len() - i,
    {
        assert(fv.subrange(0, i as int + 1).drop_last() =~= fv.subrange(0, i as int));
        if !referenced(store, &files[i]) {
            let ghost before = view_strings(out@);
            out.push(files[i].clone());
            assert(view_strings(out@) =~= before.push(fv[i as int]));
        }
        i = i + 1;
    }
    assert(fv.subrange(0, files.len() as int) =~= fv);
    out
}

} // verus!
