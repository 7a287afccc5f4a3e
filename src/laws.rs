use vstd::prelude::*;

use crate::covers::{cover_id_of, has_track, matched_tracks, sync_tracks, with_track_cover_path};
use crate::index::{album_index, first_writer_wins, has_room, index_record, resolve_album, track_index, upsert_track};
use crate::scan::{distinct_paths, file_record, scan_added, scan_state, scan_updated, ScannedFile};
use crate::migrate::{
    album_job, album_jobs, album_needs_file, apply_jobs, base64_decoded, job_done, job_errors, migrated_count,
    migration_jobs, track_job, track_jobs, track_needs_file, CoverJobView, CoverTarget,
};
use crate::model::{AlbumView, PlaylistTrack, TrackInsertView, TrackView};
use crate::playlist::{add_member, is_member};
use crate::store::{album_matches, StoreView};

verus! {

/// Get-or-create keeps the well-formedness of the store, keeps the id and key
/// of every album already there, and returns the id of an album with the
/// requested key.
pub proof fn lemma_resolve_album_shape(s: StoreView, name: Seq<char>, artist: Option<Seq<char>>, art: Option<Seq<char>>)
    requires
        s.wf(),
        s.next_album_id < i64::MAX,
    ensures
        ({
            let (s1, id) = resolve_album(s, name, artist, art);
            &&& s1.wf()
            &&& s1.next_album_id >= s.next_album_id
            &&& s1.tracks == s.tracks
            &&& s1.albums.len() >= s.albums.len()
            &&& s1.playlist_tracks == s.playlist_tracks
            &&& s1.next_track_id == s.next_track_id
            &&& forall|i: int| 0 <= i < s.albums.len() ==> (#[trigger] s1.albums[i]).id == s.albums[i].id
                && s1.albums[i].name == s.albums[i].name && s1.albums[i].artist == s.albums[i].artist
                && (s.albums[i].art_data is Some ==> s1.albums[i].art_data is Some)
            &&& exists|i: int| 0 <= i < s1.albums.len() && s1.albums[i].id == id && album_matches(s1.albums[i], name, artist)
                && (art is Some ==> s1.albums[i].art_data is Some)
        }),
{
    let (s1, id) = resolve_album(s, name, artist, art);
    match album_index(s.albums, name, artist) {
        Some(i) => {
            assert(s1.albums[i].id == id && album_matches(s1.albums[i], name, artist));
            assert(art is Some ==> s1.albums[i].art_data is Some);
        },
        None => {
            let n = s.albums.len() as int;
            assert(s1.albums[n].id == id && album_matches(s1.albums[n], name, artist));
            assert forall|a: int, b: int|
                0 <= a < s1.albums.len() && 0 <= b < s1.albums.len() && a != b implies !album_matches(
                #[trigger] s1.albums[a],
                #[trigger] s1.albums[b].name,
                s1.albums[b].artist,
            ) by {
                if a == n {
                    assert(!album_matches(s.albums[b], name, artist));
                }
                if b == n {
                    assert(!album_matches(s.albums[a], name, artist));
                }
            }
        },
    }
}

/// Two tracks that name the same album resolve to one album id iff their
/// artists match exactly, two absent artists included.
pub proof fn lemma_album_dedup(
    s: StoreView,
    name: Seq<char>,
    artist1: Option<Seq<char>>,
    art1: Option<Seq<char>>,
    artist2: Option<Seq<char>>,
    art2: Option<Seq<char>>,
)
    requires
        s.wf(),
        s.next_album_id < i64::MAX - 1,
    ensures
        ({
            let (s1, id1) = resolve_album(s, name, artist1, art1);
            let (s2, id2) = resolve_album(s1, name, artist2, art2);
            id1 == id2 <==> artist1 == artist2
        }),
{
    let (s1, id1) = resolve_album(s, name, artist1, art1);
    let (s2, id2) = resolve_album(s1, name, artist2, art2);
    lemma_resolve_album_shape(s, name, artist1, art1);
    lemma_resolve_album_shape(s1, name, artist2, art2);
    let i1 = choose|i: int| 0 <= i < s1.albums.len() && s1.albums[i].id == id1 && album_matches(s1.albums[i], name, artist1);
    let i2 = choose|i: int| 0 <= i < s2.albums.len() && s2.albums[i].id == id2 && album_matches(s2.albums[i], name, artist2);
    assert(s2.albums[i1].id == id1 && album_matches(s2.albums[i1], name, artist1));
    if artist1 == artist2 {
        if i1 != i2 {
            assert(!album_matches(s2.albums[i1], s2.albums[i2].name, s2.albums[i2].artist));
        }
    } else {
        assert(i1 != i2);
        assert(s2.albums[i1].id != s2.albums[i2].id);
    }
}

/// First writer wins for album art: where the album (name, artist) has no art
/// yet, a track offering art and then a track offering other art leave the
/// album with the first track's art.
pub proof fn lemma_first_art_wins(
    s: StoreView,
    name: Seq<char>,
    artist: Option<Seq<char>>,
    art1: Seq<char>,
    art2: Option<Seq<char>>,
)
    requires
        s.wf(),
        s.next_album_id < i64::MAX - 1,
        match album_index(s.albums, name, artist) {
            Some(i) => s.albums[i].art_data is None,
            None => true,
        },
    ensures
        ({
            let (s1, id1) = resolve_album(s, name, artist, Some(art1));
            let (s2, id2) = resolve_album(s1, name, artist, art2);
            &&& id1 == id2
            &&& album_index(s2.albums, name, artist) matches Some(i) && s2.albums[i].id == id1
                && s2.albums[i].art_data == Some(art1)
        }),
{
    let (s1, id1) = resolve_album(s, name, artist, Some(art1));
    let (s2, id2) = resolve_album(s1, name, artist, art2);
    lemma_resolve_album_shape(s, name, artist, Some(art1));
    lemma_resolve_album_shape(s1, name, artist, art2);
    let i1 = match album_index(s.albums, name, artist) {
        Some(i) => i,
        None => s.albums.len() as int,
    };
    assert(album_matches(s1.albums[i1], name, artist) && s1.albums[i1].art_data == Some(art1));
    let j = choose|i: int| 0 <= i < s1.albums.len() && album_matches(s1.albums[i], name, artist);
    if j != i1 {
        assert(!album_matches(s1.albums[j], s1.albums[i1].name, s1.albums[i1].artist));
    }
    assert(album_index(s1.albums, name, artist) == Some(i1));
    assert(s2.albums[i1].art_data == Some(art1));
    let k = choose|i: int| 0 <= i < s2.albums.len() && album_matches(s2.albums[i], name, artist);
    if k != i1 {
        assert(!album_matches(s2.albums[k], s2.albums[i1].name, s2.albums[i1].artist));
    }
}

/// Adding a track to a playlist a second time changes nothing: the track is
/// a member once, at the position the first addition gave it.
pub proof fn lemma_playlist_add_idempotent(pts: Seq<PlaylistTrack>, pid: i64, tid: i64)
    ensures
        is_member(add_member(pts, pid, tid), pid, tid),
        add_member(add_member(pts, pid, tid), pid, tid) == add_member(pts, pid, tid),
{
    let once = add_member(pts, pid, tid);
    if !is_member(pts, pid, tid) {
        assert(once[pts.len() as int].playlist_id == pid && once[pts.len() as int].track_id == tid);
    }
}

/// Reconciling from cover files none of which names an existing track
/// changes no track and counts nothing.
pub proof fn lemma_sync_ignores_unmatched(ts: Seq<TrackView>, files: Seq<Seq<char>>)
    requires
        forall|k: int|
            0 <= k < files.len() && (#[trigger] cover_id_of(files[k])) is Some ==> !has_track(
                ts,
                cover_id_of(files[k]).unwrap(),
            ),
    ensures
        sync_tracks(ts, files) == ts,
        matched_tracks(ts, files) == 0,
    decreases files.len(),
{
    if files.len() > 0 {
        let pre = files.drop_last();
        assert forall|k: int|
            0 <= k < pre.len() && (#[trigger] cover_id_of(pre[k])) is Some implies !has_track(
                ts,
                cover_id_of(pre[k]).unwrap(),
            ) by {
            assert(pre[k] == files[k]);
        }
        lemma_sync_ignores_unmatched(ts, pre);
        let last = files.last();
        assert(cover_id_of(files[files.len() - 1]) == cover_id_of(last));
        if let Some(id) = cover_id_of(last) {
            assert(with_track_cover_path(ts, id, last) =~= ts) by {
                assert forall|i: int| 0 <= i < ts.len() implies ts[i].id != id by {
                    if ts[i].id == id {
                        assert(has_track(ts, id));
                    }
                }
            }
        }
    }
}


/// What a run of migration jobs does to the rows: ids, blobs and the number
/// of rows stay, a path once set stays set, and every row a job went through
/// for has its path set.
proof fn lemma_apply_progress(s: StoreView, js: Seq<CoverJobView>, outs: Seq<Option<Seq<char>>>)
    requires
        js.len() == outs.len(),
    ensures
        ({
            let s1 = apply_jobs(s, js, outs);
            &&& s1.tracks.len() == s.tracks.len()
            &&& s1.albums.len() == s.albums.len()
            &&& forall|i: int| 0 <= i < s.tracks.len() ==> (#[trigger] s1.tracks[i]).id == s.tracks[i].id
                && s1.tracks[i].track_cover == s.tracks[i].track_cover
                && (s.tracks[i].track_cover_path is Some ==> s1.tracks[i].track_cover_path is Some)
            &&& forall|i: int| 0 <= i < s.albums.len() ==> (#[trigger] s1.albums[i]).id == s.albums[i].id
                && s1.albums[i].art_data == s.albums[i].art_data
                && (s.albums[i].art_path is Some ==> s1.albums[i].art_path is Some)
            &&& forall|k: int, i: int|
                0 <= k < js.len() && 0 <= i < s.tracks.len() && job_done(js[k], outs[k])
                    && js[k].target == CoverTarget::Track && #[trigger] s1.tracks[i].id == #[trigger] js[k].id
                    ==> s1.tracks[i].track_cover_path is Some
            &&& forall|k: int, i: int|
                0 <= k < js.len() && 0 <= i < s.albums.len() && job_done(js[k], outs[k])
                    && js[k].target == CoverTarget::Album && #[trigger] s1.albums[i].id == #[trigger] js[k].id
                    ==> s1.albums[i].art_path is Some
        }),
    decreases js.len(),
{
    if js.len() > 0 {
        let pj = js.drop_last();
        let po = outs.drop_last();
        lemma_apply_progress(s, pj, po);
        let mid = apply_jobs(s, pj, po);
        let s1 = apply_jobs(s, js, outs);
        let n = js.len() - 1;
        assert forall|k: int, i: int|
            0 <= k < js.len() && 0 <= i < s.tracks.len() && job_done(js[k], outs[k])
                && js[k].target == CoverTarget::Track && #[trigger] s1.tracks[i].id == #[trigger] js[k].id
            implies s1.tracks[i].track_cover_path is Some by {
            if k < n {
                assert(pj[k] == js[k] && po[k] == outs[k]);
            }
        }
        assert forall|k: int, i: int|
            0 <= k < js.len() && 0 <= i < s.albums.len() && job_done(js[k], outs[k])
                && js[k].target == CoverTarget::Album && #[trigger] s1.albums[i].id == #[trigger] js[k].id
            implies s1.albums[i].art_path is Some by {
            if k < n {
                assert(pj[k] == js[k] && po[k] == outs[k]);
            }
        }
    }
}

/// Every track still waiting for a file has a job in the plan.
proof fn lemma_track_has_job(ts: Seq<TrackView>, root: Seq<char>, i: int)
    requires
        0 <= i < ts.len(),
        track_needs_file(ts[i]),
    ensures
        exists|k: int| 0 <= k < track_jobs(ts, root).len() && #[trigger] track_jobs(ts, root)[k] == track_job(root, ts[i]),
    decreases ts.len(),
{
    let p = track_jobs(ts.drop_last(), root);
    if i == ts.len() - 1 {
        assert(track_jobs(ts, root)[p.len() as int] == track_job(root, ts[i]));
    } else {
        assert(ts.drop_last()[i] == ts[i]);
        lemma_track_has_job(ts.drop_last(), root, i);
        let k = choose|k: int| 0 <= k < p.len() && #[trigger] p[k] == track_job(root, ts[i]);
        assert(track_jobs(ts, root)[k] == p[k]);
    }
}

/// Every album still waiting for a file has a job in the plan.
proof fn lemma_album_has_job(als: Seq<AlbumView>, root: Seq<char>, i: int)
    requires
        0 <= i < als.len(),
        album_needs_file(als[i]),
    ensures
        exists|k: int| 0 <= k < album_jobs(als, root).len() && #[trigger] album_jobs(als, root)[k] == album_job(root, als[i]),
    decreases als.len(),
{
    let p = album_jobs(als.drop_last(), root);
    if i == als.len() - 1 {
        assert(album_jobs(als, root)[p.len() as int] == album_job(root, als[i]));
    } else {
        assert(als.drop_last()[i] == als[i]);
        lemma_album_has_job(als.drop_last(), root, i);
        let k = choose|k: int| 0 <= k < p.len() && #[trigger] p[k] == album_job(root, als[i]);
        assert(album_jobs(als, root)[k] == p[k]);
    }
}

/// Where no waiting track's blob decodes, no track job has bytes.
proof fn lemma_track_jobs_undecodable(ts: Seq<TrackView>, root: Seq<char>)
    requires
        forall|i: int| 0 <= i < ts.len() && track_needs_file(#[trigger] ts[i]) ==> base64_decoded(ts[i].track_cover.unwrap()) is None,
    ensures
        forall|k: int| 0 <= k < track_jobs(ts, root).len() ==> (#[trigger] track_jobs(ts, root)[k]).bytes is None,
    decreases ts.len(),
{
    if ts.len() > 0 {
        let pre = ts.drop_last();
        assert forall|i: int| 0 <= i < pre.len() && track_needs_file(#[trigger] pre[i]) implies base64_decoded(pre[i].track_cover.unwrap()) is None by {
            assert(pre[i] == ts[i]);
        }
        lemma_track_jobs_undecodable(pre, root);
        assert(ts.last() == ts[ts.len() - 1]);
    }
}

/// Where no waiting album's blob decodes, no album job has bytes.
proof fn lemma_album_jobs_undecodable(als: Seq<AlbumView>, root: Seq<char>)
    requires
        forall|i: int| 0 <= i < als.len() && album_needs_file(#[trigger] als[i]) ==> base64_decoded(als[i].art_data.unwrap()) is None,
    ensures
        forall|k: int| 0 <= k < album_jobs(als, root).len() ==> (#[trigger] album_jobs(als, root)[k]).bytes is None,
    decreases als.len(),
{
    if als.len() > 0 {
        let pre = als.drop_last();
        assert forall|i: int| 0 <= i < pre.len() && album_needs_file(#[trigger] pre[i]) implies base64_decoded(pre[i].art_data.unwrap()) is None by {
            assert(pre[i] == als[i]);
        }
        lemma_album_jobs_undecodable(pre, root);
        assert(als.last() == als[als.len() - 1]);
    }
}

/// Where no track waits for a file, the plan holds no track job.
proof fn lemma_no_track_jobs(ts: Seq<TrackView>, root: Seq<char>)
    requires
        forall|i: int| 0 <= i < ts.len() ==> !track_needs_file(#[trigger] ts[i]),
    ensures
        track_jobs(ts, root).len() == 0,
    decreases ts.len(),
{
    if ts.len() > 0 {
        let pre = ts.drop_last();
        assert forall|i: int| 0 <= i < pre.len() implies !track_needs_file(#[trigger] pre[i]) by {
            assert(pre[i] == ts[i]);
        }
        lemma_no_track_jobs(pre, root);
        assert(ts.last() == ts[ts.len() - 1]);
    }
}

/// Where no album waits for a file, the plan holds no album job.
proof fn lemma_no_album_jobs(als: Seq<AlbumView>, root: Seq<char>)
    requires
        forall|i: int| 0 <= i < als.len() ==> !album_needs_file(#[trigger] als[i]),
    ensures
        album_jobs(als, root).len() == 0,
    decreases als.len(),
{
    if als.len() > 0 {
        let pre = als.drop_last();
        assert forall|i: int| 0 <= i < pre.len() implies !album_needs_file(#[trigger] pre[i]) by {
            assert(pre[i] == als[i]);
        }
        lemma_no_album_jobs(pre, root);
        assert(als.last() == als[als.len() - 1]);
    }
}

/// No job without bytes migrates anything.
proof fn lemma_no_bytes_no_count(s: StoreView, js: Seq<CoverJobView>, outs: Seq<Option<Seq<char>>>, t: CoverTarget)
    requires
        forall|k: int| 0 <= k < js.len() ==> (#[trigger] js[k]).bytes is None,
    ensures
        migrated_count(s, js, outs, t) == 0,
        apply_jobs(s, js, outs) == s,
    decreases js.len(),
{
    if js.len() > 0 && outs.len() > 0 {
        let pj = js.drop_last();
        assert forall|k: int| 0 <= k < pj.len() implies (#[trigger] pj[k]).bytes is None by {
            assert(pj[k] == js[k]);
        }
        lemma_no_bytes_no_count(s, pj, outs.drop_last(), t);
        assert(js.last() == js[js.len() - 1]);
    }
}

/// Migrating twice: where every file the first run tried to write was
/// written, the second run finds only covers whose blobs do not decode, so it
/// writes no file, sets no path and counts nothing, whatever its writes do.
/// Where every blob of the first run decoded, the second run has no job at
/// all and reports no error.
pub proof fn lemma_migration_idempotent(
    s: StoreView,
    root: Seq<char>,
    outs: Seq<Option<Seq<char>>>,
    outs2: Seq<Option<Seq<char>>>,
)
    requires
        s.wf(),
        outs.len() == migration_jobs(s, root).len(),
        forall|k: int| 0 <= k < outs.len() && (#[trigger] migration_jobs(s, root)[k]).bytes is Some ==> outs[k] is None,
    ensures
        ({
            let s1 = apply_jobs(s, migration_jobs(s, root), outs);
            let js2 = migration_jobs(s1, root);
            &&& forall|k: int| 0 <= k < js2.len() ==> (#[trigger] js2[k]).bytes is None
            &&& migrated_count(s1, js2, outs2, CoverTarget::Track) == 0
            &&& migrated_count(s1, js2, outs2, CoverTarget::Album) == 0
            &&& apply_jobs(s1, js2, outs2) == s1
            &&& (forall|k: int| 0 <= k < outs.len() ==> (#[trigger] migration_jobs(s, root)[k]).bytes is Some)
                ==> js2.len() == 0 && job_errors(js2, outs2) == Seq::<Seq<char>>::empty()
        }),
{
    let js = migration_jobs(s, root);
    let tj = track_jobs(s.tracks, root);
    let s1 = apply_jobs(s, js, outs);
    lemma_apply_progress(s, js, outs);
    assert forall|i: int| 0 <= i < s1.tracks.len() && track_needs_file(#[trigger] s1.tracks[i]) implies base64_decoded(
        s1.tracks[i].track_cover.unwrap(),
    ) is None by {
        assert(s1.tracks[i].id == s.tracks[i].id);
        assert(track_needs_file(s.tracks[i]));
        lemma_track_has_job(s.tracks, root, i);
        let k = choose|k: int| 0 <= k < tj.len() && #[trigger] tj[k] == track_job(root, s.tracks[i]);
        assert(js[k] == tj[k]);
        if base64_decoded(s1.tracks[i].track_cover.unwrap()) is Some {
            assert(js[k].bytes is Some);
            assert(s1.tracks[i].id == js[k].id);
        }
    }
    let aj = album_jobs(s.albums, root);
    assert forall|i: int| 0 <= i < s1.albums.len() && album_needs_file(#[trigger] s1.albums[i]) implies base64_decoded(
        s1.albums[i].art_data.unwrap(),
    ) is None by {
        assert(s1.albums[i].id == s.albums[i].id);
        assert(album_needs_file(s.albums[i]));
        lemma_album_has_job(s.albums, root, i);
        let k = choose|k: int| 0 <= k < aj.len() && #[trigger] aj[k] == album_job(root, s.albums[i]);
        assert(js[tj.len() + k] == aj[k]);
        if base64_decoded(s1.albums[i].art_data.unwrap()) is Some {
            assert(js[tj.len() + k].bytes is Some);
            assert(s1.albums[i].id == js[tj.len() + k].id);
        }
    }
    lemma_track_jobs_undecodable(s1.tracks, root);
    lemma_album_jobs_undecodable(s1.albums, root);
    let js2 = migration_jobs(s1, root);
    let tj2 = track_jobs(s1.tracks, root);
    assert forall|k: int| 0 <= k < js2.len() implies (#[trigger] js2[k]).bytes is None by {
        if k >= tj2.len() {
            assert(js2[k] == album_jobs(s1.albums, root)[k - tj2.len()]);
        }
    }
    lemma_no_bytes_no_count(s1, js2, outs2, CoverTarget::Track);
    lemma_no_bytes_no_count(s1, js2, outs2, CoverTarget::Album);
    if forall|k: int| 0 <= k < outs.len() ==> (#[trigger] migration_jobs(s, root)[k]).bytes is Some {
        assert forall|i: int| 0 <= i < s1.tracks.len() implies !track_needs_file(#[trigger] s1.tracks[i]) by {
            if track_needs_file(s1.tracks[i]) {
                assert(track_needs_file(s.tracks[i]));
                lemma_track_has_job(s.tracks, root, i);
                let k = choose|k: int| 0 <= k < tj.len() && #[trigger] tj[k] == track_job(root, s.tracks[i]);
                assert(js[k] == tj[k]);
                assert(js[k].bytes is Some);
            }
        }
        assert forall|i: int| 0 <= i < s1.albums.len() implies !album_needs_file(#[trigger] s1.albums[i]) by {
            if album_needs_file(s1.albums[i]) {
                assert(album_needs_file(s.albums[i]));
                lemma_album_has_job(s.albums, root, i);
                let k = choose|k: int| 0 <= k < aj.len() && #[trigger] aj[k] == album_job(root, s.albums[i]);
                assert(js[tj.len() + k] == aj[k]);
                assert(js[tj.len() + k].bytes is Some);
            }
        }
        lemma_no_track_jobs(s1.tracks, root);
        lemma_no_album_jobs(s1.albums, root);
    }
}


/// The track row `t` holds what `rec` says, its album being the one `rec` names.
pub open spec fn track_reflects(st: StoreView, t: TrackView, rec: TrackInsertView) -> bool {
    &&& t.path == rec.path
    &&& t.title == rec.title
    &&& t.artist == rec.artist
    &&& t.album == rec.album
    &&& t.track_number == rec.track_number
    &&& t.duration == rec.duration
    &&& match rec.album {
        None => t.album_id is None,
        Some(name) => t.album_id is Some && exists|j: int|
            0 <= j < st.albums.len() && st.albums[j].id == t.album_id.unwrap() && album_matches(
                #[trigger] st.albums[j],
                name,
                rec.artist,
            ),
    }
}

/// Indexing `rec` into `st` again would find everything already in place:
/// its album exists (with art, where `rec` offers art) and its track holds
/// what `rec` says.
pub open spec fn record_settled(st: StoreView, rec: TrackInsertView) -> bool {
    &&& match rec.album {
        Some(name) => exists|j: int|
            0 <= j < st.albums.len() && album_matches(#[trigger] st.albums[j], name, rec.artist) && (
            rec.album_art is Some ==> st.albums[j].art_data is Some),
        None => true,
    }
    &&& exists|i: int| 0 <= i < st.tracks.len() && track_reflects(st, #[trigger] st.tracks[i], rec)
}

/// A track upsert keeps the store well formed, leaves albums alone, keeps
/// every track at another path, and leaves a track that holds the record.
proof fn lemma_upsert_track_shape(s: StoreView, rec: TrackInsertView, album_id: Option<i64>)
    requires
        s.wf(),
        s.next_track_id < i64::MAX,
    ensures
        ({
            let s1 = upsert_track(s, rec, album_id);
            &&& s1.wf()
            &&& s1.albums == s.albums
            &&& s1.playlist_tracks == s.playlist_tracks
            &&& s1.next_album_id == s.next_album_id
            &&& s1.next_track_id >= s.next_track_id
            &&& s1.tracks.len() >= s.tracks.len()
            &&& forall|i: int| 0 <= i < s.tracks.len() && s.tracks[i].path != rec.path ==> #[trigger] s1.tracks[i] == s.tracks[i]
            &&& exists|i: int| 0 <= i < s1.tracks.len() && (#[trigger] s1.tracks[i]).path == rec.path && s1.tracks[i].title == rec.title
                && s1.tracks[i].artist == rec.artist && s1.tracks[i].album == rec.album && s1.tracks[i].track_number
                == rec.track_number && s1.tracks[i].duration == rec.duration && s1.tracks[i].album_id == album_id
        }),
{
    let s1 = upsert_track(s, rec, album_id);
    match track_index(s.tracks, rec.path) {
        Some(i) => {
            assert(s1.tracks[i].path == rec.path);
        },
        None => {
            let n = s.tracks.len() as int;
            assert(s1.tracks[n].path == rec.path);
            assert forall|a: int, b: int|
                0 <= a < s1.tracks.len() && 0 <= b < s1.tracks.len() && a != b implies #[trigger] s1.tracks[a].path
                != #[trigger] s1.tracks[b].path by {
                if a == n {
                    assert(s.tracks[b].path != rec.path);
                }
                if b == n {
                    assert(s.tracks[a].path != rec.path);
                }
            }
        },
    }
}

/// Indexing a record keeps the store well formed and never lowers the next ids.
proof fn lemma_index_record_wf(s: StoreView, rec: TrackInsertView)
    requires
        s.wf(),
    ensures
        index_record(s, rec).wf(),
        index_record(s, rec).next_track_id >= s.next_track_id,
        index_record(s, rec).next_album_id >= s.next_album_id,
{
    if has_room(s) {
        match rec.album {
            Some(name) => {
                lemma_resolve_album_shape(s, name, rec.artist, rec.album_art);
                let (s1, id) = resolve_album(s, name, rec.artist, rec.album_art);
                lemma_upsert_track_shape(s1, rec, Some(id));
            },
            None => {
                lemma_upsert_track_shape(s, rec, None);
            },
        }
    }
}

/// A record just indexed is settled.
proof fn lemma_index_settles(s: StoreView, rec: TrackInsertView)
    requires
        s.wf(),
        has_room(s),
    ensures
        record_settled(index_record(s, rec), rec),
{
    let st = index_record(s, rec);
    match rec.album {
        Some(name) => {
            lemma_resolve_album_shape(s, name, rec.artist, rec.album_art);
            let (s1, id) = resolve_album(s, name, rec.artist, rec.album_art);
            lemma_upsert_track_shape(s1, rec, Some(id));
            let j = choose|j: int| 0 <= j < s1.albums.len() && s1.albums[j].id == id && album_matches(s1.albums[j], name, rec.artist)
                && (rec.album_art is Some ==> s1.albums[j].art_data is Some);
            assert(album_matches(st.albums[j], name, rec.artist));
            let i = choose|i: int| 0 <= i < st.tracks.len() && (#[trigger] st.tracks[i]).path == rec.path && st.tracks[i].title == rec.title
                && st.tracks[i].artist == rec.artist && st.tracks[i].album == rec.album && st.tracks[i].track_number
                == rec.track_number && st.tracks[i].duration == rec.duration && st.tracks[i].album_id == Some(id);
            assert(track_reflects(st, st.tracks[i], rec));
        },
        None => {
            lemma_upsert_track_shape(s, rec, None);
            let i = choose|i: int| 0 <= i < st.tracks.len() && (#[trigger] st.tracks[i]).path == rec.path && st.tracks[i].title == rec.title
                && st.tracks[i].artist == rec.artist && st.tracks[i].album == rec.album && st.tracks[i].track_number
                == rec.track_number && st.tracks[i].duration == rec.duration && st.tracks[i].album_id == None::<i64>;
            assert(track_reflects(st, st.tracks[i], rec));
        },
    }
}

/// Indexing a record at another path keeps a settled record settled.
proof fn lemma_settled_kept(s: StoreView, rec: TrackInsertView, other: TrackInsertView)
    requires
        s.wf(),
        record_settled(s, rec),
        rec.path != other.path,
    ensures
        record_settled(index_record(s, other), rec),
{
    if has_room(s) {
        let st = index_record(s, other);
        let (s1, aid) = match other.album {
            Some(name) => resolve_album(s, name, other.artist, other.album_art),
            None => (s, 0i64),
        };
        if let Some(name) = other.album {
            lemma_resolve_album_shape(s, name, other.artist, other.album_art);
            lemma_upsert_track_shape(s1, other, Some(aid));
        } else {
            lemma_upsert_track_shape(s, other, None);
        }
        assert(st.albums == s1.albums);
        if let Some(name) = rec.album {
            let j = choose|j: int|
                0 <= j < s.albums.len() && album_matches(#[trigger] s.albums[j], name, rec.artist) && (
                rec.album_art is Some ==> s.albums[j].art_data is Some);
            assert(album_matches(st.albums[j], name, rec.artist));
        }
        let i = choose|i: int| 0 <= i < s.tracks.len() && track_reflects(s, #[trigger] s.tracks[i], rec);
        assert(st.tracks[i] == s.tracks[i]);
        if let Some(name) = rec.album {
            let j = choose|j: int|
                0 <= j < s.albums.len() && s.albums[j].id == s.tracks[i].album_id.unwrap() && album_matches(
                    #[trigger] s.albums[j],
                    name,
                    rec.artist,
                );
            assert(st.albums[j].id == s.albums[j].id && album_matches(st.albums[j], name, rec.artist));
        }
        assert(track_reflects(st, st.tracks[i], rec));
    }
}

/// Indexing a settled record changes nothing.
proof fn lemma_settled_fixed(s: StoreView, rec: TrackInsertView)
    requires
        s.wf(),
        record_settled(s, rec),
    ensures
        index_record(s, rec) == s,
{
    if has_room(s) {
        let mut s1 = s;
        let mut id: i64 = 0;
        if let Some(name) = rec.album {
            let j = choose|j: int|
                0 <= j < s.albums.len() && album_matches(#[trigger] s.albums[j], name, rec.artist) && (
                rec.album_art is Some ==> s.albums[j].art_data is Some);
            let k = choose|k: int| 0 <= k < s.albums.len() && album_matches(s.albums[k], name, rec.artist);
            if k != j {
                assert(!album_matches(s.albums[k], s.albums[j].name, s.albums[j].artist));
            }
            assert(album_index(s.albums, name, rec.artist) == Some(j));
            let a = s.albums[j];
            assert((AlbumView { art_data: first_writer_wins(a.art_data, rec.album_art), ..a }) == a);
            assert(s.albums.update(j, a) =~= s.albums);
            assert(resolve_album(s, name, rec.artist, rec.album_art) == (s, a.id));
            id = a.id;
        }
        let i = choose|i: int| 0 <= i < s.tracks.len() && track_reflects(s, #[trigger] s.tracks[i], rec);
        let k = choose|k: int| 0 <= k < s.tracks.len() && s.tracks[k].path == rec.path;
        if k != i {
            assert(s.tracks[k].path != s.tracks[i].path);
        }
        assert(track_index(s.tracks, rec.path) == Some(i));
        let t = s.tracks[i];
        let aid: Option<i64> = match rec.album {
            Some(_) => Some(id),
            None => None,
        };
        if let Some(name) = rec.album {
            let j = choose|j: int|
                0 <= j < s.albums.len() && s.albums[j].id == t.album_id.unwrap() && album_matches(
                    #[trigger] s.albums[j],
                    name,
                    rec.artist,
                );
            let j2 = choose|j: int| 0 <= j < s.albums.len() && album_matches(s.albums[j], name, rec.artist);
            if j != j2 {
                assert(!album_matches(s.albums[j], s.albums[j2].name, s.albums[j2].artist));
            }
        }
        assert(t.album_id == aid);
        assert((TrackView {
            title: rec.title,
            artist: rec.artist,
            album: rec.album,
            track_number: rec.track_number,
            duration: rec.duration,
            album_id: aid,
            ..t
        }) == t);
        assert(s.tracks.update(i, t) =~= s.tracks);
    }
}

/// After scanning files at distinct paths, each file's record is settled in
/// the result, unless the store has run out of ids.
proof fn lemma_scan_settles(s: StoreView, fs: Seq<ScannedFile>)
    requires
        s.wf(),
        distinct_paths(fs),
    ensures
        scan_state(s, fs).wf(),
        scan_state(s, fs).next_track_id >= s.next_track_id,
        scan_state(s, fs).next_album_id >= s.next_album_id,
        has_room(scan_state(s, fs)) ==> forall|k: int| 0 <= k < fs.len() ==> record_settled(scan_state(s, fs), file_record(#[trigger] fs[k])),
    decreases fs.len(),
{
    if fs.len() > 0 {
        let pre = fs.drop_last();
        assert forall|a: int, b: int| 0 <= a < pre.len() && 0 <= b < pre.len() && a != b implies (#[trigger] pre[a]).path@ != (#[trigger] pre[b]).path@ by {
            assert(pre[a] == fs[a] && pre[b] == fs[b]);
        }
        lemma_scan_settles(s, pre);
        let mid = scan_state(s, pre);
        let last = file_record(fs.last());
        lemma_index_record_wf(mid, last);
        let st = scan_state(s, fs);
        if has_room(st) {
            assert(has_room(mid));
            assert forall|k: int| 0 <= k < fs.len() implies record_settled(st, file_record(#[trigger] fs[k])) by {
                if k == fs.len() - 1 {
                    lemma_index_settles(mid, last);
                } else {
                    assert(pre[k] == fs[k]);
                    assert(fs[k].path@ != fs[fs.len() - 1].path@);
                    lemma_settled_kept(mid, file_record(fs[k]), last);
                }
            }
        }
    }
}

/// Scanning files whose records are all settled changes nothing.
proof fn lemma_scan_fixed(s: StoreView, fs: Seq<ScannedFile>)
    requires
        s.wf(),
        has_room(s) ==> forall|k: int| 0 <= k < fs.len() ==> record_settled(s, file_record(#[trigger] fs[k])),
    ensures
        scan_state(s, fs) == s,
        scan_added(s, fs) == 0,
        scan_updated(s, fs) == if has_room(s) { fs.len() } else { 0 },
    decreases fs.len(),
{
    if fs.len() > 0 {
        let pre = fs.drop_last();
        assert forall|k: int| has_room(s) && 0 <= k < pre.len() implies record_settled(s, file_record(#[trigger] pre[k])) by {
            assert(pre[k] == fs[k]);
        }
        lemma_scan_fixed(s, pre);
        if has_room(s) {
            assert(fs.last() == fs[fs.len() - 1]);
            let rec = file_record(fs.last());
            lemma_settled_fixed(s, rec);
            let i = choose|i: int| 0 <= i < s.tracks.len() && track_reflects(s, #[trigger] s.tracks[i], rec);
            assert(s.tracks[i].path == fs.last().path@);
            assert(track_index(s.tracks, fs.last().path@) is Some);
        }
    }
}

/// Scanning an unchanged tree twice: the second scan, over the same files
/// (at distinct paths, as a directory tree has them), leaves the tracks and
/// albums exactly as the first left them, adds no track and reports every
/// file as an update (none where ids have run out).
pub proof fn lemma_scan_idempotent(s: StoreView, fs: Seq<ScannedFile>)
    requires
        s.wf(),
        distinct_paths(fs),
    ensures
        scan_state(scan_state(s, fs), fs) == scan_state(s, fs),
        scan_added(scan_state(s, fs), fs) == 0,
        scan_updated(scan_state(s, fs), fs) == if has_room(scan_state(s, fs)) { fs.len() } else { 0 },
{
    lemma_scan_settles(s, fs);
    lemma_scan_fixed(scan_state(s, fs), fs);
}

} // verus!
