use base64::Engine;
use vstd::prelude::*;

use crate::covers::{has_album, has_track, set_album_art_path, set_track_cover_path, with_album_art_path, with_track_cover_path};
use crate::model::{opt_view, AlbumView, MigrationProgress, TrackView};
use crate::scan::view_strings;
use crate::store::{Store, StoreView};
use crate::text::{decimal_of, decimal_string};

verus! {

/// The bytes that standard base64 text decodes to, as the base64 crate reads
/// it; none where the text is no valid base64.
pub uninterp spec fn base64_decoded(s: Seq<char>) -> Option<Seq<u8>>;

#[verifier::external_type_specification]
#[verifier::external_body]
pub struct ExDecodeError(base64::DecodeError);

/// Relies on `base64::Engine::decode` with the `STANDARD` engine: the bytes
/// the text decodes to, or the reason it is no valid base64.
#[verifier::external_body]
fn decode_base64(s: &str) -> (r: Result<Vec<u8>, base64::DecodeError>)
    ensures
        r is Ok <==> base64_decoded(s@) is Some,
        r matches Ok(v) ==> base64_decoded(s@) == Some(v@),
{
    base64::engine::general_purpose::STANDARD.decode(s)
}

/// Which kind of row a cover belongs to.
#[derive(Clone, Copy, PartialEq, Eq, Structural, Debug)]
pub enum CoverTarget {
    Track,
    Album,
}

/// One cover to move from an inline blob to a file: the row it belongs to,
/// the file to write, and the decoded bytes (none where the blob is no valid
/// base64).
pub struct CoverJob {
    pub target: CoverTarget,
    pub id: i64,
    pub file_path: String,
    pub bytes: Option<Vec<u8>>,
}

pub struct CoverJobView {
    pub target: CoverTarget,
    pub id: i64,
    pub file_path: Seq<char>,
    pub bytes: Option<Seq<u8>>,
}

impl View for CoverJob {
    type V = CoverJobView;

    open spec fn view(&self) -> CoverJobView {
        CoverJobView {
            target: self.target,
            id: self.id,
            file_path: self.file_path@,
            bytes: match self.bytes {
                Some(b) => Some(b@),
                None => None,
            },
        }
    }
}

pub open spec fn view_jobs(v: Seq<CoverJob>) -> Seq<CoverJobView> {
    v.map_values(|j: CoverJob| j@)
}

pub open spec fn view_opts(v: Seq<Option<String>>) -> Seq<Option<Seq<char>>> {
    v.map_values(|o: Option<String>| opt_view(o))
}

/// A track whose cover is still only inline.
pub open spec fn track_needs_file(t: TrackView) -> bool {
    t.track_cover is Some && t.track_cover_path is None
}

/// An album whose art is still only inline.
pub open spec fn album_needs_file(a: AlbumView) -> bool {
    a.art_data is Some && a.art_path is None
}

/// The file a row's cover goes to: `<root>/tracks/<id>.jpg` or `<root>/albums/<id>.jpg`.
pub open spec fn cover_file_path(root: Seq<char>, target: CoverTarget, id: i64) -> Seq<char> {
    root + (if target == CoverTarget::Track { "/tracks/"@ } else { "/albums/"@ }) + decimal_of(
        id as nat,
    ) + ".jpg"@
}

pub open spec fn track_job(root: Seq<char>, t: TrackView) -> CoverJobView {
    CoverJobView {
        target: CoverTarget::Track,
        id: t.id,
        file_path: cover_file_path(root, CoverTarget::Track, t.id),
        bytes: base64_decoded(t.track_cover.unwrap()),
    }
}

pub open spec fn album_job(root: Seq<char>, a: AlbumView) -> CoverJobView {
    CoverJobView {
        target: CoverTarget::Album,
        id: a.id,
        file_path: cover_file_path(root, CoverTarget::Album, a.id),
        bytes: base64_decoded(a.art_data.unwrap()),
    }
}

/// The jobs for the tracks whose cover is still only inline, in order.
pub open spec fn track_jobs(ts: Seq<TrackView>, root: Seq<char>) -> Seq<CoverJobView>
    decreases ts.len(),
{
    if ts.len() == 0 {
        Seq::empty()
    } else {
        let p = track_jobs(ts.drop_last(), root);
        if track_needs_file(ts.last()) {
            p.push(track_job(root, ts.last()))
        } else {
            p
        }
    }
}

/// The jobs for the albums whose art is still only inline, in order.
pub open spec fn album_jobs(als: Seq<AlbumView>, root: Seq<char>) -> Seq<CoverJobView>
    decreases als.len(),
{
    if als.len() == 0 {
        Seq::empty()
    } else {
        let p = album_jobs(als.drop_last(), root);
        if album_needs_file(als.last()) {
            p.push(album_job(root, als.last()))
        } else {
            p
        }
    }
}

/// All jobs of a migration: tracks first, then albums.
pub open spec fn migration_jobs(s: StoreView, root: Seq<char>) -> Seq<CoverJobView> {
    track_jobs(s.tracks, root) + album_jobs(s.albums, root)
}

fn cover_path_string(root: &str, target: CoverTarget, id: i64) -> (r: String)
    requires
        id >= 0,
    ensures
        r@ == cover_file_path(root@, target, id),
{
    let mut p = String::from_str(root);
    match target {
        CoverTarget::Track => p.append("/tracks/"),
        CoverTarget::Album => p.append("/albums/"),
    }
    let digits = decimal_string(id as u64);
    p.append(digits.as_str());
    p.append(".jpg");
    p
}

fn decode_blob(blob: &String) -> (r: Option<Vec<u8>>)
    ensures
        match r {
            Some(b) => base64_decoded(blob@) == Some(b@),
            None => base64_decoded(blob@) is None,
        },
{
    match decode_base64(blob.as_str()) {
        Ok(v) => Some(v),
        Err(_) => None,
    }
}

/// Lists the covers to move to files: each track with an inline cover and no
/// file path, then each album with inline art and no file path, with the file
/// each goes to under `covers_root` and its decoded bytes.
pub fn plan_cover_migration(store: &Store, covers_root: &str) -> (r: Vec<CoverJob>)
    requires
        store@.wf(),
    ensures
        view_jobs(r@) == migration_jobs(store@, covers_root@),
{
    let ghost s = store@;
    let mut jobs: Vec<CoverJob> = Vec::new();
    let mut i: usize = 0;
    while i < store.tracks.len()
        invariant
            s == store@,
            s.wf(),
            i <= store.tracks.len(),
            view_jobs(jobs@) == track_jobs(s.tracks.subrange(0, i as int), covers_root@),
        decreases store.tracks.len() - i,
    {
        let ghost pre = s.tracks.subrange(0, i as int);
        assert(s.tracks.subrange(0, i as int + 1).drop_last() =~= pre);
        let t = &store.tracks[i];
        if t.track_cover.is_some() && t.track_cover_path.is_none() {
            assert(1 <= s.tracks[i as int].id);
            let blob = t.track_cover.as_ref().unwrap();
            let job = CoverJob {
                target: CoverTarget::Track,
                id: t.id,
                file_path: cover_path_string(covers_root, CoverTarget::Track, t.id),
                bytes: decode_blob(blob),
            };
            jobs.push(job);
            assert(view_jobs(jobs@) =~= track_jobs(pre, covers_root@).push(track_job(covers_root@, s.tracks[i as int])));
        }
        i = i + 1;
    }
    assert(s.tracks.subrange(0, store.tracks.len() as int) =~= s.tracks);
    let ghost tj = view_jobs(jobs@);
    let mut k: usize = 0;
    while k < store.albums.len()
        invariant
            s == store@,
            s.wf(),
            k <= store.albums.len(),
            tj == track_jobs(s.tracks, covers_root@),
            view_jobs(jobs@) == tj + album_jobs(s.albums.subrange(0, k as int), covers_root@),
        decreases store.albums.len() - k,
    {
        let ghost pre = s.albums.subrange(0, k as int);
        assert(s.albums.subrange(0, k as int + 1).drop_last() =~= pre);
        let a = &store.albums[k];
        if a.art_data.is_some() && a.art_path.is_none() {
            assert(1 <= s.albums[k as int].id);
            let blob = a.art_data.as_ref().unwrap();
            let job = CoverJob {
                target: CoverTarget::Album,
                id: a.id,
                file_path: cover_path_string(covers_root, CoverTarget::Album, a.id),
                bytes: decode_blob(blob),
            };
            let ghost before = view_jobs(jobs@);
            let ghost jv = job@;
            assert(jv == album_job(covers_root@, s.albums[k as int]));
            jobs.push(job);
            assert(view_jobs(jobs@) =~= before.push(jv));
            assert(before.push(jv) =~= tj + album_jobs(pre, covers_root@).push(album_job(covers_root@, s.albums[k as int])));
        }
        k = k + 1;
    }
    assert(s.albums.subrange(0, store.albums.len() as int) =~= s.albums);
    jobs
}


/// A job went through: its bytes were decoded and its file was written.
pub open spec fn job_done(j: CoverJobView, out: Option<Seq<char>>) -> bool {
    j.bytes is Some && out is None
}

/// The store after recording one job's file, where the job went through.
pub open spec fn apply_job(s: StoreView, j: CoverJobView, out: Option<Seq<char>>) -> StoreView {
    if job_done(j, out) {
        if j.target == CoverTarget::Track {
            StoreView { tracks: with_track_cover_path(s.tracks, j.id, j.file_path), ..s }
        } else {
            StoreView { albums: with_album_art_path(s.albums, j.id, j.file_path), ..s }
        }
    } else {
        s
    }
}

/// The store after recording the jobs in order, each with its write outcome.
pub open spec fn apply_jobs(s: StoreView, js: Seq<CoverJobView>, outs: Seq<Option<Seq<char>>>) -> StoreView
    decreases js.len(),
{
    if js.len() == 0 || outs.len() == 0 {
        s
    } else {
        apply_job(apply_jobs(s, js.drop_last(), outs.drop_last()), js.last(), outs.last())
    }
}

pub open spec fn row_exists(s: StoreView, target: CoverTarget, id: i64) -> bool {
    if target == CoverTarget::Track {
        has_track(s.tracks, id)
    } else {
        has_album(s.albums, id)
    }
}

/// How many jobs for rows of `target` went through and found their row.
pub open spec fn migrated_count(
    s: StoreView,
    js: Seq<CoverJobView>,
    outs: Seq<Option<Seq<char>>>,
    target: CoverTarget,
) -> nat
    decreases js.len(),
{
    if js.len() == 0 || outs.len() == 0 {
        0
    } else {
        let j = js.last();
        migrated_count(s, js.drop_last(), outs.drop_last(), target) + if job_done(j, outs.last())
            && j.target == target && row_exists(s, target, j.id) {
            1nat
        } else {
            0nat
        }
    }
}

/// What one job adds to the report's errors.
pub open spec fn job_error(j: CoverJobView, out: Option<Seq<char>>) -> Seq<Seq<char>> {
    if j.bytes is None {
        seq!["Failed to decode the inline cover for "@ + j.file_path]
    } else {
        match out {
            Some(e) => seq!["Failed to save cover "@ + j.file_path + ": "@ + e],
            None => Seq::empty(),
        }
    }
}

pub open spec fn job_errors(js: Seq<CoverJobView>, outs: Seq<Option<Seq<char>>>) -> Seq<Seq<char>>
    decreases js.len(),
{
    if js.len() == 0 || outs.len() == 0 {
        Seq::empty()
    } else {
        job_errors(js.drop_last(), outs.drop_last()) + job_error(js.last(), outs.last())
    }
}

proof fn lemma_apply_keeps_rows(s: StoreView, js: Seq<CoverJobView>, outs: Seq<Option<Seq<char>>>, t: CoverTarget, id: i64)
    ensures
        row_exists(apply_jobs(s, js, outs), t, id) == row_exists(s, t, id),
    decreases js.len(),
{
    if js.len() > 0 && outs.len() > 0 {
        let mid = apply_jobs(s, js.drop_last(), outs.drop_last());
        lemma_apply_keeps_rows(s, js.drop_last(), outs.drop_last(), t, id);
        let j = js.last();
        if j.target == CoverTarget::Track {
            crate::covers::lemma_path_update_keeps_ids(mid.tracks, j.id, j.file_path, id);
        } else {
            crate::covers::lemma_art_update_keeps_ids(mid.albums, j.id, j.file_path, id);
        }
    }
}

/// Records the outcome of a migration's file writes: for each job, `None`
/// where its file was written, else why it was not. A job that went through
/// sets its row's file path; a job whose bytes could not be decoded or whose
/// file could not be written is reported and skipped, and the rest go on.
pub fn apply_cover_migration(
    store: &mut Store,
    jobs: &Vec<CoverJob>,
    write_errors: &Vec<Option<String>>,
) -> (r: MigrationProgress)
    requires
        old(store)@.wf(),
        jobs@.len() == write_errors@.len(),
        old(store)@.tracks.len() + old(store)@.albums.len() <= usize::MAX,
    ensures
        final(store)@.wf(),
        final(store)@ == apply_jobs(old(store)@, view_jobs(jobs@), view_opts(write_errors@)),
        r.total == old(store)@.tracks.len() + old(store)@.albums.len(),
        r.processed == r.total,
        r.tracks_migrated == migrated_count(old(store)@, view_jobs(jobs@), view_opts(write_errors@), CoverTarget::Track),
        r.albums_migrated == migrated_count(old(store)@, view_jobs(jobs@), view_opts(write_errors@), CoverTarget::Album),
        view_strings(r.errors@) == job_errors(view_jobs(jobs@), view_opts(write_errors@)),
{
    let ghost s0 = store@;
    let ghost js = view_jobs(jobs@);
    let ghost outs = view_opts(write_errors@);
    let total = store.tracks.len() + store.albums.len();
    let mut tracks_migrated: usize = 0;
    let mut albums_migrated: usize = 0;
    let mut errors: Vec<String> = Vec::new();
    let mut k: usize = 0;
    while k < jobs.len()
        invariant
            k <= jobs.len(),
            jobs@.len() == write_errors@.len(),
            js == view_jobs(jobs@),
            outs == view_opts(write_errors@),
            store@.wf(),
            store@ == apply_jobs(s0, js.subrange(0, k as int), outs.subrange(0, k as int)),
            tracks_migrated == migrated_count(s0, js.subrange(0, k as int), outs.subrange(0, k as int), CoverTarget::Track),
            albums_migrated == migrated_count(s0, js.subrange(0, k as int), outs.subrange(0, k as int), CoverTarget::Album),
            tracks_migrated + albums_migrated <= k,
            view_strings(errors@) == job_errors(js.subrange(0, k as int), outs.subrange(0, k as int)),
        decreases jobs.len() - k,
    {
        let ghost pj = js.subrange(0, k as int);
        let ghost po = outs.subrange(0, k as int);
        assert(js.subrange(0, k as int + 1).drop_last() =~= pj);
        assert(outs.subrange(0, k as int + 1).drop_last() =~= po);
        let ghost errs_before = view_strings(errors@);
        let job = &jobs[k];
        proof {
            lemma_apply_keeps_rows(s0, pj, po, job.target, job.id);
        }
        match &job.bytes {
            None => {
                let mut msg = String::from_str("Failed to decode the inline cover for ");
                msg.append(job.file_path.as_str());
                errors.push(msg);
            },
            Some(_) => match &write_errors[k] {
                Some(e) => {
                    let mut msg = String::from_str("Failed to save cover ");
                    msg.append(job.file_path.as_str());
                    msg.append(": ");
                    msg.append(e.as_str());
                    errors.push(msg);
                },
                None => {
                    if job.target == CoverTarget::Track {
                        if set_track_cover_path(store, job.id, &job.file_path) {
                            tracks_migrated = tracks_migrated + 1;
                        }
                    } else {
                        if set_album_art_path(store, job.id, &job.file_path) {
                            albums_migrated = albums_migrated + 1;
                        }
                    }
                },
            },
        }
        assert(view_strings(errors@) =~= errs_before + job_error(js[k as int], outs[k as int]));
        k = k + 1;
    }
    assert(js.subrange(0, jobs.len() as int) =~= js);
    assert(outs.subrange(0, jobs.len() as int) =~= outs);
    MigrationProgress {
        total,
        processed: total,
        tracks_migrated,
        albums_migrated,
        errors,
    }
}

} // verus!
