use vstd::prelude::*;

use crate::index::{has_room, index_record, insert_or_update_track, Upsert};
use crate::metadata::{metadata_from_probe, metadata_record, AudioProbe};
use crate::model::{ScanResult, TrackInsertView};
use crate::store::{Store, StoreView};

verus! {

/// One file the walker found, with what parsing it gave: the parsed audio,
/// or why it could not be read.
pub struct ScannedFile {
    pub path: String,
    pub probe: Result<AudioProbe, String>,
}

pub open spec fn probe_of(f: ScannedFile) -> Option<AudioProbe> {
    match f.probe {
        Ok(p) => Some(p),
        Err(_) => None,
    }
}

/// The metadata record a scanned file yields.
pub open spec fn file_record(f: ScannedFile) -> TrackInsertView {
    metadata_record(f.path@, probe_of(f))
}

/// The store after indexing the files in order.
pub open spec fn scan_state(s: StoreView, fs: Seq<ScannedFile>) -> StoreView
    decreases fs.len(),
{
    if fs.len() == 0 {
        s
    } else {
        index_record(scan_state(s, fs.drop_last()), file_record(fs.last()))
    }
}

/// How many of the files were new tracks.
pub open spec fn scan_added(s: StoreView, fs: Seq<ScannedFile>) -> nat
    decreases fs.len(),
{
    if fs.len() == 0 {
        0
    } else {
        let mid = scan_state(s, fs.drop_last());
        scan_added(s, fs.drop_last()) + if has_room(mid) && crate::index::track_index(
            mid.tracks,
            fs.last().path@,
        ) is None {
            1nat
        } else {
            0nat
        }
    }
}

/// How many of the files were tracks already indexed.
pub open spec fn scan_updated(s: StoreView, fs: Seq<ScannedFile>) -> nat
    decreases fs.len(),
{
    if fs.len() == 0 {
        0
    } else {
        let mid = scan_state(s, fs.drop_last());
        scan_updated(s, fs.drop_last()) + if has_room(mid) && crate::index::track_index(
            mid.tracks,
            fs.last().path@,
        ) is Some {
            1nat
        } else {
            0nat
        }
    }
}

pub open spec fn read_failure_message(path: Seq<char>, why: Seq<char>) -> Seq<char> {
    "Failed to read audio file "@ + path + ": "@ + why
}

pub open spec fn insert_failure_message(path: Seq<char>, why: Seq<char>) -> Seq<char> {
    "Failed to insert "@ + path + ": "@ + why
}

/// The errors one file adds to a scan's report, given the store before it.
pub open spec fn file_errors(s: StoreView, f: ScannedFile) -> Seq<Seq<char>> {
    let read = match f.probe {
        Ok(_) => Seq::<Seq<char>>::empty(),
        Err(why) => seq![read_failure_message(f.path@, why@)],
    };
    if has_room(s) {
        read
    } else {
        read.push(insert_failure_message(f.path@, "no track or album id is left to assign"@))
    }
}

/// The errors the files add to a scan's report, in order.
pub open spec fn scan_errors(s: StoreView, fs: Seq<ScannedFile>) -> Seq<Seq<char>>
    decreases fs.len(),
{
    if fs.len() == 0 {
        Seq::empty()
    } else {
        scan_errors(s, fs.drop_last()) + file_errors(scan_state(s, fs.drop_last()), fs.last())
    }
}

/// No two files share a path, as in the listing of a directory tree.
pub open spec fn distinct_paths(fs: Seq<ScannedFile>) -> bool {
    forall|a: int, b: int| 0 <= a < fs.len() && 0 <= b < fs.len() && a != b ==> (#[trigger] fs[a]).path@ != (#[trigger] fs[b]).path@
}

pub open spec fn view_strings(v: Seq<String>) -> Seq<Seq<char>> {
    v.map_values(|e: String| e@)
}

/// Indexes the files a walk found. Each file yields a record (the fallback
/// record where it could not be parsed, which is also reported); no single
/// file stops the batch. The report starts with the walk's own errors.
pub fn index_scanned_files(store: &mut Store, walk_errors: Vec<String>, files: &Vec<ScannedFile>) -> (r: ScanResult)
    requires
        old(store)@.wf(),
    ensures
        final(store)@.wf(),
        final(store)@ == scan_state(old(store)@, files@),
        r.tracks_added == scan_added(old(store)@, files@),
        r.tracks_updated == scan_updated(old(store)@, files@),
        view_strings(r.errors@) == view_strings(walk_errors@) + scan_errors(old(store)@, files@),
        distinct_paths(files@) ==> scan_state(final(store)@, files@) == final(store)@ && scan_added(final(store)@, files@) == 0,
{
    let ghost s0 = store@;
    let mut errors = walk_errors;
    let ghost e0 = view_strings(errors@);
    let mut added: usize = 0;
    let mut updated: usize = 0;
    let mut i: usize = 0;
    while i < files.len()
        invariant
            i <= files.len(),
            store@.wf(),
            store@ == scan_state(s0, files@.subrange(0, i as int)),
            added == scan_added(s0, files@.subrange(0, i as int)),
            updated == scan_updated(s0, files@.subrange(0, i as int)),
            added + updated <= i,
            view_strings(errors@) == e0 + scan_errors(s0, files@.subrange(0, i as int)),
        decreases files.len() - i,
    {
        let ghost pre = files@.subrange(0, i as int);
        let ghost next = files@.subrange(0, i as int + 1);
        assert(next.drop_last() =~= pre);
        let ghost mid = store@;
        let f = &files[i];
        let ghost errs_before = view_strings(errors@);
        let rec = match &f.probe {
            Ok(p) => metadata_from_probe(f.path.as_str(), Some(p)),
            Err(why) => {
                let mut msg = String::from_str("Failed to read audio file ");
                msg.append(f.path.as_str());
                msg.append(": ");
                msg.append(why.as_str());
                errors.push(msg);
                metadata_from_probe(f.path.as_str(), None)
            },
        };
        match insert_or_update_track(store, &rec) {
            Ok(Upsert::Inserted(_)) => {
                added = added + 1;
            },
            Ok(Upsert::Updated(_)) => {
                updated = updated + 1;
            },
            Err(why) => {
                let mut msg = String::from_str("Failed to insert ");
                msg.append(f.path.as_str());
                msg.append(": ");
                msg.append(why.as_str());
                errors.push(msg);
            },
        }
        assert(view_strings(errors@) =~= errs_before + file_errors(mid, files@[i as int]));
        i = i + 1;
    }
    assert(files@.subrange(0, files.len() as int) =~= files@);
    proof {
        if distinct_paths(files@) {
            crate::laws::lemma_scan_idempotent(s0, files@);
        }
    }
    ScanResult { tracks_added: added, tracks_updated: updated, errors }
}

} // verus!
