use vstd::prelude::*;

use crate::covers::{find_track_by_id, has_track};
use crate::model::{Playlist, PlaylistTrack, PlaylistView, Track, TrackView};
use crate::order::{key_lt, rearranged, view_key, view_keys, KeyPart, KeyPartView};
use crate::queries::{arrange_playlists, arrange_tracks, clone_track, name_key, name_part};
use crate::store::{playlist_wf, playlists_wf, view_playlists, view_tracks, Store, StoreView};

verus! {

/// Track `tid` is a member of playlist `pid`.
pub open spec fn is_member(pts: Seq<PlaylistTrack>, pid: i64, tid: i64) -> bool {
    exists|i: int| 0 <= i < pts.len() && pts[i].playlist_id == pid && pts[i].track_id == tid
}

/// The highest position in playlist `pid`, if it has any member.
pub open spec fn max_position(pts: Seq<PlaylistTrack>, pid: i64) -> Option<i32>
    decreases pts.len(),
{
    if pts.len() == 0 {
        None
    } else {
        let prev = max_position(pts.drop_last(), pid);
        let last = pts.last();
        if last.playlist_id != pid {
            prev
        } else {
            match prev {
                Some(m) => if m >= last.position { Some(m) } else { Some(last.position) },
                None => Some(last.position),
            }
        }
    }
}

/// The position a new member of playlist `pid` takes: one past the highest,
/// or 1 in an empty playlist.
pub open spec fn next_position(pts: Seq<PlaylistTrack>, pid: i64) -> int {
    match max_position(pts, pid) {
        Some(m) => m + 1,
        None => 1,
    }
}

/// The memberships after adding track `tid` to playlist `pid`: unchanged
/// where it is already a member, else with it appended at the next position.
pub open spec fn add_member(pts: Seq<PlaylistTrack>, pid: i64, tid: i64) -> Seq<PlaylistTrack> {
    if is_member(pts, pid, tid) {
        pts
    } else {
        pts.push(PlaylistTrack { playlist_id: pid, track_id: tid, position: next_position(pts, pid) as i32 })
    }
}

/// Adds track `track_id` to playlist `playlist_id` at the next position. Adding
/// a member again changes nothing and is no error. Fails, changing nothing,
/// only where the next position does not fit in `i32`.
pub fn add_track_to_playlist(store: &mut Store, playlist_id: i64, track_id: i64) -> (r: Result<(), String>)
    requires
        old(store)@.wf(),
    ensures
        final(store)@.wf(),
        r is Err <==> !is_member(old(store)@.playlist_tracks, playlist_id, track_id)
            && next_position(old(store)@.playlist_tracks, playlist_id) > i32::MAX,
        r is Ok ==> final(store)@ == (StoreView {
            playlist_tracks: add_member(old(store)@.playlist_tracks, playlist_id, track_id),
            ..old(store)@
        }),
        r is Err ==> final(store)@ == old(store)@,
{
    let ghost pts = store@.playlist_tracks;
    let mut best: Option<i32> = None;
    let mut member = false;
    let mut i: usize = 0;
    while i < store.playlist_tracks.len()
        invariant
            pts == store@.playlist_tracks,
            i <= pts.len(),
            best == max_position(pts.subrange(0, i as int), playlist_id),
            member == is_member(pts.subrange(0, i as int), playlist_id, track_id),
        decreases pts.len() - i,
    {
        let ghost pre = pts.subrange(0, i as int);
        let ghost next = pts.subrange(0, i as int + 1);
        assert(next.drop_last() =~= pre);
        let pt = store.playlist_tracks[i];
        if pt.playlist_id == playlist_id {
            best = match best {
                Some(m) => if m >= pt.position { Some(m) } else { Some(pt.position) },
                None => Some(pt.position),
            };
            if pt.track_id == track_id {
                member = true;
                assert(next[i as int] == pt);
            }
        }
        if !member {
            assert(!is_member(next, playlist_id, track_id)) by {
                if is_member(next, playlist_id, track_id) {
                    let j = choose|j: int| 0 <= j < next.len() && next[j].playlist_id == playlist_id && next[j].track_id == track_id;
                    if j < i {
                        assert(pre[j] == next[j]);
                    }
                }
            }
        } else {
            proof {
                if is_member(pre, playlist_id, track_id) {
                    let j = choose|j: int| 0 <= j < pre.len() && pre[j].playlist_id == playlist_id && pre[j].track_id == track_id;
                    assert(next[j] == pre[j]);
                }
            }
        }
        i = i + 1;
    }
    assert(pts.subrange(0, pts.len() as int) =~= pts);
    if member {
        return Ok(());
    }
    let position: i32 = match best {
        Some(m) => {
            if m == i32::MAX {
                return Err(String::from_str("playlist position is out of range"));
            }
            m + 1
        },
        None => 1,
    };
    let ghost s = store@;
    store.playlist_tracks.push(PlaylistTrack { playlist_id, track_id, position });
    assert(store@.playlist_tracks =~= add_member(s.playlist_tracks, playlist_id, track_id));
    assert(playlist_wf(store@.playlist_tracks)) by {
        let np = store@.playlist_tracks;
        assert forall|a: int, b: int|
            0 <= a < np.len() && 0 <= b < np.len() && a != b implies !(#[trigger] np[a].playlist_id
                == #[trigger] np[b].playlist_id && np[a].track_id == np[b].track_id) by {
            if a == pts.len() as int && np[a].playlist_id == np[b].playlist_id && np[a].track_id == np[b].track_id {
                assert(pts[b].playlist_id == playlist_id && pts[b].track_id == track_id);
            }
            if b == pts.len() as int && np[a].playlist_id == np[b].playlist_id && np[a].track_id == np[b].track_id {
                assert(pts[a].playlist_id == playlist_id && pts[a].track_id == track_id);
            }
        }
    }
    Ok(())
}


/// Creates an empty playlist named `name` under the next playlist id. Fails,
/// changing nothing, only where playlist ids have run out.
pub fn create_playlist(store: &mut Store, name: &str) -> (r: Result<i64, String>)
    requires
        old(store)@.wf(),
    ensures
        final(store)@.wf(),
        r is Err <==> old(store)@.next_playlist_id == i64::MAX,
        r is Err ==> final(store)@ == old(store)@,
        r matches Ok(id) ==> id == old(store)@.next_playlist_id && final(store)@ == (StoreView {
            playlists: old(store)@.playlists.push(PlaylistView { id, name: name@, created_at: None }),
            next_playlist_id: (id + 1) as i64,
            ..old(store)@
        }),
{
    if store.next_playlist_id == i64::MAX {
        return Err(String::from_str("no playlist id is left to assign"));
    }
    let ghost s = store@;
    let id = store.next_playlist_id;
    store.playlists.push(Playlist { id, name: String::from_str(name), created_at: None });
    store.next_playlist_id = id + 1;
    assert(store@.playlists =~= s.playlists.push(PlaylistView { id, name: name@, created_at: None }));
    Ok(id)
}

/// The playlists with playlist `id` renamed to `name`.
pub open spec fn renamed(ps: Seq<PlaylistView>, id: i64, name: Seq<char>) -> Seq<PlaylistView> {
    ps.map_values(|p: PlaylistView| if p.id == id { PlaylistView { name, ..p } } else { p })
}

pub open spec fn has_playlist(ps: Seq<PlaylistView>, id: i64) -> bool {
    exists|i: int| 0 <= i < ps.len() && ps[i].id == id
}

/// Renames playlist `playlist_id`; returns whether it exists.
pub fn rename_playlist(store: &mut Store, playlist_id: i64, new_name: &str) -> (r: bool)
    requires
        old(store)@.wf(),
    ensures
        final(store)@.wf(),
        final(store)@ == (StoreView { playlists: renamed(old(store)@.playlists, playlist_id, new_name@), ..old(store)@ }),
        r == has_playlist(old(store)@.playlists, playlist_id),
{
    let ghost s = store@;
    let mut i: usize = 0;
    while i < store.playlists.len()
        invariant
            store@ == s,
            s == old(store)@,
            s.wf(),
            i <= store.playlists.len(),
            forall|j: int| 0 <= j < i ==> (#[trigger] s.playlists[j]).id != playlist_id,
        decreases store.playlists.len() - i,
    {
        if store.playlists[i].id == playlist_id {
            let created_at = crate::model::clone_opt(&store.playlists[i].created_at);
            store.playlists.set(i, Playlist { id: playlist_id, name: String::from_str(new_name), created_at });
            assert(s.playlists[i as int].id == playlist_id);
            assert(store@.playlists =~= renamed(s.playlists, playlist_id, new_name@)) by {
                assert forall|j: int| 0 <= j < s.playlists.len() && j != i implies s.playlists[j].id != playlist_id by {
                    assert(s.playlists[j].id != s.playlists[i as int].id);
                }
            }
            return true;
        }
        i = i + 1;
    }
    assert(renamed(s.playlists, playlist_id, new_name@) =~= s.playlists);
    false
}

/// The playlists without playlist `id`.
pub open spec fn without_playlist(ps: Seq<PlaylistView>, id: i64) -> Seq<PlaylistView> {
    if has_playlist(ps, id) {
        ps.remove(choose|i: int| 0 <= i < ps.len() && ps[i].id == id)
    } else {
        ps
    }
}

/// Deletes playlist `playlist_id`, leaving its memberships as they are;
/// returns whether it existed.
pub fn delete_playlist(store: &mut Store, playlist_id: i64) -> (r: bool)
    requires
        old(store)@.wf(),
    ensures
        final(store)@.wf(),
        final(store)@ == (StoreView { playlists: without_playlist(old(store)@.playlists, playlist_id), ..old(store)@ }),
        r == has_playlist(old(store)@.playlists, playlist_id),
{
    let ghost s = store@;
    let mut i: usize = 0;
    while i < store.playlists.len()
        invariant
            store@ == s,
            s == old(store)@,
            s.wf(),
            i <= store.playlists.len(),
            forall|j: int| 0 <= j < i ==> (#[trigger] s.playlists[j]).id != playlist_id,
        decreases store.playlists.len() - i,
    {
        if store.playlists[i].id == playlist_id {
            let ghost ps = s.playlists;
            let ghost k = choose|k: int| 0 <= k < ps.len() && ps[k].id == playlist_id;
            assert(k == i) by {
                if k != i {
                    assert(ps[k].id != ps[i as int].id);
                }
            }
            store.playlists.remove(i);
            assert(store@.playlists =~= ps.remove(i as int));
            assert(playlists_wf(store@.playlists, s.next_playlist_id)) by {
                let np = store@.playlists;
                assert forall|a: int, b: int| 0 <= a < np.len() && 0 <= b < np.len() && a != b implies #[trigger] np[a].id != #[trigger] np[b].id by {
                    let a2 = if a < i { a } else { a + 1 };
                    let b2 = if b < i { b } else { b + 1 };
                    assert(np[a] == ps[a2] && np[b] == ps[b2]);
                }
                assert forall|a: int| 0 <= a < np.len() implies 1 <= #[trigger] np[a].id < s.next_playlist_id by {
                    let a2 = if a < i { a } else { a + 1 };
                    assert(np[a] == ps[a2]);
                }
            }
            return true;
        }
        i = i + 1;
    }
    false
}

/// The memberships without (pid, tid).
pub open spec fn remove_member(pts: Seq<PlaylistTrack>, pid: i64, tid: i64) -> Seq<PlaylistTrack> {
    if is_member(pts, pid, tid) {
        pts.remove(choose|i: int| 0 <= i < pts.len() && pts[i].playlist_id == pid && pts[i].track_id == tid)
    } else {
        pts
    }
}

/// Takes track `track_id` out of playlist `playlist_id`; returns whether it
/// was a member. The other members keep their positions.
pub fn remove_track_from_playlist(store: &mut Store, playlist_id: i64, track_id: i64) -> (r: bool)
    requires
        old(store)@.wf(),
    ensures
        final(store)@.wf(),
        final(store)@ == (StoreView {
            playlist_tracks: remove_member(old(store)@.playlist_tracks, playlist_id, track_id),
            ..old(store)@
        }),
        r == is_member(old(store)@.playlist_tracks, playlist_id, track_id),
{
    let ghost s = store@;
    let ghost pts = s.playlist_tracks;
    let mut i: usize = 0;
    while i < store.playlist_tracks.len()
        invariant
            store@ == s,
            s == old(store)@,
            pts == s.playlist_tracks,
            s.wf(),
            i <= store.playlist_tracks.len(),
            forall|j: int| 0 <= j < i ==> !((#[trigger] pts[j]).playlist_id == playlist_id && pts[j].track_id == track_id),
        decreases store.playlist_tracks.len() - i,
    {
        let pt = store.playlist_tracks[i];
        if pt.playlist_id == playlist_id && pt.track_id == track_id {
            let ghost k = choose|k: int| 0 <= k < pts.len() && pts[k].playlist_id == playlist_id && pts[k].track_id == track_id;
            assert(k == i) by {
                if k != i {
                    assert(!(pts[k].playlist_id == pts[i as int].playlist_id && pts[k].track_id == pts[i as int].track_id));
                }
            }
            store.playlist_tracks.remove(i);
            assert(playlist_wf(store@.playlist_tracks)) by {
                let np = store@.playlist_tracks;
                assert forall|a: int, b: int|
                    0 <= a < np.len() && 0 <= b < np.len() && a != b implies !(#[trigger] np[a].playlist_id
                        == #[trigger] np[b].playlist_id && np[a].track_id == np[b].track_id) by {
                    let a2 = if a < i { a } else { a + 1 };
                    let b2 = if b < i { b } else { b + 1 };
                    assert(np[a] == pts[a2] && np[b] == pts[b2]);
                }
            }
            return true;
        }
        i = i + 1;
    }
    false
}

/// Every playlist, sorted by name.
pub fn get_all_playlists(store: &Store) -> (r: Vec<Playlist>)
    ensures
        exists|ord: Seq<int>| rearranged(view_playlists(r@), store@.playlists, ord),
        forall|i: int, j: int|
            0 <= i < j < r@.len() ==> !key_lt(
                #[trigger] name_key(view_playlists(r@)[j].name),
                #[trigger] name_key(view_playlists(r@)[i].name),
            ),
{
    let ghost ps = store@.playlists;
    let mut keys: Vec<Vec<KeyPart>> = Vec::new();
    let mut i: usize = 0;
    while i < store.playlists.len()
        invariant
            ps == store@.playlists,
            i <= store.playlists.len(),
            keys@.len() == i,
            forall|m: int| 0 <= m < i ==> #[trigger] view_keys(keys@)[m] == name_key(ps[m].name),
        decreases store.playlists.len() - i,
    {
        let ghost before = keys@;
        keys.push(name_part(&store.playlists[i].name));
        assert forall|m: int| 0 <= m < i + 1 implies #[trigger] view_keys(keys@)[m] == name_key(ps[m].name) by {
            if m < i {
                assert(keys@[m] == before[m]);
                assert(view_keys(before)[m] == name_key(ps[m].name));
            }
        }
        i = i + 1;
    }
    let (out, Ghost(ord)) = arrange_playlists(&store.playlists, &keys);
    assert forall|i: int, j: int|
        0 <= i < j < out@.len() implies !key_lt(
            #[trigger] name_key(view_playlists(out@)[j].name),
            #[trigger] name_key(view_playlists(out@)[i].name),
        ) by {
        assert(view_playlists(out@)[j] == ps[ord[j]]);
        assert(view_playlists(out@)[i] == ps[ord[i]]);
        assert(view_keys(keys@)[ord[j]] == name_key(ps[ord[j]].name));
        assert(view_keys(keys@)[ord[i]] == name_key(ps[ord[i]].name));
    }
    assert(rearranged(view_playlists(out@), store@.playlists, ord));
    out
}

/// The track with id `id`; meaningful where it exists.
pub open spec fn track_with_id(ts: Seq<TrackView>, id: i64) -> TrackView {
    ts[choose|i: int| 0 <= i < ts.len() && ts[i].id == id]
}

/// The tracks of playlist `pid`, in membership order; a membership whose
/// track does not exist is passed over.
pub open spec fn playlist_rows(ts: Seq<TrackView>, pts: Seq<PlaylistTrack>, pid: i64) -> Seq<TrackView>
    decreases pts.len(),
{
    if pts.len() == 0 {
        Seq::empty()
    } else {
        let prev = playlist_rows(ts, pts.drop_last(), pid);
        let m = pts.last();
        if m.playlist_id == pid && has_track(ts, m.track_id) {
            prev.push(track_with_id(ts, m.track_id))
        } else {
            prev
        }
    }
}

/// The positions of the memberships that `playlist_rows` lists, in the same order.
pub open spec fn playlist_positions(ts: Seq<TrackView>, pts: Seq<PlaylistTrack>, pid: i64) -> Seq<int>
    decreases pts.len(),
{
    if pts.len() == 0 {
        Seq::empty()
    } else {
        let prev = playlist_positions(ts, pts.drop_last(), pid);
        let m = pts.last();
        if m.playlist_id == pid && has_track(ts, m.track_id) {
            prev.push(m.position as int)
        } else {
            prev
        }
    }
}

proof fn lemma_position_key(a: int, b: int)
    ensures
        !key_lt(seq![KeyPartView::Int(b)], seq![KeyPartView::Int(a)]) ==> a <= b,
{
    let x = seq![KeyPartView::Int(b)];
    let y = seq![KeyPartView::Int(a)];
    assert(x.drop_first() =~= Seq::<KeyPartView>::empty());
    assert(y.drop_first() =~= Seq::<KeyPartView>::empty());
}

/// The tracks of one playlist, by ascending position; a membership whose
/// track does not exist is passed over.
pub fn get_playlist_tracks(store: &Store, playlist_id: i64) -> (r: Vec<Track>)
    requires
        store@.wf(),
    ensures
        exists|ord: Seq<int>|
            rearranged(view_tracks(r@), playlist_rows(store@.tracks, store@.playlist_tracks, playlist_id), ord)
                && forall|i: int, j: int|
                0 <= i < j < r@.len() ==> #[trigger] playlist_positions(store@.tracks, store@.playlist_tracks, playlist_id)[ord[i]]
                    <= #[trigger] playlist_positions(store@.tracks, store@.playlist_tracks, playlist_id)[ord[j]],
{
    let ghost s = store@;
    let mut rows: Vec<Track> = Vec::new();
    let mut keys: Vec<Vec<KeyPart>> = Vec::new();
    let mut i: usize = 0;
    while i < store.playlist_tracks.len()
        invariant
            s == store@,
            s.wf(),
            i <= store.playlist_tracks.len(),
            view_tracks(rows@) == playlist_rows(s.tracks, s.playlist_tracks.subrange(0, i as int), playlist_id),
            keys@.len() == rows@.len(),
            playlist_positions(s.tracks, s.playlist_tracks.subrange(0, i as int), playlist_id).len() == rows@.len(),
            forall|m: int| 0 <= m < keys@.len() ==> #[trigger] view_keys(keys@)[m] == seq![KeyPartView::Int(
                playlist_positions(s.tracks, s.playlist_tracks.subrange(0, i as int), playlist_id)[m],
            )],
        decreases store.playlist_tracks.len() - i,
    {
        let ghost pre = s.playlist_tracks.subrange(0, i as int);
        let ghost next = s.playlist_tracks.subrange(0, i as int + 1);
        assert(next.drop_last() =~= pre);
        let ghost pos_before = playlist_positions(s.tracks, pre, playlist_id);
        let m = store.playlist_tracks[i];
        if m.playlist_id == playlist_id {
            match find_track_by_id(&store.tracks, m.track_id) {
                Some(k) => {
                    assert(has_track(s.tracks, m.track_id)) by {
                        assert(s.tracks[k as int].id == m.track_id);
                    }
                    let ghost before = view_tracks(rows@);
                    let ghost kbefore = keys@;
                    rows.push(clone_track(&store.tracks[k]));
                    assert(view_tracks(rows@) =~= before.push(track_with_id(s.tracks, m.track_id)));
                    let mut key: Vec<KeyPart> = Vec::new();
                    key.push(KeyPart::Int(m.position as i64));
                    assert(view_key(key@) =~= seq![KeyPartView::Int(m.position as int)]);
                    keys.push(key);
                    assert forall|q: int| 0 <= q < keys@.len() implies #[trigger] view_keys(keys@)[q] == seq![KeyPartView::Int(
                        playlist_positions(s.tracks, next, playlist_id)[q],
                    )] by {
                        if q < kbefore.len() {
                            assert(keys@[q] == kbefore[q]);
                            assert(view_keys(kbefore)[q] == seq![KeyPartView::Int(pos_before[q])]);
                        }
                    }
                },
                None => {},
            }
        }
        i = i + 1;
    }
    assert(s.playlist_tracks.subrange(0, store.playlist_tracks.len() as int) =~= s.playlist_tracks);
    let ghost pos = playlist_positions(s.tracks, s.playlist_tracks, playlist_id);
    let (out, Ghost(ord)) = arrange_tracks(&rows, &keys);
    assert forall|i: int, j: int| 0 <= i < j < out@.len() implies #[trigger] pos[ord[i]] <= #[trigger] pos[ord[j]] by {
        assert(!key_lt(view_keys(keys@)[ord[j]], view_keys(keys@)[ord[i]]));
        lemma_position_key(pos[ord[i]], pos[ord[j]]);
    }
    out
}

} // verus!
