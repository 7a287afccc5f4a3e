use vstd::prelude::*;

use crate::model::{Album, AlbumView, Playlist, PlaylistTrack, PlaylistView, Track, TrackView};

verus! {

/// The relational state the engine reads and writes: tracks, albums,
/// playlists and their memberships, with the next surrogate ids to hand out.
pub struct Store {
    pub tracks: Vec<Track>,
    pub albums: Vec<Album>,
    pub playlists: Vec<Playlist>,
    pub playlist_tracks: Vec<PlaylistTrack>,
    pub next_track_id: i64,
    pub next_album_id: i64,
    pub next_playlist_id: i64,
}

pub struct StoreView {
    pub tracks: Seq<TrackView>,
    pub albums: Seq<AlbumView>,
    pub playlists: Seq<PlaylistView>,
    pub playlist_tracks: Seq<PlaylistTrack>,
    pub next_track_id: i64,
    pub next_album_id: i64,
    pub next_playlist_id: i64,
}

pub open spec fn view_playlists(v: Seq<Playlist>) -> Seq<PlaylistView> {
    v.map_values(|p: Playlist| p@)
}

pub open spec fn view_tracks(v: Seq<Track>) -> Seq<TrackView> {
    v.map_values(|t: Track| t@)
}

pub open spec fn view_albums(v: Seq<Album>) -> Seq<AlbumView> {
    v.map_values(|a: Album| a@)
}

impl View for Store {
    type V = StoreView;

    open spec fn view(&self) -> StoreView {
        StoreView {
            tracks: view_tracks(self.tracks@),
            albums: view_albums(self.albums@),
            playlists: view_playlists(self.playlists@),
            playlist_tracks: self.playlist_tracks@,
            next_track_id: self.next_track_id,
            next_album_id: self.next_album_id,
            next_playlist_id: self.next_playlist_id,
        }
    }
}

/// Two albums are one entity iff their names match and their artists match,
/// two absent artists included.
pub open spec fn album_matches(a: AlbumView, name: Seq<char>, artist: Option<Seq<char>>) -> bool {
    a.name == name && a.artist == artist
}

/// Track ids are distinct and below the next one; paths are distinct.
pub open spec fn tracks_wf(ts: Seq<TrackView>, next_id: i64) -> bool {
    &&& forall|i: int| 0 <= i < ts.len() ==> 1 <= #[trigger] ts[i].id < next_id
    &&& forall|i: int, j: int|
        0 <= i < ts.len() && 0 <= j < ts.len() && i != j ==> #[trigger] ts[i].id != #[trigger] ts[j].id
    &&& forall|i: int, j: int|
        0 <= i < ts.len() && 0 <= j < ts.len() && i != j ==> #[trigger] ts[i].path != #[trigger] ts[j].path
}

/// Album ids are distinct and below the next one; (name, artist) keys are distinct.
pub open spec fn albums_wf(als: Seq<AlbumView>, next_id: i64) -> bool {
    &&& forall|i: int| 0 <= i < als.len() ==> 1 <= #[trigger] als[i].id < next_id
    &&& forall|i: int, j: int|
        0 <= i < als.len() && 0 <= j < als.len() && i != j ==> #[trigger] als[i].id != #[trigger] als[j].id
    &&& forall|i: int, j: int|
        0 <= i < als.len() && 0 <= j < als.len() && i != j ==> !album_matches(
            #[trigger] als[i],
            #[trigger] als[j].name,
            als[j].artist,
        )
}

/// Playlist ids are distinct and below the next one.
pub open spec fn playlists_wf(ps: Seq<PlaylistView>, next_id: i64) -> bool {
    &&& forall|i: int| 0 <= i < ps.len() ==> 1 <= #[trigger] ps[i].id < next_id
    &&& forall|i: int, j: int|
        0 <= i < ps.len() && 0 <= j < ps.len() && i != j ==> #[trigger] ps[i].id != #[trigger] ps[j].id
}

/// Each (playlist, track) pair appears at most once.
pub open spec fn playlist_wf(pts: Seq<PlaylistTrack>) -> bool {
    forall|i: int, j: int|
        0 <= i < pts.len() && 0 <= j < pts.len() && i != j ==> !(#[trigger] pts[i].playlist_id
            == #[trigger] pts[j].playlist_id && pts[i].track_id == pts[j].track_id)
}

impl StoreView {
    pub open spec fn wf(self) -> bool {
        &&& 1 <= self.next_track_id
        &&& 1 <= self.next_album_id
        &&& 1 <= self.next_playlist_id
        &&& tracks_wf(self.tracks, self.next_track_id)
        &&& albums_wf(self.albums, self.next_album_id)
        &&& playlists_wf(self.playlists, self.next_playlist_id)
        &&& playlist_wf(self.playlist_tracks)
    }
}

impl Store {
    /// An empty store; the first ids handed out are 1.
    pub fn new() -> (r: Store)
        ensures
            r@.wf(),
            r@.tracks.len() == 0,
            r@.albums.len() == 0,
            r@.playlists.len() == 0,
            r@.playlist_tracks.len() == 0,
            r@.next_track_id == 1,
            r@.next_album_id == 1,
            r@.next_playlist_id == 1,
    {
        Store {
            tracks: Vec::new(),
            albums: Vec::new(),
            playlists: Vec::new(),
            playlist_tracks: Vec::new(),
            next_track_id: 1,
            next_album_id: 1,
            next_playlist_id: 1,
        }
    }
}


/// Checks that track ids are positive and distinct, and paths distinct.
fn tracks_valid(ts: &Vec<Track>) -> (r: bool)
    ensures
        r == tracks_wf(view_tracks(ts@), i64::MAX),
{
    let ghost v = view_tracks(ts@);
    let mut i: usize = 0;
    while i < ts.len()
        invariant
            v == view_tracks(ts@),
            i <= ts.len(),
            tracks_wf(v.subrange(0, i as int), i64::MAX),
        decreases ts.len() - i,
    {
        if ts[i].id < 1 || ts[i].id == i64::MAX {
            assert(!tracks_wf(v, i64::MAX)) by {
                assert(v[i as int].id == ts@[i as int].id);
            }
            return false;
        }
        let mut j: usize = 0;
        while j < i
            invariant
                v == view_tracks(ts@),
                j <= i < ts.len(),
                forall|k: int| 0 <= k < j ==> (#[trigger] v[k]).id != v[i as int].id && v[k].path != v[i as int].path,
            decreases i - j,
        {
            if ts[j].id == ts[i].id || ts[j].path == ts[i].path {
                assert(!tracks_wf(v, i64::MAX)) by {
                    assert(v[j as int].id == v[i as int].id || v[j as int].path == v[i as int].path);
                }
                return false;
            }
            j = j + 1;
        }
        assert(tracks_wf(v.subrange(0, i as int + 1), i64::MAX)) by {
            let w = v.subrange(0, i as int + 1);
            let p = v.subrange(0, i as int);
            assert forall|a: int, b: int| 0 <= a < w.len() && 0 <= b < w.len() && a != b implies #[trigger] w[a].id != #[trigger] w[b].id by {
                if a < i && b < i {
                    assert(w[a] == p[a] && w[b] == p[b]);
                }
            }
            assert forall|a: int, b: int| 0 <= a < w.len() && 0 <= b < w.len() && a != b implies #[trigger] w[a].path != #[trigger] w[b].path by {
                if a < i && b < i {
                    assert(w[a] == p[a] && w[b] == p[b]);
                }
            }
            assert forall|a: int| 0 <= a < w.len() implies 1 <= #[trigger] w[a].id < i64::MAX by {
                if a < i {
                    assert(w[a] == p[a]);
                }
            }
        }
        i = i + 1;
    }
    assert(v.subrange(0, ts.len() as int) =~= v);
    true
}

/// Checks that album ids are positive and distinct, and (name, artist) keys distinct.
fn albums_valid(als: &Vec<Album>) -> (r: bool)
    ensures
        r == albums_wf(view_albums(als@), i64::MAX),
{
    let ghost v = view_albums(als@);
    let mut i: usize = 0;
    while i < als.len()
        invariant
            v == view_albums(als@),
            i <= als.len(),
            albums_wf(v.subrange(0, i as int), i64::MAX),
        decreases als.len() - i,
    {
        if als[i].id < 1 || als[i].id == i64::MAX {
            assert(!albums_wf(v, i64::MAX)) by {
                assert(v[i as int].id == als@[i as int].id);
            }
            return false;
        }
        let mut j: usize = 0;
        while j < i
            invariant
                v == view_albums(als@),
                j <= i < als.len(),
                forall|k: int| 0 <= k < j ==> (#[trigger] v[k]).id != v[i as int].id && !album_matches(
                    v[k],
                    v[i as int].name,
                    v[i as int].artist,
                ),
            decreases i - j,
        {
            if als[j].id == als[i].id || (als[j].name == als[i].name && crate::model::same_opt(&als[j].artist, &als[i].artist)) {
                assert(!albums_wf(v, i64::MAX)) by {
                    assert(v[j as int].id == v[i as int].id || album_matches(v[j as int], v[i as int].name, v[i as int].artist));
                }
                return false;
            }
            j = j + 1;
        }
        assert(albums_wf(v.subrange(0, i as int + 1), i64::MAX)) by {
            let w = v.subrange(0, i as int + 1);
            let p = v.subrange(0, i as int);
            assert forall|a: int, b: int| 0 <= a < w.len() && 0 <= b < w.len() && a != b implies #[trigger] w[a].id != #[trigger] w[b].id by {
                if a < i && b < i {
                    assert(w[a] == p[a] && w[b] == p[b]);
                }
            }
            assert forall|a: int, b: int|
                0 <= a < w.len() && 0 <= b < w.len() && a != b implies !album_matches(
                #[trigger] w[a],
                #[trigger] w[b].name,
                w[b].artist,
            ) by {
                if a < i && b < i {
                    assert(w[a] == p[a] && w[b] == p[b]);
                }
            }
            assert forall|a: int| 0 <= a < w.len() implies 1 <= #[trigger] w[a].id < i64::MAX by {
                if a < i {
                    assert(w[a] == p[a]);
                }
            }
        }
        i = i + 1;
    }
    assert(v.subrange(0, als.len() as int) =~= v);
    true
}

/// Checks that playlist ids are positive and distinct.
fn playlists_valid(ps: &Vec<Playlist>) -> (r: bool)
    ensures
        r == playlists_wf(view_playlists(ps@), i64::MAX),
{
    let ghost v = view_playlists(ps@);
    let mut i: usize = 0;
    while i < ps.len()
        invariant
            v == view_playlists(ps@),
            i <= ps.len(),
            playlists_wf(v.subrange(0, i as int), i64::MAX),
        decreases ps.len() - i,
    {
        if ps[i].id < 1 || ps[i].id == i64::MAX {
            assert(!playlists_wf(v, i64::MAX)) by {
                assert(v[i as int].id == ps@[i as int].id);
            }
            return false;
        }
        let mut j: usize = 0;
        while j < i
            invariant
                v == view_playlists(ps@),
                j <= i < ps.len(),
                forall|k: int| 0 <= k < j ==> (#[trigger] v[k]).id != v[i as int].id,
            decreases i - j,
        {
            if ps[j].id == ps[i].id {
                assert(!playlists_wf(v, i64::MAX)) by {
                    assert(v[j as int].id == v[i as int].id);
                }
                return false;
            }
            j = j + 1;
        }
        assert(playlists_wf(v.subrange(0, i as int + 1), i64::MAX)) by {
            let w = v.subrange(0, i as int + 1);
            let p = v.subrange(0, i as int);
            assert forall|a: int, b: int| 0 <= a < w.len() && 0 <= b < w.len() && a != b implies #[trigger] w[a].id != #[trigger] w[b].id by {
                if a < i && b < i {
                    assert(w[a] == p[a] && w[b] == p[b]);
                }
            }
            assert forall|a: int| 0 <= a < w.len() implies 1 <= #[trigger] w[a].id < i64::MAX by {
                if a < i {
                    assert(w[a] == p[a]);
                }
            }
        }
        i = i + 1;
    }
    assert(v.subrange(0, ps.len() as int) =~= v);
    true
}

/// Checks that no (playlist, track) pair appears twice.
fn memberships_valid(pts: &Vec<PlaylistTrack>) -> (r: bool)
    ensures
        r == playlist_wf(pts@),
{
    let mut i: usize = 0;
    while i < pts.len()
        invariant
            i <= pts.len(),
            playlist_wf(pts@.subrange(0, i as int)),
        decreases pts.len() - i,
    {
        let mut j: usize = 0;
        while j < i
            invariant
                j <= i < pts.len(),
                forall|k: int| 0 <= k < j ==> !((#[trigger] pts@[k]).playlist_id == pts@[i as int].playlist_id
                    && pts@[k].track_id == pts@[i as int].track_id),
            decreases i - j,
        {
            if pts[j].playlist_id == pts[i].playlist_id && pts[j].track_id == pts[i].track_id {
                return false;
            }
            j = j + 1;
        }
        assert(playlist_wf(pts@.subrange(0, i as int + 1))) by {
            let w = pts@.subrange(0, i as int + 1);
            let p = pts@.subrange(0, i as int);
            assert forall|a: int, b: int|
                0 <= a < w.len() && 0 <= b < w.len() && a != b implies !(#[trigger] w[a].playlist_id
                    == #[trigger] w[b].playlist_id && w[a].track_id == w[b].track_id) by {
                if a < i && b < i {
                    assert(w[a] == p[a] && w[b] == p[b]);
                }
            }
        }
        i = i + 1;
    }
    assert(pts@.subrange(0, pts.len() as int) =~= pts@);
    true
}

/// The rows loaded from a store can stand as one: ids positive and distinct,
/// below `i64::MAX`, paths distinct, album keys distinct, memberships distinct.
pub open spec fn rows_valid(
    tracks: Seq<TrackView>,
    albums: Seq<AlbumView>,
    playlists: Seq<PlaylistView>,
    pts: Seq<PlaylistTrack>,
) -> bool {
    tracks_wf(tracks, i64::MAX) && albums_wf(albums, i64::MAX) && playlists_wf(playlists, i64::MAX)
        && playlist_wf(pts)
}

impl Store {
    /// Builds a store from loaded rows, handing out ids above the highest
    /// loaded one. `None` where the rows break an invariant of the store.
    pub fn from_rows(
        tracks: Vec<Track>,
        albums: Vec<Album>,
        playlists: Vec<Playlist>,
        playlist_tracks: Vec<PlaylistTrack>,
    ) -> (r: Option<Store>)
        ensures
            r is Some <==> rows_valid(view_tracks(tracks@), view_albums(albums@), view_playlists(playlists@), playlist_tracks@),
            r matches Some(st) ==> st@.wf() && st@.tracks == view_tracks(tracks@) && st@.albums == view_albums(
                albums@,
            ) && st@.playlists == view_playlists(playlists@) && st@.playlist_tracks == playlist_tracks@,
    {
        if !tracks_valid(&tracks) || !albums_valid(&albums) || !playlists_valid(&playlists)
            || !memberships_valid(&playlist_tracks) {
            return None;
        }
        let ghost tv = view_tracks(tracks@);
        let ghost av = view_albums(albums@);
        let mut next_track_id: i64 = 1;
        let mut i: usize = 0;
        while i < tracks.len()
            invariant
                tv == view_tracks(tracks@),
                tracks_wf(tv, i64::MAX),
                i <= tracks.len(),
                1 <= next_track_id <= i64::MAX,
                forall|k: int| 0 <= k < i ==> (#[trigger] tv[k]).id < next_track_id,
            decreases tracks.len() - i,
        {
            assert(tv[i as int].id < i64::MAX);
            if tracks[i].id >= next_track_id {
                next_track_id = tracks[i].id + 1;
            }
            i = i + 1;
        }
        let mut next_album_id: i64 = 1;
        let mut k: usize = 0;
        while k < albums.len()
            invariant
                av == view_albums(albums@),
                albums_wf(av, i64::MAX),
                k <= albums.len(),
                1 <= next_album_id <= i64::MAX,
                forall|j: int| 0 <= j < k ==> (#[trigger] av[j]).id < next_album_id,
            decreases albums.len() - k,
        {
            assert(av[k as int].id < i64::MAX);
            if albums[k].id >= next_album_id {
                next_album_id = albums[k].id + 1;
            }
            k = k + 1;
        }
        let ghost pv = view_playlists(playlists@);
        let mut next_playlist_id: i64 = 1;
        let mut m: usize = 0;
        while m < playlists.len()
            invariant
                pv == view_playlists(playlists@),
                playlists_wf(pv, i64::MAX),
                m <= playlists.len(),
                1 <= next_playlist_id <= i64::MAX,
                forall|j: int| 0 <= j < m ==> (#[trigger] pv[j]).id < next_playlist_id,
            decreases playlists.len() - m,
        {
            assert(pv[m as int].id < i64::MAX);
            if playlists[m].id >= next_playlist_id {
                next_playlist_id = playlists[m].id + 1;
            }
            m = m + 1;
        }
        Some(Store { tracks, albums, playlists, playlist_tracks, next_track_id, next_album_id, next_playlist_id })
    }
}

} // verus!
