use vstd::prelude::*;

use crate::model::{clone_opt, opt_view, Album, AlbumView, Artist, Playlist, Track, TrackView};
use crate::order::{is_permutation, key_lt, rearranged, sort_order, usize_ints, view_key, view_keys, KeyPart, KeyPartView};
use crate::scan::view_strings;
use crate::store::{view_albums, view_playlists, view_tracks, Store};

verus! {

/// A copy of a track row.
pub fn clone_track(t: &Track) -> (r: Track)
    ensures
        r@ == t@,
{
    Track {
        id: t.id,
        path: t.path.clone(),
        title: clone_opt(&t.title),
        artist: clone_opt(&t.artist),
        album: clone_opt(&t.album),
        track_number: t.track_number,
        duration: t.duration,
        album_id: t.album_id,
        track_cover: clone_opt(&t.track_cover),
        track_cover_path: clone_opt(&t.track_cover_path),
    }
}

/// A copy of an album row.
pub fn clone_album(a: &Album) -> (r: Album)
    ensures
        r@ == a@,
{
    Album {
        id: a.id,
        name: a.name.clone(),
        artist: clone_opt(&a.artist),
        art_data: clone_opt(&a.art_data),
        art_path: clone_opt(&a.art_path),
    }
}


/// A copy of a playlist row.
pub fn clone_playlist(p: &Playlist) -> (r: Playlist)
    ensures
        r@ == p@,
{
    Playlist { id: p.id, name: p.name.clone(), created_at: clone_opt(&p.created_at) }
}

pub(crate) fn clone_string(s: &String) -> (r: String)
    ensures
        r@ == s@,
{
    s.clone()
}

pub open spec fn view_strs(v: Seq<String>) -> Seq<Seq<char>> {
    v.map_values(|s: String| s@)
}

/// An optional text column as a sort key part.
pub open spec fn text_key(o: Option<Seq<char>>) -> KeyPartView {
    match o {
        Some(s) => KeyPartView::Text(s),
        None => KeyPartView::Null,
    }
}

/// An optional integer column as a sort key part.
pub open spec fn int_key(o: Option<i32>) -> KeyPartView {
    match o {
        Some(i) => KeyPartView::Int(i as int),
        None => KeyPartView::Null,
    }
}

/// A sort key of one text column.
pub open spec fn name_key(n: Seq<char>) -> Seq<KeyPartView> {
    seq![KeyPartView::Text(n)]
}

pub(crate) fn text_part(o: &Option<String>) -> (r: KeyPart)
    ensures
        r@ == text_key(opt_view(*o)),
{
    match o {
        Some(s) => KeyPart::Text(s.clone()),
        None => KeyPart::Null,
    }
}

pub(crate) fn int_part(o: Option<i32>) -> (r: KeyPart)
    ensures
        r@ == int_key(o),
{
    match o {
        Some(i) => KeyPart::Int(i as i64),
        None => KeyPart::Null,
    }
}

pub(crate) fn name_part(n: &String) -> (r: Vec<KeyPart>)
    ensures
        view_key(r@) == name_key(n@),
{
    let mut k: Vec<KeyPart> = Vec::new();
    k.push(KeyPart::Text(n.clone()));
    assert(view_key(k@) =~= name_key(n@));
    k
}

/// The orders in which tracks are listed.
#[derive(Clone, Copy, PartialEq, Eq, Structural, Debug)]
pub enum TrackOrder {
    /// By track number, then title: the tracks of one album.
    ByAlbum,
    /// By album, track number, then title: the tracks of one artist.
    ByArtist,
    /// By artist, album, track number, then title: the whole library.
    Library,
}

pub open spec fn track_key(o: TrackOrder, t: TrackView) -> Seq<KeyPartView> {
    match o {
        TrackOrder::ByAlbum => seq![int_key(t.track_number), text_key(t.title)],
        TrackOrder::ByArtist => seq![text_key(t.album), int_key(t.track_number), text_key(t.title)],
        TrackOrder::Library => seq![text_key(t.artist), text_key(t.album), int_key(t.track_number), text_key(t.title)],
    }
}

/// Albums of the whole library are listed by artist, then name.
pub open spec fn library_album_key(a: AlbumView) -> Seq<KeyPartView> {
    seq![text_key(a.artist), KeyPartView::Text(a.name)]
}

fn track_keys(rows: &Vec<Track>, o: TrackOrder) -> (r: Vec<Vec<KeyPart>>)
    ensures
        r@.len() == rows@.len(),
        forall|m: int| 0 <= m < rows@.len() ==> #[trigger] view_keys(r@)[m] == track_key(o, view_tracks(rows@)[m]),
{
    let mut keys: Vec<Vec<KeyPart>> = Vec::new();
    let mut i: usize = 0;
    while i < rows.len()
        invariant
            i <= rows.len(),
            keys@.len() == i,
            forall|m: int| 0 <= m < i ==> #[trigger] view_keys(keys@)[m] == track_key(o, view_tracks(rows@)[m]),
        decreases rows.len() - i,
    {
        let t = &rows[i];
        let mut k: Vec<KeyPart> = Vec::new();
        match o {
            TrackOrder::ByAlbum => {
                k.push(int_part(t.track_number));
                k.push(text_part(&t.title));
            },
            TrackOrder::ByArtist => {
                k.push(text_part(&t.album));
                k.push(int_part(t.track_number));
                k.push(text_part(&t.title));
            },
            TrackOrder::Library => {
                k.push(text_part(&t.artist));
                k.push(text_part(&t.album));
                k.push(int_part(t.track_number));
                k.push(text_part(&t.title));
            },
        }
        assert(view_key(k@) =~= track_key(o, view_tracks(rows@)[i as int]));
        let ghost before = keys@;
        keys.push(k);
        assert forall|m: int| 0 <= m < i + 1 implies #[trigger] view_keys(keys@)[m] == track_key(o, view_tracks(rows@)[m]) by {
            if m < i {
                assert(keys@[m] == before[m]);
                assert(view_keys(before)[m] == track_key(o, view_tracks(rows@)[m]));
            }
        }
        i = i + 1;
    }
    keys
}

/// The tracks sorted in order `o`.
pub(crate) fn sorted_tracks(rows: &Vec<Track>, o: TrackOrder) -> (r: Vec<Track>)
    ensures
        exists|ord: Seq<int>| rearranged(view_tracks(r@), view_tracks(rows@), ord),
        forall|i: int, j: int|
            0 <= i < j < r@.len() ==> !key_lt(
                #[trigger] track_key(o, view_tracks(r@)[j]),
                #[trigger] track_key(o, view_tracks(r@)[i]),
            ),
{
    let keys = track_keys(rows, o);
    let (out, Ghost(ord)) = arrange_tracks(rows, &keys);
    assert forall|i: int, j: int|
        0 <= i < j < out@.len() implies !key_lt(
            #[trigger] track_key(o, view_tracks(out@)[j]),
            #[trigger] track_key(o, view_tracks(out@)[i]),
        ) by {
        assert(view_tracks(out@)[j] == view_tracks(rows@)[ord[j]]);
        assert(view_tracks(out@)[i] == view_tracks(rows@)[ord[i]]);
        assert(view_keys(keys@)[ord[j]] == track_key(o, view_tracks(rows@)[ord[j]]));
        assert(view_keys(keys@)[ord[i]] == track_key(o, view_tracks(rows@)[ord[i]]));
    }
    out
}

/// `rows` rearranged so that their keys ascend, with the permutation used.
pub(crate) fn arrange_tracks(rows: &Vec<Track>, keys: &Vec<Vec<KeyPart>>) -> (r: (Vec<Track>, Ghost<Seq<int>>))
    requires
        keys@.len() == rows@.len(),
    ensures
        rearranged(view_tracks(r.0@), view_tracks(rows@), r.1@),
        forall|i: int, j: int|
            0 <= i < j < r.0@.len() ==> !key_lt(
                #[trigger] view_keys(keys@)[r.1@[j]],
                #[trigger] view_keys(keys@)[r.1@[i]],
            ),
{
    let order = sort_order(keys);
    let ghost ord = usize_ints(order@);
    let mut out: Vec<Track> = Vec::new();
    let mut k: usize = 0;
    while k < order.len()
        invariant
            ord == usize_ints(order@),
            is_permutation(ord, rows@.len() as int),
            k <= order.len(),
            out@.len() == k,
            forall|m: int| 0 <= m < k ==> #[trigger] view_tracks(out@)[m] == view_tracks(rows@)[ord[m]],
        decreases order.len() - k,
    {
        assert(ord[k as int] == order@[k as int] as int);
        let ghost before = out@;
        out.push(clone_track(&rows[order[k]]));
        assert forall|m: int| 0 <= m < k + 1 implies #[trigger] view_tracks(out@)[m] == view_tracks(rows@)[ord[m]] by {
            if m < k {
                assert(out@[m] == before[m]);
                assert(view_tracks(before)[m] == view_tracks(rows@)[ord[m]]);
            }
        }
        k = k + 1;
    }
    assert forall|i: int, j: int|
        0 <= i < j < out@.len() implies !key_lt(
            #[trigger] view_keys(keys@)[ord[j]],
            #[trigger] view_keys(keys@)[ord[i]],
        ) by {
        assert(ord[j] == order@[j] as int && ord[i] == order@[i] as int);
        assert(!key_lt(view_keys(keys@)[order@[j] as int], view_keys(keys@)[order@[i] as int]));
    }
    (out, Ghost(ord))
}

/// `rows` rearranged so that their keys ascend, with the permutation used.
pub(crate) fn arrange_albums(rows: &Vec<Album>, keys: &Vec<Vec<KeyPart>>) -> (r: (Vec<Album>, Ghost<Seq<int>>))
    requires
        keys@.len() == rows@.len(),
    ensures
        rearranged(view_albums(r.0@), view_albums(rows@), r.1@),
        forall|i: int, j: int|
            0 <= i < j < r.0@.len() ==> !key_lt(
                #[trigger] view_keys(keys@)[r.1@[j]],
                #[trigger] view_keys(keys@)[r.1@[i]],
            ),
{
    let order = sort_order(keys);
    let ghost ord = usize_ints(order@);
    let mut out: Vec<Album> = Vec::new();
    let mut k: usize = 0;
    while k < order.len()
        invariant
            ord == usize_ints(order@),
            is_permutation(ord, rows@.len() as int),
            k <= order.len(),
            out@.len() == k,
            forall|m: int| 0 <= m < k ==> #[trigger] view_albums(out@)[m] == view_albums(rows@)[ord[m]],
        decreases order.len() - k,
    {
        assert(ord[k as int] == order@[k as int] as int);
        let ghost before = out@;
        out.push(clone_album(&rows[order[k]]));
        assert forall|m: int| 0 <= m < k + 1 implies #[trigger] view_albums(out@)[m] == view_albums(rows@)[ord[m]] by {
            if m < k {
                assert(out@[m] == before[m]);
                assert(view_albums(before)[m] == view_albums(rows@)[ord[m]]);
            }
        }
        k = k + 1;
    }
    assert forall|i: int, j: int|
        0 <= i < j < out@.len() implies !key_lt(
            #[trigger] view_keys(keys@)[ord[j]],
            #[trigger] view_keys(keys@)[ord[i]],
        ) by {
        assert(ord[j] == order@[j] as int && ord[i] == order@[i] as int);
        assert(!key_lt(view_keys(keys@)[order@[j] as int], view_keys(keys@)[order@[i] as int]));
    }
    (out, Ghost(ord))
}

/// `rows` rearranged so that their keys ascend, with the permutation used.
pub(crate) fn arrange_playlists(rows: &Vec<Playlist>, keys: &Vec<Vec<KeyPart>>) -> (r: (Vec<Playlist>, Ghost<Seq<int>>))
    requires
        keys@.len() == rows@.len(),
    ensures
        rearranged(view_playlists(r.0@), view_playlists(rows@), r.1@),
        forall|i: int, j: int|
            0 <= i < j < r.0@.len() ==> !key_lt(
                #[trigger] view_keys(keys@)[r.1@[j]],
                #[trigger] view_keys(keys@)[r.1@[i]],
            ),
{
    let order = sort_order(keys);
    let ghost ord = usize_ints(order@);
    let mut out: Vec<Playlist> = Vec::new();
    let mut k: usize = 0;
    while k < order.len()
        invariant
            ord == usize_ints(order@),
            is_permutation(ord, rows@.len() as int),
            k <= order.len(),
            out@.len() == k,
            forall|m: int| 0 <= m < k ==> #[trigger] view_playlists(out@)[m] == view_playlists(rows@)[ord[m]],
        decreases order.len() - k,
    {
        assert(ord[k as int] == order@[k as int] as int);
        let ghost before = out@;
        out.push(clone_playlist(&rows[order[k]]));
        assert forall|m: int| 0 <= m < k + 1 implies #[trigger] view_playlists(out@)[m] == view_playlists(rows@)[ord[m]] by {
            if m < k {
                assert(out@[m] == before[m]);
                assert(view_playlists(before)[m] == view_playlists(rows@)[ord[m]]);
            }
        }
        k = k + 1;
    }
    assert forall|i: int, j: int|
        0 <= i < j < out@.len() implies !key_lt(
            #[trigger] view_keys(keys@)[ord[j]],
            #[trigger] view_keys(keys@)[ord[i]],
        ) by {
        assert(ord[j] == order@[j] as int && ord[i] == order@[i] as int);
        assert(!key_lt(view_keys(keys@)[order@[j] as int], view_keys(keys@)[order@[i] as int]));
    }
    (out, Ghost(ord))
}

/// `rows` rearranged so that their keys ascend, with the permutation used.
pub(crate) fn arrange_strings(rows: &Vec<String>, keys: &Vec<Vec<KeyPart>>) -> (r: (Vec<String>, Ghost<Seq<int>>))
    requires
        keys@.len() == rows@.len(),
    ensures
        rearranged(view_strs(r.0@), view_strs(rows@), r.1@),
        forall|i: int, j: int|
            0 <= i < j < r.0@.len() ==> !key_lt(
                #[trigger] view_keys(keys@)[r.1@[j]],
                #[trigger] view_keys(keys@)[r.1@[i]],
            ),
{
    let order = sort_order(keys);
    let ghost ord = usize_ints(order@);
    let mut out: Vec<String> = Vec::new();
    let mut k: usize = 0;
    while k < order.len()
        invariant
            ord == usize_ints(order@),
            is_permutation(ord, rows@.len() as int),
            k <= order.len(),
            out@.len() == k,
            forall|m: int| 0 <= m < k ==> #[trigger] view_strs(out@)[m] == view_strs(rows@)[ord[m]],
        decreases order.len() - k,
    {
        assert(ord[k as int] == order@[k as int] as int);
        let ghost before = out@;
        out.push(clone_string(&rows[order[k]]));
        assert forall|m: int| 0 <= m < k + 1 implies #[trigger] view_strs(out@)[m] == view_strs(rows@)[ord[m]] by {
            if m < k {
                assert(out@[m] == before[m]);
                assert(view_strs(before)[m] == view_strs(rows@)[ord[m]]);
            }
        }
        k = k + 1;
    }
    assert forall|i: int, j: int|
        0 <= i < j < out@.len() implies !key_lt(
            #[trigger] view_keys(keys@)[ord[j]],
            #[trigger] view_keys(keys@)[ord[i]],
        ) by {
        assert(ord[j] == order@[j] as int && ord[i] == order@[i] as int);
        assert(!key_lt(view_keys(keys@)[order@[j] as int], view_keys(keys@)[order@[i] as int]));
    }
    (out, Ghost(ord))
}

/// The tracks that reference album `album_id`, in store order.
pub open spec fn tracks_of_album(ts: Seq<TrackView>, album_id: i64) -> Seq<TrackView>
    decreases ts.len(),
{
    if ts.len() == 0 {
        Seq::empty()
    } else {
        let prev = tracks_of_album(ts.drop_last(), album_id);
        if ts.last().album_id == Some(album_id) {
            prev.push(ts.last())
        } else {
            prev
        }
    }
}

/// The tracks whose artist is exactly `artist`, in store order.
pub open spec fn tracks_of_artist(ts: Seq<TrackView>, artist: Seq<char>) -> Seq<TrackView>
    decreases ts.len(),
{
    if ts.len() == 0 {
        Seq::empty()
    } else {
        let prev = tracks_of_artist(ts.drop_last(), artist);
        if ts.last().artist == Some(artist) {
            prev.push(ts.last())
        } else {
            prev
        }
    }
}

fn select_tracks_by_album(store: &Store, album_id: i64) -> (r: Vec<Track>)
    ensures
        view_tracks(r@) == tracks_of_album(store@.tracks, album_id),
{
    let ghost ts = store@.tracks;
    let mut out: Vec<Track> = Vec::new();
    let mut i: usize = 0;
    while i < store.tracks.len()
        invariant
            ts == store@.tracks,
            i <= store.tracks.len(),
            view_tracks(out@) == tracks_of_album(ts.subrange(0, i as int), album_id),
        decreases store.tracks.len() - i,
    {
        assert(ts.subrange(0, i as int + 1).drop_last() =~= ts.subrange(0, i as int));
        if store.tracks[i].album_id == Some(album_id) {
            let ghost before = view_tracks(out@);
            out.push(clone_track(&store.tracks[i]));
            assert(view_tracks(out@) =~= before.push(ts[i as int]));
        }
        i = i + 1;
    }
    assert(ts.subrange(0, store.tracks.len() as int) =~= ts);
    out
}

fn select_tracks_by_artist(store: &Store, artist: &str) -> (r: Vec<Track>)
    ensures
        view_tracks(r@) == tracks_of_artist(store@.tracks, artist@),
{
    let ghost ts = store@.tracks;
    let wanted = String::from_str(artist);
    let mut out: Vec<Track> = Vec::new();
    let mut i: usize = 0;
    while i < store.tracks.len()
        invariant
            ts == store@.tracks,
            wanted@ == artist@,
            i <= store.tracks.len(),
            view_tracks(out@) == tracks_of_artist(ts.subrange(0, i as int), artist@),
        decreases store.tracks.len() - i,
    {
        assert(ts.subrange(0, i as int + 1).drop_last() =~= ts.subrange(0, i as int));
        let matches = match &store.tracks[i].artist {
            Some(a) => *a == wanted,
            None => false,
        };
        if matches {
            let ghost before = view_tracks(out@);
            out.push(clone_track(&store.tracks[i]));
            assert(view_tracks(out@) =~= before.push(ts[i as int]));
        }
        i = i + 1;
    }
    assert(ts.subrange(0, store.tracks.len() as int) =~= ts);
    out
}

/// The album with id `album_id`, if there is one.
pub fn get_album_by_id(store: &Store, album_id: i64) -> (r: Option<Album>)
    ensures
        match r {
            Some(a) => exists|i: int| 0 <= i < store@.albums.len() && store@.albums[i] == a@ && a.id == album_id,
            None => forall|i: int| 0 <= i < store@.albums.len() ==> (#[trigger] store@.albums[i]).id != album_id,
        },
{
    let ghost als = store@.albums;
    let mut i: usize = 0;
    while i < store.albums.len()
        invariant
            als == store@.albums,
            i <= store.albums.len(),
            forall|k: int| 0 <= k < i ==> (#[trigger] als[k]).id != album_id,
        decreases store.albums.len() - i,
    {
        if store.albums[i].id == album_id {
            let a = clone_album(&store.albums[i]);
            assert(als[i as int] == a@);
            return Some(a);
        }
        i = i + 1;
    }
    None
}


/// The distinct artists the tracks name, in order of first appearance.
pub open spec fn artist_names(ts: Seq<TrackView>) -> Seq<Seq<char>>
    decreases ts.len(),
{
    if ts.len() == 0 {
        Seq::empty()
    } else {
        let prev = artist_names(ts.drop_last());
        match ts.last().artist {
            Some(a) => if prev.contains(a) { prev } else { prev.push(a) },
            None => prev,
        }
    }
}

/// How many tracks name `artist`.
pub open spec fn artist_track_count(ts: Seq<TrackView>, artist: Seq<char>) -> nat
    decreases ts.len(),
{
    if ts.len() == 0 {
        0
    } else {
        artist_track_count(ts.drop_last(), artist) + if ts.last().artist == Some(artist) { 1nat } else { 0nat }
    }
}

/// The distinct album names among the tracks of `artist`, in order of first appearance.
pub open spec fn artist_albums(ts: Seq<TrackView>, artist: Seq<char>) -> Seq<Seq<char>>
    decreases ts.len(),
{
    if ts.len() == 0 {
        Seq::empty()
    } else {
        let prev = artist_albums(ts.drop_last(), artist);
        let t = ts.last();
        if t.artist == Some(artist) && t.album is Some && !prev.contains(t.album.unwrap()) {
            prev.push(t.album.unwrap())
        } else {
            prev
        }
    }
}

fn contains_string(v: &Vec<String>, s: &String) -> (r: bool)
    ensures
        r == view_strings(v@).contains(s@),
{
    let ghost vv = view_strings(v@);
    let mut i: usize = 0;
    while i < v.len()
        invariant
            vv == view_strings(v@),
            i <= v.len(),
            forall|k: int| 0 <= k < i ==> vv[k] != s@,
        decreases v.len() - i,
    {
        if v[i] == *s {
            assert(vv[i as int] == s@);
            return true;
        }
        i = i + 1;
    }
    false
}

fn distinct_artists(ts: &Vec<Track>) -> (r: Vec<String>)
    ensures
        view_strings(r@) == artist_names(view_tracks(ts@)),
        r@.len() <= ts@.len(),
{
    let ghost tv = view_tracks(ts@);
    let mut names: Vec<String> = Vec::new();
    let mut i: usize = 0;
    while i < ts.len()
        invariant
            tv == view_tracks(ts@),
            i <= ts.len(),
            names@.len() <= i,
            view_strings(names@) == artist_names(tv.subrange(0, i as int)),
        decreases ts.len() - i,
    {
        assert(tv.subrange(0, i as int + 1).drop_last() =~= tv.subrange(0, i as int));
        match &ts[i].artist {
            Some(a) => {
                if !contains_string(&names, a) {
                    let ghost before = view_strings(names@);
                    names.push(a.clone());
                    assert(view_strings(names@) =~= before.push(a@));
                }
            },
            None => {},
        }
        i = i + 1;
    }
    assert(tv.subrange(0, ts.len() as int) =~= tv);
    names
}

fn artist_summary(ts: &Vec<Track>, name: &String) -> (r: Artist)
    requires
        ts@.len() <= i32::MAX,
    ensures
        r.name@ == name@,
        r.track_count as int == artist_track_count(view_tracks(ts@), name@),
        r.album_count as int == artist_albums(view_tracks(ts@), name@).len(),
{
    let ghost tv = view_tracks(ts@);
    let mut tracks: i32 = 0;
    let mut albums: Vec<String> = Vec::new();
    let mut i: usize = 0;
    while i < ts.len()
        invariant
            tv == view_tracks(ts@),
            ts@.len() <= i32::MAX,
            i <= ts.len(),
            0 <= tracks <= i,
            albums@.len() <= i,
            tracks as int == artist_track_count(tv.subrange(0, i as int), name@),
            view_strings(albums@) == artist_albums(tv.subrange(0, i as int), name@),
        decreases ts.len() - i,
    {
        assert(tv.subrange(0, i as int + 1).drop_last() =~= tv.subrange(0, i as int));
        let t = &ts[i];
        let ours = match &t.artist {
            Some(a) => *a == *name,
            None => false,
        };
        if ours {
            tracks = tracks + 1;
            match &t.album {
                Some(al) => {
                    if !contains_string(&albums, al) {
                        let ghost before = view_strings(albums@);
                        albums.push(al.clone());
                        assert(view_strings(albums@) =~= before.push(al@));
                    }
                },
                None => {},
            }
        }
        i = i + 1;
    }
    assert(tv.subrange(0, ts.len() as int) =~= tv);
    Artist { name: name.clone(), track_count: tracks, album_count: albums.len() as i32 }
}

pub open spec fn artist_name_views(v: Seq<Artist>) -> Seq<Seq<char>> {
    v.map_values(|a: Artist| a.name@)
}

/// Each artist the tracks name, sorted by name, with how many tracks name
/// it and how many distinct album names those tracks carry.
pub fn get_all_artists(store: &Store) -> (r: Vec<Artist>)
    requires
        store@.tracks.len() <= i32::MAX,
    ensures
        exists|ord: Seq<int>| rearranged(artist_name_views(r@), artist_names(store@.tracks), ord),
        forall|i: int, j: int|
            0 <= i < j < r@.len() ==> !key_lt(#[trigger] name_key(r@[j].name@), #[trigger] name_key(r@[i].name@)),
        forall|k: int|
            0 <= k < r@.len() ==> (#[trigger] r@[k]).track_count as int == artist_track_count(store@.tracks, r@[k].name@)
                && r@[k].album_count as int == artist_albums(store@.tracks, r@[k].name@).len(),
{
    let names = distinct_artists(&store.tracks);
    let mut keys: Vec<Vec<KeyPart>> = Vec::new();
    let mut i: usize = 0;
    while i < names.len()
        invariant
            i <= names.len(),
            keys@.len() == i,
            forall|m: int| 0 <= m < i ==> #[trigger] view_keys(keys@)[m] == name_key(view_strs(names@)[m]),
        decreases names.len() - i,
    {
        let ghost before = keys@;
        keys.push(name_part(&names[i]));
        assert forall|m: int| 0 <= m < i + 1 implies #[trigger] view_keys(keys@)[m] == name_key(view_strs(names@)[m]) by {
            if m < i {
                assert(keys@[m] == before[m]);
                assert(view_keys(before)[m] == name_key(view_strs(names@)[m]));
            }
        }
        i = i + 1;
    }
    assert(view_strs(names@) =~= view_strings(names@));
    let (sorted, Ghost(ord)) = arrange_strings(&names, &keys);
    let mut out: Vec<Artist> = Vec::new();
    let mut k: usize = 0;
    while k < sorted.len()
        invariant
            store@.tracks.len() <= i32::MAX,
            k <= sorted.len(),
            out@.len() == k,
            forall|m: int| 0 <= m < k ==> (#[trigger] out@[m]).name@ == sorted@[m]@ && out@[m].track_count as int
                == artist_track_count(store@.tracks, out@[m].name@) && out@[m].album_count as int
                == artist_albums(store@.tracks, out@[m].name@).len(),
        decreases sorted.len() - k,
    {
        let a = artist_summary(&store.tracks, &sorted[k]);
        out.push(a);
        k = k + 1;
    }
    assert(artist_name_views(out@) =~= view_strs(sorted@)) by {
        assert forall|m: int| 0 <= m < out@.len() implies artist_name_views(out@)[m] == view_strs(sorted@)[m] by {
            assert(out@[m].name@ == sorted@[m]@);
        }
    }
    assert forall|i: int, j: int|
        0 <= i < j < out@.len() implies !key_lt(#[trigger] name_key(out@[j].name@), #[trigger] name_key(out@[i].name@)) by {
        assert(view_strs(sorted@)[j] == view_strs(names@)[ord[j]]);
        assert(view_strs(sorted@)[i] == view_strs(names@)[ord[i]]);
        assert(view_keys(keys@)[ord[j]] == name_key(view_strs(names@)[ord[j]]));
        assert(view_keys(keys@)[ord[i]] == name_key(view_strs(names@)[ord[i]]));
        assert(out@[j].name@ == sorted@[j]@ && out@[i].name@ == sorted@[i]@);
    }
    out
}

/// Some track of `artist` references album `album_id`.
pub open spec fn artist_has_album(ts: Seq<TrackView>, artist: Seq<char>, album_id: i64) -> bool {
    exists|i: int| 0 <= i < ts.len() && ts[i].artist == Some(artist) && ts[i].album_id == Some(album_id)
}

/// The albums that tracks of `artist` reference, in store order.
pub open spec fn albums_of_artist(ts: Seq<TrackView>, als: Seq<AlbumView>, artist: Seq<char>) -> Seq<AlbumView>
    decreases als.len(),
{
    if als.len() == 0 {
        Seq::empty()
    } else {
        let prev = albums_of_artist(ts, als.drop_last(), artist);
        if artist_has_album(ts, artist, als.last().id) {
            prev.push(als.last())
        } else {
            prev
        }
    }
}

fn artist_references(ts: &Vec<Track>, artist: &String, album_id: i64) -> (r: bool)
    ensures
        r == artist_has_album(view_tracks(ts@), artist@, album_id),
{
    let ghost tv = view_tracks(ts@);
    let mut i: usize = 0;
    while i < ts.len()
        invariant
            tv == view_tracks(ts@),
            i <= ts.len(),
            forall|k: int| 0 <= k < i ==> !((#[trigger] tv[k]).artist == Some(artist@) && tv[k].album_id == Some(album_id)),
        decreases ts.len() - i,
    {
        let ours = match &ts[i].artist {
            Some(a) => *a == *artist,
            None => false,
        };
        if ours && ts[i].album_id == Some(album_id) {
            assert(tv[i as int].artist == Some(artist@) && tv[i as int].album_id == Some(album_id));
            return true;
        }
        i = i + 1;
    }
    false
}

fn select_albums_by_artist(store: &Store, artist: &str) -> (r: Vec<Album>)
    ensures
        view_albums(r@) == albums_of_artist(store@.tracks, store@.albums, artist@),
{
    let ghost s = store@;
    let wanted = String::from_str(artist);
    let mut out: Vec<Album> = Vec::new();
    let mut i: usize = 0;
    while i < store.albums.len()
        invariant
            s == store@,
            wanted@ == artist@,
            i <= store.albums.len(),
            view_albums(out@) == albums_of_artist(s.tracks, s.albums.subrange(0, i as int), artist@),
        decreases store.albums.len() - i,
    {
        assert(s.albums.subrange(0, i as int + 1).drop_last() =~= s.albums.subrange(0, i as int));
        if artist_references(&store.tracks, &wanted, store.albums[i].id) {
            let ghost before = view_albums(out@);
            out.push(clone_album(&store.albums[i]));
            assert(view_albums(out@) =~= before.push(s.albums[i as int]));
        }
        i = i + 1;
    }
    assert(s.albums.subrange(0, store.albums.len() as int) =~= s.albums);
    out
}


/// The tracks of one album, sorted by track number, then title (absent values first).
pub fn get_tracks_by_album(store: &Store, album_id: i64) -> (r: Vec<Track>)
    ensures
        exists|ord: Seq<int>| rearranged(view_tracks(r@), tracks_of_album(store@.tracks, album_id), ord),
        forall|i: int, j: int|
            0 <= i < j < r@.len() ==> !key_lt(
                #[trigger] track_key(TrackOrder::ByAlbum, view_tracks(r@)[j]),
                #[trigger] track_key(TrackOrder::ByAlbum, view_tracks(r@)[i]),
            ),
{
    let rows = select_tracks_by_album(store, album_id);
    sorted_tracks(&rows, TrackOrder::ByAlbum)
}

/// The tracks of one artist, sorted by album, track number, then title.
pub fn get_tracks_by_artist(store: &Store, artist: &str) -> (r: Vec<Track>)
    ensures
        exists|ord: Seq<int>| rearranged(view_tracks(r@), tracks_of_artist(store@.tracks, artist@), ord),
        forall|i: int, j: int|
            0 <= i < j < r@.len() ==> !key_lt(
                #[trigger] track_key(TrackOrder::ByArtist, view_tracks(r@)[j]),
                #[trigger] track_key(TrackOrder::ByArtist, view_tracks(r@)[i]),
            ),
{
    let rows = select_tracks_by_artist(store, artist);
    sorted_tracks(&rows, TrackOrder::ByArtist)
}

/// Every track, sorted by artist, album, track number, then title.
pub fn get_all_tracks(store: &Store) -> (r: Vec<Track>)
    ensures
        exists|ord: Seq<int>| rearranged(view_tracks(r@), store@.tracks, ord),
        forall|i: int, j: int|
            0 <= i < j < r@.len() ==> !key_lt(
                #[trigger] track_key(TrackOrder::Library, view_tracks(r@)[j]),
                #[trigger] track_key(TrackOrder::Library, view_tracks(r@)[i]),
            ),
{
    let r = sorted_tracks(&store.tracks, TrackOrder::Library);
    proof {
        let ord = choose|ord: Seq<int>| rearranged(view_tracks(r@), view_tracks(store.tracks@), ord);
        assert(rearranged(view_tracks(r@), store@.tracks, ord));
    }
    r
}

fn album_keys(rows: &Vec<Album>, by_artist: bool) -> (r: Vec<Vec<KeyPart>>)
    ensures
        r@.len() == rows@.len(),
        forall|m: int| 0 <= m < rows@.len() ==> #[trigger] view_keys(r@)[m] == (if by_artist {
            library_album_key(view_albums(rows@)[m])
        } else {
            name_key(view_albums(rows@)[m].name)
        }),
{
    let mut keys: Vec<Vec<KeyPart>> = Vec::new();
    let mut i: usize = 0;
    while i < rows.len()
        invariant
            i <= rows.len(),
            keys@.len() == i,
            forall|m: int| 0 <= m < i ==> #[trigger] view_keys(keys@)[m] == (if by_artist {
                library_album_key(view_albums(rows@)[m])
            } else {
                name_key(view_albums(rows@)[m].name)
            }),
        decreases rows.len() - i,
    {
        let a = &rows[i];
        let k = if by_artist {
            let mut k: Vec<KeyPart> = Vec::new();
            k.push(text_part(&a.artist));
            k.push(KeyPart::Text(a.name.clone()));
            assert(view_key(k@) =~= library_album_key(view_albums(rows@)[i as int]));
            k
        } else {
            name_part(&a.name)
        };
        let ghost before = keys@;
        keys.push(k);
        assert forall|m: int| 0 <= m < i + 1 implies #[trigger] view_keys(keys@)[m] == (if by_artist {
            library_album_key(view_albums(rows@)[m])
        } else {
            name_key(view_albums(rows@)[m].name)
        }) by {
            if m < i {
                assert(keys@[m] == before[m]);
                assert(view_keys(before)[m] == (if by_artist {
                    library_album_key(view_albums(rows@)[m])
                } else {
                    name_key(view_albums(rows@)[m].name)
                }));
            }
        }
        i = i + 1;
    }
    keys
}

/// Every album, sorted by artist (absent first), then name.
pub fn get_all_albums(store: &Store) -> (r: Vec<Album>)
    ensures
        exists|ord: Seq<int>| rearranged(view_albums(r@), store@.albums, ord),
        forall|i: int, j: int|
            0 <= i < j < r@.len() ==> !key_lt(
                #[trigger] library_album_key(view_albums(r@)[j]),
                #[trigger] library_album_key(view_albums(r@)[i]),
            ),
{
    let keys = album_keys(&store.albums, true);
    let (out, Ghost(ord)) = arrange_albums(&store.albums, &keys);
    assert forall|i: int, j: int|
        0 <= i < j < out@.len() implies !key_lt(
            #[trigger] library_album_key(view_albums(out@)[j]),
            #[trigger] library_album_key(view_albums(out@)[i]),
        ) by {
        assert(view_albums(out@)[j] == view_albums(store.albums@)[ord[j]]);
        assert(view_albums(out@)[i] == view_albums(store.albums@)[ord[i]]);
        assert(view_keys(keys@)[ord[j]] == library_album_key(view_albums(store.albums@)[ord[j]]));
        assert(view_keys(keys@)[ord[i]] == library_album_key(view_albums(store.albums@)[ord[i]]));
    }
    assert(rearranged(view_albums(out@), store@.albums, ord));
    out
}

/// The albums that tracks of one artist reference, each once, sorted by name.
pub fn get_albums_by_artist(store: &Store, artist: &str) -> (r: Vec<Album>)
    ensures
        exists|ord: Seq<int>| rearranged(view_albums(r@), albums_of_artist(store@.tracks, store@.albums, artist@), ord),
        forall|i: int, j: int|
            0 <= i < j < r@.len() ==> !key_lt(
                #[trigger] name_key(view_albums(r@)[j].name),
                #[trigger] name_key(view_albums(r@)[i].name),
            ),
{
    let rows = select_albums_by_artist(store, artist);
    let keys = album_keys(&rows, false);
    let (out, Ghost(ord)) = arrange_albums(&rows, &keys);
    assert forall|i: int, j: int|
        0 <= i < j < out@.len() implies !key_lt(
            #[trigger] name_key(view_albums(out@)[j].name),
            #[trigger] name_key(view_albums(out@)[i].name),
        ) by {
        assert(view_albums(out@)[j] == view_albums(rows@)[ord[j]]);
        assert(view_albums(out@)[i] == view_albums(rows@)[ord[i]]);
        assert(view_keys(keys@)[ord[j]] == name_key(view_albums(rows@)[ord[j]].name));
        assert(view_keys(keys@)[ord[i]] == name_key(view_albums(rows@)[ord[i]].name));
    }
    out
}

} // verus!
