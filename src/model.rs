use vstd::prelude::*;

verus! {

/// The view of an optional string: the characters, when present.
pub open spec fn opt_view(o: Option<String>) -> Option<Seq<char>> {
    match o {
        Some(s) => Some(s@),
        None => None,
    }
}

/// Clones an optional string, keeping its characters.
pub fn clone_opt(o: &Option<String>) -> (r: Option<String>)
    ensures
        opt_view(r) == opt_view(*o),
{
    match o {
        Some(s) => Some(s.clone()),
        None => None,
    }
}

/// Compares two optional strings by their characters; two absent values are equal.
pub fn same_opt(a: &Option<String>, b: &Option<String>) -> (r: bool)
    ensures
        r == (opt_view(*a) == opt_view(*b)),
{
    match (a, b) {
        (Some(x), Some(y)) => *x == *y,
        (None, None) => true,
        _ => false,
    }
}

/// One indexed audio file. `path` is its natural key.
pub struct Track {
    pub id: i64,
    pub path: String,
    pub title: Option<String>,
    pub artist: Option<String>,
    pub album: Option<String>,
    pub track_number: Option<i32>,
    pub duration: Option<i32>,
    pub album_id: Option<i64>,
    pub track_cover: Option<String>,
    pub track_cover_path: Option<String>,
}

pub struct TrackView {
    pub id: i64,
    pub path: Seq<char>,
    pub title: Option<Seq<char>>,
    pub artist: Option<Seq<char>>,
    pub album: Option<Seq<char>>,
    pub track_number: Option<i32>,
    pub duration: Option<i32>,
    pub album_id: Option<i64>,
    pub track_cover: Option<Seq<char>>,
    pub track_cover_path: Option<Seq<char>>,
}

impl View for Track {
    type V = TrackView;

    open spec fn view(&self) -> TrackView {
        TrackView {
            id: self.id,
            path: self.path@,
            title: opt_view(self.title),
            artist: opt_view(self.artist),
            album: opt_view(self.album),
            track_number: self.track_number,
            duration: self.duration,
            album_id: self.album_id,
            track_cover: opt_view(self.track_cover),
            track_cover_path: opt_view(self.track_cover_path),
        }
    }
}

/// A deduplicated (name, artist) grouping of tracks.
pub struct Album {
    pub id: i64,
    pub name: String,
    pub artist: Option<String>,
    pub art_data: Option<String>,
    pub art_path: Option<String>,
}

pub struct AlbumView {
    pub id: i64,
    pub name: Seq<char>,
    pub artist: Option<Seq<char>>,
    pub art_data: Option<Seq<char>>,
    pub art_path: Option<Seq<char>>,
}

impl View for Album {
    type V = AlbumView;

    open spec fn view(&self) -> AlbumView {
        AlbumView {
            id: self.id,
            name: self.name@,
            artist: opt_view(self.artist),
            art_data: opt_view(self.art_data),
            art_path: opt_view(self.art_path),
        }
    }
}

/// An artist aggregate, computed from the tracks that name it.
pub struct Artist {
    pub name: String,
    pub track_count: i32,
    pub album_count: i32,
}

/// A named, ordered list of tracks.
pub struct Playlist {
    pub id: i64,
    pub name: String,
    pub created_at: Option<String>,
}

pub struct PlaylistView {
    pub id: i64,
    pub name: Seq<char>,
    pub created_at: Option<Seq<char>>,
}

impl View for Playlist {
    type V = PlaylistView;

    open spec fn view(&self) -> PlaylistView {
        PlaylistView { id: self.id, name: self.name@, created_at: opt_view(self.created_at) }
    }
}

/// Membership of one track in one playlist, at a position.
#[derive(Clone, Copy, PartialEq, Eq, Structural, Debug)]
pub struct PlaylistTrack {
    pub playlist_id: i64,
    pub track_id: i64,
    pub position: i32,
}

/// A metadata record for one audio file, as the extractor produces it.
pub struct TrackInsert {
    pub path: String,
    pub title: Option<String>,
    pub artist: Option<String>,
    pub album: Option<String>,
    pub track_number: Option<i32>,
    pub duration: Option<i32>,
    pub album_art: Option<String>,
    pub format: Option<String>,
    pub bitrate: Option<i32>,
}

pub struct TrackInsertView {
    pub path: Seq<char>,
    pub title: Option<Seq<char>>,
    pub artist: Option<Seq<char>>,
    pub album: Option<Seq<char>>,
    pub track_number: Option<i32>,
    pub duration: Option<i32>,
    pub album_art: Option<Seq<char>>,
    pub format: Option<Seq<char>>,
    pub bitrate: Option<i32>,
}

impl View for TrackInsert {
    type V = TrackInsertView;

    open spec fn view(&self) -> TrackInsertView {
        TrackInsertView {
            path: self.path@,
            title: opt_view(self.title),
            artist: opt_view(self.artist),
            album: opt_view(self.album),
            track_number: self.track_number,
            duration: self.duration,
            album_art: opt_view(self.album_art),
            format: opt_view(self.format),
            bitrate: self.bitrate,
        }
    }
}

/// Progress of a running scan, for callers that report it.
pub struct ScanProgress {
    pub current: usize,
    pub total: usize,
    pub current_file: String,
}

/// What a scan reports once it is done.
pub struct ScanResult {
    pub tracks_added: usize,
    pub tracks_updated: usize,
    pub errors: Vec<String>,
}

/// The whole library as callers see it.
pub struct Library {
    pub tracks: Vec<Track>,
    pub albums: Vec<Album>,
    pub artists: Vec<Artist>,
}

/// What a cover migration or reconciliation reports once it is done.
pub struct MigrationProgress {
    pub total: usize,
    pub processed: usize,
    pub tracks_migrated: usize,
    pub albums_migrated: usize,
    pub errors: Vec<String>,
}

} // verus!
