use base64::Engine;
use vstd::prelude::*;

use crate::model::{clone_opt, opt_view, TrackInsert, TrackInsertView};
use crate::text::{file_stem_of, get_filename_without_ext};

verus! {

/// The standard base64 text of some bytes, as the base64 crate writes it.
pub uninterp spec fn base64_of(b: Seq<u8>) -> Seq<char>;

/// Relies on `base64::Engine::encode` with the `STANDARD` engine: the padded
/// standard base64 text of the bytes, four characters per started group of
/// three bytes. It panics only where that length overflows `usize`.
#[verifier::external_body]
fn encode_base64(b: &[u8]) -> (r: String)
    requires
        b@.len() <= usize::MAX / 2,
    ensures
        r@ == base64_of(b@),
        r@.len() == (b@.len() + 2) / 3 * 4,
{
    base64::engine::general_purpose::STANDARD.encode(b)
}

/// One tag block of an audio file, with what the index reads of it.
pub struct TagFields {
    pub title: Option<String>,
    pub artist: Option<String>,
    pub album: Option<String>,
    pub track: Option<u32>,
    /// The embedded pictures' bytes, in the order the block holds them.
    pub pictures: Vec<Vec<u8>>,
}

/// What parsing an audio file yielded.
pub struct AudioProbe {
    pub duration_secs: u64,
    pub bitrate: Option<u32>,
    /// The container format's label.
    pub format: String,
    /// The file's default tag block, if it has one.
    pub primary_tag: Option<TagFields>,
    /// The first tag block the file holds, if any.
    pub first_tag: Option<TagFields>,
}

/// A count that does not fit in `i32` is held at `i32::MAX`.
pub open spec fn clamp_i32(n: int) -> i32 {
    if n > i32::MAX {
        i32::MAX
    } else {
        n as i32
    }
}

pub open spec fn clamp_opt(n: Option<u32>) -> Option<i32> {
    match n {
        Some(v) => Some(clamp_i32(v as int)),
        None => None,
    }
}

fn clamp_u64(n: u64) -> (r: i32)
    ensures
        r == clamp_i32(n as int),
{
    if n > i32::MAX as u64 {
        i32::MAX
    } else {
        n as i32
    }
}

fn clamp_u32(n: Option<u32>) -> (r: Option<i32>)
    ensures
        r == clamp_opt(n),
{
    match n {
        Some(v) => Some(clamp_u64(v as u64)),
        None => None,
    }
}

/// The tag block a record is read from: the default one, else the first.
pub open spec fn chosen_tag(p: AudioProbe) -> Option<TagFields> {
    if p.primary_tag is Some {
        p.primary_tag
    } else {
        p.first_tag
    }
}

/// The album-art candidate of a tag block: its first picture in base64, where
/// there is one of an encodable size.
pub open spec fn art_of(t: TagFields) -> Option<Seq<char>> {
    if t.pictures@.len() > 0 && t.pictures@[0]@.len() <= usize::MAX / 2 {
        Some(base64_of(t.pictures@[0]@))
    } else {
        None
    }
}

/// The record kept for a file that could not be parsed: its path, and its
/// file name without extension as the title.
pub open spec fn fallback_record(path: Seq<char>) -> TrackInsertView {
    TrackInsertView {
        path: path,
        title: file_stem_of(path),
        artist: None,
        album: None,
        track_number: None,
        duration: None,
        album_art: None,
        format: None,
        bitrate: None,
    }
}

/// The record that a file at `path` yields, given what parsing it gave.
pub open spec fn metadata_record(path: Seq<char>, probe: Option<AudioProbe>) -> TrackInsertView {
    match probe {
        None => fallback_record(path),
        Some(p) => match chosen_tag(p) {
            Some(t) => TrackInsertView {
                path: path,
                title: if t.title is Some { opt_view(t.title) } else { file_stem_of(path) },
                artist: opt_view(t.artist),
                album: opt_view(t.album),
                track_number: clamp_opt(t.track),
                duration: Some(clamp_i32(p.duration_secs as int)),
                album_art: art_of(t),
                format: Some(p.format@),
                bitrate: clamp_opt(p.bitrate),
            },
            None => TrackInsertView {
                duration: Some(clamp_i32(p.duration_secs as int)),
                format: Some(p.format@),
                bitrate: clamp_opt(p.bitrate),
                ..fallback_record(path)
            },
        },
    }
}

/// The record for a file that could not be parsed.
pub fn create_fallback_metadata(path: &str) -> (r: TrackInsert)
    ensures
        r@ == fallback_record(path@),
{
    TrackInsert {
        path: String::from_str(path),
        title: get_filename_without_ext(path),
        artist: None,
        album: None,
        track_number: None,
        duration: None,
        album_art: None,
        format: None,
        bitrate: None,
    }
}

fn first_picture_art(t: &TagFields) -> (r: Option<String>)
    ensures
        r == None::<String> <==> art_of(*t) is None,
        opt_view(r) == art_of(*t),
{
    if t.pictures.len() > 0 && t.pictures[0].len() <= usize::MAX / 2 {
        Some(encode_base64(t.pictures[0].as_slice()))
    } else {
        None
    }
}

/// Builds the record for the file at `path` from what parsing it gave
/// (`None` where it could not be parsed). Never fails.
pub fn metadata_from_probe(path: &str, probe: Option<&AudioProbe>) -> (r: TrackInsert)
    ensures
        r@ == metadata_record(
            path@,
            match probe {
                Some(p) => Some(*p),
                None => None,
            },
        ),
{
    match probe {
        None => create_fallback_metadata(path),
        Some(p) => {
            let duration = Some(clamp_u64(p.duration_secs));
            let bitrate = clamp_u32(p.bitrate);
            let format = Some(p.format.clone());
            let tag = if p.primary_tag.is_some() {
                &p.primary_tag
            } else {
                &p.first_tag
            };
            match tag {
                Some(t) => {
                    let title = if t.title.is_some() {
                        clone_opt(&t.title)
                    } else {
                        get_filename_without_ext(path)
                    };
                    TrackInsert {
                        path: String::from_str(path),
                        title,
                        artist: clone_opt(&t.artist),
                        album: clone_opt(&t.album),
                        track_number: clamp_u32(t.track),
                        duration,
                        album_art: first_picture_art(t),
                        format,
                        bitrate,
                    }
                },
                None => {
                    let mut r = create_fallback_metadata(path);
                    r.duration = duration;
                    r.format = format;
                    r.bitrate = bitrate;
                    r
                },
            }
        },
    }
}

} // verus!
