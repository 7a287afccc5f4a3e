use vstd::prelude::*;
use vstd::string::*;

use crate::text::{file_name_span, name_span, stem_end, stem_of};

verus! {

/// The sidecar lyrics path of a music file: the path cut after the stem of
/// its file name, then ".lrc" (trailing separators and "." components go, as
/// with `PathBuf::with_extension`). A path without a file name is kept as it is.
pub open spec fn lrc_path_of(p: Seq<char>) -> Seq<char> {
    match name_span(p) {
        Some((s, e)) => p.subrange(0, s) + stem_of(p.subrange(s, e)) + ".lrc"@,
        None => p,
    }
}

/// The path of the lyrics file that sits beside a music file.
pub fn get_lrc_path(music_path: &str) -> (r: String)
    ensures
        r@ == lrc_path_of(music_path@),
{
    match file_name_span(music_path) {
        Some((s, e)) => {
            let name = music_path.substring_char(s, e);
            let k = stem_end(name);
            let mut out = String::from_str(music_path.substring_char(0, s));
            out.append(name.substring_char(0, k));
            out.append(".lrc");
            out
        },
        None => String::from_str(music_path),
    }
}

} // verus!
