//! File paths: where subtitles are written, through `std::path` operations.
use vstd::prelude::*;

use std::path::Path;

verus! {

/// `Path::file_stem` of the path `p`.
pub uninterp spec fn path_file_stem(p: Seq<char>) -> Option<Seq<char>>;

/// `Path::parent` of the path `p`.
pub uninterp spec fn path_parent(p: Seq<char>) -> Option<Seq<char>>;

/// `Path::join` of `base` and `rest`.
pub uninterp spec fn path_join(base: Seq<char>, rest: Seq<char>) -> Seq<char>;

/// `Path::strip_prefix` of `p` by `prefix`.
pub uninterp spec fn path_strip_prefix(p: Seq<char>, prefix: Seq<char>) -> Option<Seq<char>>;

/// `Path::with_extension` of `p` and `ext`.
pub uninterp spec fn path_with_extension(p: Seq<char>, ext: Seq<char>) -> Seq<char>;

pub open spec fn opt_view(o: Option<String>) -> Option<Seq<char>> {
    match o {
        Some(s) => Some(s@),
        None => None,
    }
}

/// `Path::file_stem`: the file name without its final extension, if the path
/// has a file name. A path made of UTF-8 text has UTF-8 components, so the
/// conversion back to `String` loses nothing.
#[verifier::external_body]
pub(crate) fn file_stem(p: &str) -> (r: Option<String>)
    ensures
        opt_view(r) == path_file_stem(p@),
{
    match Path::new(p).file_stem() {
        Some(s) => Some(s.to_string_lossy().into_owned()),
        None => None,
    }
}

/// `Path::parent`: the path without its last component, if it has one.
#[verifier::external_body]
pub(crate) fn parent(p: &str) -> (r: Option<String>)
    ensures
        opt_view(r) == path_parent(p@),
{
    match Path::new(p).parent() {
        Some(s) => Some(s.to_string_lossy().into_owned()),
        None => None,
    }
}

/// `Path::join`: `rest` appended to `base` as a further component (or `rest`
/// alone when it is absolute).
#[verifier::external_body]
pub(crate) fn join(base: &str, rest: &str) -> (r: String)
    ensures
        r@ == path_join(base@, rest@),
{
    Path::new(base).join(rest).to_string_lossy().into_owned()
}

/// `Path::strip_prefix`: what follows `prefix` when `prefix` is a leading run
/// of whole components of `p`.
#[verifier::external_body]
pub(crate) fn strip_prefix(p: &str, prefix: &str) -> (r: Option<String>)
    ensures
        opt_view(r) == path_strip_prefix(p@, prefix@),
{
    match Path::new(p).strip_prefix(prefix) {
        Ok(s) => Some(s.to_string_lossy().into_owned()),
        Err(_) => None,
    }
}

/// `Path::with_extension`: `p` with its extension replaced by `ext`. It
/// panics when `ext` holds a path separator (`/`, and a backslash on Windows), so
/// such extensions are left out.
#[verifier::external_body]
pub(crate) fn with_extension(p: &str, ext: &str) -> (r: String)
    requires
        forall|i: int| 0 <= i < ext@.len() ==> #[trigger] ext@[i] != '/' && ext@[i] != '\\',
    ensures
        r@ == path_with_extension(p@, ext@),
{
    Path::new(p).with_extension(ext).to_string_lossy().into_owned()
}

/// The stem of the file name of `p`, or nothing when `p` has no file name.
pub open spec fn stem_or_empty(p: Seq<char>) -> Seq<char> {
    match path_file_stem(p) {
        Some(s) => s,
        None => Seq::empty(),
    }
}

/// The title a media file is known by when nothing else names it: the stem of
/// its file name (`/media/Movie.mkv` gives `Movie`).
pub fn file_title(p: &str) -> (r: String)
    ensures
        r@ == stem_or_empty(p@),
{
    match file_stem(p) {
        Some(s) => s,
        None => String::new(),
    }
}

/// The file name of the subtitle in language `lang` for a media file whose
/// stem is `stem`: `{stem}.{lang}.srt`.
pub open spec fn srt_file_name(stem: Seq<char>, lang: Seq<char>) -> Seq<char> {
    stem + "."@ + lang + ".srt"@
}

/// Where the subtitle in language `lang` for `media_path` is written, beside
/// the media file as media players look for it: `/media/Movie.mkv` and `fr`
/// give `/media/Movie.fr.srt`.
pub open spec fn srt_path_spec(media_path: Seq<char>, lang: Seq<char>) -> Seq<char> {
    let stem = stem_or_empty(media_path);
    let dir = match path_parent(media_path) {
        Some(d) => d,
        None => "."@,
    };
    path_join(dir, srt_file_name(stem, lang))
}

/// The subtitle path for `media_path` in language `lang`.
pub fn srt_path(media_path: &str, lang: &str) -> (r: String)
    ensures
        r@ == srt_path_spec(media_path@, lang@),
{
    let stem = file_title(media_path);
    let dir = match parent(media_path) {
        Some(d) => d,
        None => String::from_str("."),
    };
    let mut name = stem;
    name.append(".");
    name.append(lang);
    name.append(".srt");
    join(dir.as_str(), name.as_str())
}

} // verus!
