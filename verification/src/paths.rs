//! Output file names.

use vstd::prelude::*;
use crate::text::concat_str;

verus! {

/// The stem of the file name of `path` (the name without its extension), as
/// `Path::file_stem` finds it.
pub uninterp spec fn file_stem(path: Seq<char>) -> Option<Seq<char>>;

/// `path` with its file name replaced by `name` (or `name` appended when the
/// path has no file name), as `PathBuf::set_file_name` does.
pub uninterp spec fn with_file_name(path: Seq<char>, name: Seq<char>) -> Seq<char>;

/// Calls `Path::file_stem`; the result is named [`file_stem`] of the path.
/// The path is UTF-8 text, so its stem converts to a `String` without loss.
#[verifier::external_body]
fn path_file_stem(path: &str) -> (res: Option<String>)
    ensures
        match res {
            Some(s) => file_stem(path@) == Some(s@),
            None => file_stem(path@) is None,
        },
{
    match std::path::Path::new(path).file_stem() {
        Some(s) => Some(s.to_string_lossy().into_owned()),
        None => None,
    }
}

/// Calls `PathBuf::set_file_name`; the result is named [`with_file_name`] of
/// the path and the name. Both are UTF-8 text, so the result converts to a
/// `String` without loss.
#[verifier::external_body]
fn path_with_file_name(path: &str, name: &str) -> (res: String)
    ensures
        res@ == with_file_name(path@, name@),
{
    let mut p = std::path::PathBuf::from(path);
    p.set_file_name(name);
    p.to_string_lossy().into_owned()
}

/// The default output base for an image: `<stem>_dots` beside it, where the
/// stem is that of the image's file name, or `walldots` when it has none.
pub open spec fn output_for(input: Seq<char>) -> Seq<char> {
    let stem = match file_stem(input) {
        Some(s) => s,
        None => "walldots"@,
    };
    with_file_name(input, stem + "_dots"@)
}

/// The default output base for an image (see [`output_for`]).
pub fn derive_output(input: &str) -> (res: String)
    ensures
        res@ == output_for(input@),
{
    let stem = match path_file_stem(input) {
        Some(s) => s,
        None => <String as vstd::string::StringExecFns>::from_str("walldots"),
    };
    let name = concat_str(stem.as_str(), "_dots");
    path_with_file_name(input, name.as_str())
}

} // verus!
