//! Small helpers around file names and numbers read from text.
use crate::text::split_on;
use vstd::prelude::*;

verus! {

/// A text could not be read as a number, or a path has no final component.
#[derive(Debug, Clone, Copy, PartialEq, Eq, Structural)]
pub struct ParseError;

/// A number that must not be negative was negative.
#[derive(Debug, Clone, Copy, PartialEq, Eq, Structural)]
pub struct NonPositiveError;

/// The components of a path that name something: the pieces between `/`, without empty
/// pieces and `.` pieces.
pub open spec fn path_pieces(path: Seq<char>) -> Seq<Seq<char>> {
    split_on(path, '/').filter(|p: Seq<char>| p.len() > 0 && p != seq!['.'])
}

/// The final component of a path: `None` when there is none or it is `..`.
pub open spec fn path_file_name(path: Seq<char>) -> Option<Seq<char>> {
    let ps = path_pieces(path);
    if ps.len() == 0 || ps.last() == seq!['.', '.'] {
        None
    } else {
        Some(ps.last())
    }
}

/// Relies on `Path::file_name` on a Unix path: the path's components are the pieces between
/// `/` (empty and `.` pieces are skipped); the result is the last one, `None` when there is
/// none or it is `..`. A `&str` path's components are valid UTF-8, so the
/// conversion back to a `String` is exact.
#[verifier::external_body]
fn file_name_of(path: &str) -> (r: Option<String>)
    ensures
        r is None <==> path_file_name(path@) is None,
        r matches Some(n) ==> path_file_name(path@) == Some(n@),
{
    std::path::Path::new(path).file_name().map(|n| n.to_string_lossy().into_owned())
}

/// The final component of `path`; a path without one is an error.
pub fn get_filename(path: &str) -> (r: Result<String, ParseError>)
    ensures
        r is Err <==> path_file_name(path@) is None,
        r matches Ok(n) ==> path_file_name(path@) == Some(n@),
{
    match file_name_of(path) {
        Some(n) => Ok(n),
        None => Err(ParseError),
    }
}

} // verus!
