use vstd::prelude::*;
use vstd::utf8::{decode_utf8, valid_utf8};

verus! {

broadcast use vstd::string::group_string_axioms;

/// `git2::Error`, carried through opaquely.
#[verifier::external_type_specification]
#[verifier::external_body]
pub struct ExGitError(git2::Error);

/// `std::io::Error`, carried through opaquely.
#[verifier::external_type_specification]
#[verifier::external_body]
pub struct ExIoError(std::io::Error);

/// What can go wrong while loading or restoring history.
#[derive(Debug)]
pub enum TrekError {
    Git(git2::Error),
    Io(std::io::Error),
    NoRepository,
    NoCommits,
    InvalidUtf8,
}

/// `std::str::from_utf8`: succeeds exactly when `bytes` is well-formed UTF-8,
/// and then the text is what the bytes decode to.
#[verifier::external_body]
fn str_from_utf8(bytes: &[u8]) -> (r: Option<&str>)
    ensures
        r is Some <==> valid_utf8(bytes@),
        r matches Some(s) ==> s@ == decode_utf8(bytes@),
{
    match std::str::from_utf8(bytes) {
        Ok(s) => Some(s),
        Err(_) => None,
    }
}

/// The text of a file's content, which must be UTF-8.
pub fn decode_content(content: &[u8]) -> (r: Result<String, TrekError>)
    ensures
        r is Ok <==> valid_utf8(content@),
        r matches Ok(s) ==> s@ == decode_utf8(content@),
        r is Err ==> r matches Err(TrekError::InvalidUtf8),
{
    match str_from_utf8(content) {
        Some(s) => Ok(s.to_string()),
        None => Err(TrekError::InvalidUtf8),
    }
}

} // verus!
