//! The failures that every layer of the library reports.

use vstd::prelude::*;
use vstd::string::StringExecFns;

verus! {

/// `std::io::Error`: a failure of the filesystem, carried through as it
/// is.
#[verifier::external_type_specification]
#[verifier::external_body]
pub struct ExIoError(std::io::Error);

/// `regex::Error`: why a regex source does not compile.
#[verifier::external_type_specification]
#[verifier::external_body]
pub struct ExRegexError(regex::Error);

/// `walkdir::Error`: a failure of the directory walker, carried through
/// as it is.
#[verifier::external_type_specification]
#[verifier::external_body]
pub struct ExWalkError(walkdir::Error);

/// Everything that can go wrong while compiling patterns or walking a tree.
#[derive(Debug)]
pub enum GlobError {
    /// A filesystem operation failed.
    Io(std::io::Error),
    /// The regex engine refused a source.
    Regex(regex::Error),
    /// A pattern is malformed; the text says how.
    InvalidPattern(String),
    /// The directory walker failed.
    Walkdir(walkdir::Error),
    /// Any other failure, described by its text.
    Other(String),
    /// Brace groups are nested, or chained, too deeply.
    BraceExpansionDepth,
    /// Brace expansion would produce too many strings.
    BraceExpansionCount,
    /// A regex source is too long or has too many groups.
    RegexTooComplex,
    /// A pattern tries to climb out of its directory.
    PathTraversal,
    /// A followed link leads back to a place already visited.
    SymlinkCycle,
    /// An operation did not finish in time.
    Timeout,
    /// The file may not be accessed.
    PermissionDenied,
}

/// The `Display` text of a `std::io::Error`. Nothing is claimed of it: the
/// operating system words it.
#[verifier::external_body]
fn io_error_text(e: &std::io::Error) -> String {
    e.to_string()
}

/// The `Display` text of a `regex::Error`. Nothing is claimed of it.
#[verifier::external_body]
fn regex_error_text(e: &regex::Error) -> String {
    e.to_string()
}

/// The `Display` text of a `walkdir::Error`. Nothing is claimed of it.
#[verifier::external_body]
fn walk_error_text(e: &walkdir::Error) -> String {
    e.to_string()
}

/// `head` followed by `tail`.
fn prefixed(head: &str, tail: &str) -> (s: String)
    ensures
        s@ == head@ + tail@,
{
    let mut s = String::new();
    s.append(head);
    s.append(tail);
    assert(s@ =~= head@ + tail@);
    s
}

/// The words before the text of a wrapped error, and the whole message of
/// any other.
pub open spec fn message_head(e: GlobError) -> Seq<char> {
    match e {
        GlobError::Io(_) => "IO error: "@,
        GlobError::Regex(_) => "Regex error: "@,
        GlobError::InvalidPattern(_) => "Invalid pattern: "@,
        GlobError::Walkdir(_) => "Walkdir error: "@,
        GlobError::Other(_) => "Other error: "@,
        GlobError::BraceExpansionDepth => "Brace expansion exceeded maximum depth"@,
        GlobError::BraceExpansionCount => "Brace expansion exceeded maximum expansions"@,
        GlobError::RegexTooComplex => "Regex pattern too complex or long"@,
        GlobError::PathTraversal => "Path traversal not allowed"@,
        GlobError::SymlinkCycle => "Symlink cycle detected"@,
        GlobError::Timeout => "Operation timed out"@,
        GlobError::PermissionDenied => "Permission denied"@,
    }
}

impl GlobError {
    /// The message for a reader: fixed words, followed by the text that
    /// the error carries or by what the wrapped error says of itself.
    pub fn message(&self) -> (s: String)
        ensures
            match *self {
                GlobError::Io(_) | GlobError::Regex(_) | GlobError::Walkdir(_) => s@.len()
                    >= message_head(*self).len() && s@.take(message_head(*self).len() as int)
                    == message_head(*self),
                GlobError::InvalidPattern(m) | GlobError::Other(m) => s@ == message_head(*self)
                    + m@,
                _ => s@ == message_head(*self),
            },
    {
        match self {
            GlobError::Io(e) => {
                let s = prefixed("IO error: ", io_error_text(e).as_str());
                assert(s@.take("IO error: "@.len() as int) =~= "IO error: "@);
                s
            },
            GlobError::Regex(e) => {
                let s = prefixed("Regex error: ", regex_error_text(e).as_str());
                assert(s@.take("Regex error: "@.len() as int) =~= "Regex error: "@);
                s
            },
            GlobError::InvalidPattern(m) => prefixed("Invalid pattern: ", m.as_str()),
            GlobError::Walkdir(e) => {
                let s = prefixed("Walkdir error: ", walk_error_text(e).as_str());
                assert(s@.take("Walkdir error: "@.len() as int) =~= "Walkdir error: "@);
                s
            },
            GlobError::Other(m) => prefixed("Other error: ", m.as_str()),
            GlobError::BraceExpansionDepth => "Brace expansion exceeded maximum depth".to_owned(),
            GlobError::BraceExpansionCount => "Brace expansion exceeded maximum expansions"
                .to_owned(),
            GlobError::RegexTooComplex => "Regex pattern too complex or long".to_owned(),
            GlobError::PathTraversal => "Path traversal not allowed".to_owned(),
            GlobError::SymlinkCycle => "Symlink cycle detected".to_owned(),
            GlobError::Timeout => "Operation timed out".to_owned(),
            GlobError::PermissionDenied => "Permission denied".to_owned(),
        }
    }
}

} // verus!
