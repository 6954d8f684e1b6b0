//! The long-path prefix of Windows.

use crate::platform::backslash_separates;
use crate::text::{append, chars_of, text_of};
use vstd::prelude::*;

verus! {

/// The prefix that lifts the length limit of a Windows path: `\\?\`.
pub open spec fn long_path_prefix() -> Seq<char> {
    seq!['\\', '\\', '?', '\\']
}

/// Whether `p` starts with the long-path prefix.
pub open spec fn has_long_path_prefix(p: Seq<char>) -> bool {
    p.len() >= 4 && p.take(4) == long_path_prefix()
}

/// `p` as the platform wants it: on Windows with the long-path prefix, put
/// before it where it is not there yet; elsewhere unchanged.
pub open spec fn prefixed(p: Seq<char>, windows: bool) -> Seq<char> {
    if windows && !has_long_path_prefix(p) {
        long_path_prefix() + p
    } else {
        p
    }
}

/// Gives `p` with the long-path prefix where `windows` says that the
/// platform wants it and `p` does not have it yet.
pub fn with_long_path_prefix(p: &str, windows: bool) -> (out: String)
    ensures
        out@ == prefixed(p@, windows),
{
    let chars = chars_of(p);
    let found = chars.len() >= 4 && chars[0] == '\\' && chars[1] == '\\' && chars[2] == '?'
        && chars[3] == '\\';
    proof {
        if chars.len() >= 4 {
            let head = chars@.take(4);
            assert(head[0] == chars@[0] && head[1] == chars@[1] && head[2] == chars@[2] && head[3]
                == chars@[3]);
            if found {
                assert(head =~= long_path_prefix());
            }
        }
    }
    if windows && !found {
        let mut out: Vec<char> = Vec::new();
        out.push('\\');
        out.push('\\');
        out.push('?');
        out.push('\\');
        assert(out@ =~= long_path_prefix());
        append(&mut out, &chars);
        text_of(&out)
    } else {
        text_of(&chars)
    }
}

/// Gives `p` as the platform wants it: with the long-path prefix on
/// Windows, unchanged elsewhere.
pub fn ensure_long_path_prefix(p: &str) -> (out: String)
    ensures
        out@ == p@ || out@ == prefixed(p@, true),
{
    let windows = backslash_separates();
    with_long_path_prefix(p, windows)
}

/// A path that has the prefix is left alone, and adding the prefix twice
/// adds it once.
pub proof fn lemma_prefix_once(p: Seq<char>, windows: bool)
    ensures
        has_long_path_prefix(p) ==> prefixed(p, windows) == p,
        prefixed(prefixed(p, windows), windows) == prefixed(p, windows),
{
    if windows && !has_long_path_prefix(p) {
        assert((long_path_prefix() + p).take(4) =~= long_path_prefix());
    }
}

} // verus!
