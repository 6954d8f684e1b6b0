//! The decisions of a streaming walk: which directories are listed next,
//! and what becomes of each entry. Listing, waiting and reading metadata
//! happen elsewhere; this module is told what they gave.

use crate::error::GlobError;
use crate::options::GlobOptions;
use crate::patterns::Patterns;
use crate::predicates::{FileMeta, Predicates};
use crate::sync::{check_for_cycles, is_path_allowed, Visited};
use core::time::Duration;
use vstd::prelude::*;

verus! {

/// The seconds that a candidate waits for a free slot where the options
/// set no timeout.
pub const DEFAULT_PERMIT_WAIT: u64 = 30;

/// The duration of `secs` whole seconds.
pub uninterp spec fn seconds(secs: u64) -> Duration;

/// `Duration::from_secs` makes a duration of that many whole seconds.
pub assume_specification[ Duration::from_secs ](secs: u64) -> (d: Duration)
    ensures
        d == seconds(secs),
;

/// What becomes of an entry of a listed directory.
#[derive(Clone, Copy, Debug, PartialEq, Eq, Structural)]
pub enum EntryAction {
    /// Nothing.
    Skip,
    /// It is a directory that will be listed.
    Descend,
    /// It is a candidate for a result.
    Candidate,
}

/// What becomes of a candidate.
#[derive(Clone, Copy, Debug, PartialEq, Eq, Structural)]
pub enum CandidateAction {
    /// Nothing.
    Skip,
    /// Its metadata is needed to decide.
    NeedMetadata,
    /// It is a result.
    Emit,
}

/// What a streaming walk knows while it goes on.
pub struct StreamState {
    /// The directories still to list, each with its depth; the last one
    /// is listed next.
    pub stack: Seq<(usize, usize)>,
    /// The paths come across so far, where links are followed.
    pub visited: Set<Seq<u8>>,
    /// Whether links are followed.
    pub follow_symlinks: bool,
    /// How deep directories are listed.
    pub max_depth: Option<usize>,
    /// Whether a root is set.
    pub rooted: bool,
}

/// A streaming walk. Directories are known by the numbers that the caller
/// gives them.
pub struct StreamWalk {
    stack: Vec<(usize, usize)>,
    visited: Visited,
    follow_symlinks: bool,
    max_depth: Option<usize>,
    rooted: bool,
}

impl View for StreamWalk {
    type V = StreamState;

    closed spec fn view(&self) -> StreamState {
        StreamState {
            stack: self.stack@,
            visited: self.visited@,
            follow_symlinks: self.follow_symlinks,
            max_depth: self.max_depth,
            rooted: self.rooted,
        }
    }
}

/// Whether no directory on the stack lies deeper than the limit.
pub open spec fn within_depth(s: StreamState) -> bool {
    s.max_depth matches Some(limit) ==> forall|i: int|
        0 <= i < s.stack.len() ==> (#[trigger] s.stack[i]).1 <= limit
}

/// Whether an entry with the path `key` is looked at: it lies below the
/// root where one is set, and where links are followed it did not come up
/// before.
pub open spec fn considers(s: StreamState, key: Seq<u8>, below_root: bool) -> bool {
    (!s.rooted || below_root) && !(s.follow_symlinks && s.visited.contains(key))
}

/// The walk after an entry with the path `key` was met: where links are
/// followed, an entry below the root is recorded.
pub open spec fn after_consider(s: StreamState, key: Seq<u8>, below_root: bool) -> StreamState {
    if (!s.rooted || below_root) && s.follow_symlinks {
        StreamState { visited: s.visited.insert(key), ..s }
    } else {
        s
    }
}

/// What becomes of an entry found in a directory of depth `depth`. A link
/// that is not followed is skipped. A directory is listed later, unless
/// the depth limit is reached. Anything else is a candidate.
pub open spec fn action_for(
    s: StreamState,
    depth: usize,
    is_dir: bool,
    is_symlink: bool,
) -> EntryAction {
    if is_symlink && !s.follow_symlinks {
        EntryAction::Skip
    } else if is_dir {
        if s.max_depth matches Some(limit) && depth >= limit {
            EntryAction::Skip
        } else {
            EntryAction::Descend
        }
    } else {
        EntryAction::Candidate
    }
}

/// The depth one below `depth`.
pub open spec fn deeper(depth: usize) -> usize {
    if depth < usize::MAX {
        (depth + 1) as usize
    } else {
        depth
    }
}

/// What becomes of a candidate with the path `text`: nothing where the
/// path is no text or the patterns do not accept it; else it is a result,
/// unless predicates are set, which ask for its metadata first.
pub open spec fn candidate_action(
    patterns: Patterns,
    predicates: Option<Predicates>,
    text: Option<Seq<char>>,
) -> CandidateAction {
    match text {
        None => CandidateAction::Skip,
        Some(t) => if !patterns.accepts(t) {
            CandidateAction::Skip
        } else if predicates is Some {
            CandidateAction::NeedMetadata
        } else {
            CandidateAction::Emit
        },
    }
}

/// Starts a streaming walk at the directory `root`.
pub fn glob_stream(opts: &GlobOptions, root: usize) -> (w: StreamWalk)
    ensures
        within_depth(w@),
        w@ == (StreamState {
            stack: seq![(root, 0usize)],
            visited: Set::empty(),
            follow_symlinks: opts.follow_symlinks,
            max_depth: opts.max_depth,
            rooted: opts.root_dir is Some,
        }),
{
    let mut stack: Vec<(usize, usize)> = Vec::new();
    stack.push((root, 0));
    assert(stack@ =~= seq![(root, 0usize)]);
    StreamWalk {
        stack,
        visited: Visited::new(),
        follow_symlinks: opts.follow_symlinks,
        max_depth: opts.max_depth,
        rooted: opts.root_dir.is_some(),
    }
}

impl StreamWalk {
    /// Takes the directory to list next, with its depth: the one put on
    /// the stack last.
    pub fn next_directory(&mut self) -> (r: Option<(usize, usize)>)
        requires
            within_depth(old(self)@),
        ensures
            within_depth(final(self)@),
            old(self)@.stack.len() == 0 ==> r is None && final(self)@ == old(self)@,
            old(self)@.stack.len() > 0 ==> r == Some(old(self)@.stack.last()) && final(self)@ == (
            StreamState { stack: old(self)@.stack.drop_last(), ..old(self)@ }),
            r matches Some(frame) ==> (old(self)@.max_depth matches Some(limit) ==> frame.1
                <= limit),
    {
        let r = self.stack.pop();
        proof {
            if old(self)@.stack.len() > 0 {
                assert(self.stack@ =~= old(self)@.stack.drop_last());
                assert(old(self)@.stack[old(self)@.stack.len() - 1] == old(self)@.stack.last());
                assert forall|i: int| 0 <= i < self.stack@.len() implies old(self)@.stack[i]
                    == #[trigger] self.stack@[i] by {}
            } else {
                assert(self.stack@ =~= old(self)@.stack);
            }
        }
        r
    }

    /// Tells whether an entry with the path `key` is looked at, and
    /// records it where links are followed.
    pub fn consider(&mut self, key: &Vec<u8>, below_root: bool) -> (b: bool)
        requires
            within_depth(old(self)@),
        ensures
            within_depth(final(self)@),
            b == considers(old(self)@, key@, below_root),
            final(self)@ == after_consider(old(self)@, key@, below_root),
    {
        if self.rooted && !below_root {
            return false;
        }
        if self.follow_symlinks && check_for_cycles(key, &mut self.visited) {
            return false;
        }
        true
    }

    /// Decides what becomes of an entry that was found in a directory of
    /// depth `depth`. A directory that will be listed is put on the stack
    /// under the number `handle`, one level deeper.
    pub fn classify(&mut self, depth: usize, handle: usize, is_dir: bool, is_symlink: bool) -> (a:
        EntryAction)
        requires
            within_depth(old(self)@),
        ensures
            within_depth(final(self)@),
            a == action_for(old(self)@, depth, is_dir, is_symlink),
            final(self)@ == if a == EntryAction::Descend {
                StreamState { stack: old(self)@.stack.push((handle, deeper(depth))), ..old(self)@ }
            } else {
                old(self)@
            },
    {
        if is_symlink && !self.follow_symlinks {
            return EntryAction::Skip;
        }
        if is_dir {
            if let Some(limit) = self.max_depth {
                if depth >= limit {
                    return EntryAction::Skip;
                }
            }
            let next = if depth < usize::MAX {
                depth + 1
            } else {
                depth
            };
            self.stack.push((handle, next));
            proof {
                assert forall|i: int| 0 <= i < old(self)@.stack.len() implies self.stack@[i]
                    == #[trigger] old(self)@.stack[i] by {}
            }
            return EntryAction::Descend;
        }
        EntryAction::Candidate
    }
}

/// How long a candidate waits for a free slot: the timeout of the options,
/// or 30 seconds.
pub fn permit_wait(opts: &GlobOptions) -> (d: Duration)
    ensures
        d == match opts.timeout {
            Some(t) => t,
            None => seconds(DEFAULT_PERMIT_WAIT),
        },
{
    match opts.timeout {
        Some(t) => t,
        None => Duration::from_secs(DEFAULT_PERMIT_WAIT),
    }
}

/// Decides what becomes of a candidate with the path `text`.
pub fn judge_candidate(
    patterns: &Patterns,
    predicates: &Option<Predicates>,
    text: Option<&str>,
) -> (a: CandidateAction)
    ensures
        a == candidate_action(
            *patterns,
            *predicates,
            match text {
                Some(t) => Some(t@),
                None => None,
            },
        ),
{
    match text {
        None => CandidateAction::Skip,
        Some(t) => {
            if !patterns.is_match(t) {
                CandidateAction::Skip
            } else if predicates.is_some() {
                CandidateAction::NeedMetadata
            } else {
                CandidateAction::Emit
            }
        },
    }
}

/// Decides on a candidate whose metadata was asked for: it is a result
/// where the predicates accept the metadata; a failure is passed on.
pub fn judge_metadata(predicates: &Predicates, stat: Result<FileMeta, GlobError>) -> (r: Result<
    bool,
    GlobError,
>)
    ensures
        match stat {
            Ok(meta) => r == Ok::<bool, GlobError>(predicates.accepts(meta)),
            Err(e) => r == Err::<bool, GlobError>(e),
        },
{
    match stat {
        Ok(meta) => Ok(predicates.matches(&meta)),
        Err(e) => Err(e),
    }
}

/// With a depth limit, no directory found at the limit or below it is
/// ever listed; with the limit zero, that leaves the root alone.
pub proof fn lemma_depth_limit_stops_descent(
    s: StreamState,
    depth: usize,
    is_dir: bool,
    is_symlink: bool,
)
    requires
        s.max_depth matches Some(limit) && depth >= limit,
    ensures
        action_for(s, depth, is_dir, is_symlink) != EntryAction::Descend,
{
}

/// A directory is never a candidate, and neither is a link that is not
/// followed.
pub proof fn lemma_candidates_are_files(
    s: StreamState,
    depth: usize,
    is_dir: bool,
    is_symlink: bool,
)
    ensures
        action_for(s, depth, is_dir, is_symlink) == EntryAction::Candidate ==> !is_dir && (
        s.follow_symlinks || !is_symlink),
{
}

/// An entry outside the root is never looked at where a root is set.
pub proof fn lemma_outside_root_is_passed_over(s: StreamState, key: Seq<u8>)
    requires
        s.rooted,
    ensures
        !considers(s, key, false),
        after_consider(s, key, false) == s,
{
}

/// A candidate becomes a result only where the patterns accept its path.
pub proof fn lemma_results_are_accepted(
    patterns: Patterns,
    predicates: Option<Predicates>,
    text: Option<Seq<char>>,
)
    ensures
        candidate_action(patterns, predicates, text) != CandidateAction::Skip ==> text is Some
            && patterns.accepts(text->0),
{
}

} // verus!
