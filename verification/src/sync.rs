//! The decisions of a walk over a directory tree that was listed already:
//! which of the entries are results.

use crate::batch_io::{is_refusal, stat_cache, stat_result, BatchIO, Probe, Refusal};
use crate::error::GlobError;
use crate::options::GlobOptions;
use crate::patterns::Patterns;
use crate::predicates::Predicates;
use crate::store::CacheEntry;
use crate::text::texts;
use vstd::prelude::*;

verus! {

/// The number of entries that the stat service of a walk may cache.
pub const WALK_CACHE_SIZE: usize = 1000;

/// The paths that a walk has come across, each by its bytes.
pub struct Visited {
    paths: Vec<Vec<u8>>,
}

impl View for Visited {
    type V = Set<Seq<u8>>;

    closed spec fn view(&self) -> Set<Seq<u8>> {
        Set::new(|key: Seq<u8>| exists|i: int| 0 <= i < self.paths@.len() && self.paths@[i]@ == key)
    }
}

impl Visited {
    /// No path yet.
    pub fn new() -> (v: Visited)
        ensures
            v@ == Set::<Seq<u8>>::empty(),
    {
        let v = Visited { paths: Vec::new() };
        assert(v@ =~= Set::<Seq<u8>>::empty());
        v
    }
}

fn same_bytes(a: &Vec<u8>, b: &Vec<u8>) -> (r: bool)
    ensures
        r == (a@ == b@),
{
    if a.len() != b.len() {
        return false;
    }
    let mut i: usize = 0;
    while i < a.len()
        invariant
            i <= a.len(),
            a.len() == b.len(),
            forall|k: int| 0 <= k < i ==> a@[k] == b@[k],
        decreases a.len() - i,
    {
        if a[i] != b[i] {
            return false;
        }
        i += 1;
    }
    assert(a@ =~= b@);
    true
}

fn copy_bytes(a: &Vec<u8>) -> (r: Vec<u8>)
    ensures
        r@ == a@,
{
    let mut r: Vec<u8> = Vec::new();
    let mut i: usize = 0;
    while i < a.len()
        invariant
            i <= a.len(),
            r@ == a@.take(i as int),
        decreases a.len() - i,
    {
        r.push(a[i]);
        i += 1;
    }
    assert(a@.take(a.len() as int) =~= a@);
    r
}

/// Tells whether `path` was come across before, and records it.
pub fn check_for_cycles(path: &Vec<u8>, visited: &mut Visited) -> (seen: bool)
    ensures
        seen == old(visited)@.contains(path@),
        final(visited)@ == old(visited)@.insert(path@),
{
    let mut i: usize = 0;
    while i < visited.paths.len()
        invariant
            i <= visited.paths.len(),
            *visited == *old(visited),
            forall|k: int| 0 <= k < i ==> visited.paths@[k]@ != path@,
        decreases visited.paths.len() - i,
    {
        if same_bytes(&visited.paths[i], path) {
            assert(visited@.contains(path@));
            assert(visited@.insert(path@) =~= visited@);
            return true;
        }
        i += 1;
    }
    let ghost before = visited.paths@;
    visited.paths.push(copy_bytes(path));
    proof {
        assert forall|key: Seq<u8>| visited@.contains(key) == old(visited)@.insert(
            path@,
        ).contains(key) by {
            if visited@.contains(key) {
                let k = choose|k: int| 0 <= k < visited.paths@.len() && visited.paths@[k]@ == key;
                if k < before.len() {
                    assert(before[k]@ == key);
                }
            }
            if old(visited)@.contains(key) {
                let k = choose|k: int| 0 <= k < before.len() && before[k]@ == key;
                assert(visited.paths@[k]@ == key);
            }
            if key == path@ {
                assert(visited.paths@[before.len() as int]@ == key);
            }
        }
        assert(visited@ =~= old(visited)@.insert(path@));
    }
    false
}

/// Tells whether an entry may be looked at: every entry where no root is
/// set, else one that lies below the root.
pub fn is_path_allowed(below_root: bool, root_dir: &Option<String>) -> (b: bool)
    ensures
        b == (root_dir is None || below_root),
{
    match root_dir {
        Some(_) => below_root,
        None => true,
    }
}

/// One entry that the directory walker came across.
pub struct WalkEntry {
    /// The path by its bytes.
    pub key: Vec<u8>,
    /// The path as text, where it is valid UTF-8.
    pub text: Option<String>,
    /// Whether the path is a directory.
    pub is_dir: bool,
    /// Whether the path lies below the root of the options.
    pub below_root: bool,
    /// What the filesystem answered about the path. It is read only where
    /// predicates are set.
    pub probe: Probe,
}

/// What the directory walker reported: an entry, or its failure.
pub enum WalkEvent {
    Entry(WalkEntry),
    Failed(walkdir::Error),
}

/// Why a walk ends without a result.
pub enum WalkFailure {
    /// The walker failed.
    Walk(walkdir::Error),
    /// A path came up twice while links were followed.
    Cycle,
    /// Metadata was needed and not handed out.
    Stat(Refusal),
}

/// Whether the error `e` reports the failure `f`.
pub open spec fn is_walk_failure(e: GlobError, f: WalkFailure) -> bool {
    match f {
        WalkFailure::Walk(x) => e == GlobError::Walkdir(x),
        WalkFailure::Cycle => e is SymlinkCycle,
        WalkFailure::Stat(x) => is_refusal(e, x),
    }
}

/// What a walk knows while it goes on.
pub struct WalkState {
    /// The paths come across so far, where links are followed.
    pub visited: Set<Seq<u8>>,
    /// What the stat service has cached.
    pub cache: Seq<(Seq<char>, CacheEntry)>,
    /// The results so far, in the order of the walk.
    pub found: Seq<Seq<char>>,
}

/// Whether the entry is a candidate for a result, metadata apart: it may
/// be looked at, is no directory, has a path that is text, and the
/// patterns accept that path.
pub open spec fn is_candidate(entry: WalkEntry, patterns: Patterns, opts: GlobOptions) -> bool {
    &&& opts.root_dir is None || entry.below_root
    &&& !entry.is_dir
    &&& entry.text matches Some(t) && patterns.accepts(t@)
}

/// The walk after one entry. An entry that may not be looked at changes
/// nothing. Where links are followed, a path that came up before ends the
/// walk, and any other is recorded. A candidate is a result where no
/// predicates are set; else its metadata is asked for, and it is a result
/// where the predicates accept them. Metadata that is not handed out ends
/// the walk.
pub open spec fn after_entry(
    s: WalkState,
    entry: WalkEntry,
    patterns: Patterns,
    opts: GlobOptions,
    predicates: Option<Predicates>,
    now: u128,
) -> Result<WalkState, WalkFailure> {
    if !(opts.root_dir is None || entry.below_root) {
        Ok(s)
    } else if opts.follow_symlinks && s.visited.contains(entry.key@) {
        Err(WalkFailure::Cycle)
    } else {
        let visited = if opts.follow_symlinks {
            s.visited.insert(entry.key@)
        } else {
            s.visited
        };
        if !is_candidate(entry, patterns, opts) {
            Ok(WalkState { visited, ..s })
        } else {
            let t = entry.text->0@;
            match predicates {
                None => Ok(WalkState { visited, found: s.found.push(t), ..s }),
                Some(p) => {
                    let cache = stat_cache(
                        s.cache,
                        opts.follow_symlinks,
                        t,
                        now,
                        entry.probe,
                        WALK_CACHE_SIZE as nat,
                    );
                    match stat_result(s.cache, opts.follow_symlinks, t, now, entry.probe) {
                        Err(x) => Err(WalkFailure::Stat(x)),
                        Ok(meta) => if p.accepts(meta) {
                            Ok(WalkState { visited, cache, found: s.found.push(t) })
                        } else {
                            Ok(WalkState { visited, cache, found: s.found })
                        },
                    }
                },
            }
        }
    }
}

/// The walk after the events `events`, in order, up to the first failure.
pub open spec fn after_events(
    s: WalkState,
    events: Seq<WalkEvent>,
    patterns: Patterns,
    opts: GlobOptions,
    predicates: Option<Predicates>,
    now: u128,
) -> Result<WalkState, WalkFailure>
    decreases events.len(),
{
    if events.len() == 0 {
        Ok(s)
    } else {
        match events[0] {
            WalkEvent::Failed(x) => Err(WalkFailure::Walk(x)),
            WalkEvent::Entry(entry) => match after_entry(
                s,
                entry,
                patterns,
                opts,
                predicates,
                now,
            ) {
                Ok(next) => after_events(next, events.skip(1), patterns, opts, predicates, now),
                Err(f) => Err(f),
            },
        }
    }
}

/// A walk that has seen nothing yet.
pub open spec fn fresh_walk() -> WalkState {
    WalkState { visited: Set::empty(), cache: Seq::empty(), found: Seq::empty() }
}

/// What the walker is told about depth: the limit of the options, or no
/// limit.
pub fn walk_depth(opts: &GlobOptions) -> (d: usize)
    ensures
        d == match opts.max_depth {
            Some(limit) => limit,
            None => usize::MAX,
        },
{
    match opts.max_depth {
        Some(limit) => limit,
        None => usize::MAX,
    }
}

/// Decides on one entry of a walk: the path of a result, or nothing.
fn visit_entry(
    entry: WalkEntry,
    patterns: &Patterns,
    opts: &GlobOptions,
    predicates: &Option<Predicates>,
    visited: &mut Visited,
    batch_io: &mut BatchIO,
    now: u128,
    found: Ghost<Seq<Seq<char>>>,
) -> (r: Result<Option<String>, GlobError>)
    requires
        old(batch_io).wf(),
        old(batch_io).follows() == opts.follow_symlinks,
        old(batch_io).capacity() == WALK_CACHE_SIZE,
    ensures
        final(batch_io).wf(),
        final(batch_io).follows() == opts.follow_symlinks,
        final(batch_io).capacity() == WALK_CACHE_SIZE,
        match after_entry(
            WalkState { visited: old(visited)@, cache: old(batch_io)@, found: found@ },
            entry,
            *patterns,
            *opts,
            *predicates,
            now,
        ) {
            Ok(next) => r matches Ok(o) && final(visited)@ == next.visited && final(batch_io)@
                == next.cache && next.found == match o {
                Some(t) => found@.push(t@),
                None => found@,
            },
            Err(f) => r matches Err(e) && is_walk_failure(e, f),
        },
{
    if !is_path_allowed(entry.below_root, &opts.root_dir) {
        return Ok(None);
    }
    if opts.follow_symlinks && check_for_cycles(&entry.key, visited) {
        return Err(GlobError::SymlinkCycle);
    }
    if entry.is_dir {
        return Ok(None);
    }
    let text = match entry.text {
        Some(t) => t,
        None => {
            return Ok(None);
        },
    };
    if !patterns.is_match(text.as_str()) {
        return Ok(None);
    }
    if let Some(p) = predicates {
        let meta = match batch_io.stat(text.as_str(), now, entry.probe) {
            Ok(meta) => meta,
            Err(e) => {
                return Err(e);
            },
        };
        if !p.matches(&meta) {
            return Ok(None);
        }
    }
    Ok(Some(text))
}

/// Walks over the events that the directory walker reported, in order, and
/// gives the paths of the results: the files that lie below the root, that
/// the patterns accept, and whose metadata the predicates accept. The
/// first failure ends the walk.
pub fn glob_sync(
    patterns: &Patterns,
    opts: &GlobOptions,
    predicates: &Option<Predicates>,
    events: Vec<WalkEvent>,
    now: u128,
) -> (r: Result<Vec<String>, GlobError>)
    ensures
        match after_events(fresh_walk(), events@, *patterns, *opts, *predicates, now) {
            Ok(s) => r matches Ok(v) && texts(v@) == s.found,
            Err(f) => r matches Err(e) && is_walk_failure(e, f),
        },
{
    let mut results: Vec<String> = Vec::new();
    let mut visited = Visited::new();
    let mut batch_io = BatchIO::new(WALK_CACHE_SIZE, opts.follow_symlinks);
    let ghost all = events@;
    proof {
        assert(all.skip(0) =~= all);
        assert(texts(results@) =~= Seq::<Seq<char>>::empty());
    }
    for event in it: events
        invariant
            it.seq() == all,
            batch_io.wf(),
            batch_io.follows() == opts.follow_symlinks,
            batch_io.capacity() == WALK_CACHE_SIZE,
            after_events(fresh_walk(), all, *patterns, *opts, *predicates, now) == after_events(
                WalkState { visited: visited@, cache: batch_io@, found: texts(results@) },
                all.skip(it.index() as int),
                *patterns,
                *opts,
                *predicates,
                now,
            ),
    {
        let ghost rest = all.skip(it.index() as int);
        proof {
            assert(rest[0] == event);
            assert(rest.skip(1) =~= all.skip(it.index() + 1));
        }
        match event {
            WalkEvent::Failed(e) => {
                return Err(GlobError::Walkdir(e));
            },
            WalkEvent::Entry(entry) => {
                let ghost before = results@;
                match visit_entry(
                    entry,
                    patterns,
                    opts,
                    predicates,
                    &mut visited,
                    &mut batch_io,
                    now,
                    Ghost(texts(results@)),
                ) {
                    Err(e) => {
                        return Err(e);
                    },
                    Ok(None) => {},
                    Ok(Some(text)) => {
                        results.push(text);
                        assert(texts(results@) =~= texts(before).push(text@));
                    },
                }
            },
        }
    }
    proof {
        assert(all.skip(all.len() as int) =~= Seq::<WalkEvent>::empty());
    }
    Ok(results)
}

/// Whether the event is an entry that is a candidate and has the path
/// `path`.
pub open spec fn gives(
    event: WalkEvent,
    path: Seq<char>,
    patterns: Patterns,
    opts: GlobOptions,
) -> bool {
    event matches WalkEvent::Entry(entry) && is_candidate(entry, patterns, opts) && entry.text->0@
        == path
}

/// Whether some event of `events` is a candidate entry with the path
/// `path`.
pub open spec fn comes_from(
    events: Seq<WalkEvent>,
    path: Seq<char>,
    patterns: Patterns,
    opts: GlobOptions,
) -> bool {
    exists|j: int| 0 <= j < events.len() && #[trigger] gives(events[j], path, patterns, opts)
}

/// Every result of a walk comes from an entry of the walk that is a
/// candidate: it lies below the root where one is set, it is no directory,
/// and the patterns accept its path. What was found before stays first.
pub proof fn lemma_results_are_candidates(
    s: WalkState,
    events: Seq<WalkEvent>,
    patterns: Patterns,
    opts: GlobOptions,
    predicates: Option<Predicates>,
    now: u128,
)
    ensures
        after_events(s, events, patterns, opts, predicates, now) matches Ok(end) ==> s.found.len()
            <= end.found.len() && end.found.take(s.found.len() as int) == s.found && forall|
            k: int,
        |
            s.found.len() <= k < end.found.len() ==> comes_from(
                events,
                #[trigger] end.found[k],
                patterns,
                opts,
            ),
    decreases events.len(),
{
    if events.len() == 0 {
        assert(s.found.take(s.found.len() as int) =~= s.found);
    } else if let WalkEvent::Entry(entry) = events[0] {
        if let Ok(next) = after_entry(s, entry, patterns, opts, predicates, now) {
            let rest = events.skip(1);
            lemma_results_are_candidates(next, rest, patterns, opts, predicates, now);
            if let Ok(end) = after_events(next, rest, patterns, opts, predicates, now) {
                assert(end.found.take(s.found.len() as int) =~= s.found) by {
                    assert(end.found.take(next.found.len() as int) == next.found);
                    assert forall|k: int| 0 <= k < s.found.len() implies end.found[k]
                        == s.found[k] by {
                        assert(end.found.take(next.found.len() as int)[k] == next.found[k]);
                    }
                }
                assert forall|k: int| s.found.len() <= k < end.found.len() implies comes_from(
                    events,
                    #[trigger] end.found[k],
                    patterns,
                    opts,
                ) by {
                    if k < next.found.len() {
                        assert(end.found.take(next.found.len() as int)[k] == next.found[k]);
                        assert(gives(events[0], end.found[k], patterns, opts));
                    } else {
                        let j = choose|j: int|
                            0 <= j < rest.len() && #[trigger] gives(
                                rest[j],
                                end.found[k],
                                patterns,
                                opts,
                            );
                        assert(events[j + 1] == rest[j]);
                        assert(gives(events[j + 1], end.found[k], patterns, opts));
                    }
                }
            }
        }
    }
}

/// Where no predicates are set, an entry that may be looked at and whose
/// path did not come up before adds its path to the results exactly where
/// it is no directory and a streaming walk would make it a result.
pub proof fn lemma_walks_judge_alike(
    s: WalkState,
    entry: WalkEntry,
    patterns: Patterns,
    opts: GlobOptions,
    now: u128,
)
    requires
        opts.root_dir is None || entry.below_root,
        !(opts.follow_symlinks && s.visited.contains(entry.key@)),
    ensures
        after_entry(s, entry, patterns, opts, None, now) matches Ok(next) && (next.found
            == if !entry.is_dir && crate::async_glob::candidate_action(
            patterns,
            None,
            match entry.text {
                Some(t) => Some(t@),
                None => None,
            },
        ) == crate::async_glob::CandidateAction::Emit {
            s.found.push(entry.text->0@)
        } else {
            s.found
        }),
{
}

/// Patterns that accept nothing give a walk without results.
pub proof fn lemma_nothing_accepted_nothing_found(
    events: Seq<WalkEvent>,
    patterns: Patterns,
    opts: GlobOptions,
    predicates: Option<Predicates>,
    now: u128,
)
    requires
        forall|path: Seq<char>| !patterns.accepts(path),
    ensures
        after_events(fresh_walk(), events, patterns, opts, predicates, now) matches Ok(end)
            ==> end.found.len() == 0,
{
    lemma_results_are_candidates(fresh_walk(), events, patterns, opts, predicates, now);
    if let Ok(end) = after_events(fresh_walk(), events, patterns, opts, predicates, now) {
        if end.found.len() > 0 {
            assert(comes_from(events, end.found[0], patterns, opts));
        }
    }
}

} // verus!
