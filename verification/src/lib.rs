//! File discovery by pattern: brace expansion, extended-glob translation,
//! compiled pattern sets with bounded caches, and the decisions of a
//! directory walk, each with a machine-checked contract.

pub mod async_glob;
pub mod batch_io;
pub mod error;
pub mod options;
pub mod patterns;
pub mod platform;
pub mod predicates;
pub mod store;
pub mod sync;
pub mod text;
pub mod windows;

pub use crate::error::GlobError;
pub use crate::options::{GlobOptions, GlobOptionsBuilder};
pub use crate::patterns::Patterns;
pub use crate::predicates::Predicates;

use crate::async_glob::{glob_stream, StreamState, StreamWalk};
use crate::patterns::cache::PatternCaches;
use crate::patterns::{cache_after_patterns, compiles_to, empty_plan, pattern_texts};
use crate::sync::{
    after_events, fresh_walk, glob_sync, is_walk_failure, WalkEvent, WalkFailure,
};
use crate::text::texts;
use vstd::prelude::*;

verus! {

/// The entry points of the library.
pub struct PatternHunt;

/// The results of walking the listed roots `listings` in order, after
/// `found`: those of each root follow those of the roots before it, and
/// the first failure ends the search.
pub open spec fn hunted(
    patterns: Patterns,
    listings: Seq<Vec<WalkEvent>>,
    opts: GlobOptions,
    now: u128,
    found: Seq<Seq<char>>,
) -> Result<Seq<Seq<char>>, WalkFailure>
    decreases listings.len(),
{
    if listings.len() == 0 {
        Ok(found)
    } else {
        match after_events(fresh_walk(), listings[0]@, patterns, opts, opts.predicates, now) {
            Ok(s) => hunted(patterns, listings.skip(1), opts, now, found + s.found),
            Err(f) => Err(f),
        }
    }
}

/// Whether `r` is what searching the listed roots with `patterns` gives.
pub open spec fn hunt_gives(
    patterns: Patterns,
    listings: Seq<Vec<WalkEvent>>,
    opts: GlobOptions,
    now: u128,
    r: Result<Vec<String>, GlobError>,
) -> bool {
    match hunted(patterns, listings, opts, now, Seq::empty()) {
        Ok(found) => r matches Ok(v) && texts(v@) == found,
        Err(f) => r matches Err(e) && is_walk_failure(e, f),
    }
}

impl PatternHunt {
    /// Compiles the patterns and walks each listed root in order. The
    /// results of all roots are given one after the other. A pattern that
    /// does not compile, or a walk that fails, ends the search. Both caches
    /// are asked at time `now`.
    pub fn sync(
        patterns: &[&str],
        listings: Vec<Vec<WalkEvent>>,
        opts: GlobOptions,
        caches: &mut PatternCaches,
        now: u128,
    ) -> (r: Result<Vec<String>, GlobError>)
        requires
            old(caches).wf(),
        ensures
            final(caches).wf(),
            final(caches).globs() == old(caches).globs(),
            final(caches).regexes()@ == cache_after_patterns(
                old(caches).regexes()@,
                empty_plan(),
                pattern_texts(patterns@),
                now,
            ),
            (r is Err && compiles_to(
                pattern_texts(patterns@),
                Err::<Patterns, GlobError>(r->Err_0),
            )) || exists|p: Patterns|
                compiles_to(pattern_texts(patterns@), Ok::<Patterns, GlobError>(p))
                    && #[trigger] hunt_gives(p, listings@, opts, now, r),
    {
        let pats = match Patterns::compile_many_at(patterns, &opts, caches, now) {
            Ok(p) => p,
            Err(e) => {
                return Err(e);
            },
        };
        let mut results: Vec<String> = Vec::new();
        let ghost all = listings@;
        proof {
            assert(all.skip(0) =~= all);
            assert(texts(results@) =~= Seq::<Seq<char>>::empty());
        }
        for listing in it: listings
            invariant
                it.seq() == all,
                caches.wf(),
                caches.globs() == old(caches).globs(),
                caches.regexes()@ == cache_after_patterns(
                    old(caches).regexes()@,
                    empty_plan(),
                    pattern_texts(patterns@),
                    now,
                ),
                compiles_to(pattern_texts(patterns@), Ok::<Patterns, GlobError>(pats)),
                hunted(pats, all, opts, now, Seq::empty()) == hunted(
                    pats,
                    all.skip(it.index() as int),
                    opts,
                    now,
                    texts(results@),
                ),
        {
            let ghost rest = all.skip(it.index() as int);
            let ghost before = results@;
            proof {
                assert(rest[0] == listing);
                assert(rest.skip(1) =~= all.skip(it.index() + 1));
            }
            match glob_sync(&pats, &opts, &opts.predicates, listing, now) {
                Err(e) => {
                    let r = Err(e);
                    assert(hunt_gives(pats, all, opts, now, r));
                    return r;
                },
                Ok(mut found) => {
                    let ghost added = found@;
                    results.append(&mut found);
                    assert(texts(results@) =~= texts(before) + texts(added));
                },
            }
        }
        proof {
            assert(all.skip(all.len() as int) =~= Seq::<Vec<WalkEvent>>::empty());
        }
        let r = Ok(results);
        assert(hunt_gives(pats, all, opts, now, r));
        r
    }

    /// Compiles the patterns, with the regex cache asked at time `now`, and
    /// starts a streaming walk at the directory `root`. A pattern that does
    /// not compile ends the search before it starts.
    pub fn stream(
        patterns: &[&str],
        root: usize,
        opts: &GlobOptions,
        caches: &mut PatternCaches,
        now: u128,
    ) -> (r: Result<(Patterns, StreamWalk), GlobError>)
        requires
            old(caches).wf(),
        ensures
            final(caches).wf(),
            final(caches).globs() == old(caches).globs(),
            final(caches).regexes()@ == cache_after_patterns(
                old(caches).regexes()@,
                empty_plan(),
                pattern_texts(patterns@),
                now,
            ),
            match r {
                Ok((p, walk)) => compiles_to(pattern_texts(patterns@), Ok::<Patterns, GlobError>(p))
                    && walk@ == (StreamState {
                    stack: seq![(root, 0usize)],
                    visited: Set::empty(),
                    follow_symlinks: opts.follow_symlinks,
                    max_depth: opts.max_depth,
                    rooted: opts.root_dir is Some,
                }),
                Err(e) => compiles_to(pattern_texts(patterns@), Err::<Patterns, GlobError>(e)),
            },
    {
        match Patterns::compile_many_at(patterns, opts, caches, now) {
            Ok(p) => Ok((p, glob_stream(opts, root))),
            Err(e) => Err(e),
        }
    }
}

} // verus!
