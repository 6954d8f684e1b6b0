//! Caches of compiled glob sets and compiled regexes, keyed by the pattern
//! text, with counters of how they served.

use crate::error::GlobError;
use crate::patterns::engine::{
    add_glob, glob_error_message, glob_error_text, glob_parsed, globset_built, regex_compiled,
};
use crate::store::{
    after_put, all_pairs, expiry, first_with_key, lemma_pairs_stay, lemma_without_key_distinct,
    lemma_without_key_len, without_key, CacheEntry, Cached, Lookup, TtlStore,
};
use crate::text::chars_of;
use vstd::prelude::*;

verus! {

/// `std::time::Instant`: a reading of the monotonic clock.
#[verifier::external_type_specification]
#[verifier::external_body]
pub struct ExInstant(std::time::Instant);

/// The number of entries that each cache holds at most.
pub const MAX_CACHE_SIZE: usize = 1000;

/// The time that an entry stays valid, in nanoseconds.
pub const DEFAULT_TTL: u128 = 300000000000;

/// The length, and the number of groups, above which a regex source is
/// refused.
pub const MAX_REGEX_COMPLEXITY: usize = 1000;

/// Counters of a cache: lookups served, lookups not served, entries
/// dropped, and the number of entries now held.
#[derive(Clone, Copy, Debug)]
pub struct CacheMetrics {
    pub hits: u64,
    pub misses: u64,
    pub evictions: u64,
    pub size: usize,
}

/// A share, written as a count out of a total that is not zero.
#[derive(Clone, Copy, Debug, PartialEq, Eq, Structural)]
pub struct Ratio {
    pub part: u64,
    pub total: u128,
}

impl CacheMetrics {
    /// The share of lookups that were served: the hits out of the hits
    /// and misses together, or none out of one where no lookup was made.
    pub fn hit_ratio(&self) -> (r: Ratio)
        ensures
            r.total > 0,
            r.part <= r.total,
            self.hits + self.misses == 0 ==> r == (Ratio { part: 0, total: 1 }),
            self.hits + self.misses > 0 ==> r.part == self.hits && r.total == self.hits
                + self.misses,
    {
        let total: u128 = self.hits as u128 + self.misses as u128;
        if total == 0 {
            Ratio { part: 0, total: 1 }
        } else {
            Ratio { part: self.hits, total }
        }
    }
}

/// `n + 1`, or `n` where the counter is full.
pub open spec fn bumped(n: u64) -> u64 {
    if n < u64::MAX {
        (n + 1) as u64
    } else {
        n
    }
}

fn bump(n: u64) -> (m: u64)
    ensures
        m == bumped(n),
{
    if n < u64::MAX {
        n + 1
    } else {
        n
    }
}

/// What a cache holds and has counted.
pub struct CacheState {
    /// The pairs of key and entry, the most recently used first.
    pub entries: Seq<(Seq<char>, CacheEntry)>,
    /// The counters.
    pub metrics: CacheMetrics,
    /// The number of lookups made so far.
    pub lookups: nat,
}

/// The value that a lookup of `key` at time `now` serves: that of the
/// entry for `key`, unless it has expired.
pub open spec fn served(s: CacheState, key: Seq<char>, now: u128) -> Option<Cached> {
    match first_with_key(s.entries, key) {
        Some(e) => if e.expires_at > now {
            Some(e.value)
        } else {
            None
        },
        None => None,
    }
}

/// The cache after a lookup of `key` at time `now`. A served entry becomes
/// the most recently used one and counts as a hit. An expired entry is
/// removed and counts as an eviction and a miss. An absent key counts as a
/// miss.
pub open spec fn looked_up(s: CacheState, key: Seq<char>, now: u128) -> CacheState {
    match first_with_key(s.entries, key) {
        Some(e) => if e.expires_at > now {
            CacheState {
                entries: seq![(key, e)] + without_key(s.entries, key),
                metrics: CacheMetrics { hits: bumped(s.metrics.hits), ..s.metrics },
                lookups: s.lookups + 1,
            }
        } else {
            CacheState {
                entries: without_key(s.entries, key),
                metrics: CacheMetrics {
                    hits: s.metrics.hits,
                    misses: bumped(s.metrics.misses),
                    evictions: bumped(s.metrics.evictions),
                    size: without_key(s.entries, key).len() as usize,
                },
                lookups: s.lookups + 1,
            }
        },
        None => CacheState {
            entries: s.entries,
            metrics: CacheMetrics { misses: bumped(s.metrics.misses), ..s.metrics },
            lookups: s.lookups + 1,
        },
    }
}

/// The cache after `value` was stored for `key` at time `now`, to live for
/// `ttl`.
pub open spec fn stored(
    s: CacheState,
    key: Seq<char>,
    value: Cached,
    now: u128,
    ttl: u128,
) -> CacheState {
    let entries = after_put(
        s.entries,
        key,
        CacheEntry { value, expires_at: expiry(now, ttl) },
        MAX_CACHE_SIZE as nat,
    );
    CacheState {
        entries,
        metrics: CacheMetrics { size: entries.len() as usize, ..s.metrics },
        lookups: s.lookups,
    }
}

/// The cache after it was cleared: empty, with one more eviction counted.
pub open spec fn cleared(s: CacheState) -> CacheState {
    CacheState {
        entries: Seq::empty(),
        metrics: CacheMetrics { evictions: bumped(s.metrics.evictions), size: 0, ..s.metrics },
        lookups: s.lookups,
    }
}

/// Whether the counters of `s` fit what it holds and has served: the size
/// is the number of entries, at most `MAX_CACHE_SIZE`, and as long as no
/// counter is full, hits and misses add up to the lookups made.
pub open spec fn consistent(s: CacheState) -> bool {
    &&& s.entries.len() <= MAX_CACHE_SIZE
    &&& s.metrics.size == s.entries.len()
    &&& s.lookups <= u64::MAX ==> s.metrics.hits + s.metrics.misses == s.lookups
}

/// One cache of compiled artifacts with its counters.
pub struct ArtifactCache {
    store: TtlStore,
    metrics: CacheMetrics,
    lookups: Ghost<nat>,
}

impl View for ArtifactCache {
    type V = CacheState;

    closed spec fn view(&self) -> CacheState {
        CacheState { entries: self.store@, metrics: self.metrics, lookups: self.lookups@ }
    }
}

impl ArtifactCache {
    /// The time that an entry of this cache stays valid.
    pub closed spec fn lifetime(&self) -> u128 {
        self.store.lifetime()
    }

    /// The cache is bounded by `MAX_CACHE_SIZE` and its counters fit.
    pub closed spec fn wf(&self) -> bool {
        &&& self.store.wf()
        &&& self.store.capacity() == MAX_CACHE_SIZE
        &&& consistent(self@)
    }

    /// A cache that is well formed has counters that fit what it holds.
    pub proof fn lemma_consistent(&self)
        requires
            self.wf(),
        ensures
            consistent(self@),
    {
    }

    /// An empty cache whose entries live for `ttl`.
    pub fn new(ttl: u128) -> (c: ArtifactCache)
        ensures
            c.wf(),
            c.lifetime() == ttl,
            c@.entries == Seq::<(Seq<char>, CacheEntry)>::empty(),
            c@.metrics.hits == 0 && c@.metrics.misses == 0 && c@.metrics.evictions == 0
                && c@.metrics.size == 0,
            c@.lookups == 0,
    {
        ArtifactCache {
            store: TtlStore::new(MAX_CACHE_SIZE, ttl),
            metrics: CacheMetrics { hits: 0, misses: 0, evictions: 0, size: 0 },
            lookups: Ghost(0),
        }
    }

    /// Looks `key` up at time `now` and counts the lookup.
    pub fn get(&mut self, key: &str, now: u128) -> (r: Option<Cached>)
        requires
            old(self).wf(),
        ensures
            final(self).wf(),
            final(self).lifetime() == old(self).lifetime(),
            r == served(old(self)@, key@, now),
            final(self)@ == looked_up(old(self)@, key@, now),
    {
        proof {
            lemma_without_key_len(self.store@, key@);
            lemma_without_key_distinct(self.store@, key@);
        }
        let found = self.store.lookup(key, now);
        self.lookups = Ghost((self.lookups@ + 1) as nat);
        match found {
            Lookup::Fresh(value) => {
                self.metrics.hits = bump(self.metrics.hits);
                Some(value)
            },
            Lookup::Expired => {
                self.metrics.size = self.store.len();
                self.metrics.evictions = bump(self.metrics.evictions);
                self.metrics.misses = bump(self.metrics.misses);
                None
            },
            Lookup::Absent => {
                self.metrics.misses = bump(self.metrics.misses);
                None
            },
        }
    }

    /// Stores `value` for `key` at time `now`.
    pub fn put(&mut self, key: String, value: Cached, now: u128)
        requires
            old(self).wf(),
        ensures
            final(self).wf(),
            final(self).lifetime() == old(self).lifetime(),
            final(self)@ == stored(old(self)@, key@, value, now, old(self).lifetime()),
    {
        proof {
            lemma_without_key_len(self.store@, key@);
        }
        self.store.store(key, value, now);
        self.metrics.size = self.store.len();
    }

    /// The counters as they stand.
    pub fn metrics(&self) -> (m: CacheMetrics)
        ensures
            m == self@.metrics,
    {
        self.metrics
    }

    /// Removes every entry and counts one eviction.
    pub fn clear(&mut self)
        requires
            old(self).wf(),
        ensures
            final(self).wf(),
            final(self).lifetime() == old(self).lifetime(),
            final(self)@ == cleared(old(self)@),
    {
        self.store.clear();
        self.metrics.size = 0;
        self.metrics.evictions = bump(self.metrics.evictions);
    }
}

/// `std::time::Instant::now` reads the monotonic clock. Nothing is claimed
/// of what it returns.
#[verifier::external_body]
fn clock_start() -> std::time::Instant {
    std::time::Instant::now()
}

/// `std::time::Instant::elapsed`, in nanoseconds. Nothing is claimed of
/// what it returns.
#[verifier::external_body]
fn clock_nanos(origin: &std::time::Instant) -> u128 {
    origin.elapsed().as_nanos()
}

/// The number of times that `c` occurs in `s`.
pub open spec fn count_of(s: Seq<char>, c: char) -> nat
    decreases s.len(),
{
    if s.len() == 0 {
        0
    } else {
        count_of(s.drop_last(), c) + if s.last() == c {
            1nat
        } else {
            0nat
        }
    }
}

/// Whether a regex source is refused before any attempt to compile it: it
/// is longer than `MAX_REGEX_COMPLEXITY` characters or opens more than
/// `MAX_REGEX_COMPLEXITY` groups.
pub open spec fn regex_too_complex(source: Seq<char>) -> bool {
    source.len() > MAX_REGEX_COMPLEXITY || count_of(source, '(') > MAX_REGEX_COMPLEXITY
}

/// What asking for the regex of `source` gives, whatever the cache holds.
pub open spec fn regex_outcome(source: Seq<char>) -> Result<regex::Regex, GlobError> {
    if regex_too_complex(source) {
        Err(GlobError::RegexTooComplex)
    } else {
        match regex_compiled(source) {
            Ok(re) => Ok(re),
            Err(e) => Err(GlobError::Regex(e)),
        }
    }
}

/// The regex cache after the regex of `source` was asked for at time
/// `now`: untouched for a source that is refused; after a lookup that was
/// served, that lookup alone; otherwise the lookup and, where the source
/// compiles, the new entry.
pub open spec fn regex_cache_after(s: CacheState, source: Seq<char>, now: u128) -> CacheState {
    if regex_too_complex(source) {
        s
    } else if served(s, source, now) is Some {
        looked_up(s, source, now)
    } else {
        match regex_compiled(source) {
            Ok(re) => stored(
                looked_up(s, source, now),
                source,
                Cached::Pattern(re),
                now,
                DEFAULT_TTL,
            ),
            Err(_) => looked_up(s, source, now),
        }
    }
}

/// The glob set of the single glob `pattern`, or the text of the error
/// that parsing or building gives.
pub open spec fn single_glob(pattern: Seq<char>) -> Result<globset::GlobSet, Seq<char>> {
    match glob_parsed(pattern) {
        Err(e) => Err(glob_error_text(e)),
        Ok(g) => match globset_built(seq![g]) {
            Ok(set) => Ok(set),
            Err(e) => Err(glob_error_text(e)),
        },
    }
}

/// The glob cache after the glob set of `pattern` was asked for at time
/// `now`.
pub open spec fn glob_cache_after(s: CacheState, pattern: Seq<char>, now: u128) -> CacheState {
    if served(s, pattern, now) is Some {
        looked_up(s, pattern, now)
    } else {
        match single_glob(pattern) {
            Ok(set) => stored(
                looked_up(s, pattern, now),
                pattern,
                Cached::Globs(set),
                now,
                DEFAULT_TTL,
            ),
            Err(_) => looked_up(s, pattern, now),
        }
    }
}

/// Whether the pair holds the regex that its key compiles to.
pub open spec fn holds_regex(pair: (Seq<char>, CacheEntry)) -> bool {
    pair.1.value matches Cached::Pattern(re) && regex_compiled(pair.0) == Ok::<
        regex::Regex,
        regex::Error,
    >(re)
}

/// Whether the pair holds the glob set that its key builds.
pub open spec fn holds_globs(pair: (Seq<char>, CacheEntry)) -> bool {
    pair.1.value matches Cached::Globs(set) && single_glob(pair.0) == Ok::<
        globset::GlobSet,
        Seq<char>,
    >(set)
}

/// The two caches of compiled artifacts, and the clock that their entries
/// expire by.
pub struct PatternCaches {
    globs: ArtifactCache,
    regexes: ArtifactCache,
    origin: std::time::Instant,
}

impl PatternCaches {
    /// The cache of glob sets.
    pub closed spec fn globs(&self) -> ArtifactCache {
        self.globs
    }

    /// The cache of regexes.
    pub closed spec fn regexes(&self) -> ArtifactCache {
        self.regexes
    }

    /// Both caches are well formed, their entries live for `DEFAULT_TTL`,
    /// and each entry holds what its key compiles to.
    pub open spec fn wf(&self) -> bool {
        &&& self.globs().wf()
        &&& self.regexes().wf()
        &&& self.globs().lifetime() == DEFAULT_TTL
        &&& self.regexes().lifetime() == DEFAULT_TTL
        &&& all_pairs(self.globs()@.entries, |p: (Seq<char>, CacheEntry)| holds_globs(p))
        &&& all_pairs(self.regexes()@.entries, |p: (Seq<char>, CacheEntry)| holds_regex(p))
    }

    /// Two empty caches.
    pub fn new() -> (c: PatternCaches)
        ensures
            c.wf(),
            c.globs()@.entries.len() == 0,
            c.regexes()@.entries.len() == 0,
            c.globs()@.lookups == 0,
            c.regexes()@.lookups == 0,
            c.globs()@.metrics.hits == 0 && c.globs()@.metrics.misses == 0
                && c.globs()@.metrics.evictions == 0 && c.globs()@.metrics.size == 0,
            c.regexes()@.metrics.hits == 0 && c.regexes()@.metrics.misses == 0
                && c.regexes()@.metrics.evictions == 0 && c.regexes()@.metrics.size == 0,
    {
        PatternCaches {
            globs: ArtifactCache::new(DEFAULT_TTL),
            regexes: ArtifactCache::new(DEFAULT_TTL),
            origin: clock_start(),
        }
    }

    /// The time on the caches' clock, in nanoseconds.
    pub(crate) fn now(&self) -> u128 {
        clock_nanos(&self.origin)
    }
}

fn count_char(s: &Vec<char>, c: char) -> (n: usize)
    ensures
        n == count_of(s@, c),
{
    let mut n: usize = 0;
    let mut i: usize = 0;
    assert(s@.take(0) =~= Seq::<char>::empty());
    while i < s.len()
        invariant
            i <= s.len(),
            n <= i,
            n == count_of(s@.take(i as int), c),
        decreases s.len() - i,
    {
        proof {
            assert(s@.take(i + 1).drop_last() =~= s@.take(i as int));
            assert(s@.take(i + 1).last() == s@[i as int]);
        }
        if s[i] == c {
            n += 1;
        }
        i += 1;
    }
    assert(s@.take(s.len() as int) =~= s@);
    n
}

/// Gives the regex compiled from `pat`, from the cache where it holds one
/// that has not expired at time `now`, else by compiling and caching it.
pub fn get_or_compile_regex_at(caches: &mut PatternCaches, pat: &str, now: u128) -> (r: Result<
    regex::Regex,
    GlobError,
>)
    requires
        old(caches).wf(),
    ensures
        final(caches).wf(),
        r == regex_outcome(pat@),
        final(caches).globs() == old(caches).globs(),
        final(caches).regexes()@ == regex_cache_after(old(caches).regexes()@, pat@, now),
{
    let chars = chars_of(pat);
    if chars.len() > MAX_REGEX_COMPLEXITY || count_char(&chars, '(') > MAX_REGEX_COMPLEXITY {
        return Err(GlobError::RegexTooComplex);
    }
    let ghost before = caches.regexes@;
    let ghost holds = |p: (Seq<char>, CacheEntry)| holds_regex(p);
    proof {
        lemma_pairs_stay(before.entries, pat@, MAX_CACHE_SIZE - 1, holds);
    }
    let found = caches.regexes.get(pat, now);
    let ghost looked = caches.regexes@;
    proof {
        if let Some(e) = first_with_key(before.entries, pat@) {
            assert(holds((pat@, e)));
            if e.expires_at > now {
                let promoted = seq![(pat@, e)] + without_key(before.entries, pat@);
                assert forall|i: int| 0 <= i < promoted.len() implies holds(
                    #[trigger] promoted[i],
                ) by {
                    if i > 0 {
                        assert(promoted[i] == without_key(before.entries, pat@)[i - 1]);
                    }
                }
            }
        }
        assert(all_pairs(looked.entries, holds));
    }
    if let Some(Cached::Pattern(re)) = found {
        return Ok(re);
    }
    match regex::Regex::new(pat) {
        Err(e) => Err(GlobError::Regex(e)),
        Ok(re) => {
            let kept = re.clone();
            proof {
                lemma_pairs_stay(looked.entries, pat@, MAX_CACHE_SIZE - 1, holds);
            }
            caches.regexes.put(pat.to_owned(), Cached::Pattern(kept), now);
            proof {
                let entry = CacheEntry {
                    value: Cached::Pattern(kept),
                    expires_at: expiry(now, DEFAULT_TTL),
                };
                let after = caches.regexes@.entries;
                assert forall|i: int| 0 <= i < after.len() implies holds(#[trigger] after[i]) by {
                    if i > 0 {
                        assert(after[i] == crate::store::fitting(
                            without_key(looked.entries, pat@),
                            MAX_CACHE_SIZE - 1,
                        )[i - 1]);
                    } else {
                        assert(after[0] == (pat@, entry));
                    }
                }
            }
            Ok(re)
        },
    }
}

/// Gives the regex compiled from `pat`, from the cache where it holds one
/// that has not expired, else by compiling and caching it.
pub fn get_or_compile_regex(caches: &mut PatternCaches, pat: &str) -> (r: Result<
    regex::Regex,
    GlobError,
>)
    requires
        old(caches).wf(),
    ensures
        final(caches).wf(),
        r == regex_outcome(pat@),
        final(caches).globs() == old(caches).globs(),
        exists|now: u128|
            final(caches).regexes()@ == regex_cache_after(old(caches).regexes()@, pat@, now),
{
    let now = caches.now();
    get_or_compile_regex_at(caches, pat, now)
}

fn invalid_glob(e: &globset::Error) -> (r: GlobError)
    ensures
        r matches GlobError::InvalidPattern(m) && m@ == glob_error_text(*e),
{
    GlobError::InvalidPattern(glob_error_message(e))
}

/// Gives the glob set of the single glob `pattern`, from the cache where
/// it holds one that has not expired at time `now`, else by building and
/// caching it.
pub fn get_or_compile_glob_at(caches: &mut PatternCaches, pattern: &str, now: u128) -> (r: Result<
    globset::GlobSet,
    GlobError,
>)
    requires
        old(caches).wf(),
    ensures
        final(caches).wf(),
        match single_glob(pattern@) {
            Ok(set) => r == Ok::<globset::GlobSet, GlobError>(set),
            Err(text) => r matches Err(GlobError::InvalidPattern(m)) && m@ == text,
        },
        final(caches).regexes() == old(caches).regexes(),
        final(caches).globs()@ == glob_cache_after(old(caches).globs()@, pattern@, now),
{
    let ghost before = caches.globs@;
    let ghost holds = |p: (Seq<char>, CacheEntry)| holds_globs(p);
    proof {
        lemma_pairs_stay(before.entries, pattern@, MAX_CACHE_SIZE - 1, holds);
    }
    let found = caches.globs.get(pattern, now);
    let ghost looked = caches.globs@;
    proof {
        if let Some(e) = first_with_key(before.entries, pattern@) {
            assert(holds((pattern@, e)));
            if e.expires_at > now {
                let promoted = seq![(pattern@, e)] + without_key(before.entries, pattern@);
                assert forall|i: int| 0 <= i < promoted.len() implies holds(
                    #[trigger] promoted[i],
                ) by {
                    if i > 0 {
                        assert(promoted[i] == without_key(before.entries, pattern@)[i - 1]);
                    }
                }
            }
        }
        assert(all_pairs(looked.entries, holds));
    }
    if let Some(Cached::Globs(set)) = found {
        return Ok(set);
    }
    let mut builder = globset::GlobSetBuilder::new();
    let glob = match globset::Glob::new(pattern) {
        Ok(g) => g,
        Err(e) => {
            return Err(invalid_glob(&e));
        },
    };
    add_glob(&mut builder, glob);
    assert(crate::patterns::engine::builder_globs(builder) =~= seq![glob]);
    match builder.build() {
        Err(e) => Err(invalid_glob(&e)),
        Ok(set) => {
            let kept = set.clone();
            proof {
                lemma_pairs_stay(looked.entries, pattern@, MAX_CACHE_SIZE - 1, holds);
            }
            caches.globs.put(pattern.to_owned(), Cached::Globs(kept), now);
            proof {
                let entry = CacheEntry {
                    value: Cached::Globs(kept),
                    expires_at: expiry(now, DEFAULT_TTL),
                };
                let after = caches.globs@.entries;
                assert forall|i: int| 0 <= i < after.len() implies holds(#[trigger] after[i]) by {
                    if i > 0 {
                        assert(after[i] == crate::store::fitting(
                            without_key(looked.entries, pattern@),
                            MAX_CACHE_SIZE - 1,
                        )[i - 1]);
                    } else {
                        assert(after[0] == (pattern@, entry));
                    }
                }
            }
            Ok(set)
        },
    }
}

/// Gives the glob set of the single glob `pattern`, from the cache where
/// it holds one that has not expired, else by building and caching it.
pub fn get_or_compile_glob(caches: &mut PatternCaches, pattern: &str) -> (r: Result<
    globset::GlobSet,
    GlobError,
>)
    requires
        old(caches).wf(),
    ensures
        final(caches).wf(),
        match single_glob(pattern@) {
            Ok(set) => r == Ok::<globset::GlobSet, GlobError>(set),
            Err(text) => r matches Err(GlobError::InvalidPattern(m)) && m@ == text,
        },
        final(caches).regexes() == old(caches).regexes(),
        exists|now: u128|
            final(caches).globs()@ == glob_cache_after(old(caches).globs()@, pattern@, now),
{
    let now = caches.now();
    get_or_compile_glob_at(caches, pattern, now)
}

/// Empties both caches. Each counts one eviction; hits and misses stay.
pub fn clear_caches(caches: &mut PatternCaches)
    requires
        old(caches).wf(),
    ensures
        final(caches).wf(),
        final(caches).globs()@ == cleared(old(caches).globs()@),
        final(caches).regexes()@ == cleared(old(caches).regexes()@),
{
    caches.globs.clear();
    caches.regexes.clear();
}

/// The counters of the glob cache.
pub fn glob_cache_metrics(caches: &PatternCaches) -> (m: CacheMetrics)
    ensures
        m == caches.globs()@.metrics,
{
    caches.globs.metrics()
}

/// The counters of the regex cache.
pub fn regex_cache_metrics(caches: &PatternCaches) -> (m: CacheMetrics)
    ensures
        m == caches.regexes()@.metrics,
{
    caches.regexes.metrics()
}

/// Takes a lifetime for entries. The caches keep the lifetime they were
/// made with: entries already stored keep their expiry, and entries stored
/// later live for `DEFAULT_TTL`.
pub fn set_ttl(caches: &mut PatternCaches, ttl: u128)
    ensures
        *final(caches) == *old(caches),
{
}

/// In a well-formed pair of caches, each cache holds at most
/// `MAX_CACHE_SIZE` entries, its size counter says how many, and as long
/// as no counter is full, its hits and misses add up to the lookups made.
pub proof fn lemma_counters(caches: PatternCaches)
    requires
        caches.wf(),
    ensures
        consistent(caches.globs()@),
        consistent(caches.regexes()@),
        caches.globs()@.metrics.size <= MAX_CACHE_SIZE,
        caches.regexes()@.metrics.size <= MAX_CACHE_SIZE,
{
    caches.globs().lemma_consistent();
    caches.regexes().lemma_consistent();
}

/// Every lookup counts once, as a hit or as a miss, until a counter is
/// full.
pub proof fn lemma_lookup_counts_once(s: CacheState, key: Seq<char>, now: u128)
    requires
        s.metrics.hits < u64::MAX,
        s.metrics.misses < u64::MAX,
    ensures
        looked_up(s, key, now).lookups == s.lookups + 1,
        looked_up(s, key, now).metrics.hits + looked_up(s, key, now).metrics.misses
            == s.metrics.hits + s.metrics.misses + 1,
        served(s, key, now) is Some <==> looked_up(s, key, now).metrics.hits == s.metrics.hits + 1,
{
}

/// After a cache was cleared, every lookup misses.
pub proof fn lemma_lookup_after_clear_misses(s: CacheState, key: Seq<char>, now: u128)
    ensures
        served(cleared(s), key, now) is None,
        looked_up(cleared(s), key, now).metrics.hits == s.metrics.hits,
        looked_up(cleared(s), key, now).metrics.misses == bumped(s.metrics.misses),
{
}

/// A value that was stored is served until it expires, and no longer.
pub proof fn lemma_stored_is_served(
    s: CacheState,
    key: Seq<char>,
    value: Cached,
    now: u128,
    ttl: u128,
    later: u128,
)
    ensures
        served(stored(s, key, value, now, ttl), key, later) == if expiry(now, ttl) > later {
            Some(value)
        } else {
            None
        },
{
    let entries = stored(s, key, value, now, ttl).entries;
    assert(entries[0].0 == key);
}

} // verus!
