//! Pattern compilation: brace expansion, translation of extended globs,
//! caches of compiled artifacts, and the compiled pattern set.

pub mod brace;
pub mod cache;
pub mod engine;
pub mod micromatch;

use crate::error::GlobError;
use crate::options::GlobOptions;
use crate::patterns::brace::{expand_inner, expansion, lemma_expansion_failures};
use crate::patterns::cache::{
    get_or_compile_regex_at, glob_cache_metrics, regex_cache_after, regex_cache_metrics,
    regex_outcome, regex_too_complex, CacheMetrics, CacheState, PatternCaches,
};
use crate::patterns::engine::{
    add_glob, builder_globs, glob_error_message, glob_error_text, glob_parsed, glob_set_is_match,
    globset_built, globset_is_empty, globset_matches, regex_compiled, regex_matches,
};
use crate::patterns::micromatch::{is_raw, micromatch_to_regex, translation, unbalanced_message};
use crate::text::{
    chars_of, contains_char, contains_text, has_infix, lines, slice, text_of, trim, trimmed,
};
use vstd::prelude::*;

verus! {

/// Compiled patterns: one matcher for all plain globs, and a regex for
/// each pattern that needs one.
#[derive(Clone)]
pub struct Patterns {
    pub set: globset::GlobSet,
    pub regexes: Vec<regex::Regex>,
}

/// Why a list of patterns does not compile.
pub enum Failure {
    /// A pattern tries to climb out of its directory.
    PathTraversal,
    /// Brace groups go too deep.
    BraceExpansionDepth,
    /// Brace expansion gives too many strings.
    BraceExpansionCount,
    /// A regex source is too long or has too many groups.
    RegexTooComplex,
    /// The regex engine refused a source.
    Regex(regex::Error),
    /// A pattern is malformed; the text says how.
    InvalidPattern(Seq<char>),
}

/// Whether the error `e` reports the failure `f`.
pub open spec fn is_failure(e: GlobError, f: Failure) -> bool {
    match f {
        Failure::PathTraversal => e is PathTraversal,
        Failure::BraceExpansionDepth => e is BraceExpansionDepth,
        Failure::BraceExpansionCount => e is BraceExpansionCount,
        Failure::RegexTooComplex => e is RegexTooComplex,
        Failure::Regex(x) => e == GlobError::Regex(x),
        Failure::InvalidPattern(text) => e matches GlobError::InvalidPattern(m) && m@ == text,
    }
}

/// What has been gathered from patterns: the globs for the glob set, and
/// the regexes, both in the order of the patterns.
pub struct Plan {
    pub globs: Seq<globset::Glob>,
    pub regexes: Seq<regex::Regex>,
}

/// `**/..`
pub open spec fn climb_from_anywhere() -> Seq<char> {
    seq!['*', '*', '/', '.', '.']
}

/// `/../`
pub open spec fn climb_between() -> Seq<char> {
    seq!['/', '.', '.', '/']
}

/// Whether `p` tries to climb out of its directory: it holds `**/..` or
/// `/../`.
pub open spec fn is_traversal(p: Seq<char>) -> bool {
    has_infix(p, climb_from_anywhere()) || has_infix(p, climb_between())
}

/// Whether `c` belongs to the syntax of extended globs.
pub open spec fn is_extended_char(c: char) -> bool {
    c == '@' || c == '!' || c == '+' || c == '?' || c == '(' || c == ')' || c == '[' || c == ']'
        || c == '{' || c == '}' || c == '|'
}

/// Whether `p` needs a regex: it holds a character of the extended
/// syntax.
pub open spec fn is_complex(p: Seq<char>) -> bool {
    exists|i: int| 0 <= i < p.len() && is_extended_char(#[trigger] p[i])
}

/// `plan` with the regex compiled from `source`.
pub open spec fn with_regex(plan: Plan, source: Seq<char>) -> Result<Plan, Failure> {
    if regex_too_complex(source) {
        Err(Failure::RegexTooComplex)
    } else {
        match regex_compiled(source) {
            Ok(re) => Ok(Plan { regexes: plan.regexes.push(re), ..plan }),
            Err(e) => Err(Failure::Regex(e)),
        }
    }
}

/// `plan` with what one expanded pattern adds. After `re:` the rest is a
/// regex source. A pattern of the extended syntax is translated to one.
/// Any other pattern is a glob for the glob set.
#[verifier::opaque]
pub open spec fn with_expansion(plan: Plan, text: Seq<char>) -> Result<Plan, Failure> {
    if is_raw(text) {
        with_regex(plan, text.skip(3))
    } else if is_complex(text) {
        match translation(text) {
            Some(source) => with_regex(plan, source),
            None => Err(Failure::InvalidPattern(unbalanced_message())),
        }
    } else {
        match glob_parsed(text) {
            Ok(g) => Ok(Plan { globs: plan.globs.push(g), ..plan }),
            Err(e) => Err(Failure::InvalidPattern(glob_error_text(e))),
        }
    }
}

/// `plan` with what the expanded patterns `list` add, in order, up to the
/// first failure.
pub open spec fn with_expansions(plan: Plan, list: Seq<Seq<char>>) -> Result<Plan, Failure>
    decreases list.len(),
{
    if list.len() == 0 {
        Ok(plan)
    } else {
        match with_expansion(plan, list[0]) {
            Ok(next) => with_expansions(next, list.skip(1)),
            Err(f) => Err(f),
        }
    }
}

/// What the pattern `p` expands to: its brace expansion where it holds
/// both `{` and `}`, else itself.
pub open spec fn expansions_of(p: Seq<char>) -> Result<Seq<Seq<char>>, Failure> {
    if p.contains('{') && p.contains('}') {
        match expansion(p) {
            Ok(list) => Ok(list),
            Err(e) => if e is BraceExpansionDepth {
                Err(Failure::BraceExpansionDepth)
            } else {
                Err(Failure::BraceExpansionCount)
            },
        }
    } else {
        Ok(seq![p])
    }
}

/// `plan` with what the pattern `p` adds, `p` being trimmed and not empty.
pub open spec fn with_pattern(plan: Plan, p: Seq<char>) -> Result<Plan, Failure> {
    match expansions_of(p) {
        Ok(list) => with_expansions(plan, list),
        Err(f) => Err(f),
    }
}

/// `plan` with what the patterns `raw` add, in order, up to the first
/// failure. Each is trimmed; an empty one adds nothing; one that tries to
/// climb out of its directory fails.
pub open spec fn with_patterns(plan: Plan, raw: Seq<Seq<char>>) -> Result<Plan, Failure>
    decreases raw.len(),
{
    if raw.len() == 0 {
        Ok(plan)
    } else {
        let p = trimmed(raw[0]);
        if p.len() == 0 {
            with_patterns(plan, raw.skip(1))
        } else if is_traversal(p) {
            Err(Failure::PathTraversal)
        } else {
            match with_pattern(plan, p) {
                Ok(next) => with_patterns(next, raw.skip(1)),
                Err(f) => Err(f),
            }
        }
    }
}

/// The regex source that one expanded pattern asks the regex cache for,
/// if it asks for any.
pub open spec fn source_asked(text: Seq<char>) -> Option<Seq<char>> {
    if is_raw(text) {
        Some(text.skip(3))
    } else if is_complex(text) {
        translation(text)
    } else {
        None
    }
}

/// The regex cache after one expanded pattern was worked on at time
/// `now`.
pub open spec fn cache_after_expansion(cache: CacheState, text: Seq<char>, now: u128) -> CacheState {
    match source_asked(text) {
        Some(source) => regex_cache_after(cache, source, now),
        None => cache,
    }
}

/// The regex cache after the expanded patterns `list` were worked on at
/// time `now`, in order, up to the first failure.
pub open spec fn cache_after_expansions(
    cache: CacheState,
    plan: Plan,
    list: Seq<Seq<char>>,
    now: u128,
) -> CacheState
    decreases list.len(),
{
    if list.len() == 0 {
        cache
    } else {
        let next = cache_after_expansion(cache, list[0], now);
        match with_expansion(plan, list[0]) {
            Ok(grown) => cache_after_expansions(next, grown, list.skip(1), now),
            Err(_) => next,
        }
    }
}

/// The regex cache after the pattern `p` was worked on at time `now`.
pub open spec fn cache_after_pattern(cache: CacheState, plan: Plan, p: Seq<char>, now: u128) -> CacheState {
    match expansions_of(p) {
        Ok(list) => cache_after_expansions(cache, plan, list, now),
        Err(_) => cache,
    }
}

/// The regex cache after the patterns `raw` were worked on at time `now`,
/// in order, up to the first failure.
pub open spec fn cache_after_patterns(
    cache: CacheState,
    plan: Plan,
    raw: Seq<Seq<char>>,
    now: u128,
) -> CacheState
    decreases raw.len(),
{
    if raw.len() == 0 {
        cache
    } else {
        let p = trimmed(raw[0]);
        if p.len() == 0 {
            cache_after_patterns(cache, plan, raw.skip(1), now)
        } else if is_traversal(p) {
            cache
        } else {
            let next = cache_after_pattern(cache, plan, p, now);
            match with_pattern(plan, p) {
                Ok(grown) => cache_after_patterns(next, grown, raw.skip(1), now),
                Err(_) => next,
            }
        }
    }
}

/// The plan that holds nothing.
pub open spec fn empty_plan() -> Plan {
    Plan { globs: Seq::empty(), regexes: Seq::empty() }
}

/// The text of each pattern.
pub open spec fn pattern_texts(patterns: Seq<&str>) -> Seq<Seq<char>> {
    Seq::new(patterns.len(), |i: int| patterns[i]@)
}

/// Whether `r` is what compiling the patterns `raw` gives: the first
/// failure, or the glob set built from all plain globs with the regexes of
/// all other patterns, both in the order of the patterns.
pub open spec fn compiles_to(raw: Seq<Seq<char>>, r: Result<Patterns, GlobError>) -> bool {
    match with_patterns(empty_plan(), raw) {
        Err(f) => r matches Err(e) && is_failure(e, f),
        Ok(plan) => match globset_built(plan.globs) {
            Err(x) => r matches Err(e) && is_failure(
                e,
                Failure::InvalidPattern(glob_error_text(x)),
            ),
            Ok(set) => r matches Ok(p) && p.set == set && p.regexes@ == plan.regexes
                && globset_is_empty(p.set) == (plan.globs.len() == 0),
        },
    }
}

fn climb_needles() -> (r: (Vec<char>, Vec<char>))
    ensures
        r.0@ == climb_from_anywhere(),
        r.1@ == climb_between(),
{
    let mut a: Vec<char> = Vec::new();
    a.push('*');
    a.push('*');
    a.push('/');
    a.push('.');
    a.push('.');
    let mut b: Vec<char> = Vec::new();
    b.push('/');
    b.push('.');
    b.push('.');
    b.push('/');
    assert(a@ =~= climb_from_anywhere());
    assert(b@ =~= climb_between());
    (a, b)
}

impl Patterns {
    /// Whether the patterns accept `path`: the glob set is not empty and
    /// matches it, or one of the regexes does.
    pub open spec fn accepts(&self, path: Seq<char>) -> bool {
        (!globset_is_empty(self.set) && globset_matches(self.set, path)) || exists|i: int|
            0 <= i < self.regexes@.len() && regex_matches(#[trigger] self.regexes@[i], path)
    }

    /// Compiles a list of patterns. Each is trimmed, and an empty one is
    /// passed over. Braces are expanded; `re:` marks a regex source; the
    /// extended syntax is translated to a regex; plain globs go to one glob
    /// set, which is built at the end. The first failure ends the work.
    /// Regexes come from the cache, which is asked at the time it is when
    /// the work begins.
    pub fn compile_many(patterns: &[&str], opts: &GlobOptions, caches: &mut PatternCaches) -> (r:
        Result<Patterns, GlobError>)
        requires
            old(caches).wf(),
        ensures
            final(caches).wf(),
            final(caches).globs() == old(caches).globs(),
            compiles_to(pattern_texts(patterns@), r),
            patterns@.len() == 0 ==> (r matches Ok(p) && forall|path: Seq<char>|
                !p.accepts(path)),
            exists|now: u128|
                final(caches).regexes()@ == cache_after_patterns(
                    old(caches).regexes()@,
                    empty_plan(),
                    pattern_texts(patterns@),
                    now,
                ),
    {
        let now = caches.now();
        Self::compile_many_at(patterns, opts, caches, now)
    }

    /// Compiles a list of patterns as `compile_many` does, with the regex
    /// cache asked at time `now`.
    pub fn compile_many_at(
        patterns: &[&str],
        opts: &GlobOptions,
        caches: &mut PatternCaches,
        now: u128,
    ) -> (r: Result<Patterns, GlobError>)
        requires
            old(caches).wf(),
        ensures
            final(caches).wf(),
            final(caches).globs() == old(caches).globs(),
            compiles_to(pattern_texts(patterns@), r),
            patterns@.len() == 0 ==> (r matches Ok(p) && forall|path: Seq<char>|
                !p.accepts(path)),
            final(caches).regexes()@ == cache_after_patterns(
                old(caches).regexes()@,
                empty_plan(),
                pattern_texts(patterns@),
                now,
            ),
    {
        let mut builder = globset::GlobSetBuilder::new();
        let mut regexes: Vec<regex::Regex> = Vec::new();
        let (from_anywhere, between) = climb_needles();
        let ghost all = pattern_texts(patterns@);
        let mut i: usize = 0;
        assert(all.skip(0) =~= all);
        while i < patterns.len()
            invariant
                i <= patterns.len(),
                all == pattern_texts(patterns@),
                from_anywhere@ == climb_from_anywhere(),
                between@ == climb_between(),
                caches.wf(),
                caches.globs() == old(caches).globs(),
                with_patterns(empty_plan(), all) == with_patterns(
                    Plan { globs: builder_globs(builder), regexes: regexes@ },
                    all.skip(i as int),
                ),
                cache_after_patterns(old(caches).regexes()@, empty_plan(), all, now)
                    == cache_after_patterns(
                    caches.regexes()@,
                    Plan { globs: builder_globs(builder), regexes: regexes@ },
                    all.skip(i as int),
                    now,
                ),
            decreases patterns.len() - i,
        {
            let ghost rest = all.skip(i as int);
            proof {
                assert(rest[0] == patterns@[i as int]@);
                assert(rest.skip(1) =~= all.skip(i + 1));
            }
            let chars = chars_of(patterns[i]);
            let pattern = trim(&chars);
            if pattern.len() > 0 {
                if contains_text(&pattern, &from_anywhere) || contains_text(&pattern, &between) {
                    return Err(GlobError::PathTraversal);
                }
                match Self::process_pattern(
                    &pattern,
                    &mut builder,
                    &mut regexes,
                    opts,
                    caches,
                    now,
                ) {
                    Err(e) => {
                        return Err(e);
                    },
                    Ok(()) => {},
                }
            }
            i += 1;
        }
        match builder.build() {
            Err(e) => Err(GlobError::InvalidPattern(glob_error_message(&e))),
            Ok(set) => Ok(Patterns { set, regexes }),
        }
    }

    /// Adds what one trimmed pattern stands for to the glob-set builder and
    /// to the regexes.
    pub fn process_pattern(
        pattern: &Vec<char>,
        builder: &mut globset::GlobSetBuilder,
        regexes: &mut Vec<regex::Regex>,
        opts: &GlobOptions,
        caches: &mut PatternCaches,
        now: u128,
    ) -> (r: Result<(), GlobError>)
        requires
            old(caches).wf(),
        ensures
            final(caches).wf(),
            final(caches).globs() == old(caches).globs(),
            match with_pattern(
                Plan { globs: builder_globs(*old(builder)), regexes: old(regexes)@ },
                pattern@,
            ) {
                Ok(plan) => r is Ok && builder_globs(*final(builder)) == plan.globs
                    && final(regexes)@ == plan.regexes,
                Err(f) => r matches Err(e) && is_failure(e, f),
            },
            final(caches).regexes()@ == cache_after_pattern(
                old(caches).regexes()@,
                Plan { globs: builder_globs(*old(builder)), regexes: old(regexes)@ },
                pattern@,
                now,
            ),
    {
        let expanded: Vec<Vec<char>> = if contains_char(pattern, '{') && contains_char(
            pattern,
            '}',
        ) {
            proof {
                lemma_expansion_failures(pattern@, 0);
            }
            match expand_inner(pattern, 0) {
                Ok(list) => list,
                Err(e) => {
                    return Err(e);
                },
            }
        } else {
            let mut one: Vec<Vec<char>> = Vec::new();
            let whole = slice(pattern, 0, pattern.len());
            assert(whole@ =~= pattern@);
            one.push(whole);
            assert(lines(one@) =~= seq![pattern@]);
            one
        };
        let ghost list = lines(expanded@);
        let ghost start = Plan { globs: builder_globs(*builder), regexes: regexes@ };
        let mut k: usize = 0;
        assert(list.skip(0) =~= list);
        assert(with_pattern(start, pattern@) == with_expansions(start, list));
        while k < expanded.len()
            invariant
                k <= expanded.len(),
                list == lines(expanded@),
                start == (Plan { globs: builder_globs(*old(builder)), regexes: old(regexes)@ }),
                with_pattern(start, pattern@) == with_expansions(start, list),
                cache_after_pattern(old(caches).regexes()@, start, pattern@, now)
                    == cache_after_expansions(
                    caches.regexes()@,
                    Plan { globs: builder_globs(*builder), regexes: regexes@ },
                    list.skip(k as int),
                    now,
                ),
                caches.wf(),
                caches.globs() == old(caches).globs(),
                with_expansions(start, list) == with_expansions(
                    Plan { globs: builder_globs(*builder), regexes: regexes@ },
                    list.skip(k as int),
                ),
            decreases expanded.len() - k,
        {
            let ghost rest = list.skip(k as int);
            proof {
                assert(rest[0] == expanded@[k as int]@);
                assert(rest.skip(1) =~= list.skip(k + 1));
            }
            match Self::add_expansion(&expanded[k], builder, regexes, caches, now) {
                Ok(()) => {},
                Err(e) => {
                    return Err(e);
                },
            }
            k += 1;
        }
        Ok(())
    }

    fn add_regex(
        source: &str,
        regexes: &mut Vec<regex::Regex>,
        caches: &mut PatternCaches,
        now: u128,
    ) -> (r: Result<(), GlobError>)
        requires
            old(caches).wf(),
        ensures
            final(caches).wf(),
            final(caches).globs() == old(caches).globs(),
            final(caches).regexes()@ == regex_cache_after(old(caches).regexes()@, source@, now),
            match regex_outcome(source@) {
                Ok(re) => r is Ok && final(regexes)@ == old(regexes)@.push(re),
                Err(x) => r == Err::<(), GlobError>(x),
            },
    {
        match get_or_compile_regex_at(caches, source, now) {
            Ok(re) => {
                regexes.push(re);
                Ok(())
            },
            Err(e) => Err(e),
        }
    }

    /// Adds what one expanded pattern stands for to the glob-set builder
    /// or to the regexes.
    fn add_expansion(
        item: &Vec<char>,
        builder: &mut globset::GlobSetBuilder,
        regexes: &mut Vec<regex::Regex>,
        caches: &mut PatternCaches,
        now: u128,
    ) -> (r: Result<(), GlobError>)
        requires
            old(caches).wf(),
        ensures
            final(caches).wf(),
            final(caches).globs() == old(caches).globs(),
            final(caches).regexes()@ == cache_after_expansion(old(caches).regexes()@, item@, now),
            match with_expansion(
                Plan { globs: builder_globs(*old(builder)), regexes: old(regexes)@ },
                item@,
            ) {
                Ok(plan) => r is Ok && builder_globs(*final(builder)) == plan.globs
                    && final(regexes)@ == plan.regexes,
                Err(f) => r matches Err(e) && is_failure(e, f),
            },
    {
        reveal(with_expansion);
        if item.len() >= 3 && item[0] == 'r' && item[1] == 'e' && item[2] == ':' {
            let source = text_of(&slice(item, 3, item.len()));
            assert(source@ =~= item@.skip(3));
            Self::add_regex(source.as_str(), regexes, caches, now)
        } else if Self::is_complex_chars(item) {
            let text = text_of(item);
            match micromatch_to_regex(text.as_str()) {
                Ok(source) => Self::add_regex(source.as_str(), regexes, caches, now),
                Err(e) => Err(e),
            }
        } else {
            let text = text_of(item);
            Self::add_glob_pattern(text.as_str(), builder)
        }
    }

    fn is_complex_chars(pattern: &Vec<char>) -> (b: bool)
        ensures
            b == is_complex(pattern@),
    {
        let mut i: usize = 0;
        while i < pattern.len()
            invariant
                i <= pattern.len(),
                forall|k: int| 0 <= k < i ==> !is_extended_char(#[trigger] pattern@[k]),
            decreases pattern.len() - i,
        {
            let c = pattern[i];
            if c == '@' || c == '!' || c == '+' || c == '?' || c == '(' || c == ')' || c == '['
                || c == ']' || c == '{' || c == '}' || c == '|' {
                return true;
            }
            i += 1;
        }
        false
    }

    /// Tells whether `pattern` needs a regex: it holds one of
    /// `@ ! + ? ( ) [ ] { } |`.
    pub fn is_complex_pattern(pattern: &str) -> (b: bool)
        ensures
            b == is_complex(pattern@),
    {
        let chars = chars_of(pattern);
        Self::is_complex_chars(&chars)
    }

    /// Parses `pattern` as a glob and adds it to the builder.
    pub fn add_glob_pattern(pattern: &str, builder: &mut globset::GlobSetBuilder) -> (r: Result<
        (),
        GlobError,
    >)
        ensures
            match glob_parsed(pattern@) {
                Ok(g) => r is Ok && builder_globs(*final(builder)) == builder_globs(
                    *old(builder),
                ).push(g),
                Err(x) => r matches Err(GlobError::InvalidPattern(m)) && m@ == glob_error_text(x)
                    && builder_globs(*final(builder)) == builder_globs(*old(builder)),
            },
    {
        match globset::Glob::new(pattern) {
            Ok(glob) => {
                add_glob(builder, glob);
                Ok(())
            },
            Err(e) => Err(GlobError::InvalidPattern(glob_error_message(&e))),
        }
    }

    /// Tells whether `path` is accepted: by the glob set, which is asked
    /// first, or by one of the regexes.
    pub fn is_match(&self, path: &str) -> (b: bool)
        ensures
            b == self.accepts(path@),
    {
        if !self.set.is_empty() && glob_set_is_match(&self.set, path) {
            return true;
        }
        let mut i: usize = 0;
        while i < self.regexes.len()
            invariant
                i <= self.regexes.len(),
                forall|k: int| 0 <= k < i ==> !regex_matches(#[trigger] self.regexes@[k], path@),
            decreases self.regexes.len() - i,
        {
            if self.regexes[i].is_match(path) {
                return true;
            }
            i += 1;
        }
        false
    }

    /// Tells whether `path` might be accepted: the glob set matches it, or
    /// there is a regex at all.
    pub fn could_match(&self, path: &str) -> (b: bool)
        ensures
            b == (globset_matches(self.set, path@) || self.regexes@.len() > 0),
            self.accepts(path@) ==> b,
    {
        glob_set_is_match(&self.set, path) || self.regexes.len() > 0
    }
}

/// The counters of the glob cache and of the regex cache.
pub fn cache_metrics(caches: &PatternCaches) -> (m: (CacheMetrics, CacheMetrics))
    ensures
        m.0 == caches.globs()@.metrics,
        m.1 == caches.regexes()@.metrics,
{
    (glob_cache_metrics(caches), regex_cache_metrics(caches))
}

/// A pattern `re:` followed by a regex source compiles to that source's
/// regex alone, and then accepts exactly what that regex matches. This
/// holds of a pattern that is trimmed already, does not climb, does not
/// hold both braces, and whose source is not refused as too complex.
pub proof fn lemma_raw_regex_alone(source: Seq<char>, p: Patterns, path: Seq<char>)
    requires
        trimmed(seq!['r', 'e', ':'] + source) == seq!['r', 'e', ':'] + source,
        !is_traversal(seq!['r', 'e', ':'] + source),
        !(source.contains('{') && source.contains('}')),
        !regex_too_complex(source),
        globset_is_empty(p.set),
        regex_compiled(source) matches Ok(re) && p.regexes@ == seq![re],
    ensures
        with_patterns(empty_plan(), seq![seq!['r', 'e', ':'] + source]) == Ok::<Plan, Failure>(
            Plan { globs: Seq::empty(), regexes: p.regexes@ },
        ),
        p.accepts(path) == regex_matches(regex_compiled(source)->Ok_0, path),
{
    let text = seq!['r', 'e', ':'] + source;
    let raw = seq![text];
    assert(raw[0] == text);
    assert(raw.skip(1) =~= Seq::<Seq<char>>::empty());
    assert(text.skip(3) =~= source);
    assert(is_raw(text));
    assert(!(text.contains('{') && text.contains('}'))) by {
        if text.contains('{') {
            let i = choose|i: int| 0 <= i < text.len() && text[i] == '{';
            assert(source[i - 3] == '{');
        }
        if text.contains('}') {
            let i = choose|i: int| 0 <= i < text.len() && text[i] == '}';
            assert(source[i - 3] == '}');
        }
    }
    let list = seq![text];
    assert(list[0] == text);
    assert(list.skip(1) =~= Seq::<Seq<char>>::empty());
    let re = regex_compiled(source)->Ok_0;
    assert(Seq::<regex::Regex>::empty().push(re) =~= p.regexes@);
    reveal(with_expansion);
    reveal_with_fuel(with_patterns, 2);
    reveal_with_fuel(with_expansions, 2);
    if p.accepts(path) {
        let i = choose|i: int|
            0 <= i < p.regexes@.len() && regex_matches(#[trigger] p.regexes@[i], path);
        assert(p.regexes@[i] == re);
    } else if regex_matches(re, path) {
        assert(regex_matches(p.regexes@[0], path));
    }
}

} // verus!
