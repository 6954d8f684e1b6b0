//! The options of a search and their builder.

use crate::platform::backslash_separates;
use crate::predicates::Predicates;
use core::time::Duration;
use vstd::prelude::*;

verus! {

/// The number of entries that a streaming search works on at once, unless
/// told otherwise.
pub const DEFAULT_MAX_INFLIGHT: usize = 64;

/// How a search goes about its work.
#[derive(Clone, Debug)]
pub struct GlobOptions {
    /// Whether symbolic links are followed.
    pub follow_symlinks: bool,
    /// How many levels below the root are visited; all of them where
    /// absent.
    pub max_depth: Option<usize>,
    /// Whether letter case matters.
    pub case_sensitive: bool,
    /// How many entries a streaming search works on at once.
    pub max_inflight: usize,
    /// How long a streaming search waits for a free slot.
    pub timeout: Option<Duration>,
    /// Conditions on metadata.
    pub predicates: Option<Predicates>,
    /// The directory that the search starts in and stays below.
    pub root_dir: Option<String>,
}

impl GlobOptions {
    /// Whether `self` has every default that does not depend on the
    /// platform: no link is followed, depth is not limited, 64 entries are
    /// in flight, and no timeout, predicate or root is set.
    pub open spec fn is_default(&self) -> bool {
        &&& !self.follow_symlinks
        &&& self.max_depth is None
        &&& self.max_inflight == DEFAULT_MAX_INFLIGHT
        &&& self.timeout is None
        &&& self.predicates is None
        &&& self.root_dir is None
    }
}

impl GlobOptions {
    /// The default options for a platform: letter case matters except on
    /// Windows, where it is conventionally ignored.
    pub fn for_platform(windows: bool) -> (o: GlobOptions)
        ensures
            o.is_default(),
            o.case_sensitive == !windows,
    {
        GlobOptions {
            follow_symlinks: false,
            max_depth: None,
            case_sensitive: !windows,
            max_inflight: DEFAULT_MAX_INFLIGHT,
            timeout: None,
            predicates: None,
            root_dir: None,
        }
    }
}

impl Default for GlobOptions {
    /// The default options for the platform that the library runs on.
    fn default() -> (o: GlobOptions)
        ensures
            o.is_default(),
    {
        GlobOptions::for_platform(backslash_separates())
    }
}

/// Builds options one setting at a time.
pub struct GlobOptionsBuilder(GlobOptions);

impl View for GlobOptionsBuilder {
    type V = GlobOptions;

    closed spec fn view(&self) -> GlobOptions {
        self.0
    }
}

impl GlobOptionsBuilder {
    /// A builder that starts from the default options.
    pub fn new() -> (b: GlobOptionsBuilder)
        ensures
            b@.is_default(),
    {
        GlobOptionsBuilder(GlobOptions::default())
    }

    /// Sets whether symbolic links are followed.
    pub fn follow_symlinks(self, v: bool) -> (b: GlobOptionsBuilder)
        ensures
            b@ == (GlobOptions { follow_symlinks: v, ..self@ }),
    {
        let mut b = self;
        b.0.follow_symlinks = v;
        b
    }

    /// Limits the depth of the search.
    pub fn max_depth(self, d: usize) -> (b: GlobOptionsBuilder)
        ensures
            b@ == (GlobOptions { max_depth: Some(d), ..self@ }),
    {
        let mut b = self;
        b.0.max_depth = Some(d);
        b
    }

    /// Sets whether letter case matters.
    pub fn case_sensitive(self, v: bool) -> (b: GlobOptionsBuilder)
        ensures
            b@ == (GlobOptions { case_sensitive: v, ..self@ }),
    {
        let mut b = self;
        b.0.case_sensitive = v;
        b
    }

    /// Sets how many entries a streaming search works on at once.
    pub fn max_inflight(self, v: usize) -> (b: GlobOptionsBuilder)
        ensures
            b@ == (GlobOptions { max_inflight: v, ..self@ }),
    {
        let mut b = self;
        b.0.max_inflight = v;
        b
    }

    /// Sets how long a streaming search waits for a free slot.
    pub fn timeout(self, t: Duration) -> (b: GlobOptionsBuilder)
        ensures
            b@ == (GlobOptions { timeout: Some(t), ..self@ }),
    {
        let mut b = self;
        b.0.timeout = Some(t);
        b
    }

    /// Sets the conditions on metadata.
    pub fn predicates(self, p: Predicates) -> (b: GlobOptionsBuilder)
        ensures
            b@ == (GlobOptions { predicates: Some(p), ..self@ }),
    {
        let mut b = self;
        b.0.predicates = Some(p);
        b
    }

    /// Sets the directory that the search starts in and stays below.
    pub fn root_dir(self, dir: String) -> (b: GlobOptionsBuilder)
        ensures
            b@ == (GlobOptions { root_dir: Some(dir), ..self@ }),
    {
        let mut b = self;
        b.0.root_dir = Some(dir);
        b
    }

    /// The options as they were set.
    pub fn build(self) -> (o: GlobOptions)
        ensures
            o == self@,
    {
        self.0
    }
}

impl Default for GlobOptionsBuilder {
    fn default() -> (b: GlobOptionsBuilder)
        ensures
            b@.is_default(),
    {
        GlobOptionsBuilder::new()
    }
}

} // verus!
