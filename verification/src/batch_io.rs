//! The stat service: metadata by path, kept for a while in a bounded
//! cache. The filesystem itself is asked elsewhere; what it answered comes
//! in as plain values.

use crate::error::GlobError;
use crate::predicates::FileMeta;
use crate::store::{
    after_put, all_pairs, expiry, first_with_key, fitting, lemma_pairs_stay, without_key,
    CacheEntry, Cached, Lookup, TtlStore, MAX_CAPACITY,
};
use vstd::prelude::*;

verus! {

/// The time that cached metadata stays valid, in nanoseconds.
pub const METADATA_CACHE_TTL: u128 = 30000000000;

/// What is said of a symbolic link that may not be followed.
pub open spec fn symlink_message() -> Seq<char> {
    "Symlinks not allowed"@
}

/// What the filesystem answered about one path: whether the path itself
/// is a symbolic link, and the metadata found by following links.
pub struct Probe {
    pub is_symlink: bool,
    pub metadata: Result<FileMeta, std::io::Error>,
}

/// Whether the pair holds a metadata snapshot.
pub open spec fn holds_metadata(pair: (Seq<char>, CacheEntry)) -> bool {
    pair.1.value is Metadata
}

/// The metadata that the cache serves for `path` at time `now`.
pub open spec fn cached_metadata(
    entries: Seq<(Seq<char>, CacheEntry)>,
    path: Seq<char>,
    now: u128,
) -> Option<FileMeta> {
    match first_with_key(entries, path) {
        Some(e) => if e.expires_at > now {
            match e.value {
                Cached::Metadata(m) => Some(m),
                _ => None,
            }
        } else {
            None
        },
        None => None,
    }
}

/// The cache after `path` was looked up at time `now`: a fresh entry is
/// the most recently used one, an expired entry is gone.
pub open spec fn after_lookup(
    entries: Seq<(Seq<char>, CacheEntry)>,
    path: Seq<char>,
    now: u128,
) -> Seq<(Seq<char>, CacheEntry)> {
    match first_with_key(entries, path) {
        Some(e) => if e.expires_at > now {
            seq![(path, e)] + without_key(entries, path)
        } else {
            without_key(entries, path)
        },
        None => entries,
    }
}

/// Why metadata that was asked for is not handed out.
pub enum Refusal {
    /// The path is a symbolic link and links are not followed.
    Symlink,
    /// The filesystem failed.
    Io(std::io::Error),
    /// The entry may not be written.
    ReadOnly,
}

/// What becomes of a probe: the metadata, or why it is not handed out. A
/// symbolic link is refused where links are not followed, before anything
/// else is looked at; then a failure of the filesystem is passed on; then
/// an entry that may not be written is refused.
pub open spec fn admitted(follow_symlinks: bool, probe: Probe) -> Result<FileMeta, Refusal> {
    if !follow_symlinks && probe.is_symlink {
        Err(Refusal::Symlink)
    } else {
        match probe.metadata {
            Err(e) => Err(Refusal::Io(e)),
            Ok(meta) => if meta.readonly {
                Err(Refusal::ReadOnly)
            } else {
                Ok(meta)
            },
        }
    }
}

/// What asking for the metadata of `path` at time `now` gives: what the
/// cache serves, else what becomes of the probe.
pub open spec fn stat_result(
    entries: Seq<(Seq<char>, CacheEntry)>,
    follow_symlinks: bool,
    path: Seq<char>,
    now: u128,
    probe: Probe,
) -> Result<FileMeta, Refusal> {
    match cached_metadata(entries, path, now) {
        Some(meta) => Ok(meta),
        None => admitted(follow_symlinks, probe),
    }
}

/// The cache after the metadata of `path` was asked for at time `now`:
/// after the lookup and, where the probe gave metadata that was needed,
/// with that metadata stored.
pub open spec fn stat_cache(
    entries: Seq<(Seq<char>, CacheEntry)>,
    follow_symlinks: bool,
    path: Seq<char>,
    now: u128,
    probe: Probe,
    capacity: nat,
) -> Seq<(Seq<char>, CacheEntry)> {
    let looked = after_lookup(entries, path, now);
    if cached_metadata(entries, path, now) is Some {
        looked
    } else {
        match admitted(follow_symlinks, probe) {
            Ok(meta) => after_put(
                looked,
                path,
                CacheEntry {
                    value: Cached::Metadata(meta),
                    expires_at: expiry(now, METADATA_CACHE_TTL),
                },
                capacity,
            ),
            Err(_) => looked,
        }
    }
}

/// Whether the error `e` reports the refusal `x`.
pub open spec fn is_refusal(e: GlobError, x: Refusal) -> bool {
    match x {
        Refusal::Symlink => e matches GlobError::Other(m) && m@ == symlink_message(),
        Refusal::Io(err) => e == GlobError::Io(err),
        Refusal::ReadOnly => e is PermissionDenied,
    }
}

/// Metadata by path, with a bounded cache of what was found.
pub struct BatchIO {
    metadata_cache: TtlStore,
    follow_symlinks: bool,
}

impl View for BatchIO {
    type V = Seq<(Seq<char>, CacheEntry)>;

    closed spec fn view(&self) -> Seq<(Seq<char>, CacheEntry)> {
        self.metadata_cache@
    }
}

impl BatchIO {
    /// Whether symbolic links are followed.
    pub closed spec fn follows(&self) -> bool {
        self.follow_symlinks
    }

    /// The number of entries that the cache may hold.
    pub closed spec fn capacity(&self) -> nat {
        self.metadata_cache.capacity()
    }

    /// The cache is bounded, its entries live for `METADATA_CACHE_TTL`, and
    /// each of them holds metadata.
    pub closed spec fn wf(&self) -> bool {
        &&& self.metadata_cache.wf()
        &&& self.metadata_cache.lifetime() == METADATA_CACHE_TTL
        &&& all_pairs(self.metadata_cache@, |p: (Seq<char>, CacheEntry)| holds_metadata(p))
    }

    /// A cache that is well formed holds no more than it was made for.
    pub proof fn lemma_bounded(&self)
        requires
            self.wf(),
        ensures
            self@.len() <= self.capacity(),
            1 <= self.capacity(),
    {
    }

    /// A stat service with an empty cache for `cache_size` entries.
    pub fn new(cache_size: usize, follow_symlinks: bool) -> (b: BatchIO)
        requires
            0 < cache_size <= MAX_CAPACITY,
        ensures
            b.wf(),
            b@ == Seq::<(Seq<char>, CacheEntry)>::empty(),
            b.capacity() == cache_size,
            b.follows() == follow_symlinks,
    {
        BatchIO { metadata_cache: TtlStore::new(cache_size, METADATA_CACHE_TTL), follow_symlinks }
    }

    /// Whether symbolic links are followed.
    pub fn follow_symlinks(&self) -> (b: bool)
        ensures
            b == self.follows(),
    {
        self.follow_symlinks
    }

    /// Looks up the metadata of `path` in the cache at time `now`.
    pub fn cached(&mut self, path: &str, now: u128) -> (r: Option<FileMeta>)
        requires
            old(self).wf(),
        ensures
            final(self).wf(),
            final(self).follows() == old(self).follows(),
            final(self).capacity() == old(self).capacity(),
            r == cached_metadata(old(self)@, path@, now),
            final(self)@ == after_lookup(old(self)@, path@, now),
    {
        let ghost holds = |p: (Seq<char>, CacheEntry)| holds_metadata(p);
        proof {
            lemma_pairs_stay(self@, path@, 0, holds);
            if let Some(e) = first_with_key(self@, path@) {
                assert(holds((path@, e)));
                let promoted = seq![(path@, e)] + without_key(self@, path@);
                assert forall|i: int| 0 <= i < promoted.len() implies holds(
                    #[trigger] promoted[i],
                ) by {
                    if i > 0 {
                        assert(promoted[i] == without_key(self@, path@)[i - 1]);
                    }
                }
            }
        }
        match self.metadata_cache.lookup(path, now) {
            Lookup::Fresh(Cached::Metadata(meta)) => Some(meta),
            _ => None,
        }
    }

    /// Decides what becomes of the answer `probe` of the filesystem about
    /// `path` at time `now`: metadata that is handed out is cached.
    pub fn resolve(&mut self, path: &str, now: u128, probe: Probe) -> (r: Result<
        FileMeta,
        GlobError,
    >)
        requires
            old(self).wf(),
        ensures
            final(self).wf(),
            final(self).follows() == old(self).follows(),
            final(self).capacity() == old(self).capacity(),
            match admitted(old(self).follows(), probe) {
                Ok(meta) => r == Ok::<FileMeta, GlobError>(meta) && final(self)@ == after_put(
                    old(self)@,
                    path@,
                    CacheEntry {
                        value: Cached::Metadata(meta),
                        expires_at: expiry(now, METADATA_CACHE_TTL),
                    },
                    old(self).capacity(),
                ),
                Err(x) => r matches Err(e) && is_refusal(e, x) && final(self)@ == old(self)@,
            },
    {
        if !self.follow_symlinks && probe.is_symlink {
            return Err(GlobError::Other("Symlinks not allowed".to_owned()));
        }
        let meta = match probe.metadata {
            Ok(meta) => meta,
            Err(e) => {
                return Err(GlobError::Io(e));
            },
        };
        if meta.readonly {
            return Err(GlobError::PermissionDenied);
        }
        let ghost holds = |p: (Seq<char>, CacheEntry)| holds_metadata(p);
        let ghost before = self@;
        proof {
            lemma_pairs_stay(before, path@, self.capacity() - 1, holds);
        }
        self.metadata_cache.store(path.to_owned(), Cached::Metadata(meta), now);
        proof {
            let after = self@;
            assert forall|i: int| 0 <= i < after.len() implies holds(#[trigger] after[i]) by {
                if i > 0 {
                    assert(after[i] == fitting(without_key(before, path@), self.capacity() - 1)[i
                        - 1]);
                }
            }
        }
        Ok(meta)
    }

    /// Gives the metadata of `path` at time `now`: from the cache where it
    /// holds an entry that has not expired, else from what the filesystem
    /// answered.
    pub fn stat(&mut self, path: &str, now: u128, probe: Probe) -> (r: Result<FileMeta, GlobError>)
        requires
            old(self).wf(),
        ensures
            final(self).wf(),
            final(self).follows() == old(self).follows(),
            final(self).capacity() == old(self).capacity(),
            match stat_result(old(self)@, old(self).follows(), path@, now, probe) {
                Ok(meta) => r == Ok::<FileMeta, GlobError>(meta),
                Err(x) => r matches Err(e) && is_refusal(e, x),
            },
            final(self)@ == stat_cache(
                old(self)@,
                old(self).follows(),
                path@,
                now,
                probe,
                old(self).capacity(),
            ),
    {
        match self.cached(path, now) {
            Some(meta) => Ok(meta),
            None => self.resolve(path, now, probe),
        }
    }

    /// Gives the metadata of a symbolic link itself, as the filesystem
    /// answered. Nothing is cached.
    pub fn stat_symlink(&self, answer: Result<FileMeta, std::io::Error>) -> (r: Result<
        FileMeta,
        GlobError,
    >)
        ensures
            match answer {
                Ok(meta) => r == Ok::<FileMeta, GlobError>(meta),
                Err(e) => r == Err::<FileMeta, GlobError>(GlobError::Io(e)),
            },
    {
        match answer {
            Ok(meta) => Ok(meta),
            Err(e) => Err(GlobError::Io(e)),
        }
    }

    /// Drops every cached entry.
    pub fn clear_cache(&mut self)
        requires
            old(self).wf(),
        ensures
            final(self).wf(),
            final(self).follows() == old(self).follows(),
            final(self).capacity() == old(self).capacity(),
            final(self)@ == Seq::<(Seq<char>, CacheEntry)>::empty(),
    {
        self.metadata_cache.clear();
    }
}

/// Metadata that was handed out for a path is served from the cache until
/// it expires, and never after.
pub proof fn lemma_resolved_is_cached(
    entries: Seq<(Seq<char>, CacheEntry)>,
    path: Seq<char>,
    meta: FileMeta,
    now: u128,
    capacity: nat,
    later: u128,
)
    ensures
        cached_metadata(
            after_put(
                entries,
                path,
                CacheEntry {
                    value: Cached::Metadata(meta),
                    expires_at: expiry(now, METADATA_CACHE_TTL),
                },
                capacity,
            ),
            path,
            later,
        ) == if expiry(now, METADATA_CACHE_TTL) > later {
            Some(meta)
        } else {
            None
        },
{
    let after = after_put(
        entries,
        path,
        CacheEntry { value: Cached::Metadata(meta), expires_at: expiry(now, METADATA_CACHE_TTL) },
        capacity,
    );
    assert(after[0].0 == path);
}

} // verus!
