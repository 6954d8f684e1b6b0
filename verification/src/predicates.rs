//! Filters on file metadata: size, type and time bounds.

use vstd::prelude::*;

verus! {

/// The kind of entry a predicate may ask for.
#[derive(Clone, Copy, Debug, PartialEq, Eq, Structural)]
pub enum FileType {
    /// Regular files.
    File,
    /// Directories.
    Dir,
    /// Symbolic links.
    Symlink,
}

/// A snapshot of what the filesystem says about one entry. Times count
/// nanoseconds from the Unix epoch; a time that the platform does not
/// record is absent.
#[derive(Clone, Copy, Debug, PartialEq, Eq, Structural)]
pub struct FileMeta {
    /// Size in bytes.
    pub len: u64,
    /// Whether the entry is a regular file.
    pub is_file: bool,
    /// Whether the entry is a directory.
    pub is_dir: bool,
    /// Whether the entry is a symbolic link.
    pub is_symlink: bool,
    /// Whether the entry may not be written.
    pub readonly: bool,
    /// When the entry was last modified.
    pub modified: Option<i128>,
    /// When the entry was created.
    pub created: Option<i128>,
}

/// Conditions on an entry's metadata. Every condition that is set must
/// hold; one that is absent asks for nothing.
#[derive(Clone, Copy, Debug)]
pub struct Predicates {
    /// Smallest size in bytes.
    pub min_size: Option<u64>,
    /// Largest size in bytes.
    pub max_size: Option<u64>,
    /// The kind of entry.
    pub file_type: Option<FileType>,
    /// Earliest time of last modification.
    pub mtime_after: Option<i128>,
    /// Latest time of last modification.
    pub mtime_before: Option<i128>,
    /// Earliest time of creation.
    pub ctime_after: Option<i128>,
    /// Latest time of creation.
    pub ctime_before: Option<i128>,
    /// Whether metadata is read through symbolic links.
    pub follow_symlinks: bool,
}

/// Whether `value` lies within the bounds that are set.
pub open spec fn within(value: int, low: Option<int>, high: Option<int>) -> bool {
    &&& low matches Some(l) ==> value >= l
    &&& high matches Some(h) ==> value <= h
}

/// `bound` as a mathematical integer.
pub open spec fn time_bound(bound: Option<i128>) -> Option<int> {
    match bound {
        Some(t) => Some(t as int),
        None => None,
    }
}

/// `bound` as a mathematical integer.
pub open spec fn size_bound(bound: Option<u64>) -> Option<int> {
    match bound {
        Some(t) => Some(t as int),
        None => None,
    }
}

/// Whether `meta` is of the kind `kind`.
pub open spec fn is_kind(meta: FileMeta, kind: FileType) -> bool {
    match kind {
        FileType::File => meta.is_file,
        FileType::Dir => meta.is_dir,
        FileType::Symlink => meta.is_symlink,
    }
}

impl Predicates {
    /// Whether `meta` meets every condition that is set. A time that
    /// `meta` does not have meets any bounds.
    pub open spec fn accepts(self, meta: FileMeta) -> bool {
        &&& within(meta.len as int, size_bound(self.min_size), size_bound(self.max_size))
        &&& self.file_type matches Some(kind) ==> is_kind(meta, kind)
        &&& meta.modified matches Some(t) ==> within(
            t as int,
            time_bound(self.mtime_after),
            time_bound(self.mtime_before),
        )
        &&& meta.created matches Some(t) ==> within(
            t as int,
            time_bound(self.ctime_after),
            time_bound(self.ctime_before),
        )
    }

    /// Tells whether `meta` meets every condition that is set.
    pub fn matches(&self, meta: &FileMeta) -> (b: bool)
        ensures
            b == self.accepts(*meta),
    {
        if let Some(min) = self.min_size {
            if meta.len < min {
                return false;
            }
        }
        if let Some(max) = self.max_size {
            if meta.len > max {
                return false;
            }
        }
        if let Some(kind) = self.file_type {
            let fits = match kind {
                FileType::File => meta.is_file,
                FileType::Dir => meta.is_dir,
                FileType::Symlink => meta.is_symlink,
            };
            if !fits {
                return false;
            }
        }
        if let Some(mtime) = meta.modified {
            if let Some(after) = self.mtime_after {
                if mtime < after {
                    return false;
                }
            }
            if let Some(before) = self.mtime_before {
                if mtime > before {
                    return false;
                }
            }
        }
        if let Some(ctime) = meta.created {
            if let Some(after) = self.ctime_after {
                if ctime < after {
                    return false;
                }
            }
            if let Some(before) = self.ctime_before {
                if ctime > before {
                    return false;
                }
            }
        }
        true
    }

    /// Conditions that ask for nothing: no bound on size or on either
    /// time is set, no kind is asked for, and links are not followed. Such
    /// conditions accept every entry.
    pub fn unconstrained() -> (p: Predicates)
        ensures
            p == (Predicates {
                min_size: None,
                max_size: None,
                file_type: None,
                mtime_after: None,
                mtime_before: None,
                ctime_after: None,
                ctime_before: None,
                follow_symlinks: false,
            }),
            forall|meta: FileMeta| p.accepts(meta),
    {
        Predicates {
            min_size: None,
            max_size: None,
            file_type: None,
            mtime_after: None,
            mtime_before: None,
            ctime_after: None,
            ctime_before: None,
            follow_symlinks: false,
        }
    }
}

/// With the smallest and the largest size both set to `k`, only entries of
/// exactly `k` bytes are accepted; where nothing else is asked for, all of
/// them are.
pub proof fn lemma_exact_size(p: Predicates, k: u64, meta: FileMeta)
    requires
        p.min_size == Some(k),
        p.max_size == Some(k),
    ensures
        p.accepts(meta) ==> meta.len == k,
        p.file_type is None && p.mtime_after is None && p.mtime_before is None && p.ctime_after
            is None && p.ctime_before is None ==> (p.accepts(meta) <==> meta.len == k),
{
}

/// Conditions of which none is set accept every entry.
pub proof fn lemma_no_condition_accepts_all(p: Predicates, meta: FileMeta)
    requires
        p.min_size is None,
        p.max_size is None,
        p.file_type is None,
        p.mtime_after is None,
        p.mtime_before is None,
        p.ctime_after is None,
        p.ctime_before is None,
    ensures
        p.accepts(meta),
{
}

} // verus!
