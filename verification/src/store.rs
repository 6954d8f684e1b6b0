//! A bounded store of cached values: least recently used entries leave
//! first, and every entry has a time after which it is no longer served.

use crate::predicates::FileMeta;
use vstd::prelude::*;

verus! {

/// `lru::LruCache`: a bounded map that drops the least recently used
/// entry when it is full.
#[verifier::external_type_specification]
#[verifier::external_body]
#[verifier::reject_recursive_types(K)]
#[verifier::reject_recursive_types(V)]
#[verifier::reject_recursive_types(S)]
pub struct ExLruCache<K, V, S>(lru::LruCache<K, V, S>);

/// `lru::DefaultHasher`: the hasher of an `lru::LruCache` made with
/// `new`.
#[verifier::external_type_specification]
#[verifier::external_body]
pub struct ExLruHasher(lru::DefaultHasher);

/// The most entries a store may be made for.
pub const MAX_CAPACITY: usize = 1048576;

/// A value worth keeping: a compiled glob set, a compiled regex, or a
/// metadata snapshot.
#[derive(Clone)]
pub enum Cached {
    Globs(globset::GlobSet),
    Pattern(regex::Regex),
    Metadata(FileMeta),
}

/// A cached value and the time at which it expires.
#[derive(Clone)]
pub struct CacheEntry {
    pub value: Cached,
    pub expires_at: u128,
}

/// The entries of `c` with their keys, the most recently used first.
pub uninterp spec fn lru_entries(c: lru::LruCache<String, CacheEntry>) -> Seq<
    (Seq<char>, CacheEntry),
>;

/// The number of entries that `c` was made to hold.
pub uninterp spec fn lru_capacity(c: lru::LruCache<String, CacheEntry>) -> nat;

/// The entry of the first pair of `entries` whose key is `key`.
pub open spec fn first_with_key(entries: Seq<(Seq<char>, CacheEntry)>, key: Seq<char>) -> Option<
    CacheEntry,
>
    decreases entries.len(),
{
    if entries.len() == 0 {
        None
    } else if entries[0].0 == key {
        Some(entries[0].1)
    } else {
        first_with_key(entries.skip(1), key)
    }
}

/// `entries` without the pairs whose key is `key`.
pub open spec fn without_key(entries: Seq<(Seq<char>, CacheEntry)>, key: Seq<char>) -> Seq<
    (Seq<char>, CacheEntry),
>
    decreases entries.len(),
{
    if entries.len() == 0 {
        Seq::empty()
    } else if entries[0].0 == key {
        without_key(entries.skip(1), key)
    } else {
        seq![entries[0]] + without_key(entries.skip(1), key)
    }
}

/// The first `room` pairs of `entries`, or all of them where they are
/// fewer.
pub open spec fn fitting(entries: Seq<(Seq<char>, CacheEntry)>, room: int) -> Seq<
    (Seq<char>, CacheEntry),
> {
    if 0 <= room < entries.len() {
        entries.take(room)
    } else {
        entries
    }
}

/// `entries` after `key` was put with `entry` into a cache made for
/// `capacity` entries: the new pair comes first, an older pair for the same
/// key is gone, and where the cache was full without it, the least recently
/// used pair is gone too.
pub open spec fn after_put(
    entries: Seq<(Seq<char>, CacheEntry)>,
    key: Seq<char>,
    entry: CacheEntry,
    capacity: nat,
) -> Seq<(Seq<char>, CacheEntry)> {
    seq![(key, entry)] + fitting(without_key(entries, key), capacity - 1)
}

/// `lru::LruCache::new` makes an empty cache for `capacity` entries. It
/// does not take zero, and it reserves room for all of them at once.
#[verifier::external_body]
fn lru_new(capacity: usize) -> (c: lru::LruCache<String, CacheEntry>)
    requires
        0 < capacity <= MAX_CAPACITY,
    ensures
        lru_entries(c) == Seq::<(Seq<char>, CacheEntry)>::empty(),
        lru_capacity(c) == capacity,
{
    lru::LruCache::new(std::num::NonZeroUsize::new(capacity).unwrap())
}

/// `lru::LruCache::get` hands out the value for `key`, here as a clone, and
/// makes its pair the most recently used; an absent key changes nothing.
#[verifier::external_body]
fn lru_get(c: &mut lru::LruCache<String, CacheEntry>, key: &str) -> (r: Option<CacheEntry>)
    ensures
        r == first_with_key(lru_entries(*old(c)), key@),
        lru_capacity(*final(c)) == lru_capacity(*old(c)),
        lru_entries(*final(c)) == match r {
            Some(e) => seq![(key@, e)] + without_key(lru_entries(*old(c)), key@),
            None => lru_entries(*old(c)),
        },
{
    c.get(key).cloned()
}

/// `lru::LruCache::put` stores a pair as the most recently used one. It
/// replaces the pair of the same key, or else, in a full cache, the least
/// recently used pair.
#[verifier::external_body]
fn lru_put(c: &mut lru::LruCache<String, CacheEntry>, key: String, entry: CacheEntry)
    ensures
        lru_capacity(*final(c)) == lru_capacity(*old(c)),
        lru_entries(*final(c)) == after_put(
            lru_entries(*old(c)),
            key@,
            entry,
            lru_capacity(*old(c)),
        ),
{
    c.put(key, entry);
}

/// `lru::LruCache::pop` removes the pair of `key`, if there is one.
#[verifier::external_body]
fn lru_pop(c: &mut lru::LruCache<String, CacheEntry>, key: &str)
    ensures
        lru_capacity(*final(c)) == lru_capacity(*old(c)),
        lru_entries(*final(c)) == without_key(lru_entries(*old(c)), key@),
{
    c.pop(key);
}

/// `lru::LruCache::clear` removes every pair.
#[verifier::external_body]
fn lru_clear(c: &mut lru::LruCache<String, CacheEntry>)
    ensures
        lru_capacity(*final(c)) == lru_capacity(*old(c)),
        lru_entries(*final(c)) == Seq::<(Seq<char>, CacheEntry)>::empty(),
{
    c.clear();
}

/// `lru::LruCache::len` counts the pairs.
#[verifier::external_body]
fn lru_len(c: &lru::LruCache<String, CacheEntry>) -> (n: usize)
    ensures
        n == lru_entries(*c).len(),
{
    c.len()
}

/// Taking a key out never adds a pair, and takes at least one away where
/// the key was there.
pub proof fn lemma_without_key_len(entries: Seq<(Seq<char>, CacheEntry)>, key: Seq<char>)
    ensures
        without_key(entries, key).len() <= entries.len(),
        first_with_key(entries, key) is Some ==> without_key(entries, key).len() < entries.len(),
        first_with_key(without_key(entries, key), key) is None,
        first_with_key(entries, key) is None ==> without_key(entries, key) == entries,
    decreases entries.len(),
{
    if entries.len() > 0 {
        let rest = entries.skip(1);
        lemma_without_key_len(rest, key);
        if entries[0].0 != key {
            let kept = seq![entries[0]] + without_key(rest, key);
            assert(kept[0] == entries[0]);
            assert(kept.skip(1) =~= without_key(rest, key));
            if first_with_key(entries, key) is None {
                assert(seq![entries[0]] + rest =~= entries);
            }
        }
    }
}

/// Every pair that is left after a key was taken out was there before, and
/// so was every pair that fits.
pub proof fn lemma_kept_pairs_are_old(
    entries: Seq<(Seq<char>, CacheEntry)>,
    key: Seq<char>,
    room: int,
)
    ensures
        forall|i: int|
            0 <= i < without_key(entries, key).len() ==> entries.contains(
                #[trigger] without_key(entries, key)[i],
            ),
        forall|i: int|
            0 <= i < fitting(without_key(entries, key), room).len() ==> entries.contains(
                #[trigger] fitting(without_key(entries, key), room)[i],
            ),
    decreases entries.len(),
{
    if entries.len() > 0 {
        let rest = entries.skip(1);
        lemma_kept_pairs_are_old(rest, key, room);
        let w = without_key(entries, key);
        assert forall|i: int| 0 <= i < w.len() implies entries.contains(#[trigger] w[i]) by {
            if entries[0].0 != key && i == 0 {
                assert(w[0] == entries[0]);
            } else {
                let j = if entries[0].0 != key {
                    i - 1
                } else {
                    i
                };
                let x = without_key(rest, key)[j];
                assert(w[i] == x);
                assert(rest.contains(x));
                let k = choose|k: int| 0 <= k < rest.len() && rest[k] == x;
                assert(entries[k + 1] == x);
            }
        }
    }
    let w = without_key(entries, key);
    assert forall|i: int| 0 <= i < fitting(w, room).len() implies entries.contains(
        #[trigger] fitting(w, room)[i],
    ) by {
        assert(fitting(w, room)[i] == w[i]);
    }
}

/// Whether no two pairs of `entries` have the same key.
pub open spec fn distinct_keys(entries: Seq<(Seq<char>, CacheEntry)>) -> bool {
    forall|i: int, j: int| 0 <= i < j < entries.len() ==> entries[i].0 != entries[j].0
}

/// Whether no pair of `entries` has the key `key`.
pub open spec fn lacks_key(entries: Seq<(Seq<char>, CacheEntry)>, key: Seq<char>) -> bool {
    forall|i: int| 0 <= i < entries.len() ==> (#[trigger] entries[i]).0 != key
}

proof fn lemma_found_key_is_there(entries: Seq<(Seq<char>, CacheEntry)>, key: Seq<char>)
    ensures
        first_with_key(entries, key) is Some ==> exists|j: int|
            0 <= j < entries.len() && (#[trigger] entries[j]).0 == key,
        first_with_key(entries, key) is None ==> lacks_key(entries, key),
    decreases entries.len(),
{
    if entries.len() > 0 {
        if entries[0].0 == key {
        } else {
            let rest = entries.skip(1);
            lemma_found_key_is_there(rest, key);
            if first_with_key(rest, key) is Some {
                let j = choose|j: int| 0 <= j < rest.len() && (#[trigger] rest[j]).0 == key;
                assert(entries[j + 1].0 == key);
            } else {
                assert forall|i: int| 0 <= i < entries.len() implies (#[trigger] entries[i]).0
                    != key by {
                    if i > 0 {
                        assert(rest[i - 1] == entries[i]);
                    }
                }
            }
        }
    }
}

/// Among pairs with distinct keys, taking a key out leaves distinct keys,
/// none of them that key, and takes exactly one pair away where the key
/// was there.
pub proof fn lemma_without_key_distinct(entries: Seq<(Seq<char>, CacheEntry)>, key: Seq<char>)
    requires
        distinct_keys(entries),
    ensures
        distinct_keys(without_key(entries, key)),
        lacks_key(without_key(entries, key), key),
        first_with_key(entries, key) is Some ==> without_key(entries, key).len() == entries.len()
            - 1,
    decreases entries.len(),
{
    if entries.len() > 0 {
        let rest = entries.skip(1);
        assert forall|i: int, j: int| 0 <= i < j < rest.len() implies rest[i].0 != rest[j].0 by {
            assert(rest[i] == entries[i + 1]);
            assert(rest[j] == entries[j + 1]);
        }
        lemma_without_key_distinct(rest, key);
        lemma_kept_pairs_are_old(rest, key, 0);
        lemma_without_key_len(rest, key);
        lemma_found_key_is_there(rest, key);
        let wr = without_key(rest, key);
        if entries[0].0 == key {
            if first_with_key(rest, key) is Some {
                let j = choose|j: int| 0 <= j < rest.len() && (#[trigger] rest[j]).0 == key;
                assert(entries[j + 1].0 == entries[0].0);
            }
        } else {
            let w = without_key(entries, key);
            assert(w =~= seq![entries[0]] + wr);
            assert forall|i: int, j: int| 0 <= i < j < w.len() implies w[i].0 != w[j].0 by {
                assert(w[j] == wr[j - 1]);
                if i == 0 {
                    assert(rest.contains(wr[j - 1]));
                    let k = choose|k: int| 0 <= k < rest.len() && rest[k] == wr[j - 1];
                    assert(entries[k + 1] == w[j]);
                } else {
                    assert(w[i] == wr[i - 1]);
                }
            }
            assert forall|i: int| 0 <= i < w.len() implies (#[trigger] w[i]).0 != key by {
                if i > 0 {
                    assert(w[i] == wr[i - 1]);
                }
            }
        }
    }
}

/// A pair put before pairs with distinct keys that lack its key makes
/// pairs with distinct keys again, and so do the first few of them.
pub proof fn lemma_front_distinct(
    pair: (Seq<char>, CacheEntry),
    others: Seq<(Seq<char>, CacheEntry)>,
    room: int,
)
    requires
        distinct_keys(others),
        lacks_key(others, pair.0),
    ensures
        distinct_keys(seq![pair] + others),
        distinct_keys(seq![pair] + fitting(others, room)),
        fitting(others, room).len() <= others.len(),
        0 <= room ==> fitting(others, room).len() <= room,
{
    let all = seq![pair] + others;
    assert forall|i: int, j: int| 0 <= i < j < all.len() implies all[i].0 != all[j].0 by {
        assert(all[j] == others[j - 1]);
        if i > 0 {
            assert(all[i] == others[i - 1]);
        }
    }
    let some = seq![pair] + fitting(others, room);
    assert forall|i: int, j: int| 0 <= i < j < some.len() implies some[i].0 != some[j].0 by {
        assert(some[j] == others[j - 1]);
        if i > 0 {
            assert(some[i] == others[i - 1]);
        }
    }
}

/// Whether every pair of `entries` meets `p`.
pub open spec fn all_pairs(
    entries: Seq<(Seq<char>, CacheEntry)>,
    p: spec_fn((Seq<char>, CacheEntry)) -> bool,
) -> bool {
    forall|i: int| 0 <= i < entries.len() ==> p(#[trigger] entries[i])
}

/// What holds of every pair still holds of the pair that a lookup finds
/// and of every pair that is left when a key is taken out.
pub proof fn lemma_pairs_stay(
    entries: Seq<(Seq<char>, CacheEntry)>,
    key: Seq<char>,
    room: int,
    p: spec_fn((Seq<char>, CacheEntry)) -> bool,
)
    requires
        all_pairs(entries, p),
    ensures
        first_with_key(entries, key) matches Some(e) ==> p((key, e)),
        all_pairs(without_key(entries, key), p),
        all_pairs(fitting(without_key(entries, key), room), p),
    decreases entries.len(),
{
    lemma_kept_pairs_are_old(entries, key, room);
    if entries.len() > 0 {
        let rest = entries.skip(1);
        assert forall|i: int| 0 <= i < rest.len() implies p(#[trigger] rest[i]) by {
            assert(rest[i] == entries[i + 1]);
        }
        lemma_pairs_stay(rest, key, room, p);
        if entries[0].0 == key {
            assert(p(entries[0]));
            assert(entries[0] == (key, entries[0].1));
        }
    }
    let w = without_key(entries, key);
    assert forall|i: int| 0 <= i < w.len() implies p(#[trigger] w[i]) by {
        assert(entries.contains(w[i]));
    }
    let f = fitting(w, room);
    assert forall|i: int| 0 <= i < f.len() implies p(#[trigger] f[i]) by {
        assert(entries.contains(f[i]));
    }
}

/// The time at which an entry stored at `now` with lifetime `ttl` expires.
pub open spec fn expiry(now: u128, ttl: u128) -> u128 {
    if now + ttl > u128::MAX {
        u128::MAX
    } else {
        (now + ttl) as u128
    }
}

/// What a lookup found.
pub enum Lookup {
    /// A value that has not expired.
    Fresh(Cached),
    /// An entry that had expired; it was removed.
    Expired,
    /// No entry.
    Absent,
}

/// A bounded store of values by key, each with a time to live.
pub struct TtlStore {
    entries: lru::LruCache<String, CacheEntry>,
    ttl: u128,
}

impl TtlStore {
    /// The pairs of key and entry that the store holds, the most recently
    /// used first.
    pub closed spec fn view(&self) -> Seq<(Seq<char>, CacheEntry)> {
        lru_entries(self.entries)
    }

    /// The number of entries that the store may hold.
    pub closed spec fn capacity(&self) -> nat {
        lru_capacity(self.entries)
    }

    /// The time that a stored entry stays valid.
    pub closed spec fn lifetime(&self) -> u128 {
        self.ttl
    }

    /// The store holds no more than it was made for, and one entry for a
    /// key at most.
    pub open spec fn wf(&self) -> bool {
        1 <= self.capacity() && self@.len() <= self.capacity() && distinct_keys(self@)
    }

    /// An empty store for `capacity` entries that live for `ttl`.
    pub fn new(capacity: usize, ttl: u128) -> (s: TtlStore)
        requires
            0 < capacity <= MAX_CAPACITY,
        ensures
            s.wf(),
            s@ == Seq::<(Seq<char>, CacheEntry)>::empty(),
            s.capacity() == capacity,
            s.lifetime() == ttl,
    {
        TtlStore { entries: lru_new(capacity), ttl }
    }

    /// Looks `key` up at time `now`. A fresh entry becomes the most
    /// recently used one; an expired entry is removed.
    pub fn lookup(&mut self, key: &str, now: u128) -> (r: Lookup)
        requires
            old(self).wf(),
        ensures
            final(self).wf(),
            final(self).capacity() == old(self).capacity(),
            final(self).lifetime() == old(self).lifetime(),
            match first_with_key(old(self)@, key@) {
                None => r is Absent && final(self)@ == old(self)@,
                Some(e) => if e.expires_at > now {
                    r == Lookup::Fresh(e.value) && final(self)@ == seq![(key@, e)] + without_key(
                        old(self)@,
                        key@,
                    )
                } else {
                    r is Expired && final(self)@ == without_key(old(self)@, key@)
                },
            },
    {
        proof {
            lemma_without_key_len(self@, key@);
            lemma_without_key_distinct(self@, key@);
            if let Some(e) = first_with_key(self@, key@) {
                lemma_front_distinct((key@, e), without_key(self@, key@), 0);
            }
        }
        match lru_get(&mut self.entries, key) {
            None => Lookup::Absent,
            Some(entry) => {
                if entry.expires_at > now {
                    Lookup::Fresh(entry.value)
                } else {
                    proof {
                        let promoted = self@;
                        let w = without_key(old(self)@, key@);
                        lemma_without_key_len(w, key@);
                        assert(promoted[0].0 == key@);
                        assert(promoted.skip(1) =~= w);
                        assert(without_key(promoted, key@) == w);
                    }
                    lru_pop(&mut self.entries, key);
                    Lookup::Expired
                }
            },
        }
    }

    /// Stores `value` under `key` at time `now`, as the most recently used
    /// entry. It expires one lifetime later.
    pub fn store(&mut self, key: String, value: Cached, now: u128)
        requires
            old(self).wf(),
        ensures
            final(self).wf(),
            final(self).capacity() == old(self).capacity(),
            final(self).lifetime() == old(self).lifetime(),
            final(self)@ == after_put(
                old(self)@,
                key@,
                CacheEntry { value, expires_at: expiry(now, old(self).lifetime()) },
                old(self).capacity(),
            ),
    {
        let expires_at = if now > u128::MAX - self.ttl {
            u128::MAX
        } else {
            now + self.ttl
        };
        proof {
            lemma_without_key_len(self@, key@);
            lemma_without_key_distinct(self@, key@);
            lemma_front_distinct(
                (key@, CacheEntry { value, expires_at }),
                without_key(self@, key@),
                self.capacity() - 1,
            );
        }
        lru_put(&mut self.entries, key, CacheEntry { value, expires_at });
    }

    /// Removes every entry.
    pub fn clear(&mut self)
        requires
            old(self).wf(),
        ensures
            final(self).wf(),
            final(self).capacity() == old(self).capacity(),
            final(self).lifetime() == old(self).lifetime(),
            final(self)@ == Seq::<(Seq<char>, CacheEntry)>::empty(),
    {
        lru_clear(&mut self.entries);
    }

    /// The number of entries.
    pub fn len(&self) -> (n: usize)
        ensures
            n == self@.len(),
    {
        lru_len(&self.entries)
    }
}

} // verus!
