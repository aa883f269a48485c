//! The process-wide store of computed snapshots, keyed by organization
//! id, and the request-handling steps around it: a lookup that honours
//! the sixty-second freshness window, and the refresh that recomputes a
//! snapshot from a freshly fetched page and supersedes the entry.
//!
//! The store owns its entries; a lookup hands out a copy, never a
//! reference into the store.  Entries are never deleted: a newer entry
//! for the same key supersedes the older one.

use vstd::prelude::*;
use vstd::string::StrSliceExecFns;
use crate::snapshot::DonationSnapshot;
use crate::snapshot::SnapshotView;
use crate::snapshot::compute_snapshot;
use crate::snapshot::spec_snapshot;
use crate::snapshot::url_prefix;

verus! {

/// How long a stored snapshot stays fresh, in milliseconds.
pub const CACHE_TTL_MILLIS: u64 = 60000;

/// What a cache entry holds as mathematical values.
pub ghost struct EntryView {
    pub stamp_millis: u64,
    pub snapshot: SnapshotView,
}

/// A snapshot paired with the moment it was stored, on the same clock
/// that later lookups pass in.
pub struct CacheEntry {
    pub stamp_millis: u64,
    pub snapshot: DonationSnapshot,
}

impl View for CacheEntry {
    type V = EntryView;

    open spec fn view(&self) -> EntryView {
        EntryView { stamp_millis: self.stamp_millis, snapshot: self.snapshot@ }
    }
}

impl Clone for CacheEntry {
    fn clone(&self) -> (r: Self)
        ensures
            r == *self,
    {
        CacheEntry { stamp_millis: self.stamp_millis, snapshot: self.snapshot.clone() }
    }
}

/// The mapping a sequence of keyed entries stands for: each key bound
/// to the last entry stored under it.
pub open spec fn entries_map(s: Seq<(String, CacheEntry)>) -> Map<Seq<char>, EntryView>
    decreases s.len(),
{
    if s.len() == 0 {
        Map::empty()
    } else {
        entries_map(s.drop_last()).insert(s.last().0@, s.last().1@)
    }
}

/// The store of all computed snapshots, one binding per organization
/// id.  Its view is the mapping from each id to the newest entry stored
/// under it.
pub struct CacheStore {
    entries: Vec<(String, CacheEntry)>,
}

impl View for CacheStore {
    type V = Map<Seq<char>, EntryView>;

    closed spec fn view(&self) -> Map<Seq<char>, EntryView> {
        entries_map(self.entries@)
    }
}

fn str_eq(a: &str, b: &str) -> (r: bool)
    ensures
        r == (a@ == b@),
{
    let na: usize = a.unicode_len();
    let nb: usize = b.unicode_len();
    if na != nb {
        return false;
    }
    let mut i: usize = 0;
    while i < na
        invariant
            na == a@.len(),
            na == b@.len(),
            0 <= i <= na,
            forall|k: int| 0 <= k < i ==> a@[k] == b@[k],
        decreases na - i,
    {
        if a.get_char(i) != b.get_char(i) {
            return false;
        }
        i = i + 1;
    }
    proof {
        assert(a@ =~= b@);
    }
    true
}

impl CacheStore {
    /// An empty store: no organization has an entry yet.
    pub fn new() -> (s: Self)
        ensures
            s@ == Map::<Seq<char>, EntryView>::empty(),
    {
        CacheStore { entries: Vec::new() }
    }

    /// The current entry for `key`, whatever its age — judging
    /// staleness is the caller's business.  The entry comes out as a
    /// copy, never as a reference into the store.
    pub fn lookup(&self, key: &str) -> (r: Option<CacheEntry>)
        ensures
            match r {
                Some(e) => self@.contains_key(key@) && e@ == self@[key@],
                None => !self@.contains_key(key@),
            },
    {
        let n: usize = self.entries.len();
        let mut j: usize = n;
        proof {
            assert(self.entries@.take(n as int) =~= self.entries@);
        }
        while j > 0
            invariant
                0 <= j <= n,
                n == self.entries@.len(),
                self@.contains_key(key@) == entries_map(self.entries@.take(j as int)).contains_key(
                    key@,
                ),
                self@.contains_key(key@) ==> entries_map(
                    self.entries@.take(j as int),
                ).contains_key(key@) && entries_map(self.entries@.take(j as int))[key@]
                    == self@[key@],
            decreases j,
        {
            let ghost prefix = self.entries@.take(j as int);
            proof {
                assert(prefix.drop_last() =~= self.entries@.take(j - 1));
                assert(prefix.last() == self.entries@[j - 1]);
            }
            let here = &self.entries[j - 1];
            if str_eq(here.0.as_str(), key) {
                return Some(here.1.clone());
            }
            j = j - 1;
        }
        None
    }

    /// Bind `key` to `entry`, superseding any older entry for it and
    /// touching no other key's binding.
    pub fn put(&mut self, key: &str, entry: CacheEntry)
        ensures
            final(self)@ == old(self)@.insert(key@, entry@),
    {
        let owned: String = key.to_owned();
        self.entries.push((owned, entry));
        proof {
            assert(self.entries@.drop_last() =~= old(self).entries@);
        }
    }
}

/// A stored snapshot is fresh as long as less than the freshness window
/// has passed since it was stamped.
pub open spec fn is_fresh(stamp_millis: u64, now_millis: u64) -> bool {
    stamp_millis <= now_millis && now_millis - stamp_millis < CACHE_TTL_MILLIS
}

/// What a cache consultation yields: the stored snapshot when the store
/// binds the key to an entry that is still fresh, and nothing when the
/// key is unknown or its entry has gone stale.
pub open spec fn spec_fresh_lookup(
    m: Map<Seq<char>, EntryView>,
    key: Seq<char>,
    now_millis: u64,
) -> Option<SnapshotView> {
    if m.contains_key(key) && is_fresh(m[key].stamp_millis, now_millis) {
        Some(m[key].snapshot)
    } else {
        None
    }
}

/// The cache-consulting step of handling a request: a copy of the
/// stored snapshot if one exists for this id and is still fresh, and
/// nothing — the caller must fetch — otherwise.
pub fn cached_snapshot(store: &CacheStore, org_id: &str, now_millis: u64) -> (r: Option<
    DonationSnapshot,
>)
    ensures
        match r {
            Some(snap) => spec_fresh_lookup(store@, org_id@, now_millis) == Some(snap@),
            None => spec_fresh_lookup(store@, org_id@, now_millis) is None,
        },
{
    match store.lookup(org_id) {
        Some(entry) => {
            if entry.stamp_millis <= now_millis && now_millis - entry.stamp_millis
                < CACHE_TTL_MILLIS {
                Some(entry.snapshot)
            } else {
                None
            }
        },
        None => None,
    }
}

/// The refresh step of handling a request, once the page has been
/// fetched: compute the page's snapshot, stamp it, store it under this
/// id — superseding the stale entry, touching no other id — and return
/// it as the response.
pub fn refresh_snapshot(store: &mut CacheStore, org_id: &str, page: &str, now_millis: u64) -> (snap:
    DonationSnapshot)
    ensures
        snap@ == spec_snapshot(page@, snap@.fetched_at, url_prefix() + org_id@),
        final(store)@ == old(store)@.insert(
            org_id@,
            (EntryView { stamp_millis: now_millis, snapshot: snap@ }),
        ),
{
    let snap = compute_snapshot(page, org_id);
    let entry = CacheEntry { stamp_millis: now_millis, snapshot: snap.clone() };
    store.put(org_id, entry);
    snap
}

/// Law: a request within the freshness window of a stored entry is
/// answered from the store, with that entry's snapshot itself — its
/// `fetched_at` stamp included — so no refetch happens.
pub proof fn lemma_fresh_hit_is_stored(
    m: Map<Seq<char>, EntryView>,
    key: Seq<char>,
    e: EntryView,
    now_millis: u64,
)
    requires
        is_fresh(e.stamp_millis, now_millis),
    ensures
        spec_fresh_lookup(m.insert(key, e), key, now_millis) == Some(e.snapshot),
{
}

/// Law: once the freshness window of a stored entry has elapsed, a
/// request finds nothing in the store and so triggers a refetch, which
/// stores a snapshot with a new stamp.
pub proof fn lemma_stale_after_ttl(
    m: Map<Seq<char>, EntryView>,
    key: Seq<char>,
    e: EntryView,
    now_millis: u64,
)
    requires
        now_millis >= e.stamp_millis + CACHE_TTL_MILLIS,
    ensures
        spec_fresh_lookup(m.insert(key, e), key, now_millis) is None,
{
}

/// Law: two distinct organization ids never share or overwrite each
/// other's entries — storing under one leaves every consultation of the
/// other exactly as it was.
pub proof fn lemma_distinct_keys_independent(
    m: Map<Seq<char>, EntryView>,
    stored_key: Seq<char>,
    other_key: Seq<char>,
    e: EntryView,
    now_millis: u64,
)
    requires
        stored_key != other_key,
    ensures
        spec_fresh_lookup(m.insert(stored_key, e), other_key, now_millis) == spec_fresh_lookup(
            m,
            other_key,
            now_millis,
        ),
{
}

} // verus!
