//! Time-bounded cache of fetched key sets, one entry per trust domain.
//!
//! A cached entry answers lookups until it is ten minutes old; after
//! that it counts as absent and the next caller must fetch afresh and
//! store the result, replacing the entry wholesale.  A failed fetch
//! never falls back to a stale entry: the stale entry simply stops
//! being returned.

use vstd::prelude::*;

use vstd::pervasive::VecAdditionalExecFns;

use crate::verification::JwkKey;

verus! {

/// How long a fetched key set stays usable, in milliseconds.
pub const KEY_SET_TTL_MS: u64 = 600000;

/// One cached key set with the time it was fetched.
#[derive(Debug)]
pub struct KeySetEntry {
    pub keys: Vec<JwkKey>,
    pub fetched_at_ms: u64,
}

/// The cache: a map from trust domain to its latest fetched key set.
#[derive(Debug)]
pub struct KeySetCache {
    pub entries: Vec<(String, KeySetEntry)>,
}

/// Index of the first entry for domain `d`.
pub open spec fn spec_dom_index(entries: Seq<(String, KeySetEntry)>, d: Seq<char>, i: int) -> Option<
    int,
>
    decreases entries.len() - i,
{
    if i < 0 || i >= entries.len() {
        None
    } else if entries[i].0@ == d {
        Some(i)
    } else {
        spec_dom_index(entries, d, i + 1)
    }
}

/// The cache holds at most one entry per domain.
pub open spec fn spec_cache_wf(c: KeySetCache) -> bool {
    forall|i: int, j: int|
        0 <= i < j < c.entries@.len() ==> (#[trigger] c.entries@[i]).0@ != (
        #[trigger] c.entries@[j]).0@
}

/// The entry stored for a domain, fresh or not.
pub open spec fn spec_entry_of(c: KeySetCache, d: Seq<char>) -> Option<KeySetEntry> {
    match spec_dom_index(c.entries@, d, 0) {
        Some(i) => Some(c.entries@[i].1),
        None => None,
    }
}

/// An entry is fresh while its age is under the TTL.  A fetch time in
/// the future counts as age zero.
pub open spec fn spec_fresh(e: KeySetEntry, now_ms: u64) -> bool {
    (now_ms as int) < e.fetched_at_ms + KEY_SET_TTL_MS
}

/// What a lookup returns: the domain's entry while it is fresh, and
/// nothing once it has expired or when none was stored.
pub open spec fn spec_lookup(c: KeySetCache, d: Seq<char>, now_ms: u64) -> Option<KeySetEntry> {
    match spec_entry_of(c, d) {
        Some(e) => {
            if spec_fresh(e, now_ms) {
                Some(e)
            } else {
                None
            }
        },
        None => None,
    }
}

proof fn lemma_dom_index_skips(entries: Seq<(String, KeySetEntry)>, d: Seq<char>, i: int, j: int)
    requires
        0 <= i <= j <= entries.len(),
        forall|k: int| i <= k < j ==> (#[trigger] entries[k]).0@ != d,
    ensures
        spec_dom_index(entries, d, i) == spec_dom_index(entries, d, j),
    decreases j - i,
{
    if i < j {
        lemma_dom_index_skips(entries, d, i + 1, j);
    }
}

impl KeySetCache {
    /// An empty cache.
    pub fn new() -> (r: KeySetCache)
        ensures
            spec_cache_wf(r),
            forall|d: Seq<char>| spec_entry_of(r, d) is None,
    {
        KeySetCache { entries: Vec::new() }
    }

    /// Finds the entry index for a domain.
    fn find_index(&self, domain: &str) -> (r: Option<usize>)
        ensures
            match r {
                Some(i) => spec_dom_index(self.entries@, domain@, 0) == Some(i as int) && i
                    < self.entries@.len(),
                None => spec_dom_index(self.entries@, domain@, 0) is None,
            },
    {
        let mut i: usize = 0;
        while i < self.entries.len()
            invariant
                0 <= i <= self.entries@.len(),
                forall|k: int| 0 <= k < i ==> (#[trigger] self.entries@[k]).0@ != domain@,
            decreases self.entries@.len() - i,
        {
            if self.entries[i].0.as_str().eq(domain) {
                proof {
                    lemma_dom_index_skips(self.entries@, domain@, 0, i as int);
                }
                return Some(i);
            }
            i = i + 1;
        }
        proof {
            lemma_dom_index_skips(self.entries@, domain@, 0, self.entries@.len() as int);
        }
        None
    }

    /// Returns the domain's key set while a fresh entry exists; an
    /// expired or missing entry yields nothing, and the caller must
    /// fetch and `store`.
    pub fn lookup(&self, domain: &str, now_ms: u64) -> (r: Option<&KeySetEntry>)
        ensures
            match r {
                Some(e) => spec_lookup(*self, domain@, now_ms) == Some(*e),
                None => spec_lookup(*self, domain@, now_ms) is None,
            },
    {
        match self.find_index(domain) {
            Some(i) => {
                let e = &self.entries[i].1;
                if e.fetched_at_ms <= now_ms && now_ms - e.fetched_at_ms >= KEY_SET_TTL_MS {
                    None
                } else {
                    Some(e)
                }
            },
            None => None,
        }
    }

    /// Stores a freshly fetched key set for a domain, replacing any
    /// prior entry wholesale.  Entries of other domains are untouched.
    pub fn store(&mut self, domain: &str, keys: Vec<JwkKey>, now_ms: u64)
        requires
            spec_cache_wf(*old(self)),
        ensures
            spec_cache_wf(*final(self)),
            match spec_entry_of(*final(self), domain@) {
                Some(e) => e.keys == keys && e.fetched_at_ms == now_ms,
                None => false,
            },
            forall|d2: Seq<char>|
                d2 != domain@ ==> #[trigger] spec_entry_of(*final(self), d2) == spec_entry_of(
                    *old(self),
                    d2,
                ),
    {
        let entry = KeySetEntry { keys, fetched_at_ms: now_ms };
        match self.find_index(domain) {
            Some(i) => {
                let mut dom = String::new();
                dom.append(domain);
                let ghost old_entries = self.entries@;
                self.entries.set(i, (dom, entry));
                proof {
                    assert(dom@ =~= domain@);
                    lemma_store_update(old_entries, self.entries@, domain@, i as int);
                }
            },
            None => {
                let mut dom = String::new();
                dom.append(domain);
                let ghost old_entries = self.entries@;
                self.entries.push((dom, entry));
                proof {
                    assert(dom@ =~= domain@);
                    lemma_store_push(old_entries, self.entries@, domain@);
                }
            },
        }
    }
}

/// Updating the entry at the domain's own index changes that domain's
/// entry and no other, and keeps domains unique.
proof fn lemma_store_update(
    old_entries: Seq<(String, KeySetEntry)>,
    new_entries: Seq<(String, KeySetEntry)>,
    d: Seq<char>,
    i: int,
)
    requires
        0 <= i < old_entries.len(),
        spec_dom_index(old_entries, d, 0) == Some(i),
        new_entries.len() == old_entries.len(),
        forall|k: int| 0 <= k < old_entries.len() && k != i ==> old_entries[k] == #[trigger] new_entries[k],
        new_entries[i].0@ == d,
        forall|a: int, b: int|
            0 <= a < b < old_entries.len() ==> (#[trigger] old_entries[a]).0@ != (
            #[trigger] old_entries[b]).0@,
    ensures
        forall|a: int, b: int|
            0 <= a < b < new_entries.len() ==> (#[trigger] new_entries[a]).0@ != (
            #[trigger] new_entries[b]).0@,
        spec_dom_index(new_entries, d, 0) == Some(i),
        forall|d2: Seq<char>|
            d2 != d ==> #[trigger] spec_dom_index(new_entries, d2, 0) == spec_dom_index(
                old_entries,
                d2,
                0,
            ),
        forall|d2: Seq<char>|
            d2 != d ==> match #[trigger] spec_dom_index(new_entries, d2, 0) {
                Some(j) => 0 <= j < old_entries.len() && new_entries[j] == old_entries[j],
                None => true,
            },
{
    lemma_dom_index_no_front(old_entries, d, i);
    assert forall|a: int, b: int| 0 <= a < b < new_entries.len() implies (
    #[trigger] new_entries[a]).0@ != (#[trigger] new_entries[b]).0@ by {
        if a != i && b != i {
            assert(new_entries[a] == old_entries[a]);
            assert(new_entries[b] == old_entries[b]);
        } else if a == i {
            assert(new_entries[b] == old_entries[b]);
            assert(old_entries[b].0@ != d);
        } else {
            assert(new_entries[a] == old_entries[a]);
            assert(old_entries[a].0@ != d);
        }
    }
    lemma_dom_index_front(new_entries, d, i);
    assert forall|d2: Seq<char>| d2 != d implies #[trigger] spec_dom_index(new_entries, d2, 0)
        == spec_dom_index(old_entries, d2, 0) by {
        lemma_dom_index_same(old_entries, new_entries, d2, 0, i);
    }
    assert forall|d2: Seq<char>| d2 != d implies match #[trigger] spec_dom_index(
        new_entries,
        d2,
        0,
    ) {
        Some(j) => 0 <= j < old_entries.len() && new_entries[j] == old_entries[j],
        None => true,
    } by {
        lemma_dom_index_is_match(old_entries, d2, 0);
        lemma_dom_index_is_match(old_entries, d, 0);
    }
}

/// With unique domains, the entry at the domain's index is the only one
/// with that domain.
proof fn lemma_dom_index_no_front(entries: Seq<(String, KeySetEntry)>, d: Seq<char>, i: int)
    requires
        0 <= i < entries.len(),
        spec_dom_index(entries, d, 0) == Some(i),
        forall|a: int, b: int|
            0 <= a < b < entries.len() ==> (#[trigger] entries[a]).0@ != (
            #[trigger] entries[b]).0@,
    ensures
        forall|k: int| 0 <= k < entries.len() && k != i ==> (#[trigger] entries[k]).0@ != d,
        entries[i].0@ == d,
{
    lemma_dom_index_is_match(entries, d, 0);
    assert forall|k: int| 0 <= k < entries.len() && k != i implies (#[trigger] entries[k]).0@
        != d by {
        if k < i {
            assert(entries[k].0@ != entries[i].0@);
        } else {
            assert(entries[i].0@ != entries[k].0@);
        }
    }
}

/// A found index really holds the domain.
proof fn lemma_dom_index_is_match(entries: Seq<(String, KeySetEntry)>, d: Seq<char>, i: int)
    requires
        0 <= i <= entries.len(),
    ensures
        match spec_dom_index(entries, d, i) {
            Some(j) => i <= j < entries.len() && entries[j].0@ == d,
            None => true,
        },
    decreases entries.len() - i,
{
    if i < entries.len() && entries[i].0@ != d {
        lemma_dom_index_is_match(entries, d, i + 1);
    }
}

/// With unique domains, the entry holding `d` is found from the front.
proof fn lemma_dom_index_front(entries: Seq<(String, KeySetEntry)>, d: Seq<char>, i: int)
    requires
        0 <= i < entries.len(),
        entries[i].0@ == d,
        forall|a: int, b: int|
            0 <= a < b < entries.len() ==> (#[trigger] entries[a]).0@ != (
            #[trigger] entries[b]).0@,
    ensures
        spec_dom_index(entries, d, 0) == Some(i),
{
    assert forall|k: int| 0 <= k < i implies (#[trigger] entries[k]).0@ != d by {
        assert(entries[k].0@ != entries[i].0@);
    }
    lemma_dom_index_skips(entries, d, 0, i);
}

/// Two entry lists that differ only at an index whose domain is not
/// `d2`, in both, agree on `d2`'s index.
proof fn lemma_dom_index_same(
    old_entries: Seq<(String, KeySetEntry)>,
    new_entries: Seq<(String, KeySetEntry)>,
    d2: Seq<char>,
    from: int,
    i: int,
)
    requires
        old_entries.len() == new_entries.len(),
        0 <= i < old_entries.len(),
        forall|k: int| 0 <= k < old_entries.len() && k != i ==> old_entries[k] == new_entries[k],
        old_entries[i].0@ != d2,
        new_entries[i].0@ != d2,
        0 <= from <= old_entries.len(),
    ensures
        spec_dom_index(new_entries, d2, from) == spec_dom_index(old_entries, d2, from),
    decreases old_entries.len() - from,
{
    if from < old_entries.len() {
        lemma_dom_index_same(old_entries, new_entries, d2, from + 1, i);
    }
}

/// Appending an entry for a new domain leaves every other domain's
/// entry alone and keeps domains unique.
proof fn lemma_store_push(
    old_entries: Seq<(String, KeySetEntry)>,
    new_entries: Seq<(String, KeySetEntry)>,
    d: Seq<char>,
)
    requires
        new_entries.len() == old_entries.len() + 1,
        forall|k: int| 0 <= k < old_entries.len() ==> old_entries[k] == #[trigger] new_entries[k],
        new_entries.last().0@ == d,
        spec_dom_index(old_entries, d, 0) is None,
        forall|a: int, b: int|
            0 <= a < b < old_entries.len() ==> (#[trigger] old_entries[a]).0@ != (
            #[trigger] old_entries[b]).0@,
    ensures
        forall|a: int, b: int|
            0 <= a < b < new_entries.len() ==> (#[trigger] new_entries[a]).0@ != (
            #[trigger] new_entries[b]).0@,
        spec_dom_index(new_entries, d, 0) == Some(old_entries.len() as int),
        forall|d2: Seq<char>|
            d2 != d ==> #[trigger] spec_dom_index(new_entries, d2, 0) == spec_dom_index(
                old_entries,
                d2,
                0,
            ),
        forall|d2: Seq<char>|
            d2 != d ==> match #[trigger] spec_dom_index(new_entries, d2, 0) {
                Some(j) => 0 <= j < old_entries.len() && new_entries[j] == old_entries[j],
                None => true,
            },
{
    lemma_dom_index_no_match(old_entries, d, 0);
    assert forall|a: int, b: int| 0 <= a < b < new_entries.len() implies (
    #[trigger] new_entries[a]).0@ != (#[trigger] new_entries[b]).0@ by {
        if b < old_entries.len() {
            assert(new_entries[a] == old_entries[a]);
            assert(new_entries[b] == old_entries[b]);
        } else {
            assert(new_entries[a] == old_entries[a]);
            assert(old_entries[a].0@ != d);
        }
    }
    assert forall|k: int| 0 <= k < old_entries.len() implies (#[trigger] new_entries[k]).0@
        != d by {
        assert(new_entries[k] == old_entries[k]);
        assert(old_entries[k].0@ != d);
    }
    lemma_dom_index_skips(new_entries, d, 0, old_entries.len() as int);
    assert forall|d2: Seq<char>| d2 != d implies #[trigger] spec_dom_index(new_entries, d2, 0)
        == spec_dom_index(old_entries, d2, 0) by {
        lemma_dom_index_push_other(old_entries, new_entries, d2, 0);
    }
    assert forall|d2: Seq<char>| d2 != d implies match #[trigger] spec_dom_index(
        new_entries,
        d2,
        0,
    ) {
        Some(j) => 0 <= j < old_entries.len() && new_entries[j] == old_entries[j],
        None => true,
    } by {
        lemma_dom_index_push_other(old_entries, new_entries, d2, 0);
        lemma_dom_index_is_match(old_entries, d2, 0);
    }
}

/// No entry carries a domain whose index search failed.
proof fn lemma_dom_index_no_match(entries: Seq<(String, KeySetEntry)>, d: Seq<char>, i: int)
    requires
        0 <= i <= entries.len(),
        spec_dom_index(entries, d, i) is None,
    ensures
        forall|k: int| i <= k < entries.len() ==> (#[trigger] entries[k]).0@ != d,
    decreases entries.len() - i,
{
    if i < entries.len() {
        lemma_dom_index_no_match(entries, d, i + 1);
    }
}

proof fn lemma_dom_index_push_other(
    old_entries: Seq<(String, KeySetEntry)>,
    new_entries: Seq<(String, KeySetEntry)>,
    d2: Seq<char>,
    from: int,
)
    requires
        new_entries.len() == old_entries.len() + 1,
        forall|k: int| 0 <= k < old_entries.len() ==> old_entries[k] == new_entries[k],
        new_entries.last().0@ != d2,
        0 <= from <= old_entries.len(),
    ensures
        spec_dom_index(new_entries, d2, from) == spec_dom_index(old_entries, d2, from),
    decreases old_entries.len() - from,
{
    if from < old_entries.len() {
        lemma_dom_index_push_other(old_entries, new_entries, d2, from + 1);
    } else {
        assert(spec_dom_index(new_entries, d2, from + 1) is None);
    }
}

/// The cache contract in one place: after a key set is stored for a
/// domain, every lookup within the TTL window returns exactly that key
/// set without any further fetch, and the first lookup at or past the
/// TTL returns nothing, forcing a fresh fetch whose store replaces the
/// entry.
pub proof fn lemma_cache_round_trip(
    after: KeySetCache,
    domain: Seq<char>,
    keys: Vec<JwkKey>,
    stored_at: u64,
    later: u64,
)
    requires
        spec_entry_of(after, domain) == Some(KeySetEntry { keys, fetched_at_ms: stored_at }),
    ensures
        later < stored_at + KEY_SET_TTL_MS ==> spec_lookup(after, domain, later) == Some(
            KeySetEntry { keys, fetched_at_ms: stored_at },
        ),
        later >= stored_at + KEY_SET_TTL_MS ==> spec_lookup(after, domain, later) is None,
{
}

} // verus!
