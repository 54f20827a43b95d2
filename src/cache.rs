use crate::movie::{opt_view, Movie, MovieView};
use vstd::prelude::*;

verus! {

/// The value of one cache entry: an identifier and what a lookup of it found.
pub struct EntryView {
    pub id: Seq<char>,
    pub found: Option<MovieView>,
}

/// Entries, from least to most recently used.
pub type Entries = Seq<EntryView>;

/// No two entries share an identifier.
pub open spec fn entry_ids_distinct(s: Entries) -> bool {
    forall|i: int, j: int| 0 <= i < j < s.len() ==> s[i].id != s[j].id
}

/// Some entry is kept for `id`.
pub open spec fn has_entry(s: Entries, id: Seq<char>) -> bool {
    exists|i: int| 0 <= i < s.len() && s[i].id == id
}

/// The position of the entry for `id` (meaningful where `has_entry`).
pub open spec fn entry_index(s: Entries, id: Seq<char>) -> int {
    choose|i: int| 0 <= i < s.len() && s[i].id == id
}

/// What the cache answers for `id`: `None` on a miss, else the cached result.
pub open spec fn cached(s: Entries, id: Seq<char>) -> Option<Option<MovieView>> {
    if has_entry(s, id) {
        Some(s[entry_index(s, id)].found)
    } else {
        None
    }
}

/// The entries after a lookup of `id`: a hit becomes the most recently used.
pub open spec fn touch(s: Entries, id: Seq<char>) -> Entries {
    if has_entry(s, id) {
        let i = entry_index(s, id);
        s.remove(i).push(s[i])
    } else {
        s
    }
}

/// The entries with the one for `id` dropped.
pub open spec fn forget(s: Entries, id: Seq<char>) -> Entries {
    if has_entry(s, id) {
        s.remove(entry_index(s, id))
    } else {
        s
    }
}

/// The entries after `e` is recorded in a cache of `capacity` entries: it
/// replaces any entry for its identifier and becomes the most recently used;
/// when the cache is full, the least recently used entry is evicted. A cache of
/// capacity zero keeps nothing.
pub open spec fn record_entry(s: Entries, capacity: nat, e: EntryView) -> Entries {
    let rest = forget(s, e.id);
    if capacity == 0 {
        s
    } else if rest.len() < capacity {
        rest.push(e)
    } else {
        rest.drop_first().push(e)
    }
}

proof fn lemma_entry_index(s: Entries, i: int)
    requires
        entry_ids_distinct(s),
        0 <= i < s.len(),
    ensures
        has_entry(s, s[i].id),
        entry_index(s, s[i].id) == i,
{
    assert(has_entry(s, s[i].id));
}

proof fn lemma_remove_distinct(s: Entries, i: int)
    requires
        entry_ids_distinct(s),
        0 <= i < s.len(),
    ensures
        entry_ids_distinct(s.remove(i)),
        forall|j: int| 0 <= j < s.remove(i).len() ==> s.remove(i)[j].id != s[i].id,
{
    let r = s.remove(i);
    assert forall|a: int, b: int| 0 <= a < b < r.len() implies r[a].id != r[b].id by {
        let a2 = if a < i { a } else { a + 1 };
        let b2 = if b < i { b } else { b + 1 };
        assert(r[a] == s[a2] && r[b] == s[b2]);
    }
    assert forall|j: int| 0 <= j < r.len() implies r[j].id != s[i].id by {
        let j2 = if j < i { j } else { j + 1 };
        assert(r[j] == s[j2]);
    }
}

pub(crate) proof fn lemma_forget_distinct(s: Entries, id: Seq<char>)
    requires
        entry_ids_distinct(s),
    ensures
        entry_ids_distinct(forget(s, id)),
        !has_entry(forget(s, id), id),
        forget(s, id).len() <= s.len(),
{
    if has_entry(s, id) {
        lemma_remove_distinct(s, entry_index(s, id));
    }
}

/// An entry kept by a bounded cache.
struct CacheEntry {
    id: String,
    found: Option<Movie>,
}

impl View for CacheEntry {
    type V = EntryView;

    closed spec fn view(&self) -> EntryView {
        EntryView { id: self.id@, found: opt_view(self.found) }
    }
}

fn copy_found(f: &Option<Movie>) -> (r: Option<Movie>)
    ensures
        opt_view(r) == opt_view(*f),
{
    match f {
        Some(m) => Some(m.duplicate()),
        None => None,
    }
}

/// A bounded cache of lookup results with least-recently-used eviction.
pub struct LookupCache {
    entries: Vec<CacheEntry>,
    capacity: usize,
}

impl View for LookupCache {
    type V = Entries;

    closed spec fn view(&self) -> Entries {
        self.entries@.map_values(|e: CacheEntry| e@)
    }
}

impl LookupCache {
    /// The most entries the cache keeps.
    pub closed spec fn capacity(&self) -> nat {
        self.capacity as nat
    }

    /// Entries have distinct identifiers and do not exceed the capacity.
    pub open spec fn wf(&self) -> bool {
        &&& entry_ids_distinct(self@)
        &&& self@.len() <= self.capacity()
    }

    /// An empty cache that keeps at most `capacity` entries; with capacity zero
    /// it keeps nothing and every lookup misses.
    pub fn new(capacity: usize) -> (r: LookupCache)
        ensures
            r.wf(),
            r@ == Entries::empty(),
            r.capacity() == capacity,
    {
        let r = LookupCache { entries: Vec::new(), capacity };
        assert(r@ =~= Entries::empty());
        r
    }

    /// The position of the entry for `id`, if any.
    fn position(&self, id: &String) -> (r: Option<usize>)
        requires
            self.wf(),
        ensures
            match r {
                Some(i) => i < self@.len() && self@[i as int].id == id@ && entry_index(self@, id@)
                    == i && has_entry(self@, id@),
                None => !has_entry(self@, id@),
            },
    {
        let n = self.entries.len();
        let mut i: usize = 0;
        while i < n
            invariant
                self.wf(),
                n == self@.len(),
                0 <= i <= n,
                forall|j: int| 0 <= j < i ==> self@[j].id != id@,
            decreases n - i,
        {
            if self.entries[i].id == *id {
                proof {
                    lemma_entry_index(self@, i as int);
                }
                return Some(i);
            }
            i = i + 1;
        }
        None
    }

    /// The cached result for `id`, if any (`None` on a miss); a hit becomes the
    /// most recently used entry.
    pub fn lookup(&mut self, id: &String) -> (r: Option<Option<Movie>>)
        requires
            old(self).wf(),
        ensures
            final(self).wf(),
            final(self).capacity() == old(self).capacity(),
            final(self)@ == touch(old(self)@, id@),
            match r {
                Some(f) => cached(old(self)@, id@) == Some(opt_view(f)),
                None => cached(old(self)@, id@) == None::<Option<MovieView>>,
            },
    {
        match self.position(id) {
            Some(i) => {
                let ghost before = self@;
                let e = self.entries.remove(i);
                let r = copy_found(&e.found);
                self.entries.push(e);
                proof {
                    assert(self@ =~= before.remove(i as int).push(before[i as int]));
                    lemma_remove_distinct(before, i as int);
                    let s = self@;
                    assert forall|a: int, b: int| 0 <= a < b < s.len() implies s[a].id
                        != s[b].id by {
                        if b < s.len() - 1 {
                            assert(s[a] == before.remove(i as int)[a]);
                            assert(s[b] == before.remove(i as int)[b]);
                        } else {
                            assert(s[a] == before.remove(i as int)[a]);
                        }
                    }
                }
                Some(r)
            },
            None => None,
        }
    }

    /// Drops the entry for `id`, if any.
    pub fn invalidate(&mut self, id: &String)
        requires
            old(self).wf(),
        ensures
            final(self).wf(),
            final(self).capacity() == old(self).capacity(),
            final(self)@ == forget(old(self)@, id@),
    {
        proof {
            lemma_forget_distinct(self@, id@);
        }
        match self.position(id) {
            Some(i) => {
                let ghost before = self@;
                self.entries.remove(i);
                assert(self@ =~= before.remove(i as int));
            },
            None => {},
        }
    }

    /// Records `found` as the result for `id`, as the most recently used entry,
    /// evicting the least recently used one when the cache is full.
    pub fn insert(&mut self, id: String, found: Option<Movie>)
        requires
            old(self).wf(),
        ensures
            final(self).wf(),
            final(self).capacity() == old(self).capacity(),
            final(self)@ == record_entry(
                old(self)@,
                old(self).capacity(),
                EntryView { id: id@, found: opt_view(found) },
            ),
    {
        if self.capacity == 0 {
            return;
        }
        let ghost before = self@;
        let ghost e = EntryView { id: id@, found: opt_view(found) };
        self.invalidate(&id);
        let ghost rest = self@;
        proof {
            lemma_forget_distinct(before, id@);
        }
        if self.entries.len() >= self.capacity {
            self.entries.remove(0);
            assert(self@ =~= rest.drop_first());
        }
        let ghost kept = self@;
        self.entries.push(CacheEntry { id, found });
        proof {
            assert(self@ =~= kept.push(e));
            assert forall|j: int| 0 <= j < kept.len() implies kept[j].id != e.id by {
                if kept.len() < rest.len() {
                    assert(kept[j] == rest[j + 1]);
                }
                assert(!has_entry(rest, id@));
            }
        }
    }
}

} // verus!
