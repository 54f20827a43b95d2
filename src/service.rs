use crate::cache::{
    entry_ids_distinct, entry_index, forget, has_entry, lemma_forget_distinct, record_entry, touch,
    Entries, EntryView, LookupCache,
};
use crate::movie::{fetched_view, opt_view, DuplicateId, Movie, MovieView, NotFound};
use crate::store::{get_step, lookup, put_step, MoviesState, StoreMap};
use vstd::prelude::*;

verus! {

/// The cache capacity that a service gets unless told otherwise.
pub const DEFAULT_CACHE_CAPACITY: usize = 1000;

/// Every cache entry holds what the store holds under its identifier.
pub open spec fn coherent(s: Entries, m: StoreMap) -> bool {
    forall|i: int| 0 <= i < s.len() ==> #[trigger] s[i].found == lookup(m, s[i].id)
}

proof fn lemma_touch_coherent(s: Entries, m: StoreMap, id: Seq<char>)
    requires
        coherent(s, m),
    ensures
        coherent(touch(s, id), m),
{
    if has_entry(s, id) {
        let i = entry_index(s, id);
        let t = touch(s, id);
        assert forall|j: int| 0 <= j < t.len() implies #[trigger] t[j].found == lookup(m, t[j].id) by {
            if j < t.len() - 1 {
                let j2 = if j < i { j } else { j + 1 };
                assert(t[j] == s[j2]);
            } else {
                assert(t[j] == s[i]);
            }
        }
    }
}

proof fn lemma_forget_coherent(s: Entries, m: StoreMap, id: Seq<char>)
    requires
        coherent(s, m),
    ensures
        coherent(forget(s, id), m),
{
    if has_entry(s, id) {
        let i = entry_index(s, id);
        let t = forget(s, id);
        assert forall|j: int| 0 <= j < t.len() implies #[trigger] t[j].found == lookup(m, t[j].id) by {
            let j2 = if j < i { j } else { j + 1 };
            assert(t[j] == s[j2]);
        }
    }
}

/// After a write under `id`, the entries with that identifier dropped agree
/// with the new store.
proof fn lemma_write_coherent(s: Entries, m: StoreMap, id: Seq<char>, v: MovieView)
    requires
        coherent(s, m),
        entry_ids_distinct(s),
    ensures
        coherent(forget(s, id), m.insert(id, v)),
{
    let t = forget(s, id);
    lemma_forget_coherent(s, m, id);
    lemma_forget_distinct(s, id);
    assert forall|j: int| 0 <= j < t.len() implies #[trigger] t[j].found == lookup(
        m.insert(id, v),
        t[j].id,
    ) by {
        assert(t[j].id != id);
        assert(t[j].found == lookup(m, t[j].id));
    }
}

proof fn lemma_record_coherent(s: Entries, m: StoreMap, cap: nat, e: EntryView)
    requires
        coherent(s, m),
        e.found == lookup(m, e.id),
    ensures
        coherent(record_entry(s, cap, e), m),
{
    let rest = forget(s, e.id);
    lemma_forget_coherent(s, m, e.id);
    let t = record_entry(s, cap, e);
    if cap != 0 {
        if rest.len() < cap {
            assert forall|j: int| 0 <= j < t.len() implies #[trigger] t[j].found == lookup(
                m,
                t[j].id,
            ) by {
                if j < rest.len() {
                    assert(t[j] == rest[j]);
                }
            }
        } else {
            assert forall|j: int| 0 <= j < t.len() implies #[trigger] t[j].found == lookup(
                m,
                t[j].id,
            ) by {
                if j < t.len() - 1 {
                    assert(t[j] == rest[j + 1]);
                }
            }
        }
    }
}

/// The store with a lookup cache in front of its reads. A write invalidates the
/// cached entry for its identifier before it returns, so the cache never
/// changes what a caller observes.
pub struct MovieService {
    store: MoviesState,
    cache: LookupCache,
}

impl View for MovieService {
    type V = StoreMap;

    closed spec fn view(&self) -> StoreMap {
        self.store@
    }
}

impl MovieService {
    /// The store is well formed and every cache entry agrees with it.
    pub closed spec fn wf(&self) -> bool {
        &&& self.store.wf()
        &&& self.cache.wf()
        &&& coherent(self.cache@, self.store@)
    }

    /// The cache's entries, from least to most recently used.
    pub closed spec fn cache_entries(&self) -> Entries {
        self.cache@
    }

    /// A well-formed service's cache agrees with its store.
    pub proof fn lemma_coherent(&self)
        requires
            self.wf(),
        ensures
            coherent(self.cache_entries(), self@),
    {
    }

    /// The most entries the cache keeps; zero when caching is off.
    pub closed spec fn cache_capacity(&self) -> nat {
        self.cache.capacity()
    }

    /// An empty service whose cache keeps at most `cache_capacity` entries
    /// (none: caching off).
    pub fn new(cache_capacity: usize) -> (r: MovieService)
        ensures
            r.wf(),
            r@ == StoreMap::empty(),
            r.cache_capacity() == cache_capacity,
    {
        MovieService { store: MoviesState::new(), cache: LookupCache::new(cache_capacity) }
    }

    /// An empty service with the default cache capacity.
    pub fn with_default_cache() -> (r: MovieService)
        ensures
            r.wf(),
            r@ == StoreMap::empty(),
            r.cache_capacity() == DEFAULT_CACHE_CAPACITY,
    {
        MovieService::new(DEFAULT_CACHE_CAPACITY)
    }

    /// An empty service with caching off: every read goes to the store.
    pub fn uncached() -> (r: MovieService)
        ensures
            r.wf(),
            r@ == StoreMap::empty(),
            r.cache_capacity() == 0,
    {
        MovieService::new(0)
    }

    /// Stores `movie` if its identifier is new, and drops any cached entry for
    /// it; otherwise fails with `DuplicateId` and changes nothing.
    pub fn put(&mut self, movie: Movie) -> (r: Result<(), DuplicateId>)
        requires
            old(self).wf(),
        ensures
            final(self).wf(),
            final(self).cache_capacity() == old(self).cache_capacity(),
            (final(self)@, r) == put_step(old(self)@, movie@),
            final(self).cache_entries() == match r {
                Ok(()) => forget(old(self).cache_entries(), movie.id@),
                Err(_) => old(self).cache_entries(),
            },
    {
        let id = movie.id.clone();
        let ghost v = movie@;
        let r = self.store.put(movie);
        match r {
            Ok(()) => {
                proof {
                    lemma_write_coherent(self.cache@, old(self).store@, id@, v);
                }
                self.cache.invalidate(&id);
            },
            Err(_) => {},
        }
        r
    }

    /// The record stored under `id`, or `NotFound`: answered from the cache
    /// when it holds an entry for `id`, else from the store, whose answer is
    /// then cached.
    pub fn get(&mut self, id: &String) -> (r: Result<Movie, NotFound>)
        requires
            old(self).wf(),
        ensures
            final(self).wf(),
            final(self).cache_capacity() == old(self).cache_capacity(),
            final(self)@ == old(self)@,
            fetched_view(r) == get_step(old(self)@, id@),
            final(self).cache_entries() == if has_entry(old(self).cache_entries(), id@) {
                touch(old(self).cache_entries(), id@)
            } else {
                record_entry(
                    old(self).cache_entries(),
                    old(self).cache_capacity(),
                    EntryView { id: id@, found: lookup(old(self)@, id@) },
                )
            },
    {
        proof {
            lemma_touch_coherent(self.cache@, self.store@, id@);
        }
        match self.cache.lookup(id) {
            Some(found) => {
                proof {
                    let s = old(self).cache@;
                    let i = entry_index(s, id@);
                    assert(s[i].found == lookup(self.store@, s[i].id));
                }
                match found {
                    Some(m) => Ok(m),
                    None => Err(NotFound),
                }
            },
            None => {
                let r = self.store.get(id);
                let found = match &r {
                    Ok(m) => Some(m.duplicate()),
                    Err(_) => None,
                };
                proof {
                    lemma_record_coherent(
                        self.cache@,
                        self.store@,
                        self.cache.capacity(),
                        EntryView { id: id@, found: opt_view(found) },
                    );
                }
                self.cache.insert(id.clone(), found);
                r
            },
        }
    }
}

} // verus!
