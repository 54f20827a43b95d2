use crate::movie::{fetched_view, DuplicateId, Movie, MovieView, NotFound};
use vstd::prelude::*;

verus! {

/// What the store holds: each stored identifier to its record.
pub type StoreMap = Map<Seq<char>, MovieView>;

/// The map that a list of records denotes; a later record wins over an earlier
/// one with the same identifier.
pub open spec fn map_of(s: Seq<MovieView>) -> StoreMap
    decreases s.len(),
{
    if s.len() == 0 {
        Map::empty()
    } else {
        map_of(s.drop_last()).insert(s.last().id, s.last())
    }
}

/// No two records of the list share an identifier.
pub open spec fn ids_distinct(s: Seq<MovieView>) -> bool {
    forall|i: int, j: int| 0 <= i < j < s.len() ==> s[i].id != s[j].id
}

/// The record stored under `id`, if any.
pub open spec fn lookup(m: StoreMap, id: Seq<char>) -> Option<MovieView> {
    if m.contains_key(id) {
        Some(m[id])
    } else {
        None
    }
}

/// A write: the store after it, and its outcome. It succeeds exactly when the
/// identifier is new, and then adds the record; otherwise nothing changes.
pub open spec fn put_step(m: StoreMap, r: MovieView) -> (StoreMap, Result<(), DuplicateId>) {
    if m.contains_key(r.id) {
        (m, Err(DuplicateId))
    } else {
        (m.insert(r.id, r), Ok(()))
    }
}

/// A read: the record stored under `id`, or `NotFound`.
pub open spec fn get_step(m: StoreMap, id: Seq<char>) -> Result<MovieView, NotFound> {
    if m.contains_key(id) {
        Ok(m[id])
    } else {
        Err(NotFound)
    }
}

proof fn lemma_map_of_keys(s: Seq<MovieView>, k: Seq<char>)
    ensures
        map_of(s).contains_key(k) <==> exists|i: int| 0 <= i < s.len() && s[i].id == k,
    decreases s.len(),
{
    if s.len() > 0 {
        let p = s.drop_last();
        lemma_map_of_keys(p, k);
        if map_of(s).contains_key(k) && s.last().id != k {
            let i = choose|i: int| 0 <= i < p.len() && p[i].id == k;
            assert(s[i] == p[i]);
        }
        if exists|i: int| 0 <= i < s.len() && s[i].id == k {
            let i = choose|i: int| 0 <= i < s.len() && s[i].id == k;
            if i < p.len() {
                assert(p[i] == s[i]);
            }
        }
    }
}

proof fn lemma_map_of_at(s: Seq<MovieView>, i: int)
    requires
        ids_distinct(s),
        0 <= i < s.len(),
    ensures
        map_of(s).contains_key(s[i].id),
        map_of(s)[s[i].id] == s[i],
    decreases s.len(),
{
    let p = s.drop_last();
    if i < s.len() - 1 {
        assert(p[i] == s[i]);
        assert(ids_distinct(p));
        lemma_map_of_at(p, i);
    }
}

/// The record store: each identifier maps to the one record written under it.
pub struct MoviesState {
    movies: Vec<Movie>,
}

impl View for MoviesState {
    type V = StoreMap;

    closed spec fn view(&self) -> StoreMap {
        map_of(self.records())
    }
}

impl MoviesState {
    closed spec fn records(&self) -> Seq<MovieView> {
        self.movies@.map_values(|m: Movie| m@)
    }

    /// Identifiers of the stored records are pairwise distinct.
    pub closed spec fn wf(&self) -> bool {
        ids_distinct(self.records())
    }

    /// An empty store.
    pub fn new() -> (r: MoviesState)
        ensures
            r.wf(),
            r@ == StoreMap::empty(),
    {
        let r = MoviesState { movies: Vec::new() };
        assert(r.records() =~= Seq::<MovieView>::empty());
        r
    }

    /// The position of the record stored under `id`, if any.
    fn position(&self, id: &String) -> (r: Option<usize>)
        requires
            self.wf(),
        ensures
            match r {
                Some(i) => i < self.movies@.len() && self.movies@[i as int].id@ == id@,
                None => !self@.contains_key(id@),
            },
    {
        let n = self.movies.len();
        let mut i: usize = 0;
        while i < n
            invariant
                n == self.movies@.len(),
                0 <= i <= n,
                forall|j: int| 0 <= j < i ==> self.movies@[j].id@ != id@,
            decreases n - i,
        {
            if self.movies[i].id == *id {
                return Some(i);
            }
            i = i + 1;
        }
        proof {
            lemma_map_of_keys(self.records(), id@);
        }
        None
    }

    /// Whether a record is stored under `id`.
    pub fn contains_id(&self, id: &String) -> (r: bool)
        requires
            self.wf(),
        ensures
            r == self@.contains_key(id@),
    {
        match self.position(id) {
            Some(i) => {
                proof {
                    lemma_map_of_at(self.records(), i as int);
                }
                true
            },
            None => false,
        }
    }

    /// Stores `movie` if no record has its identifier; otherwise refuses it
    /// with `DuplicateId` and leaves the store as it was.
    pub fn put(&mut self, movie: Movie) -> (r: Result<(), DuplicateId>)
        requires
            old(self).wf(),
        ensures
            final(self).wf(),
            (final(self)@, r) == put_step(old(self)@, movie@),
    {
        if self.contains_id(&movie.id) {
            return Err(DuplicateId);
        }
        proof {
            lemma_map_of_keys(self.records(), movie.id@);
        }
        let ghost before = self.records();
        self.movies.push(movie);
        proof {
            assert(self.records() =~= before.push(movie@));
            assert(self.records().drop_last() =~= before);
        }
        Ok(())
    }

    /// A copy of the record stored under `id`, or `NotFound`.
    pub fn get(&self, id: &String) -> (r: Result<Movie, NotFound>)
        requires
            self.wf(),
        ensures
            fetched_view(r) == get_step(self@, id@),
    {
        match self.position(id) {
            Some(i) => {
                proof {
                    lemma_map_of_at(self.records(), i as int);
                }
                Ok(self.movies[i].duplicate())
            },
            None => Err(NotFound),
        }
    }
}

} // verus!
