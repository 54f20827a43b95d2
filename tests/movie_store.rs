use movie_store::{
    DuplicateId, LookupCache, Movie, MovieService, MoviesState, NotFound, DEFAULT_CACHE_CAPACITY,
};
use std::sync::Arc;

fn movie(id: &str, name: &str, year: u16, was_good: bool) -> Movie {
    Movie::new(id.to_string(), name.to_string(), year, was_good)
}

fn key(id: &str) -> String {
    id.to_string()
}

#[test]
fn example_put_get_duplicate_and_missing() {
    let mut svc = MovieService::with_default_cache();
    let up = movie("m1", "Up", 2009, true);
    assert_eq!(svc.put(up.clone()), Ok(()));
    assert_eq!(svc.get(&key("m1")), Ok(up.clone()));
    assert_eq!(svc.put(movie("m1", "Cars", 2006, false)), Err(DuplicateId));
    assert_eq!(svc.get(&key("m2")), Err(NotFound));
    assert_eq!(svc.get(&key("m1")), Ok(up));
}

#[test]
fn distinct_puts_are_each_readable() {
    for capacity in [0usize, 1, 2, DEFAULT_CACHE_CAPACITY] {
        let mut svc = MovieService::new(capacity);
        let movies: Vec<Movie> = (0..10u16)
            .map(|i| movie(&format!("id{}", i), &format!("film {}", i), 1990 + i, i % 2 == 0))
            .collect();
        for m in &movies {
            assert_eq!(svc.put(m.clone()), Ok(()));
        }
        for _ in 0..2 {
            for m in movies.iter().rev() {
                assert_eq!(svc.get(&m.id), Ok(m.clone()));
            }
        }
    }
}

#[test]
fn second_put_with_same_id_is_refused() {
    let mut svc = MovieService::new(4);
    let first = movie("a", "First", 2000, true);
    assert_eq!(svc.put(first.clone()), Ok(()));
    assert_eq!(svc.put(movie("a", "Second", 2001, false)), Err(DuplicateId));
    assert_eq!(svc.get(&key("a")), Ok(first));
}

#[test]
fn get_of_unwritten_id_is_not_found() {
    let mut svc = MovieService::new(4);
    assert_eq!(svc.get(&key("nothing")), Err(NotFound));
    assert_eq!(svc.put(movie("x", "X", 1, false)), Ok(()));
    assert_eq!(svc.get(&key("nothing")), Err(NotFound));
    assert_eq!(svc.get(&key("")), Err(NotFound));
}

#[test]
fn same_id_puts_in_sequence_one_wins() {
    let mut svc = MovieService::new(4);
    let results: Vec<Result<(), DuplicateId>> = (0..5u16)
        .map(|i| svc.put(movie("dup", &format!("v{}", i), i, true)))
        .collect();
    assert_eq!(results[0], Ok(()));
    assert!(results[1..].iter().all(|r| *r == Err(DuplicateId)));
    assert_eq!(svc.get(&key("dup")), Ok(movie("dup", "v0", 0, true)));
}

#[test]
fn concurrent_same_id_puts_one_wins() {
    let runtime = tokio::runtime::Runtime::new().unwrap();
    let shared = Arc::new(tokio::sync::Mutex::new(MovieService::with_default_cache()));
    let outcomes: Vec<Result<(), DuplicateId>> = runtime.block_on(async {
        let mut handles = Vec::new();
        for i in 0..16u16 {
            let shared = shared.clone();
            handles.push(tokio::spawn(async move {
                let mut svc = shared.lock().await;
                svc.put(movie("race", &format!("writer {}", i), i, i % 2 == 0))
            }));
        }
        let mut out = Vec::new();
        for h in handles {
            out.push(h.await.unwrap());
        }
        out
    });
    assert_eq!(outcomes.iter().filter(|r| r.is_ok()).count(), 1);
    assert_eq!(outcomes.iter().filter(|r| **r == Err(DuplicateId)).count(), 15);
    let winner = outcomes.iter().position(|r| r.is_ok()).unwrap() as u16;
    let stored = runtime.block_on(async { shared.lock().await.get(&key("race")) });
    assert_eq!(stored.map(|m| m.year), Ok(winner));
}

#[test]
fn cache_on_and_off_give_the_same_results() {
    let mut on = MovieService::new(2);
    let mut off = MovieService::uncached();
    let ids = ["a", "b", "c", "a", "d", "b", "e", "c", "a"];
    for (n, id) in ids.iter().enumerate() {
        let k = key(id);
        assert_eq!(on.get(&k), off.get(&k));
        let m = movie(id, &format!("take {}", n), n as u16, n % 3 == 0);
        assert_eq!(on.put(m.clone()), off.put(m));
        assert_eq!(on.get(&k), off.get(&k));
    }
}

#[test]
fn read_after_write_is_never_stale() {
    let mut svc = MovieService::new(8);
    assert_eq!(svc.get(&key("A")), Err(NotFound));
    assert_eq!(svc.get(&key("A")), Err(NotFound));
    let fresh = movie("A", "Fresh", 2024, true);
    assert_eq!(svc.put(fresh.clone()), Ok(()));
    assert_eq!(svc.get(&key("A")), Ok(fresh));
}

#[test]
fn bare_store_put_get_contains() {
    let mut store = MoviesState::new();
    assert!(!store.contains_id(&key("m1")));
    assert_eq!(store.get(&key("m1")), Err(NotFound));
    let up = movie("m1", "Up", 2009, true);
    assert_eq!(store.put(up.clone()), Ok(()));
    assert!(store.contains_id(&key("m1")));
    assert_eq!(store.put(movie("m1", "Other", 1, false)), Err(DuplicateId));
    assert_eq!(store.get(&key("m1")), Ok(up));
}

#[test]
fn largest_year_is_kept() {
    let mut store = MoviesState::new();
    let m = movie("y", "Far Future", u16::MAX, false);
    assert_eq!(store.put(m.clone()), Ok(()));
    assert_eq!(store.get(&key("y")).map(|r| r.year), Ok(65535));
}

#[test]
fn duplicate_copies_every_field() {
    let m = movie("d", "Dup", 1977, true);
    let c = m.duplicate();
    assert_eq!(c.id, "d");
    assert_eq!(c.name, "Dup");
    assert_eq!(c.year, 1977);
    assert!(c.was_good);
}

#[test]
fn cache_evicts_least_recently_used() {
    let mut cache = LookupCache::new(2);
    cache.insert(key("a"), Some(movie("a", "A", 1, true)));
    cache.insert(key("b"), None);
    assert_eq!(cache.lookup(&key("a")), Some(Some(movie("a", "A", 1, true))));
    cache.insert(key("c"), Some(movie("c", "C", 3, false)));
    assert_eq!(cache.lookup(&key("b")), None);
    assert_eq!(cache.lookup(&key("a")), Some(Some(movie("a", "A", 1, true))));
    assert_eq!(cache.lookup(&key("c")), Some(Some(movie("c", "C", 3, false))));
}

#[test]
fn cache_caches_misses_and_replaces_entries() {
    let mut cache = LookupCache::new(3);
    cache.insert(key("x"), None);
    assert_eq!(cache.lookup(&key("x")), Some(None));
    cache.insert(key("x"), Some(movie("x", "X", 5, true)));
    assert_eq!(cache.lookup(&key("x")), Some(Some(movie("x", "X", 5, true))));
    cache.insert(key("y"), None);
    cache.insert(key("z"), None);
    assert_eq!(cache.lookup(&key("x")), Some(Some(movie("x", "X", 5, true))));
}

#[test]
fn cache_invalidate_drops_only_that_entry() {
    let mut cache = LookupCache::new(4);
    cache.insert(key("p"), None);
    cache.insert(key("q"), None);
    cache.invalidate(&key("p"));
    cache.invalidate(&key("absent"));
    assert_eq!(cache.lookup(&key("p")), None);
    assert_eq!(cache.lookup(&key("q")), Some(None));
}

#[test]
fn cache_of_capacity_zero_keeps_nothing() {
    let mut cache = LookupCache::new(0);
    cache.insert(key("a"), Some(movie("a", "A", 1, true)));
    assert_eq!(cache.lookup(&key("a")), None);
}
