use crate::cache::{cached, entry_index, has_entry};
use crate::movie::{DuplicateId, MovieView, NotFound};
use crate::service::{coherent, MovieService};
use crate::store::{get_step, ids_distinct, lookup, put_step, StoreMap};
use vstd::prelude::*;

verus! {

/// A run of writes, one after another, from store `m`: the store after the
/// last one, and the outcome of each.
pub open spec fn put_all(m: StoreMap, rs: Seq<MovieView>) -> (StoreMap, Seq<Result<(), DuplicateId>>)
    decreases rs.len(),
{
    if rs.len() == 0 {
        (m, Seq::empty())
    } else {
        let (m1, o) = put_step(m, rs[0]);
        let (m2, os) = put_all(m1, rs.drop_first());
        (m2, seq![o] + os)
    }
}

proof fn lemma_put_all_fresh(m: StoreMap, rs: Seq<MovieView>)
    requires
        ids_distinct(rs),
        forall|i: int| 0 <= i < rs.len() ==> !m.contains_key(#[trigger] rs[i].id),
    ensures
        put_all(m, rs).1.len() == rs.len(),
        forall|i: int| 0 <= i < rs.len() ==> #[trigger] put_all(m, rs).1[i] == Ok::<(), DuplicateId>(()),
        forall|i: int|
            0 <= i < rs.len() ==> get_step(put_all(m, rs).0, #[trigger] rs[i].id) == Ok::<
                MovieView,
                NotFound,
            >(rs[i]),
        forall|k: Seq<char>|
            (forall|i: int| 0 <= i < rs.len() ==> rs[i].id != k) ==> #[trigger] get_step(
                put_all(m, rs).0,
                k,
            ) == get_step(m, k),
    decreases rs.len(),
{
    if rs.len() > 0 {
        let m1 = m.insert(rs[0].id, rs[0]);
        let t = rs.drop_first();
        assert forall|i: int| 0 <= i < t.len() implies !m1.contains_key(#[trigger] t[i].id) by {
            assert(t[i] == rs[i + 1]);
        }
        assert(ids_distinct(t)) by {
            assert forall|a: int, b: int| 0 <= a < b < t.len() implies t[a].id != t[b].id by {
                assert(t[a] == rs[a + 1] && t[b] == rs[b + 1]);
            }
        }
        lemma_put_all_fresh(m1, t);
        let out = put_all(m, rs);
        assert forall|i: int| 0 <= i < rs.len() implies #[trigger] out.1[i] == Ok::<(), DuplicateId>(
            (),
        ) by {
            if i > 0 {
                assert(out.1[i] == put_all(m1, t).1[i - 1]);
            }
        }
        assert forall|i: int| 0 <= i < rs.len() implies get_step(out.0, #[trigger] rs[i].id) == Ok::<
            MovieView,
            NotFound,
        >(rs[i]) by {
            if i > 0 {
                assert(t[i - 1] == rs[i]);
            } else {
                assert forall|j: int| 0 <= j < t.len() implies t[j].id != rs[0].id by {
                    assert(t[j] == rs[j + 1]);
                }
                assert(get_step(out.0, rs[0].id) == get_step(m1, rs[0].id));
            }
        }
        assert forall|k: Seq<char>|
            (forall|i: int| 0 <= i < rs.len() ==> rs[i].id != k) implies #[trigger] get_step(
            out.0,
            k,
        ) == get_step(m, k) by {
            assert forall|j: int| 0 <= j < t.len() implies t[j].id != k by {
                assert(t[j] == rs[j + 1]);
            }
            assert(rs[0].id != k);
        }
    }
}

proof fn lemma_put_all_keys(m: StoreMap, rs: Seq<MovieView>, k: Seq<char>)
    requires
        forall|i: int| 0 <= i < rs.len() ==> rs[i].id != k,
    ensures
        get_step(put_all(m, rs).0, k) == get_step(m, k),
    decreases rs.len(),
{
    if rs.len() > 0 {
        let t = rs.drop_first();
        assert forall|j: int| 0 <= j < t.len() implies t[j].id != k by {
            assert(t[j] == rs[j + 1]);
        }
        lemma_put_all_keys(put_step(m, rs[0]).0, t, k);
    }
}

proof fn lemma_put_all_taken(m: StoreMap, rs: Seq<MovieView>, k: Seq<char>)
    requires
        m.contains_key(k),
        forall|i: int| 0 <= i < rs.len() ==> rs[i].id == k,
    ensures
        put_all(m, rs).0 == m,
        put_all(m, rs).1.len() == rs.len(),
        forall|i: int| 0 <= i < rs.len() ==> #[trigger] put_all(m, rs).1[i] == Err::<(), DuplicateId>(
            DuplicateId,
        ),
    decreases rs.len(),
{
    if rs.len() > 0 {
        let t = rs.drop_first();
        assert forall|j: int| 0 <= j < t.len() implies t[j].id == k by {
            assert(t[j] == rs[j + 1]);
        }
        lemma_put_all_taken(m, t, k);
        assert forall|i: int| 0 <= i < rs.len() implies #[trigger] put_all(m, rs).1[i] == Err::<
            (),
            DuplicateId,
        >(DuplicateId) by {
            if i > 0 {
                assert(put_all(m, rs).1[i] == put_all(m, t).1[i - 1]);
            }
        }
    }
}

/// Writes of records with pairwise distinct identifiers into an empty store
/// all succeed, and afterwards a read of each identifier returns exactly the
/// record written under it; a read of any other identifier finds nothing.
pub proof fn lemma_distinct_puts_then_gets(rs: Seq<MovieView>)
    requires
        ids_distinct(rs),
    ensures
        put_all(StoreMap::empty(), rs).1.len() == rs.len(),
        forall|i: int|
            0 <= i < rs.len() ==> #[trigger] put_all(StoreMap::empty(), rs).1[i] == Ok::<
                (),
                DuplicateId,
            >(()),
        forall|i: int|
            0 <= i < rs.len() ==> get_step(put_all(StoreMap::empty(), rs).0, #[trigger] rs[i].id)
                == Ok::<MovieView, NotFound>(rs[i]),
{
    lemma_put_all_fresh(StoreMap::empty(), rs);
}

/// Once a write under an identifier has succeeded, a second write under it,
/// whatever its payload, fails with `DuplicateId`, and a read still returns
/// the first record.
pub proof fn lemma_second_put_refused(m: StoreMap, r: MovieView, r2: MovieView)
    requires
        !m.contains_key(r.id),
        r2.id == r.id,
    ensures
        put_step(m, r).1 == Ok::<(), DuplicateId>(()),
        put_step(put_step(m, r).0, r2) == (put_step(m, r).0, Err::<(), DuplicateId>(DuplicateId)),
        get_step(put_step(put_step(m, r).0, r2).0, r.id) == Ok::<MovieView, NotFound>(r),
{
}

/// A read of an identifier that no write used fails with `NotFound`, after any
/// run of writes into an empty store.
pub proof fn lemma_get_unwritten(rs: Seq<MovieView>, k: Seq<char>)
    requires
        forall|i: int| 0 <= i < rs.len() ==> rs[i].id != k,
    ensures
        get_step(put_all(StoreMap::empty(), rs).0, k) == Err::<MovieView, NotFound>(NotFound),
{
    lemma_put_all_keys(StoreMap::empty(), rs, k);
}

/// Writes that all carry one identifier new to the store, taken in any order:
/// exactly the first succeeds, every other fails with `DuplicateId`, and the
/// store keeps the first one's record.
pub proof fn lemma_same_id_puts_one_wins(m: StoreMap, rs: Seq<MovieView>, k: Seq<char>)
    requires
        !m.contains_key(k),
        rs.len() > 0,
        forall|i: int| 0 <= i < rs.len() ==> rs[i].id == k,
    ensures
        put_all(m, rs).1.len() == rs.len(),
        put_all(m, rs).1[0] == Ok::<(), DuplicateId>(()),
        forall|i: int|
            0 < i < rs.len() ==> #[trigger] put_all(m, rs).1[i] == Err::<(), DuplicateId>(
                DuplicateId,
            ),
        put_all(m, rs).0 == m.insert(k, rs[0]),
{
    let m1 = m.insert(k, rs[0]);
    let t = rs.drop_first();
    assert forall|j: int| 0 <= j < t.len() implies t[j].id == k by {
        assert(t[j] == rs[j + 1]);
    }
    lemma_put_all_taken(m1, t, k);
    assert forall|i: int| 0 < i < rs.len() implies #[trigger] put_all(m, rs).1[i] == Err::<
        (),
        DuplicateId,
    >(DuplicateId) by {
        assert(put_all(m, rs).1[i] == put_all(m1, t).1[i - 1]);
    }
}

/// A read right after a successful write under `r.id` returns `r`.
pub proof fn lemma_get_after_put(m: StoreMap, r: MovieView)
    requires
        put_step(m, r).1 == Ok::<(), DuplicateId>(()),
    ensures
        get_step(put_step(m, r).0, r.id) == Ok::<MovieView, NotFound>(r),
{
}

/// The cache never answers otherwise than the store: in a well-formed service
/// an entry for `id`, if there is one, holds what the store holds under `id`.
/// So a read after a write never sees a value cached before the write.
pub proof fn lemma_cache_hit_agrees(svc: MovieService, id: Seq<char>)
    requires
        svc.wf(),
    ensures
        cached(svc.cache_entries(), id) == None::<Option<MovieView>> || cached(
            svc.cache_entries(),
            id,
        ) == Some(lookup(svc@, id)),
{
    svc.lemma_coherent();
    let s = svc.cache_entries();
    if has_entry(s, id) {
        let i = entry_index(s, id);
        assert(s[i].found == lookup(svc@, s[i].id));
    }
}

/// Two services holding the same records, one with its cache on and one with
/// it off, answer a write and a read alike: the outcome and the records after
/// it depend on the records alone, never on what is cached.
pub proof fn lemma_cache_unobservable(
    cached_svc: MovieService,
    bare_svc: MovieService,
    r: MovieView,
    id: Seq<char>,
)
    requires
        cached_svc.wf(),
        bare_svc.wf(),
        bare_svc.cache_capacity() == 0,
        cached_svc@ == bare_svc@,
    ensures
        put_step(cached_svc@, r) == put_step(bare_svc@, r),
        get_step(cached_svc@, id) == get_step(bare_svc@, id),
        cached(cached_svc.cache_entries(), id) == None::<Option<MovieView>> || cached(
            cached_svc.cache_entries(),
            id,
        ) == Some(lookup(bare_svc@, id)),
{
    lemma_cache_hit_agrees(cached_svc, id);
}

} // verus!
