//! Merging pools into a list by id: a pool takes the place of the last pool
//! with its id, or comes last. What merging a batch twice does, and in what
//! order two batches may be merged.

use crate::routes::FastPool;
use vstd::prelude::*;

verus! {

/// The position of the last pool with the given id, if there is one.
pub open spec fn last_index_of(pools: Seq<FastPool>, id: Seq<char>) -> Option<int>
    decreases pools.len(),
{
    if pools.len() == 0 {
        None
    } else if pools.last().id@ == id {
        Some(pools.len() - 1)
    } else {
        last_index_of(pools.drop_last(), id)
    }
}

/// The pools after one pool has been merged in: it takes the place of the
/// last pool with its id, or comes last where there is none.
pub open spec fn upsert_one(pools: Seq<FastPool>, pool: FastPool) -> Seq<FastPool> {
    match last_index_of(pools, pool.id@) {
        Some(i) => pools.update(i, pool),
        None => pools.push(pool),
    }
}

/// The pools after the first `n` pools of a batch have been merged in, one
/// after the other.
pub open spec fn upsert_all(pools: Seq<FastPool>, batch: Seq<FastPool>, n: int) -> Seq<FastPool>
    decreases n,
{
    if n <= 0 {
        pools
    } else {
        upsert_one(upsert_all(pools, batch, n - 1), batch[n - 1])
    }
}

/// The last position of an id is a position of the list, and holds a pool
/// with that id; without one, no pool has the id.
pub proof fn lemma_last_index_of(pools: Seq<FastPool>, id: Seq<char>)
    ensures
        match last_index_of(pools, id) {
            Some(i) => 0 <= i < pools.len() && pools[i].id@ == id && forall|j: int|
                i < j < pools.len() ==> pools[j].id@ != id,
            None => forall|j: int| 0 <= j < pools.len() ==> pools[j].id@ != id,
        },
    decreases pools.len(),
{
    if pools.len() > 0 && pools.last().id@ != id {
        let shorter = pools.drop_last();
        lemma_last_index_of(shorter, id);
        match last_index_of(shorter, id) {
            Some(i) => {
                assert(pools[i] == shorter[i]);
                assert forall|j: int| i < j < pools.len() implies pools[j].id@ != id by {
                    if j < shorter.len() {
                        assert(pools[j] == shorter[j]);
                    }
                }
            },
            None => {
                assert forall|j: int| 0 <= j < pools.len() implies pools[j].id@ != id by {
                    if j < shorter.len() {
                        assert(pools[j] == shorter[j]);
                    }
                }
            },
        }
    }
}

/// The last position of an id is settled by the ids alone: two lists with
/// the same ids at the same positions have the same last positions.
pub proof fn lemma_last_index_by_ids(a: Seq<FastPool>, b: Seq<FastPool>, id: Seq<char>)
    requires
        a.len() == b.len(),
        forall|j: int| 0 <= j < a.len() ==> a[j].id@ == b[j].id@,
    ensures
        last_index_of(a, id) == last_index_of(b, id),
    decreases a.len(),
{
    if a.len() > 0 {
        lemma_last_index_by_ids(a.drop_last(), b.drop_last(), id);
    }
}


/// The last position of an id after a pool has been merged in: where it was,
/// for every id that was there; at the end, for the id of the pool where it
/// is new. The ids at the positions that were there stay.
pub proof fn lemma_upsert_one_index(pools: Seq<FastPool>, pool: FastPool, id: Seq<char>)
    ensures
        upsert_one(pools, pool).len() >= pools.len(),
        forall|j: int| 0 <= j < pools.len() ==> upsert_one(pools, pool)[j].id@ == pools[j].id@,
        id != pool.id@ ==> last_index_of(upsert_one(pools, pool), id) == last_index_of(pools, id),
        id == pool.id@ ==> last_index_of(upsert_one(pools, pool), id) == Some(
            match last_index_of(pools, id) {
                Some(i) => i,
                None => pools.len() as int,
            },
        ),
        last_index_of(upsert_one(pools, pool), pool.id@) is Some,
        upsert_one(pools, pool)[last_index_of(upsert_one(pools, pool), pool.id@).unwrap()] == pool,
{
    lemma_last_index_of(pools, pool.id@);
    let merged = upsert_one(pools, pool);
    match last_index_of(pools, pool.id@) {
        Some(i) => {
            lemma_last_index_by_ids(merged, pools, id);
            lemma_last_index_by_ids(merged, pools, pool.id@);
        },
        None => {
            assert(merged.drop_last() =~= pools);
            assert(merged.last() == pool);
        },
    }
}

/// Every id of the first `n` pools of a batch has, once they are merged in,
/// a last position, and the pool there is the last pool of the batch with
/// that id.
pub proof fn lemma_upsert_all_holds_batch(
    pools: Seq<FastPool>,
    batch: Seq<FastPool>,
    n: int,
    id: Seq<char>,
)
    requires
        0 <= n <= batch.len(),
        last_index_of(batch.take(n), id) is Some,
    ensures
        last_index_of(upsert_all(pools, batch, n), id) is Some,
        upsert_all(pools, batch, n)[last_index_of(upsert_all(pools, batch, n), id).unwrap()]
            == batch[last_index_of(batch.take(n), id).unwrap()],
    decreases n,
{
    if n > 0 {
        let before = upsert_all(pools, batch, n - 1);
        let pool = batch[n - 1];
        assert(batch.take(n).drop_last() =~= batch.take(n - 1));
        assert(batch.take(n).last() == pool);
        lemma_upsert_one_index(before, pool, id);
        if pool.id@ != id {
            lemma_upsert_all_holds_batch(pools, batch, n - 1, id);
            lemma_last_index_of(before, id);
            lemma_last_index_of(before, pool.id@);
        }
    }
}

/// Merging in the first `m` pools of a batch, each of whose ids has a last
/// position in the list already, changes no id and no length: it leaves at
/// the last position of an id the last pool with that id among the `m`, and
/// every other pool as it was.
pub proof fn lemma_upsert_all_in_place(pools: Seq<FastPool>, batch: Seq<FastPool>, m: int)
    requires
        0 <= m <= batch.len(),
        forall|k: int|
            0 <= k < batch.len() ==> last_index_of(pools, (#[trigger] batch[k]).id@) is Some,
    ensures
        upsert_all(pools, batch, m).len() == pools.len(),
        forall|i: int|
            0 <= i < pools.len() ==> (#[trigger] upsert_all(pools, batch, m)[i]).id@
                == pools[i].id@,
        forall|i: int|
            0 <= i < pools.len() ==> #[trigger] upsert_all(pools, batch, m)[i] == (if last_index_of(
                pools,
                pools[i].id@,
            ) == Some(i) && last_index_of(batch.take(m), pools[i].id@) is Some {
                batch[last_index_of(batch.take(m), pools[i].id@).unwrap()]
            } else {
                pools[i]
            }),
    decreases m,
{
    if m > 0 {
        lemma_upsert_all_in_place(pools, batch, m - 1);
        let before = upsert_all(pools, batch, m - 1);
        let after = upsert_all(pools, batch, m);
        let pool = batch[m - 1];
        assert(batch.take(m).drop_last() =~= batch.take(m - 1));
        assert(batch.take(m).last() == pool);
        lemma_last_index_by_ids(before, pools, pool.id@);
        lemma_last_index_of(pools, pool.id@);
        let j = last_index_of(pools, pool.id@).unwrap();
        assert(after == before.update(j, pool));
        assert forall|i: int| 0 <= i < pools.len() implies #[trigger] after[i] == (if last_index_of(
            pools,
            pools[i].id@,
        ) == Some(i) && last_index_of(batch.take(m), pools[i].id@) is Some {
            batch[last_index_of(batch.take(m), pools[i].id@).unwrap()]
        } else {
            pools[i]
        }) by {
            assert(before[i] == (if last_index_of(pools, pools[i].id@) == Some(i) && last_index_of(
                batch.take(m - 1),
                pools[i].id@,
            ) is Some {
                batch[last_index_of(batch.take(m - 1), pools[i].id@).unwrap()]
            } else {
                pools[i]
            }));
        }
    }
}

/// Merging the same batch in twice gives what merging it in once gives.
pub proof fn lemma_upsert_idempotent(pools: Seq<FastPool>, batch: Seq<FastPool>)
    ensures
        upsert_all(upsert_all(pools, batch, batch.len() as int), batch, batch.len() as int)
            == upsert_all(pools, batch, batch.len() as int),
{
    let n = batch.len() as int;
    let once = upsert_all(pools, batch, n);
    let twice = upsert_all(once, batch, n);
    assert(batch.take(n) =~= batch);
    assert forall|k: int| 0 <= k < batch.len() implies last_index_of(
        once,
        (#[trigger] batch[k]).id@,
    ) is Some by {
        lemma_last_index_of(batch, batch[k].id@);
        lemma_upsert_all_holds_batch(pools, batch, n, batch[k].id@);
    }
    lemma_upsert_all_in_place(once, batch, n);
    assert forall|i: int| 0 <= i < once.len() implies twice[i] == once[i] by {
        let id = once[i].id@;
        if last_index_of(once, id) == Some(i) && last_index_of(batch, id) is Some {
            lemma_upsert_all_holds_batch(pools, batch, n, id);
        }
    }
    assert(twice =~= once);
}

/// Two pools with different ids, the first of which has its id in the list,
/// may be merged in in either order.
pub proof fn lemma_upsert_one_commutes(pools: Seq<FastPool>, a: FastPool, b: FastPool)
    requires
        a.id@ != b.id@,
        last_index_of(pools, a.id@) is Some,
    ensures
        upsert_one(upsert_one(pools, a), b) == upsert_one(upsert_one(pools, b), a),
{
    lemma_last_index_of(pools, a.id@);
    lemma_last_index_of(pools, b.id@);
    lemma_upsert_one_index(pools, a, b.id@);
    lemma_upsert_one_index(pools, b, a.id@);
    let i = last_index_of(pools, a.id@).unwrap();
    match last_index_of(pools, b.id@) {
        Some(j) => {
            assert(pools.update(i, a).update(j, b) =~= pools.update(j, b).update(i, a));
        },
        None => {
            assert(pools.update(i, a).push(b) =~= pools.push(b).update(i, a));
        },
    }
}

/// A pool whose id is in none of the first `n` pools of a batch, all of
/// whose ids are in the list, may be merged in before or after them.
pub proof fn lemma_upsert_all_commutes_with_one(
    pools: Seq<FastPool>,
    batch: Seq<FastPool>,
    n: int,
    b: FastPool,
)
    requires
        0 <= n <= batch.len(),
        forall|k: int| 0 <= k < batch.len() ==> (#[trigger] batch[k]).id@ != b.id@,
        forall|k: int|
            0 <= k < batch.len() ==> last_index_of(pools, (#[trigger] batch[k]).id@) is Some,
    ensures
        upsert_one(upsert_all(pools, batch, n), b) == upsert_all(upsert_one(pools, b), batch, n),
    decreases n,
{
    if n > 0 {
        lemma_upsert_all_commutes_with_one(pools, batch, n - 1, b);
        let before = upsert_all(pools, batch, n - 1);
        let a = batch[n - 1];
        lemma_upsert_all_in_place(pools, batch, n - 1);
        lemma_last_index_by_ids(before, pools, a.id@);
        lemma_upsert_one_commutes(before, a, b);
    }
}

/// Merging keeps every id that has a last position in the list.
pub proof fn lemma_upsert_all_keeps_ids(
    pools: Seq<FastPool>,
    batch: Seq<FastPool>,
    n: int,
    id: Seq<char>,
)
    requires
        0 <= n <= batch.len(),
        last_index_of(pools, id) is Some,
    ensures
        last_index_of(upsert_all(pools, batch, n), id) is Some,
    decreases n,
{
    if n > 0 {
        lemma_upsert_all_keeps_ids(pools, batch, n - 1, id);
        lemma_upsert_one_index(upsert_all(pools, batch, n - 1), batch[n - 1], id);
    }
}

/// A batch that brings no new id may be merged in before or after the first
/// `m` pools of a batch that shares no id with it.
pub proof fn lemma_upsert_commutes_upto(
    pools: Seq<FastPool>,
    first: Seq<FastPool>,
    second: Seq<FastPool>,
    m: int,
)
    requires
        0 <= m <= second.len(),
        forall|j: int, k: int|
            0 <= j < first.len() && 0 <= k < second.len() ==> (#[trigger] first[j]).id@ != (
            #[trigger] second[k]).id@,
        forall|j: int|
            0 <= j < first.len() ==> last_index_of(pools, (#[trigger] first[j]).id@) is Some,
    ensures
        upsert_all(upsert_all(pools, first, first.len() as int), second, m) == upsert_all(
            upsert_all(pools, second, m),
            first,
            first.len() as int,
        ),
    decreases m,
{
    if m > 0 {
        lemma_upsert_commutes_upto(pools, first, second, m - 1);
        let merged = upsert_all(pools, second, m - 1);
        let b = second[m - 1];
        assert forall|j: int| 0 <= j < first.len() implies last_index_of(
            merged,
            (#[trigger] first[j]).id@,
        ) is Some by {
            lemma_upsert_all_keeps_ids(pools, second, m - 1, first[j].id@);
        }
        lemma_upsert_all_commutes_with_one(merged, first, first.len() as int, b);
    }
}

/// Whether every pool of the batch has an id that the list holds already.
pub open spec fn brings_no_new_id(pools: Seq<FastPool>, batch: Seq<FastPool>) -> bool {
    forall|j: int| 0 <= j < batch.len() ==> last_index_of(pools, (#[trigger] batch[j]).id@) is Some
}

/// Whether no pool of one batch has the id of a pool of the other.
pub open spec fn share_no_id(first: Seq<FastPool>, second: Seq<FastPool>) -> bool {
    forall|j: int, k: int|
        0 <= j < first.len() && 0 <= k < second.len() ==> (#[trigger] first[j]).id@ != (
        #[trigger] second[k]).id@
}

/// Two batches that share no id may be merged in in either order, where at
/// least one of them brings no new id. (Where both bring new ids, the new
/// pools come last in the order in which the batches were merged in.)
pub proof fn lemma_upsert_commutes(
    pools: Seq<FastPool>,
    first: Seq<FastPool>,
    second: Seq<FastPool>,
)
    requires
        share_no_id(first, second),
        brings_no_new_id(pools, first) || brings_no_new_id(pools, second),
    ensures
        upsert_all(upsert_all(pools, first, first.len() as int), second, second.len() as int)
            == upsert_all(
            upsert_all(pools, second, second.len() as int),
            first,
            first.len() as int,
        ),
{
    if brings_no_new_id(pools, first) {
        lemma_upsert_commutes_upto(pools, first, second, second.len() as int);
    } else {
        lemma_upsert_commutes_upto(pools, second, first, first.len() as int);
    }
}

} // verus!
