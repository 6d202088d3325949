//! Routes through the pools: which pools touch a token, and every path of
//! distinct pools that leads from one token to a pool on another.

use vstd::hash_map::StringHashMap;
use vstd::prelude::*;

verus! {

/// A pool as routing sees it: its id and its two tokens, in the order given.
#[derive(Debug, Clone)]
pub struct FastPool {
    pub id: String,
    pub token_a_id: String,
    pub token_b_id: String,
}

/// Whether `token` is one of the two tokens of the pool.
pub open spec fn touches(pool: FastPool, token: Seq<char>) -> bool {
    pool.token_a_id@ == token || pool.token_b_id@ == token
}

/// The token that a pool gives for `token`: its second token where `token`
/// is its first, else its first.
pub open spec fn other_token(pool: FastPool, token: Seq<char>) -> Seq<char> {
    if pool.token_a_id@ == token {
        pool.token_b_id@
    } else {
        pool.token_a_id@
    }
}

/// What pool number `i` adds to the list of a token: `i` once for each of
/// its two tokens that is `token`.
pub open spec fn incidence(pool: FastPool, i: usize, token: Seq<char>) -> Seq<usize> {
    (if pool.token_a_id@ == token {
        seq![i]
    } else {
        Seq::<usize>::empty()
    }) + (if pool.token_b_id@ == token {
        seq![i]
    } else {
        Seq::<usize>::empty()
    })
}

/// The positions of the pools that touch `token`, in ascending order; a pool
/// whose two tokens are both `token` is listed twice.
pub open spec fn incident(pools: Seq<FastPool>, token: Seq<char>) -> Seq<usize>
    decreases pools.len(),
{
    if pools.len() == 0 {
        Seq::<usize>::empty()
    } else {
        incident(pools.drop_last(), token) + incidence(
            pools.last(),
            (pools.len() - 1) as usize,
            token,
        )
    }
}

/// Every position in the list of a token is the position of a pool that
/// touches the token.
pub proof fn lemma_incident_touches(pools: Seq<FastPool>, token: Seq<char>, k: int)
    requires
        0 <= k < incident(pools, token).len(),
        pools.len() <= usize::MAX,
    ensures
        incident(pools, token)[k] < pools.len(),
        touches(pools[incident(pools, token)[k] as int], token),
    decreases pools.len(),
{
    if pools.len() > 0 {
        let rest = incident(pools.drop_last(), token);
        if k < rest.len() {
            lemma_incident_touches(pools.drop_last(), token, k);
        }
    }
}

/// For each token, the positions of the pools that touch it.
pub struct TokenIndex {
    slots: StringHashMap<usize>,
    lists: Vec<Vec<usize>>,
}

impl TokenIndex {
    /// The list kept for `token`; empty for a token that was never seen.
    pub closed spec fn pools_of(&self, token: Seq<char>) -> Seq<usize> {
        if self.slots@.contains_key(token) && self.slots@[token] < self.lists@.len() {
            self.lists@[self.slots@[token] as int]@
        } else {
            Seq::<usize>::empty()
        }
    }

    /// Every token that was seen has a list of its own.
    #[verifier::type_invariant]
    spec fn slots_distinct(self) -> bool {
        &&& forall|t: Seq<char>| #[trigger]
            self.slots@.contains_key(t) ==> self.slots@[t] < self.lists@.len()
        &&& forall|t1: Seq<char>, t2: Seq<char>|
            #![trigger self.slots@[t1], self.slots@[t2]]
            self.slots@.contains_key(t1) && self.slots@.contains_key(t2) && t1 != t2
                ==> self.slots@[t1] != self.slots@[t2]
    }

    /// Whether this is the index of `pools`: the list of every token holds
    /// the positions of the pools that touch it, in ascending order.
    pub closed spec fn indexes(&self, pools: Seq<FastPool>) -> bool {
        forall|t: Seq<char>| #[trigger] self.pools_of(t) == incident(pools, t)
    }

    /// The list of a token in the index of `pools` is the list of the pools
    /// that touch it.
    pub proof fn lemma_indexes(&self, pools: Seq<FastPool>, token: Seq<char>)
        requires
            self.indexes(pools),
        ensures
            self.pools_of(token) == incident(pools, token),
    {
    }

    /// An index of no pools.
    pub fn new() -> (r: TokenIndex)
        ensures
            r.indexes(Seq::<FastPool>::empty()),
    {
        TokenIndex { slots: StringHashMap::new(), lists: Vec::new() }
    }

    /// The index with the note added that pool number `idx` touches `token`.
    fn add(self, token: &String, idx: usize) -> (r: TokenIndex)
        ensures
            forall|t: Seq<char>|
                #[trigger] r.pools_of(t) == self.pools_of(t) + (if t == token@ {
                    seq![idx]
                } else {
                    Seq::<usize>::empty()
                }),
    {
        proof {
            use_type_invariant(&self);
        }
        let mut slots: StringHashMap<usize> = self.slots;
        let mut lists: Vec<Vec<usize>> = self.lists;
        let found: Option<usize> = match slots.get(token.as_str()) {
            Some(slot) => Some(*slot),
            None => None,
        };
        match found {
            Some(slot) => {
                lists[slot].push(idx);
            },
            None => {
                let slot: usize = lists.len();
                let mut list: Vec<usize> = Vec::new();
                list.push(idx);
                lists.push(list);
                slots.insert(token.clone(), slot);
            },
        }
        let r: TokenIndex = TokenIndex { slots, lists };
        proof {
            assert forall|t: Seq<char>|
                #[trigger] r.pools_of(t) == self.pools_of(t) + (if t == token@ {
                    seq![idx]
                } else {
                    Seq::<usize>::empty()
                }) by {
                if t != token@ {
                    assert(self.pools_of(t) + Seq::<usize>::empty() =~= self.pools_of(t));
                } else if found is None {
                    assert(Seq::<usize>::empty() + seq![idx] =~= seq![idx]);
                    assert(r.pools_of(t) =~= seq![idx]);
                }
            }
        }
        r
    }

    /// The index of `pools`.
    pub fn build(pools: &Vec<FastPool>) -> (r: TokenIndex)
        ensures
            r.indexes(pools@),
    {
        let mut index: TokenIndex = TokenIndex::new();
        let mut i: usize = 0;
        while i < pools.len()
            invariant
                i <= pools@.len(),
                index.indexes(pools@.take(i as int)),
            decreases pools@.len() - i,
        {
            let ghost before = index;
            index = index.add(&pools[i].token_a_id, i);
            let ghost between = index;
            index = index.add(&pools[i].token_b_id, i);
            proof {
                let prefix = pools@.take(i + 1);
                assert(prefix.drop_last() =~= pools@.take(i as int));
                assert(prefix.last() == pools@[i as int]);
                assert forall|t: Seq<char>| #[trigger] index.pools_of(t) == incident(prefix, t) by {
                    assert(before.pools_of(t) == incident(pools@.take(i as int), t));
                    assert(index.pools_of(t) == between.pools_of(t) + (if t
                        == pools@[i as int].token_b_id@ {
                        seq![i]
                    } else {
                        Seq::<usize>::empty()
                    }));
                    assert(between.pools_of(t) == before.pools_of(t) + (if t
                        == pools@[i as int].token_a_id@ {
                        seq![i]
                    } else {
                        Seq::<usize>::empty()
                    }));
                    assert(index.pools_of(t) =~= incident(prefix, t));
                }
            }
            i = i + 1;
        }
        proof {
            assert(pools@.take(i as int) =~= pools@);
        }
        index
    }

    /// The positions of the pools that touch `token`, if any does.
    pub fn get(&self, token: &str) -> (r: Option<&Vec<usize>>)
        ensures
            match r {
                Some(list) => list@ == self.pools_of(token@),
                None => self.pools_of(token@) == Seq::<usize>::empty(),
            },
    {
        proof {
            use_type_invariant(self);
        }
        match self.slots.get(token) {
            Some(slot) => Some(&self.lists[*slot]),
            None => None,
        }
    }
}


/// How many more pools a path may take on before it exceeds `max_hops`,
/// plus one; zero for a path that exceeds it already.
pub open spec fn depth_left(path: Seq<usize>, max_hops: nat) -> nat {
    if path.len() <= max_hops {
        (max_hops + 1 - path.len()) as nat
    } else {
        0
    }
}

/// The routes that a depth-first search finds from `current` with `path`
/// behind it, in the order in which it finds them.
///
/// A path longer than `max_hops` gives nothing. A path whose last pool
/// touches the target is a route, and is not extended. Any other path is
/// extended by each pool that touches the current token and is not on the
/// path yet, in the order of the token's list, and searched on from the
/// other token of that pool.
pub open spec fn routes_from(
    pools: Seq<FastPool>,
    current: Seq<char>,
    target: Seq<char>,
    path: Seq<usize>,
    max_hops: nat,
) -> Seq<Seq<usize>>
    decreases depth_left(path, max_hops), 1nat, 0nat,
{
    if path.len() > max_hops {
        Seq::<Seq<usize>>::empty()
    } else if path.len() > 0 && touches(pools[path.last() as int], target) {
        seq![path]
    } else {
        routes_via(pools, incident(pools, current), 0, current, target, path, max_hops)
    }
}

/// The routes found by extending `path` with the candidates from position
/// `k` on, one after the other.
pub open spec fn routes_via(
    pools: Seq<FastPool>,
    candidates: Seq<usize>,
    k: nat,
    current: Seq<char>,
    target: Seq<char>,
    path: Seq<usize>,
    max_hops: nat,
) -> Seq<Seq<usize>>
    decreases depth_left(path, max_hops), 0nat, candidates.len() - k,
{
    if k >= candidates.len() || path.len() > max_hops {
        Seq::<Seq<usize>>::empty()
    } else {
        let idx = candidates[k as int];
        (if path.contains(idx) {
            Seq::<Seq<usize>>::empty()
        } else {
            routes_from(
                pools,
                other_token(pools[idx as int], current),
                target,
                path.push(idx),
                max_hops,
            )
        }) + routes_via(pools, candidates, k + 1, current, target, path, max_hops)
    }
}

/// The paths that a vector of routes holds.
pub open spec fn paths_of(routes: Seq<Vec<usize>>) -> Seq<Seq<usize>> {
    Seq::new(routes.len(), |i: int| routes[i]@)
}

/// Whether `used` marks exactly the pools that are on `path`, all of which
/// are pools of the list.
pub open spec fn marks_path(used: Seq<bool>, path: Seq<usize>, count: nat) -> bool {
    &&& used.len() == count
    &&& forall|i: int| 0 <= i < count ==> used[i] == path.contains(i as usize)
    &&& forall|k: int| 0 <= k < path.len() ==> path[k] < count
}

/// Searches depth first from `current_token_id` with `current_path` behind
/// it, and appends every route found to `routes`; path and marks are left as
/// they were.
pub fn dfs_fast(
    current_token_id: &String,
    target_token_id: &String,
    current_path: &mut Vec<usize>,
    used_pools: &mut Vec<bool>,
    routes: &mut Vec<Vec<usize>>,
    max_hops: usize,
    pools: &Vec<FastPool>,
    pools_by_token: &TokenIndex,
)
    requires
        pools_by_token.indexes(pools@),
        marks_path(old(used_pools)@, old(current_path)@, pools@.len()),
    ensures
        final(current_path)@ == old(current_path)@,
        final(used_pools)@ == old(used_pools)@,
        paths_of(final(routes)@) == paths_of(old(routes)@) + routes_from(
            pools@,
            current_token_id@,
            target_token_id@,
            old(current_path)@,
            max_hops as nat,
        ),
    decreases depth_left(old(current_path)@, max_hops as nat),
{
    let ghost path0 = current_path@;
    let ghost used0 = used_pools@;
    let ghost routes0 = paths_of(routes@);
    let ghost current = current_token_id@;
    let ghost target = target_token_id@;
    if current_path.len() > max_hops {
        assert(routes0 + Seq::<Seq<usize>>::empty() =~= routes0);
        return ;
    }
    if current_path.len() > 0 {
        let last_pool_idx: usize = current_path[current_path.len() - 1];
        let last_pool: &FastPool = &pools[last_pool_idx];
        if last_pool.token_a_id == *target_token_id || last_pool.token_b_id == *target_token_id {
            let found: Vec<usize> = current_path.clone();
            assert(found@ =~= path0);
            routes.push(found);
            assert(paths_of(routes@) =~= routes0 + seq![path0]);
            return ;
        }
    }
    proof {
        pools_by_token.lemma_indexes(pools@, current);
    }
    let ghost candidates = incident(pools@, current);
    let pool_count: usize = pools.len();
    match pools_by_token.get(current_token_id.as_str()) {
        Some(pool_indices) => {
            let mut k: usize = 0;
            while k < pool_indices.len()
                invariant
                    k <= pool_indices@.len(),
                    pool_count == pools@.len(),
                    pool_indices@ == candidates,
                    candidates == incident(pools@, current),
                    current == current_token_id@,
                    target == target_token_id@,
                    pools_by_token.indexes(pools@),
                    path0.len() <= max_hops,
                    path0 == old(current_path)@,
                    current_path@ == path0,
                    used_pools@ == used0,
                    marks_path(used0, path0, pools@.len()),
                    paths_of(routes@) + routes_via(
                        pools@,
                        candidates,
                        k as nat,
                        current,
                        target,
                        path0,
                        max_hops as nat,
                    ) == routes0 + routes_via(
                        pools@,
                        candidates,
                        0,
                        current,
                        target,
                        path0,
                        max_hops as nat,
                    ),
                decreases pool_indices@.len() - k,
            {
                let pool_idx: usize = pool_indices[k];
                proof {
                    lemma_incident_touches(pools@, current, k as int);
                }
                let ghost rest = routes_via(
                    pools@,
                    candidates,
                    (k + 1) as nat,
                    current,
                    target,
                    path0,
                    max_hops as nat,
                );
                let ghost here = paths_of(routes@);
                if used_pools[pool_idx] {
                    assert(Seq::<Seq<usize>>::empty() + rest =~= rest);
                } else {
                    let pool: &FastPool = &pools[pool_idx];
                    let next_token_id: &String = if pool.token_a_id == *current_token_id {
                        &pool.token_b_id
                    } else {
                        &pool.token_a_id
                    };
                    current_path.push(pool_idx);
                    used_pools[pool_idx] = true;
                    proof {
                        let path1 = path0.push(pool_idx);
                        assert forall|i: int| 0 <= i < pools@.len() implies used_pools@[i]
                            == path1.contains(i as usize) by {
                            if i == pool_idx {
                                assert(path1[path0.len() as int] == pool_idx);
                            } else if path0.contains(i as usize) {
                                let w = choose|w: int|
                                    0 <= w < path0.len() && path0[w] == i as usize;
                                assert(path1[w] == i as usize);
                            } else {
                                if path1.contains(i as usize) {
                                    let w = choose|w: int|
                                        0 <= w < path1.len() && path1[w] == i as usize;
                                    if w < path0.len() {
                                        assert(path0[w] == i as usize);
                                    }
                                }
                            }
                        }
                    }
                    dfs_fast(
                        next_token_id,
                        target_token_id,
                        current_path,
                        used_pools,
                        routes,
                        max_hops,
                        pools,
                        pools_by_token,
                    );
                    current_path.pop();
                    used_pools[pool_idx] = false;
                    proof {
                        assert(current_path@ =~= path0);
                        assert(used_pools@ =~= used0);
                        let found = routes_from(
                            pools@,
                            other_token(pools@[pool_idx as int], current),
                            target,
                            path0.push(pool_idx),
                            max_hops as nat,
                        );
                        assert(paths_of(routes@) == here + found);
                        assert((here + found) + rest =~= here + (found + rest));
                    }
                }
                k = k + 1;
            }
            proof {
                assert(paths_of(routes@) + Seq::<Seq<usize>>::empty() =~= paths_of(routes@));
            }
        },
        None => {
            assert(routes0 + Seq::<Seq<usize>>::empty() =~= routes0);
        },
    }
}


/// Whether `route` is a route to `target` that continues `path`: a path of
/// at least one and at most `max_hops` pools of the list, none of them
/// twice, whose last pool touches the target.
pub open spec fn is_route(
    pools: Seq<FastPool>,
    target: Seq<char>,
    path: Seq<usize>,
    max_hops: nat,
    route: Seq<usize>,
) -> bool {
    &&& 0 < route.len() <= max_hops
    &&& forall|k: int| 0 <= k < route.len() ==> (#[trigger] route[k]) < pools.len()
    &&& route.no_duplicates()
    &&& touches(pools[route.last() as int], target)
    &&& path.is_prefix_of(route)
}

/// A path without repeats stays without repeats when a pool that is not on
/// it is added.
pub proof fn lemma_push_no_duplicates(path: Seq<usize>, idx: usize)
    requires
        path.no_duplicates(),
        !path.contains(idx),
    ensures
        path.push(idx).no_duplicates(),
{
    let longer = path.push(idx);
    assert forall|i: int, j: int|
        0 <= i < longer.len() && 0 <= j < longer.len() && i != j implies longer[i]
        != longer[j] by {
        if i < path.len() && j < path.len() {
            assert(path[i] != path[j]);
        } else if i < path.len() {
            assert(path.contains(path[i]));
        } else {
            assert(path.contains(path[j]));
        }
    }
}

/// Every route that the search finds from a path without repeats is a path
/// of at most `max_hops` pools, none of them twice, that continues the path
/// and ends on a pool that touches the target.
pub proof fn lemma_routes_from_are_routes(
    pools: Seq<FastPool>,
    current: Seq<char>,
    target: Seq<char>,
    path: Seq<usize>,
    max_hops: nat,
    j: int,
)
    requires
        path.no_duplicates(),
        pools.len() <= usize::MAX,
        forall|k: int| 0 <= k < path.len() ==> (#[trigger] path[k]) < pools.len(),
        0 <= j < routes_from(pools, current, target, path, max_hops).len(),
    ensures
        is_route(
            pools,
            target,
            path,
            max_hops,
            routes_from(pools, current, target, path, max_hops)[j],
        ),
    decreases depth_left(path, max_hops), 1nat, 0nat,
{
    if path.len() > max_hops {
    } else if path.len() > 0 && touches(pools[path.last() as int], target) {
    } else {
        assert forall|k: int| 0 <= k < incident(pools, current).len() implies (
        #[trigger] incident(pools, current)[k]) < pools.len() by {
            lemma_incident_touches(pools, current, k);
        }
        lemma_routes_via_are_routes(
            pools,
            incident(pools, current),
            0,
            current,
            target,
            path,
            max_hops,
            j,
        );
    }
}

/// Every route found by extending a path without repeats is a route that
/// continues the path.
pub proof fn lemma_routes_via_are_routes(
    pools: Seq<FastPool>,
    candidates: Seq<usize>,
    k: nat,
    current: Seq<char>,
    target: Seq<char>,
    path: Seq<usize>,
    max_hops: nat,
    j: int,
)
    requires
        path.no_duplicates(),
        pools.len() <= usize::MAX,
        forall|k: int| 0 <= k < path.len() ==> (#[trigger] path[k]) < pools.len(),
        forall|k: int| 0 <= k < candidates.len() ==> (#[trigger] candidates[k]) < pools.len(),
        0 <= j < routes_via(pools, candidates, k, current, target, path, max_hops).len(),
    ensures
        is_route(
            pools,
            target,
            path,
            max_hops,
            routes_via(pools, candidates, k, current, target, path, max_hops)[j],
        ),
    decreases depth_left(path, max_hops), 0nat, candidates.len() - k,
{
    if k >= candidates.len() || path.len() > max_hops {
    } else {
        let idx = candidates[k as int];
        let first = if path.contains(idx) {
            Seq::<Seq<usize>>::empty()
        } else {
            routes_from(
                pools,
                other_token(pools[idx as int], current),
                target,
                path.push(idx),
                max_hops,
            )
        };
        if j < first.len() {
            lemma_push_no_duplicates(path, idx);
            lemma_routes_from_are_routes(
                pools,
                other_token(pools[idx as int], current),
                target,
                path.push(idx),
                max_hops,
                j,
            );
            let route = first[j];
            assert(path.is_prefix_of(route)) by {
                assert(path.push(idx).is_prefix_of(route));
                assert(path =~= route.subrange(0, path.len() as int)) by {
                    assert(path.push(idx) =~= route.subrange(0, path.len() as int + 1));
                    assert forall|i: int| 0 <= i < path.len() implies path[i] == route[i] by {
                        assert(path.push(idx)[i] == route.subrange(0, path.len() as int + 1)[i]);
                    }
                }
            }
        } else {
            lemma_routes_via_are_routes(
                pools,
                candidates,
                k + 1,
                current,
                target,
                path,
                max_hops,
                j - first.len(),
            );
        }
    }
}

/// Every path of at most `max_hops` distinct pools that leads from
/// `token_in` to a pool on `token_out`, as positions in `pools`, in the
/// order of a depth-first search.
pub fn find_routes(
    pools: &Vec<FastPool>,
    pools_by_token: &TokenIndex,
    token_in_id: &String,
    token_out_id: &String,
    max_hops: usize,
) -> (routes: Vec<Vec<usize>>)
    requires
        pools_by_token.indexes(pools@),
    ensures
        paths_of(routes@) == routes_from(
            pools@,
            token_in_id@,
            token_out_id@,
            Seq::<usize>::empty(),
            max_hops as nat,
        ),
        forall|j: int|
            0 <= j < routes@.len() ==> is_route(
                pools@,
                token_out_id@,
                Seq::<usize>::empty(),
                max_hops as nat,
                (#[trigger] routes@[j])@,
            ),
{
    let mut routes: Vec<Vec<usize>> = Vec::new();
    let mut current_path: Vec<usize> = Vec::new();
    let mut used_pools: Vec<bool> = Vec::new();
    let mut i: usize = 0;
    while i < pools.len()
        invariant
            i <= pools@.len(),
            used_pools@.len() == i,
            forall|j: int| 0 <= j < i ==> !used_pools@[j],
        decreases pools@.len() - i,
    {
        used_pools.push(false);
        i = i + 1;
    }
    assert(paths_of(routes@) =~= Seq::<Seq<usize>>::empty());
    dfs_fast(
        token_in_id,
        token_out_id,
        &mut current_path,
        &mut used_pools,
        &mut routes,
        max_hops,
        pools,
        pools_by_token,
    );
    assert(Seq::<Seq<usize>>::empty() + routes_from(
        pools@,
        token_in_id@,
        token_out_id@,
        Seq::<usize>::empty(),
        max_hops as nat,
    ) =~= routes_from(
        pools@,
        token_in_id@,
        token_out_id@,
        Seq::<usize>::empty(),
        max_hops as nat,
    ));
    assert forall|j: int| 0 <= j < routes@.len() implies is_route(
        pools@,
        token_out_id@,
        Seq::<usize>::empty(),
        max_hops as nat,
        (#[trigger] routes@[j])@,
    ) by {
        assert(paths_of(routes@)[j] == routes@[j]@);
        lemma_routes_from_are_routes(
            pools@,
            token_in_id@,
            token_out_id@,
            Seq::<usize>::empty(),
            max_hops as nat,
            j,
        );
    }
    routes
}

} // verus!
