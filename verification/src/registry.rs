//! The registry of pools: what is known of each pool for routing and for
//! swapping, how descriptions of pools are taken in, and the operations that
//! callers reach the engine through.

use crate::decimal::{parse_i128, parse_u128, parse_u32, signed_literal, unsigned_literal};
use crate::routes::{find_routes, is_route, paths_of, routes_from, FastPool, TokenIndex};
use crate::upsert::{last_index_of, lemma_last_index_by_ids, lemma_last_index_of, upsert_all};
use crate::trade::{
    batch_computable, is_batch_of, is_trade_of, route_computable, try_calculate_route_output,
    try_calculate_trades_batch, PoolData, TickData, TradeError, TradeResult,
};
use std::collections::{BTreeMap, HashMap};
use vstd::hash_map::StringHashMap;
use vstd::prelude::*;

verus! {

/// A tick as it is described to the engine: fields that were missing or of
/// the wrong kind are `None`.
#[derive(Debug, Clone)]
pub struct TickDescriptor {
    pub index: Option<i64>,
    /// The net liquidity, in decimal.
    pub liquidity_net: Option<String>,
    /// The gross liquidity, in decimal.
    pub liquidity_gross: Option<String>,
}

/// A pool as it is described to the engine: fields that were missing or of
/// the wrong kind are `None`, and missing ids are empty.
#[derive(Debug, Clone)]
pub struct PoolDescriptor {
    pub id: String,
    pub token_a_id: String,
    pub token_b_id: String,
    pub fee: Option<u64>,
    /// The current square-root price, in decimal.
    pub sqrt_price_x64: Option<String>,
    /// The current liquidity, in decimal.
    pub liquidity: Option<String>,
    pub tick_current: Option<i64>,
    pub ticks: Option<Vec<TickDescriptor>>,
}

/// A pool as swapping sees it, as plain values.
pub struct PoolModel {
    pub id: u32,
    pub token_a_id: Seq<char>,
    pub token_b_id: Seq<char>,
    pub fee: u32,
    pub sqrt_price_x64: u128,
    pub liquidity: u128,
    pub tick_current: i32,
    pub ticks: Map<i32, TickData>,
    pub tick_spacing: i32,
}

/// What a pool holds, as plain values.
pub open spec fn model_of(pool: PoolData) -> PoolModel {
    PoolModel {
        id: pool.id,
        token_a_id: pool.token_a_id@,
        token_b_id: pool.token_b_id@,
        fee: pool.fee,
        sqrt_price_x64: pool.sqrt_price_x64,
        liquidity: pool.liquidity,
        tick_current: pool.tick_current,
        ticks: pool.ticks@,
        tick_spacing: pool.tick_spacing,
    }
}

/// The number that a pool id stands for: its value where it is an unsigned
/// 32-bit integer in decimal, else zero.
pub open spec fn numeric_id(id: Seq<char>) -> u32 {
    match unsigned_literal(id, u32::MAX as int) {
        Some(v) => v as u32,
        None => 0,
    }
}

/// An unsigned 128-bit amount in decimal, or zero where the text is none.
pub open spec fn amount_or_zero(text: Seq<char>) -> u128 {
    match unsigned_literal(text, u128::MAX as int) {
        Some(v) => v as u128,
        None => 0,
    }
}

/// A signed 128-bit amount in decimal, or zero where the text is none.
pub open spec fn signed_or_zero(text: Seq<char>) -> i128 {
    match signed_literal(text) {
        Some(v) => v as i128,
        None => 0,
    }
}

/// The low 32 bits of a number, read as a signed number.
pub open spec fn wrap_i32(x: int) -> int {
    let low = x % 0x1_0000_0000;
    if low >= 0x8000_0000 {
        low - 0x1_0000_0000
    } else {
        low
    }
}

/// The distance between usable ticks that goes with a fee.
pub open spec fn spacing_for_fee(fee: u64) -> i32 {
    if fee == 100 {
        1
    } else if fee == 500 {
        10
    } else if fee == 3000 {
        60
    } else if fee == 10000 {
        200
    } else {
        60
    }
}

/// The tick that a description gives, if it has an index and a net
/// liquidity; the gross liquidity counts as zero where it is missing or
/// unreadable, the net liquidity where it is unreadable.
pub open spec fn tick_of(d: TickDescriptor) -> Option<TickData> {
    if d.index is Some && d.liquidity_net is Some {
        Some(
            TickData {
                index: wrap_i32(d.index.unwrap() as int) as i32,
                liquidity_gross: match d.liquidity_gross {
                    Some(text) => amount_or_zero(text@),
                    None => 0,
                },
                liquidity_net: signed_or_zero(d.liquidity_net.unwrap()@),
                fee_growth_outside_a_x64: 0,
                fee_growth_outside_b_x64: 0,
                initialized: true,
            },
        )
    } else {
        None
    }
}

/// The ticks that the first `n` descriptions give, by index; of two with the
/// same index the later one stays.
pub open spec fn ticks_of(ds: Seq<TickDescriptor>, n: int) -> Map<i32, TickData>
    decreases n,
{
    if n <= 0 {
        Map::<i32, TickData>::empty()
    } else {
        match tick_of(ds[n - 1]) {
            Some(data) => ticks_of(ds, n - 1).insert(data.index, data),
            None => ticks_of(ds, n - 1),
        }
    }
}

/// The pool for swapping that a description gives, if it has a fee, a
/// price, a liquidity and a current tick. Price and liquidity count as zero
/// where unreadable, the fee and the current tick are cut to 32 bits, and the
/// tick spacing follows the fee.
pub open spec fn pool_model_of(d: PoolDescriptor) -> Option<PoolModel> {
    if d.fee is Some && d.sqrt_price_x64 is Some && d.liquidity is Some && d.tick_current is Some {
        Some(
            PoolModel {
                id: numeric_id(d.id@),
                token_a_id: d.token_a_id@,
                token_b_id: d.token_b_id@,
                fee: (d.fee.unwrap() % 0x1_0000_0000) as u32,
                sqrt_price_x64: amount_or_zero(d.sqrt_price_x64.unwrap()@),
                liquidity: amount_or_zero(d.liquidity.unwrap()@),
                tick_current: wrap_i32(d.tick_current.unwrap() as int) as i32,
                ticks: match d.ticks {
                    Some(list) => ticks_of(list@, list@.len() as int),
                    None => Map::<i32, TickData>::empty(),
                },
                tick_spacing: spacing_for_fee(d.fee.unwrap()),
            },
        )
    } else {
        None
    }
}

/// The low 32 bits of `x`, read as a signed number.
pub fn wrap_to_i32(x: i64) -> (r: i32)
    ensures
        r == wrap_i32(x as int),
{
    let shifted: u64 = (x as i128 + 0x8000_0000_0000_0000) as u64;
    let low: u64 = shifted % 0x1_0000_0000;
    if low >= 0x8000_0000 {
        (low as i64 - 0x1_0000_0000) as i32
    } else {
        low as i32
    }
}

/// The distance between usable ticks that goes with a fee.
pub fn tick_spacing_for_fee(fee: u64) -> (r: i32)
    ensures
        r == spacing_for_fee(fee),
{
    if fee == 100 {
        1
    } else if fee == 500 {
        10
    } else if fee == 3000 {
        60
    } else if fee == 10000 {
        200
    } else {
        60
    }
}

/// The number that a pool id stands for, zero where it stands for none.
pub fn pool_id_number(id: &str) -> (r: u32)
    ensures
        r == numeric_id(id@),
{
    match parse_u32(id) {
        Some(v) => v,
        None => 0,
    }
}

/// The ticks that a list of descriptions gives.
pub fn build_ticks(list: &Vec<TickDescriptor>) -> (ticks: BTreeMap<i32, TickData>)
    ensures
        ticks@ == ticks_of(list@, list@.len() as int),
{
    let mut ticks: BTreeMap<i32, TickData> = BTreeMap::new();
    let mut i: usize = 0;
    while i < list.len()
        invariant
            i <= list@.len(),
            ticks@ == ticks_of(list@, i as int),
        decreases list@.len() - i,
    {
        let d: &TickDescriptor = &list[i];
        match (&d.index, &d.liquidity_net) {
            (Some(idx), Some(net)) => {
                let index: i32 = wrap_to_i32(*idx);
                let liquidity_gross: u128 = match &d.liquidity_gross {
                    Some(text) => match parse_u128(text.as_str()) {
                        Some(v) => v,
                        None => 0,
                    },
                    None => 0,
                };
                let liquidity_net: i128 = match parse_i128(net.as_str()) {
                    Some(v) => v,
                    None => 0,
                };
                let tick_data: TickData = TickData {
                    index,
                    liquidity_gross,
                    liquidity_net,
                    fee_growth_outside_a_x64: 0,
                    fee_growth_outside_b_x64: 0,
                    initialized: true,
                };
                ticks.insert(index, tick_data);
            },
            _ => {},
        }
        i = i + 1;
    }
    ticks
}

/// The pool for swapping that a description gives, if it gives one.
pub fn build_pool_data(d: &PoolDescriptor) -> (r: Option<PoolData>)
    ensures
        match r {
            Some(pool) => pool_model_of(*d) == Some(model_of(pool)),
            None => pool_model_of(*d) is None,
        },
{
    match (&d.fee, &d.sqrt_price_x64, &d.liquidity, &d.tick_current) {
        (Some(fee), Some(sqrt_price), Some(liquidity), Some(tick)) => {
            let sqrt_price_x64: u128 = match parse_u128(sqrt_price.as_str()) {
                Some(v) => v,
                None => 0,
            };
            let liquidity_val: u128 = match parse_u128(liquidity.as_str()) {
                Some(v) => v,
                None => 0,
            };
            let ticks: BTreeMap<i32, TickData> = match &d.ticks {
                Some(list) => build_ticks(list),
                None => BTreeMap::new(),
            };
            Some(
                PoolData {
                    id: pool_id_number(d.id.as_str()),
                    token_a_id: d.token_a_id.clone(),
                    token_b_id: d.token_b_id.clone(),
                    fee: (*fee % 0x1_0000_0000) as u32,
                    sqrt_price_x64,
                    liquidity: liquidity_val,
                    tick_current: wrap_to_i32(*tick),
                    ticks,
                    tick_spacing: tick_spacing_for_fee(*fee),
                },
            )
        },
        _ => None,
    }
}


/// The pool for routing that a description gives.
pub open spec fn fast_pool_of(d: PoolDescriptor) -> FastPool {
    FastPool { id: d.id, token_a_id: d.token_a_id, token_b_id: d.token_b_id }
}

/// The pools for routing that the first `n` descriptions give, in order.
pub open spec fn fast_pools_of(ds: Seq<PoolDescriptor>, n: int) -> Seq<FastPool>
    decreases n,
{
    if n <= 0 {
        Seq::<FastPool>::empty()
    } else {
        fast_pools_of(ds, n - 1).push(fast_pool_of(ds[n - 1]))
    }
}

/// The pools for swapping that the first `n` descriptions give, by numeric
/// id; of two with the same numeric id the later one stays.
pub open spec fn swap_pools_of(ds: Seq<PoolDescriptor>, n: int) -> Map<u32, PoolModel>
    decreases n,
{
    if n <= 0 {
        Map::<u32, PoolModel>::empty()
    } else {
        match pool_model_of(ds[n - 1]) {
            Some(model) => swap_pools_of(ds, n - 1).insert(model.id, model),
            None => swap_pools_of(ds, n - 1),
        }
    }
}

/// Whether the pools of a map hold what the models of another map say.
pub open spec fn models(pools: Map<u32, PoolData>, expected: Map<u32, PoolModel>) -> bool {
    &&& pools.dom() == expected.dom()
    &&& forall|id: u32| #[trigger] pools.contains_key(id) ==> model_of(pools[id]) == expected[id]
}

/// What the registry holds once it is set up: the pools for routing, the
/// index from each token to the pools that touch it, and the pools for
/// swapping by numeric id.
struct GlobalPools {
    pools: Vec<FastPool>,
    pools_by_token: TokenIndex,
    full_pools: HashMap<u32, PoolData>,
}

impl GlobalPools {
    /// The index from tokens to pools is that of the pools held.
    #[verifier::type_invariant]
    spec fn indexed(self) -> bool {
        self.pools_by_token.indexes(self.pools@)
    }
}

/// The registry of pools: not set up at first, set up by the `init`
/// operations and by `update_pools_fast`, taken down by `clear_pools`.
pub struct Registry {
    state: Option<GlobalPools>,
}

impl Registry {
    /// Whether the registry is set up.
    pub closed spec fn is_initialized(&self) -> bool {
        self.state is Some
    }

    /// The pools for routing, in order; none where the registry is not set
    /// up.
    pub closed spec fn fast_pools(&self) -> Seq<FastPool> {
        match self.state {
            Some(global) => global.pools@,
            None => Seq::<FastPool>::empty(),
        }
    }

    /// The pools for swapping, by numeric id; none where the registry is
    /// not set up.
    pub closed spec fn swap_pools(&self) -> Map<u32, PoolData> {
        match self.state {
            Some(global) => global.full_pools@,
            None => Map::<u32, PoolData>::empty(),
        }
    }

    /// Whether the registry is set up.
    pub fn initialized(&self) -> (r: bool)
        ensures
            r == self.is_initialized(),
    {
        self.state.is_some()
    }

    /// A registry that is not set up.
    pub fn new() -> (r: Registry)
        ensures
            !r.is_initialized(),
            r.fast_pools() == Seq::<FastPool>::empty(),
            r.swap_pools() == Map::<u32, PoolData>::empty(),
    {
        Registry { state: None }
    }
}

/// The pool for routing that a description gives.
fn fast_pool_from(d: &PoolDescriptor) -> (r: FastPool)
    ensures
        r == fast_pool_of(*d),
{
    FastPool {
        id: d.id.clone(),
        token_a_id: d.token_a_id.clone(),
        token_b_id: d.token_b_id.clone(),
    }
}

/// Sets the registry up with the pools described, for routing only.
pub fn init_pools_fast(registry: &mut Registry, pools_data: &Vec<PoolDescriptor>)
    ensures
        final(registry).is_initialized(),
        final(registry).fast_pools() == fast_pools_of(pools_data@, pools_data@.len() as int),
        final(registry).swap_pools() == Map::<u32, PoolData>::empty(),
{
    let mut pools: Vec<FastPool> = Vec::new();
    let mut i: usize = 0;
    while i < pools_data.len()
        invariant
            i <= pools_data@.len(),
            pools@ == fast_pools_of(pools_data@, i as int),
        decreases pools_data@.len() - i,
    {
        pools.push(fast_pool_from(&pools_data[i]));
        i = i + 1;
    }
    let pools_by_token: TokenIndex = TokenIndex::build(&pools);
    registry.state = Some(GlobalPools { pools, pools_by_token, full_pools: HashMap::new() });
}

/// Sets the registry up with the pools described, for routing and, where a
/// description holds what swapping needs, for swapping.
pub fn init_pools_with_data(registry: &mut Registry, pools_data: &Vec<PoolDescriptor>)
    ensures
        final(registry).is_initialized(),
        final(registry).fast_pools() == fast_pools_of(pools_data@, pools_data@.len() as int),
        models(final(registry).swap_pools(), swap_pools_of(pools_data@, pools_data@.len() as int)),
{
    let mut pools: Vec<FastPool> = Vec::new();
    let mut full_pools: HashMap<u32, PoolData> = HashMap::new();
    let mut i: usize = 0;
    while i < pools_data.len()
        invariant
            i <= pools_data@.len(),
            pools@ == fast_pools_of(pools_data@, i as int),
            models(full_pools@, swap_pools_of(pools_data@, i as int)),
        decreases pools_data@.len() - i,
    {
        let d: &PoolDescriptor = &pools_data[i];
        pools.push(fast_pool_from(d));
        match build_pool_data(d) {
            Some(pool_data) => {
                let id_num: u32 = pool_data.id;
                full_pools.insert(id_num, pool_data);
                proof {
                    let expected = swap_pools_of(pools_data@, i + 1);
                    assert(full_pools@.dom() =~= expected.dom());
                }
            },
            None => {},
        }
        i = i + 1;
    }
    let pools_by_token: TokenIndex = TokenIndex::build(&pools);
    registry.state = Some(GlobalPools { pools, pools_by_token, full_pools });
}

/// Takes the registry down.
pub fn clear_pools(registry: &mut Registry)
    ensures
        !final(registry).is_initialized(),
        final(registry).fast_pools() == Seq::<FastPool>::empty(),
        final(registry).swap_pools() == Map::<u32, PoolData>::empty(),
{
    registry.state = None;
}

/// The number of pools for routing; zero where the registry is not set up.
pub fn get_pool_count(registry: &Registry) -> (count: usize)
    ensures
        count == registry.fast_pools().len(),
{
    match &registry.state {
        Some(global) => global.pools.len(),
        None => 0,
    }
}


/// Whether `positions` gives, for every id, the last position of a pool with
/// that id, and nothing for an id that no pool has.
pub open spec fn positions_match(positions: Map<Seq<char>, usize>, pools: Seq<FastPool>) -> bool {
    forall|id: Seq<char>|
        match #[trigger] last_index_of(pools, id) {
            Some(i) => positions.contains_key(id) && positions[id] == i,
            None => !positions.contains_key(id),
        }
}

/// Merges the pools described into the pools for routing, and sets the
/// registry up if it was not: each pool takes the place of the last pool
/// with its id, or comes last. The pools for swapping stay as they are.
pub fn update_pools_fast(registry: &mut Registry, pools_data: &Vec<PoolDescriptor>)
    ensures
        final(registry).is_initialized(),
        final(registry).fast_pools() == upsert_all(
            old(registry).fast_pools(),
            fast_pools_of(pools_data@, pools_data@.len() as int),
            pools_data@.len() as int,
        ),
        final(registry).swap_pools() == old(registry).swap_pools(),
{
    let ghost pools0 = registry.fast_pools();
    let ghost batch = fast_pools_of(pools_data@, pools_data@.len() as int);
    let taken: Option<GlobalPools> = registry.state.take();
    let (mut pools, full_pools) = match taken {
        Some(global) => (global.pools, global.full_pools),
        None => (Vec::new(), HashMap::new()),
    };
    let mut existing_pools: StringHashMap<usize> = StringHashMap::new();
    let mut idx: usize = 0;
    while idx < pools.len()
        invariant
            idx <= pools@.len(),
            positions_match(existing_pools@, pools@.take(idx as int)),
        decreases pools@.len() - idx,
    {
        let ghost before = existing_pools@;
        existing_pools.insert(pools[idx].id.clone(), idx);
        proof {
            let shorter = pools@.take(idx as int);
            let longer = pools@.take(idx + 1);
            assert(longer.drop_last() =~= shorter);
            assert(longer.last() == pools@[idx as int]);
            assert forall|id: Seq<char>|
                match #[trigger] last_index_of(longer, id) {
                    Some(i) => existing_pools@.contains_key(id) && existing_pools@[id] == i,
                    None => !existing_pools@.contains_key(id),
                } by {
                assert(last_index_of(shorter, id) is Some ==> before.contains_key(id));
            }
        }
        idx = idx + 1;
    }
    proof {
        assert(pools@.take(idx as int) =~= pools@);
    }
    let mut j: usize = 0;
    while j < pools_data.len()
        invariant
            j <= pools_data@.len(),
            batch == fast_pools_of(pools_data@, pools_data@.len() as int),
            pools@ == upsert_all(pools0, batch, j as int),
            positions_match(existing_pools@, pools@),
        decreases pools_data@.len() - j,
    {
        let new_pool: FastPool = fast_pool_from(&pools_data[j]);
        let ghost merged = pools@;
        let ghost before = existing_pools@;
        proof {
            lemma_fast_pools_at(pools_data@, pools_data@.len() as int, j as int);
            lemma_last_index_of(merged, new_pool.id@);
            assert(last_index_of(merged, new_pool.id@) is Some ==> before.contains_key(
                new_pool.id@,
            ));
        }
        let found: Option<usize> = match existing_pools.get(pools_data[j].id.as_str()) {
            Some(at) => Some(*at),
            None => None,
        };
        match found {
            Some(at) => {
                pools[at] = new_pool;
                proof {
                    assert forall|id: Seq<char>|
                        match #[trigger] last_index_of(pools@, id) {
                            Some(i) => existing_pools@.contains_key(id) && existing_pools@[id] == i,
                            None => !existing_pools@.contains_key(id),
                        } by {
                        lemma_last_index_by_ids(pools@, merged, id);
                        assert(last_index_of(merged, id) is Some ==> before.contains_key(id));
                    }
                }
            },
            None => {
                let at: usize = pools.len();
                existing_pools.insert(new_pool.id.clone(), at);
                pools.push(new_pool);
                proof {
                    assert(pools@.drop_last() =~= merged);
                    assert forall|id: Seq<char>|
                        match #[trigger] last_index_of(pools@, id) {
                            Some(i) => existing_pools@.contains_key(id) && existing_pools@[id] == i,
                            None => !existing_pools@.contains_key(id),
                        } by {
                        assert(last_index_of(merged, id) is Some ==> before.contains_key(id));
                    }
                }
            },
        }
        j = j + 1;
    }
    let pools_by_token: TokenIndex = TokenIndex::build(&pools);
    registry.state = Some(GlobalPools { pools, pools_by_token, full_pools });
}

/// The pool at position `j` of the pools that descriptions give is the pool
/// that description `j` gives.
pub proof fn lemma_fast_pools_at(ds: Seq<PoolDescriptor>, n: int, j: int)
    requires
        0 <= j < n <= ds.len(),
    ensures
        fast_pools_of(ds, n).len() == n,
        fast_pools_of(ds, n)[j] == fast_pool_of(ds[j]),
    decreases n,
{
    lemma_fast_pools_len(ds, n - 1);
    if j < n - 1 {
        lemma_fast_pools_at(ds, n - 1, j);
    }
}

/// Descriptions give one pool each.
pub proof fn lemma_fast_pools_len(ds: Seq<PoolDescriptor>, n: int)
    requires
        0 <= n,
    ensures
        fast_pools_of(ds, n).len() == n,
    decreases n,
{
    if n > 0 {
        lemma_fast_pools_len(ds, n - 1);
    }
}

/// The ids of the pools along a path.
pub open spec fn id_path(pools: Seq<FastPool>, path: Seq<usize>) -> Seq<Seq<char>> {
    Seq::new(path.len(), |j: int| pools[path[j] as int].id@)
}

/// The ids of the pools along each of a list of paths.
pub open spec fn id_paths(pools: Seq<FastPool>, paths: Seq<Seq<usize>>) -> Seq<Seq<Seq<char>>> {
    Seq::new(paths.len(), |i: int| id_path(pools, paths[i]))
}

/// The ids that a list of routes holds.
pub open spec fn names_of(routes: Seq<Vec<String>>) -> Seq<Seq<Seq<char>>> {
    Seq::new(routes.len(), |i: int| Seq::new(routes[i]@.len(), |j: int| routes[i]@[j]@))
}

/// Every path of at most `max_hops` distinct pools that leads from
/// `token_in_id` to a pool on `token_out_id`, as the ids of its pools, in the
/// order of a depth-first search; an error where the registry is not set up.
pub fn compute_routes_fast(
    registry: &Registry,
    token_in_id: &String,
    token_out_id: &String,
    max_hops: usize,
) -> (r: Result<Vec<Vec<String>>, TradeError>)
    ensures
        !registry.is_initialized() ==> r is Err && r->Err_0 == TradeError::NotInitialized,
        registry.is_initialized() ==> r is Ok && names_of(r->Ok_0@) == id_paths(
            registry.fast_pools(),
            routes_from(
                registry.fast_pools(),
                token_in_id@,
                token_out_id@,
                Seq::<usize>::empty(),
                max_hops as nat,
            ),
        ),
{
    let global: &GlobalPools = match &registry.state {
        Some(global) => global,
        None => {
            return Err(TradeError::NotInitialized);
        },
    };
    proof {
        use_type_invariant(global);
    }
    let routes: Vec<Vec<usize>> = find_routes(
        &global.pools,
        &global.pools_by_token,
        token_in_id,
        token_out_id,
        max_hops,
    );
    let ghost paths = paths_of(routes@);
    let mut route_ids: Vec<Vec<String>> = Vec::new();
    let mut i: usize = 0;
    while i < routes.len()
        invariant
            i <= routes@.len(),
            paths == paths_of(routes@),
            route_ids@.len() == i,
            forall|j: int|
                0 <= j < routes@.len() ==> is_route(
                    global.pools@,
                    token_out_id@,
                    Seq::<usize>::empty(),
                    max_hops as nat,
                    (#[trigger] routes@[j])@,
                ),
            forall|a: int|
                0 <= a < i ==> Seq::new(
                    (#[trigger] route_ids@[a])@.len(),
                    |j: int| route_ids@[a]@[j]@,
                ) == id_path(global.pools@, paths[a]),
        decreases routes@.len() - i,
    {
        let route: &Vec<usize> = &routes[i];
        let mut ids: Vec<String> = Vec::new();
        let mut j: usize = 0;
        while j < route.len()
            invariant
                j <= route@.len(),
                ids@.len() == j,
                forall|b: int|
                    0 <= b < route@.len() ==> (#[trigger] route@[b]) < global.pools@.len(),
                forall|b: int|
                    0 <= b < j ==> (#[trigger] ids@[b])@ == global.pools@[route@[b] as int].id@,
            decreases route@.len() - j,
        {
            ids.push(global.pools[route[j]].id.clone());
            j = j + 1;
        }
        proof {
            assert(Seq::new(ids@.len(), |j: int| ids@[j]@) =~= id_path(
                global.pools@,
                paths[i as int],
            ));
        }
        route_ids.push(ids);
        i = i + 1;
    }
    proof {
        assert(names_of(route_ids@) =~= id_paths(global.pools@, paths));
    }
    Ok(route_ids)
}

/// What `calculate_trade_output` returns: an error where the registry is
/// not set up, then an error where the amount is not an unsigned 128-bit
/// integer in decimal, then what the trade along the route gives.
pub open spec fn is_trade_output(
    r: Result<TradeResult, TradeError>,
    initialized: bool,
    pools: Map<u32, PoolData>,
    route: Seq<u32>,
    amount_in: Seq<char>,
    token_in: Seq<char>,
) -> bool {
    if !initialized {
        r is Err && r->Err_0 == TradeError::NotInitialized
    } else {
        match unsigned_literal(amount_in, u128::MAX as int) {
            Some(amount) => is_trade_of(r, pools, route, amount as u128, token_in),
            None => r is Err && r->Err_0 == TradeError::InvalidAmount,
        }
    }
}

/// Whether `calculate_trade_output` can compute its result: whether, where
/// the registry is set up and the amount is readable, the trade along the
/// route can be computed.
pub open spec fn trade_output_computable(
    initialized: bool,
    pools: Map<u32, PoolData>,
    route: Seq<u32>,
    amount_in: Seq<char>,
    token_in: Seq<char>,
) -> bool {
    initialized ==> (match unsigned_literal(amount_in, u128::MAX as int) {
        Some(amount) => route_computable(pools, route, amount as u128, token_in),
        None => true,
    })
}

/// The output of a trade of `amount_in`, in decimal, of `token_in_id`
/// through the pools of the route, in order, where it can be computed;
/// nothing where it cannot.
pub fn try_calculate_trade_output(
    registry: &Registry,
    route_pool_ids: &Vec<u32>,
    amount_in: &str,
    token_in_id: &str,
) -> (r: Option<Result<TradeResult, TradeError>>)
    ensures
        r is Some <==> trade_output_computable(
            registry.is_initialized(),
            registry.swap_pools(),
            route_pool_ids@,
            amount_in@,
            token_in_id@,
        ),
        r is Some ==> is_trade_output(
            r->Some_0,
            registry.is_initialized(),
            registry.swap_pools(),
            route_pool_ids@,
            amount_in@,
            token_in_id@,
        ),
{
    let global: &GlobalPools = match &registry.state {
        Some(global) => global,
        None => {
            return Some(Err(TradeError::NotInitialized));
        },
    };
    let amount: u128 = match parse_u128(amount_in) {
        Some(v) => v,
        None => {
            return Some(Err(TradeError::InvalidAmount));
        },
    };
    try_calculate_route_output(&global.full_pools, route_pool_ids.as_slice(), amount, token_in_id)
}

/// The output of a trade of `amount_in`, in decimal, of `token_in_id`
/// through the pools of the route, in order.
pub fn calculate_trade_output(
    registry: &Registry,
    route_pool_ids: &Vec<u32>,
    amount_in: &str,
    token_in_id: &str,
) -> (r: Result<TradeResult, TradeError>)
    requires
        trade_output_computable(
            registry.is_initialized(),
            registry.swap_pools(),
            route_pool_ids@,
            amount_in@,
            token_in_id@,
        ),
    ensures
        is_trade_output(
            r,
            registry.is_initialized(),
            registry.swap_pools(),
            route_pool_ids@,
            amount_in@,
            token_in_id@,
        ),
{
    try_calculate_trade_output(registry, route_pool_ids, amount_in, token_in_id).unwrap()
}

/// The amounts that the first `n` texts give: each unsigned 128-bit integer
/// in decimal, in order; other texts give nothing.
pub open spec fn readable_amounts(texts: Seq<String>, n: int) -> Seq<u128>
    decreases n,
{
    if n <= 0 {
        Seq::<u128>::empty()
    } else {
        match unsigned_literal(texts[n - 1]@, u128::MAX as int) {
            Some(v) => readable_amounts(texts, n - 1).push(v as u128),
            None => readable_amounts(texts, n - 1),
        }
    }
}

/// What `calculate_trades_for_routes` returns: an error where the registry
/// is not set up, else the trades of every readable amount along every
/// route.
pub open spec fn is_trades_for_routes(
    r: Result<Vec<Result<TradeResult, TradeError>>, TradeError>,
    initialized: bool,
    pools: Map<u32, PoolData>,
    routes: Seq<Vec<u32>>,
    amounts: Seq<String>,
    token_in: Seq<char>,
) -> bool {
    if !initialized {
        r is Err && r->Err_0 == TradeError::NotInitialized
    } else {
        r is Ok && is_batch_of(
            r->Ok_0@,
            pools,
            routes,
            readable_amounts(amounts, amounts.len() as int),
            token_in,
        )
    }
}

/// Whether `calculate_trades_for_routes` can compute its result: whether,
/// where the registry is set up, the trade of every readable amount along
/// every route can be computed.
pub open spec fn trades_for_routes_computable(
    initialized: bool,
    pools: Map<u32, PoolData>,
    routes: Seq<Vec<u32>>,
    amounts: Seq<String>,
    token_in: Seq<char>,
) -> bool {
    initialized ==> batch_computable(
        pools,
        routes,
        readable_amounts(amounts, amounts.len() as int),
        token_in,
    )
}

/// The trades of every readable amount along every route, where all of them
/// can be computed, and nothing where one cannot: for each route in order,
/// for each amount in order, one result; an error where the registry is not
/// set up.
pub fn try_calculate_trades_for_routes(
    registry: &Registry,
    routes: &Vec<Vec<u32>>,
    amounts: &Vec<String>,
    token_in_id: &str,
) -> (r: Option<Result<Vec<Result<TradeResult, TradeError>>, TradeError>>)
    ensures
        r is Some <==> trades_for_routes_computable(
            registry.is_initialized(),
            registry.swap_pools(),
            routes@,
            amounts@,
            token_in_id@,
        ),
        r is Some ==> is_trades_for_routes(
            r->Some_0,
            registry.is_initialized(),
            registry.swap_pools(),
            routes@,
            amounts@,
            token_in_id@,
        ),
{
    let global: &GlobalPools = match &registry.state {
        Some(global) => global,
        None => {
            return Some(Err(TradeError::NotInitialized));
        },
    };
    let mut readable: Vec<u128> = Vec::new();
    let mut i: usize = 0;
    while i < amounts.len()
        invariant
            i <= amounts@.len(),
            readable@ == readable_amounts(amounts@, i as int),
        decreases amounts@.len() - i,
    {
        match parse_u128(amounts[i].as_str()) {
            Some(v) => {
                readable.push(v);
            },
            None => {},
        }
        i = i + 1;
    }
    match try_calculate_trades_batch(
        &global.full_pools,
        routes.as_slice(),
        readable.as_slice(),
        token_in_id,
    ) {
        Some(results) => Some(Ok(results)),
        None => None,
    }
}

/// The trades of every readable amount along every route: for each route in
/// order, for each amount in order, one result; an error where the registry
/// is not set up.
pub fn calculate_trades_for_routes(
    registry: &Registry,
    routes: &Vec<Vec<u32>>,
    amounts: &Vec<String>,
    token_in_id: &str,
) -> (r: Result<Vec<Result<TradeResult, TradeError>>, TradeError>)
    requires
        trades_for_routes_computable(
            registry.is_initialized(),
            registry.swap_pools(),
            routes@,
            amounts@,
            token_in_id@,
        ),
    ensures
        is_trades_for_routes(
            r,
            registry.is_initialized(),
            registry.swap_pools(),
            routes@,
            amounts@,
            token_in_id@,
        ),
{
    try_calculate_trades_for_routes(registry, routes, amounts, token_in_id).unwrap()
}

} // verus!
