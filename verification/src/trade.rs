//! A pool with its ticks, the swap that walks the price across them, and the
//! composition of swaps along a route.

use crate::arith::lemma_row_below;
use crate::swap_math::{compute_swap_step, magnitude, saturate_u64, swap_step, BAR_FEE};
use crate::tick_math::{
    get_sqrt_ratio_at_tick, get_tick_at_sqrt_ratio, sqrt_ratio_at_tick, tick_at_sqrt_ratio,
};
use std::collections::{BTreeMap, HashMap};
use std::ops::Bound;
use vstd::prelude::*;
use vstd::slice::slice_to_vec;

verus! {

/// The magnitude of the ticks that bound a swap without a price limit.
pub const TICK_BOUND: i32 = 665454;

/// The most steps that one swap takes.
pub const MAX_ITERATIONS: u32 = 1000;

/// What one tick of a pool holds.
#[derive(Debug, Clone, Copy)]
pub struct TickData {
    pub index: i32,
    pub liquidity_gross: u128,
    /// What crossing the tick upwards adds to the liquidity in range, and
    /// crossing it downwards takes away.
    pub liquidity_net: i128,
    pub fee_growth_outside_a_x64: u128,
    pub fee_growth_outside_b_x64: u128,
    pub initialized: bool,
}

/// A pool between two tokens: its fee in millionths, its current price,
/// liquidity and tick, and its initialized ticks by index.
#[derive(Debug, Clone)]
pub struct PoolData {
    pub id: u32,
    pub token_a_id: String,
    pub token_b_id: String,
    pub fee: u32,
    pub sqrt_price_x64: u128,
    pub liquidity: u128,
    pub tick_current: i32,
    pub ticks: BTreeMap<i32, TickData>,
    pub tick_spacing: i32,
}

/// What a swap took and gave, and where it left the pool.
#[derive(Debug, Clone, Copy, PartialEq, Eq, Structural)]
pub struct SwapResult {
    pub amount_in: u128,
    pub amount_out: u128,
    pub sqrt_price_x64_after: u128,
    pub tick_after: i32,
}

/// What a trade along a route took and gave.
#[derive(Debug, Clone)]
pub struct TradeResult {
    pub amount_in: u128,
    pub amount_out: u128,
    /// The ids of the pools that the trade went through, in order.
    pub route: Vec<u32>,
}

/// Why a trade along a route could not be computed.
#[derive(Debug, Clone, Copy, PartialEq, Eq, Structural)]
pub enum TradeError {
    /// No pool registry has been set up.
    NotInitialized,
    /// The amount is not an unsigned 128-bit integer in decimal.
    InvalidAmount,
    /// The route names no pool.
    EmptyRoute,
    /// The route names a pool that is not among the `available` known ones.
    PoolNotFound { pool_id: u32, available: usize },
    /// The token carried into this pool is neither of its two tokens.
    TokenMismatch { pool_id: u32 },
}

/// The running state of a swap, as numbers.
pub struct SwapModel {
    pub remaining: int,
    pub calculated: int,
    pub price: int,
    pub tick: int,
    pub liquidity: int,
}

/// The running state of a swap.
struct SwapState {
    amount_specified_remaining: i128,
    amount_calculated: i128,
    sqrt_price_x64: u128,
    tick: i32,
    liquidity: u128,
}

impl View for SwapState {
    type V = SwapModel;

    closed spec fn view(&self) -> SwapModel {
        SwapModel {
            remaining: self.amount_specified_remaining as int,
            calculated: self.amount_calculated as int,
            price: self.sqrt_price_x64 as int,
            tick: self.tick as int,
            liquidity: self.liquidity as int,
        }
    }
}

/// Whether `k` is the greatest initialized tick strictly below `tick`.
pub open spec fn greatest_below(ticks: Map<i32, TickData>, tick: int, k: i32) -> bool {
    ticks.contains_key(k) && k < tick && forall|j: i32|
        ticks.contains_key(j) && j < tick ==> j <= k
}

/// Whether `k` is the least initialized tick strictly above `tick`.
pub open spec fn least_above(ticks: Map<i32, TickData>, tick: int, k: i32) -> bool {
    ticks.contains_key(k) && k > tick && forall|j: i32|
        ticks.contains_key(j) && j > tick ==> k <= j
}

/// The next initialized tick from `tick` in the direction of the swap, and
/// whether there is one: downwards the greatest below `tick`, upwards the
/// least above it, else the bounding tick on that side.
pub open spec fn next_initialized_tick(
    ticks: Map<i32, TickData>,
    tick: int,
    zero_for_one: bool,
) -> (int, bool) {
    if zero_for_one {
        if exists|k: i32| greatest_below(ticks, tick, k) {
            ((choose|k: i32| greatest_below(ticks, tick, k)) as int, true)
        } else {
            (-TICK_BOUND, false)
        }
    } else {
        if exists|k: i32| least_above(ticks, tick, k) {
            ((choose|k: i32| least_above(ticks, tick, k)) as int, true)
        } else {
            (TICK_BOUND as int, false)
        }
    }
}

/// A tick brought into the bounds of a swap.
pub open spec fn clamp_tick(t: int) -> int {
    if t < -TICK_BOUND {
        -TICK_BOUND
    } else if t > TICK_BOUND {
        TICK_BOUND as int
    } else {
        t
    }
}

/// A signed amount brought into 64 bits.
pub open spec fn saturate_i64(x: int) -> int {
    if x > i64::MAX {
        i64::MAX as int
    } else if x < i64::MIN {
        i64::MIN as int
    } else {
        x
    }
}

/// A liquidity brought into 128 bits.
pub open spec fn clamp_liquidity(x: int) -> int {
    if x < 0 {
        0
    } else if x > u128::MAX {
        u128::MAX as int
    } else {
        x
    }
}

/// The state after one step of a swap.
///
/// The step runs from the current price towards the price of the next
/// initialized tick, or towards the limit where that lies nearer, with
/// liquidity and remaining amount brought into 64 bits. What the step took
/// and gave moves the remaining and the calculated amount. Where the step
/// ended at the price of the next tick, the tick is crossed: its net
/// liquidity is applied if it is initialized, and the current tick moves
/// onto it (upwards) or just below it (downwards). Where it ended short of
/// its target, the current tick is the tick at the new price.
pub open spec fn swap_advance(
    ticks: Map<i32, TickData>,
    fee: int,
    st: SwapModel,
    zero_for_one: bool,
    limit: int,
    exact_input: bool,
) -> SwapModel {
    let (found, initialized) = next_initialized_tick(ticks, st.tick, zero_for_one);
    let tick_next = clamp_tick(found);
    let price_next = sqrt_ratio_at_tick(tick_next);
    let target = if (zero_for_one && price_next < limit) || (!zero_for_one && price_next > limit) {
        limit
    } else {
        price_next
    };
    let step = swap_step(
        st.price,
        target,
        saturate_u64(st.liquidity),
        saturate_i64(st.remaining),
        fee,
    );
    let crossed = step.0 == price_next;
    SwapModel {
        remaining: if exact_input {
            st.remaining - (step.1 + step.3)
        } else {
            st.remaining + step.2
        },
        calculated: if exact_input {
            st.calculated - step.2
        } else {
            st.calculated + (step.1 + step.3)
        },
        price: step.0,
        tick: if crossed {
            if zero_for_one {
                tick_next - 1
            } else {
                tick_next
            }
        } else if step.0 != target {
            tick_at_sqrt_ratio(step.0)
        } else {
            st.tick
        },
        liquidity: if crossed && initialized && ticks.contains_key(tick_next as i32) {
            if zero_for_one {
                clamp_liquidity(st.liquidity - ticks[tick_next as i32].liquidity_net)
            } else {
                clamp_liquidity(st.liquidity + ticks[tick_next as i32].liquidity_net)
            }
        } else {
            st.liquidity
        },
    }
}

/// The state after at most `fuel` steps: steps are taken until nothing
/// remains or the price is at the limit.
pub open spec fn swap_run(
    ticks: Map<i32, TickData>,
    fee: int,
    st: SwapModel,
    zero_for_one: bool,
    limit: int,
    exact_input: bool,
    fuel: nat,
) -> SwapModel
    decreases fuel,
{
    if fuel == 0 || st.remaining == 0 || st.price == limit {
        st
    } else {
        swap_run(
            ticks,
            fee,
            swap_advance(ticks, fee, st, zero_for_one, limit, exact_input),
            zero_for_one,
            limit,
            exact_input,
            (fuel - 1) as nat,
        )
    }
}

/// The price limit of a swap: the one given, else just inside the price of
/// the bounding tick on the side that the swap moves to.
pub open spec fn price_limit(zero_for_one: bool, given: Option<u128>) -> int {
    match given {
        Some(limit) => limit as int,
        None => if zero_for_one {
            sqrt_ratio_at_tick(-TICK_BOUND) + 1
        } else {
            sqrt_ratio_at_tick(TICK_BOUND as int) - 1
        },
    }
}

/// Whether a run of at most `fuel` steps takes no step with liquidity.
pub open spec fn run_idle(
    ticks: Map<i32, TickData>,
    fee: int,
    st: SwapModel,
    zero_for_one: bool,
    limit: int,
    exact_input: bool,
    fuel: nat,
) -> bool
    decreases fuel,
{
    if fuel == 0 || st.remaining == 0 || st.price == limit {
        true
    } else {
        st.liquidity == 0 && run_idle(
            ticks,
            fee,
            swap_advance(ticks, fee, st, zero_for_one, limit, exact_input),
            zero_for_one,
            limit,
            exact_input,
            (fuel - 1) as nat,
        )
    }
}

/// The state in which a swap starts: the whole amount remains, nothing is
/// calculated, and price, tick and liquidity are the pool's.
pub open spec fn swap_start(pool: PoolData, amount_specified: int) -> SwapModel {
    SwapModel {
        remaining: amount_specified,
        calculated: 0,
        price: pool.sqrt_price_x64 as int,
        tick: pool.tick_current as int,
        liquidity: pool.liquidity as int,
    }
}

/// Whether a swap can be computed: whether the fee of the pool is below the
/// whole, or the swap takes no step with liquidity. (A step with liquidity
/// takes the fee out of the whole and divides by what is left; a step
/// without liquidity moves nothing and reads no fee.)
pub open spec fn swap_computable(
    pool: PoolData,
    zero_for_one: bool,
    amount_specified: int,
    given_limit: Option<u128>,
) -> bool {
    pool.fee < BAR_FEE || run_idle(
        pool.ticks@,
        pool.fee as int,
        swap_start(pool, amount_specified),
        zero_for_one,
        price_limit(zero_for_one, given_limit),
        amount_specified >= 0,
        MAX_ITERATIONS as nat,
    )
}

/// The state in which a swap ends.
pub open spec fn swap_end(
    pool: PoolData,
    zero_for_one: bool,
    amount_specified: int,
    given_limit: Option<u128>,
) -> SwapModel {
    swap_run(
        pool.ticks@,
        pool.fee as int,
        swap_start(pool, amount_specified),
        zero_for_one,
        price_limit(zero_for_one, given_limit),
        amount_specified >= 0,
        MAX_ITERATIONS as nat,
    )
}

/// What a swap returns: of the specified amount, what was used up, and
/// against it what was calculated, as input and output in the order that the
/// sign of the specified amount gives; with the price and tick it ends at.
pub open spec fn swap_outcome(
    pool: PoolData,
    zero_for_one: bool,
    amount_specified: int,
    given_limit: Option<u128>,
) -> SwapResult {
    let end = swap_end(pool, zero_for_one, amount_specified, given_limit);
    let used = magnitude(amount_specified - end.remaining);
    let calculated = magnitude(end.calculated);
    SwapResult {
        amount_in: (if amount_specified >= 0 {
            used
        } else {
            calculated
        }) as u128,
        amount_out: (if amount_specified >= 0 {
            calculated
        } else {
            used
        }) as u128,
        sqrt_price_x64_after: end.price as u128,
        tick_after: end.tick as i32,
    }
}

/// A run without liquidity through a pool without ticks takes no step with
/// liquidity, and ends with the amount, the calculated amount and the price
/// that it started with.
pub proof fn lemma_run_without_liquidity(
    ticks: Map<i32, TickData>,
    fee: int,
    st: SwapModel,
    zero_for_one: bool,
    limit: int,
    exact_input: bool,
    fuel: nat,
)
    requires
        st.liquidity == 0,
        forall|k: i32| !ticks.contains_key(k),
    ensures
        run_idle(ticks, fee, st, zero_for_one, limit, exact_input, fuel),
        swap_run(ticks, fee, st, zero_for_one, limit, exact_input, fuel).remaining
            == st.remaining,
        swap_run(ticks, fee, st, zero_for_one, limit, exact_input, fuel).calculated
            == st.calculated,
        swap_run(ticks, fee, st, zero_for_one, limit, exact_input, fuel).price == st.price,
    decreases fuel,
{
    if !(fuel == 0 || st.remaining == 0 || st.price == limit) {
        lemma_run_without_liquidity(
            ticks,
            fee,
            swap_advance(ticks, fee, st, zero_for_one, limit, exact_input),
            zero_for_one,
            limit,
            exact_input,
            (fuel - 1) as nat,
        );
    }
}

/// A swap through a pool without liquidity and without ticks can be
/// computed whatever the fee: it takes nothing, gives nothing and leaves the
/// price where it was.
pub proof fn lemma_swap_without_liquidity(
    pool: PoolData,
    zero_for_one: bool,
    amount_specified: int,
    given_limit: Option<u128>,
)
    requires
        pool.liquidity == 0,
        forall|k: i32| !pool.ticks@.contains_key(k),
    ensures
        swap_computable(pool, zero_for_one, amount_specified, given_limit),
        swap_outcome(pool, zero_for_one, amount_specified, given_limit).amount_in == 0,
        swap_outcome(pool, zero_for_one, amount_specified, given_limit).amount_out == 0,
        swap_outcome(pool, zero_for_one, amount_specified, given_limit).sqrt_price_x64_after
            == pool.sqrt_price_x64,
{
    lemma_run_without_liquidity(
        pool.ticks@,
        pool.fee as int,
        swap_start(pool, amount_specified),
        zero_for_one,
        price_limit(zero_for_one, given_limit),
        amount_specified >= 0,
        MAX_ITERATIONS as nat,
    );
}

/// The greatest key of the map that is strictly below `tick`, if there is
/// one.
///
/// Trusted: this is the last entry of `BTreeMap::range` over the keys below
/// `tick`. The contract states that the range holds exactly the entries whose
/// keys are below `tick`, in ascending order of key.
#[verifier::external_body]
fn greatest_key_below(ticks: &BTreeMap<i32, TickData>, tick: i32) -> (r: Option<i32>)
    ensures
        match r {
            Some(k) => greatest_below(ticks@, tick as int, k),
            None => forall|j: i32| ticks@.contains_key(j) ==> j >= tick,
        },
{
    ticks.range(..tick).next_back().map(|entry| *entry.0)
}

/// The least key of the map that is strictly above `tick`, if there is one.
///
/// Trusted: this is the first entry of `BTreeMap::range` over the keys above
/// `tick`. The contract states that the range holds exactly the entries whose
/// keys are above `tick`, in ascending order of key.
#[verifier::external_body]
fn least_key_above(ticks: &BTreeMap<i32, TickData>, tick: i32) -> (r: Option<i32>)
    ensures
        match r {
            Some(k) => least_above(ticks@, tick as int, k),
            None => forall|j: i32| ticks@.contains_key(j) ==> j <= tick,
        },
{
    ticks.range((Bound::Excluded(tick), Bound::Unbounded)).next().map(|entry| *entry.0)
}

/// The liquidity after a signed change, kept within 128 bits.
pub fn add_liquidity_delta(liquidity: u128, delta: i128) -> (r: u128)
    ensures
        r == clamp_liquidity(liquidity + delta),
{
    if delta < 0 {
        let taken: u128 = magnitude_of_i128(delta);
        if taken > liquidity {
            0
        } else {
            liquidity - taken
        }
    } else {
        let added: u128 = delta as u128;
        if added > u128::MAX - liquidity {
            u128::MAX
        } else {
            liquidity + added
        }
    }
}

/// The liquidity after the opposite of a signed change, kept within 128
/// bits.
pub fn remove_liquidity_delta(liquidity: u128, delta: i128) -> (r: u128)
    ensures
        r == clamp_liquidity(liquidity - delta),
{
    if delta < 0 {
        let added: u128 = magnitude_of_i128(delta);
        if added > u128::MAX - liquidity {
            u128::MAX
        } else {
            liquidity + added
        }
    } else {
        let taken: u128 = delta as u128;
        if taken > liquidity {
            0
        } else {
            liquidity - taken
        }
    }
}

/// The size of a signed 128-bit amount.
pub fn magnitude_of_i128(x: i128) -> (r: u128)
    ensures
        r == magnitude(x as int),
{
    if x >= 0 {
        x as u128
    } else if x == i128::MIN {
        0x8000_0000_0000_0000_0000_0000_0000_0000
    } else {
        (-x) as u128
    }
}

impl PoolData {
    /// The next initialized tick from `tick` in the direction of the swap,
    /// and whether there is one.
    pub fn next_initialized_tick_within_one_word(&self, tick: i32, zero_for_one: bool) -> (r: (
        i32,
        bool,
    ))
        ensures
            (r.0 as int, r.1) == next_initialized_tick(self.ticks@, tick as int, zero_for_one),
    {
        if zero_for_one {
            match greatest_key_below(&self.ticks, tick) {
                Some(k) => {
                    proof {
                        let c: i32 = choose|c: i32| greatest_below(self.ticks@, tick as int, c);
                        assert(greatest_below(self.ticks@, tick as int, c));
                    }
                    (k, true)
                },
                None => (-TICK_BOUND, false),
            }
        } else {
            match least_key_above(&self.ticks, tick) {
                Some(k) => {
                    proof {
                        let c: i32 = choose|c: i32| least_above(self.ticks@, tick as int, c);
                        assert(least_above(self.ticks@, tick as int, c));
                    }
                    (k, true)
                },
                None => (TICK_BOUND, false),
            }
        }
    }

    /// What the pool holds at `tick`, if the tick is initialized.
    pub fn get_tick(&self, tick: i32) -> (r: Option<&TickData>)
        ensures
            match r {
                Some(data) => self.ticks@.contains_key(tick) && *data == self.ticks@[tick],
                None => !self.ticks@.contains_key(tick),
            },
    {
        self.ticks.get(&tick)
    }
}


/// A tick brought into the bounds of a swap.
fn clamp_to_bounds(tick: i32) -> (r: i32)
    ensures
        r == clamp_tick(tick as int),
{
    if tick < -TICK_BOUND {
        -TICK_BOUND
    } else if tick > TICK_BOUND {
        TICK_BOUND
    } else {
        tick
    }
}

/// A signed amount brought into 64 bits.
fn narrow_amount(x: i128) -> (r: i64)
    ensures
        r == saturate_i64(x as int),
{
    if x > i64::MAX as i128 {
        i64::MAX
    } else if x < i64::MIN as i128 {
        i64::MIN
    } else {
        x as i64
    }
}

/// A liquidity brought into 64 bits.
fn narrow_liquidity(x: u128) -> (r: u64)
    ensures
        r == saturate_u64(x as int),
{
    if x > u64::MAX as u128 {
        u64::MAX
    } else {
        x as u64
    }
}

impl PoolData {
    /// One step of a swap.
    fn advance(
        &self,
        state: SwapState,
        zero_for_one: bool,
        limit: u128,
        exact_input: bool,
    ) -> (r: SwapState)
        requires
            state.liquidity == 0 || self.fee < BAR_FEE,
            exact_input ==> state.amount_specified_remaining > 0,
            !exact_input ==> state.amount_specified_remaining < 0,
            -0x1_0000_0000_0000_0000_0000_0000 <= state.amount_calculated
                <= 0x1_0000_0000_0000_0000_0000_0000,
        ensures
            r@ == swap_advance(
                self.ticks@,
                self.fee as int,
                state@,
                zero_for_one,
                limit as int,
                exact_input,
            ),
            exact_input ==> 0 <= r.amount_specified_remaining <= state.amount_specified_remaining,
            !exact_input ==> state.amount_specified_remaining <= r.amount_specified_remaining <= 0,
            state.amount_calculated - 0x2_0000_0000_0000_0000 <= r.amount_calculated
                <= state.amount_calculated + 0x2_0000_0000_0000_0000,
    {
        let (found, initialized) = self.next_initialized_tick_within_one_word(
            state.tick,
            zero_for_one,
        );
        let tick_next: i32 = clamp_to_bounds(found);
        let sqrt_price_next_x64: u128 = get_sqrt_ratio_at_tick(tick_next);
        let target_price: u128 = if (zero_for_one && sqrt_price_next_x64 < limit) || (!zero_for_one
            && sqrt_price_next_x64 > limit) {
            limit
        } else {
            sqrt_price_next_x64
        };
        let liquidity_u64: u64 = narrow_liquidity(state.liquidity);
        let amount_remaining_i64: i64 = narrow_amount(state.amount_specified_remaining);
        let (sqrt_price_x64_new, amount_in, amount_out, fee_amount) = compute_swap_step(
            state.sqrt_price_x64,
            target_price,
            liquidity_u64,
            amount_remaining_i64,
            self.fee,
        );
        let paid: i128 = amount_in as i128 + fee_amount as i128;
        let (remaining, calculated) = if exact_input {
            (state.amount_specified_remaining - paid, state.amount_calculated - amount_out as i128)
        } else {
            (state.amount_specified_remaining + amount_out as i128, state.amount_calculated + paid)
        };
        let mut liquidity: u128 = state.liquidity;
        let mut tick: i32 = state.tick;
        if sqrt_price_x64_new == sqrt_price_next_x64 {
            if initialized {
                match self.get_tick(tick_next) {
                    Some(tick_data) => {
                        liquidity = if zero_for_one {
                            remove_liquidity_delta(liquidity, tick_data.liquidity_net)
                        } else {
                            add_liquidity_delta(liquidity, tick_data.liquidity_net)
                        };
                    },
                    None => {},
                }
            }
            tick = if zero_for_one {
                tick_next - 1
            } else {
                tick_next
            };
        } else if sqrt_price_x64_new != target_price {
            tick = get_tick_at_sqrt_ratio(sqrt_price_x64_new);
        }
        SwapState {
            amount_specified_remaining: remaining,
            amount_calculated: calculated,
            sqrt_price_x64: sqrt_price_x64_new,
            tick,
            liquidity,
        }
    }

    /// Swaps through this pool without changing it, where the swap can be
    /// computed, and gives nothing where it cannot: token A for token B where
    /// `zero_for_one`, a fixed input where `amount_specified` is not negative
    /// and else a fixed output, down or up to the price limit.
    ///
    /// A fixed input is never overspent and a fixed output never exceeded.
    pub fn try_swap(
        &self,
        zero_for_one: bool,
        amount_specified: i128,
        sqrt_price_limit_x64: Option<u128>,
    ) -> (r: Option<SwapResult>)
        ensures
            r is Some <==> swap_computable(
                *self,
                zero_for_one,
                amount_specified as int,
                sqrt_price_limit_x64,
            ),
            r is Some ==> r->Some_0 == swap_outcome(
                *self,
                zero_for_one,
                amount_specified as int,
                sqrt_price_limit_x64,
            ),
            r is Some && amount_specified >= 0 ==> r->Some_0.amount_in <= amount_specified,
            r is Some && amount_specified < 0 ==> r->Some_0.amount_out <= -amount_specified,
    {
        let sqrt_price_limit: u128 = match sqrt_price_limit_x64 {
            Some(limit) => limit,
            None => if zero_for_one {
                get_sqrt_ratio_at_tick(-TICK_BOUND) + 1
            } else {
                get_sqrt_ratio_at_tick(TICK_BOUND) - 1
            },
        };
        let exact_input: bool = amount_specified >= 0;
        let mut state: SwapState = SwapState {
            amount_specified_remaining: amount_specified,
            amount_calculated: 0,
            sqrt_price_x64: self.sqrt_price_x64,
            tick: self.tick_current,
            liquidity: self.liquidity,
        };
        let mut iteration_count: u32 = 0;
        while iteration_count < MAX_ITERATIONS && state.amount_specified_remaining != 0
            && state.sqrt_price_x64 != sqrt_price_limit
            invariant
                iteration_count <= MAX_ITERATIONS,
                exact_input == (amount_specified >= 0),
                exact_input ==> 0 <= state.amount_specified_remaining <= amount_specified,
                !exact_input ==> amount_specified <= state.amount_specified_remaining <= 0,
                -iteration_count * 0x2_0000_0000_0000_0000 <= state.amount_calculated
                    <= iteration_count * 0x2_0000_0000_0000_0000,
                swap_end(*self, zero_for_one, amount_specified as int, sqrt_price_limit_x64)
                    == swap_run(
                    self.ticks@,
                    self.fee as int,
                    state@,
                    zero_for_one,
                    sqrt_price_limit as int,
                    exact_input,
                    (MAX_ITERATIONS - iteration_count) as nat,
                ),
                swap_computable(*self, zero_for_one, amount_specified as int, sqrt_price_limit_x64)
                    == (self.fee < BAR_FEE || run_idle(
                    self.ticks@,
                    self.fee as int,
                    state@,
                    zero_for_one,
                    sqrt_price_limit as int,
                    exact_input,
                    (MAX_ITERATIONS - iteration_count) as nat,
                )),
            decreases MAX_ITERATIONS - iteration_count,
        {
            let ghost left: nat = (MAX_ITERATIONS - iteration_count) as nat;
            let ghost next: SwapModel = swap_advance(
                self.ticks@,
                self.fee as int,
                state@,
                zero_for_one,
                sqrt_price_limit as int,
                exact_input,
            );
            assert(run_idle(
                self.ticks@,
                self.fee as int,
                state@,
                zero_for_one,
                sqrt_price_limit as int,
                exact_input,
                left,
            ) == (state.liquidity == 0 && run_idle(
                self.ticks@,
                self.fee as int,
                next,
                zero_for_one,
                sqrt_price_limit as int,
                exact_input,
                (left - 1) as nat,
            )));
            assert(swap_run(
                self.ticks@,
                self.fee as int,
                state@,
                zero_for_one,
                sqrt_price_limit as int,
                exact_input,
                left,
            ) == swap_run(
                self.ticks@,
                self.fee as int,
                next,
                zero_for_one,
                sqrt_price_limit as int,
                exact_input,
                (left - 1) as nat,
            ));
            if state.liquidity != 0 && self.fee >= BAR_FEE {
                return None;
            }
            state = self.advance(state, zero_for_one, sqrt_price_limit, exact_input);
            iteration_count = iteration_count + 1;
        }
        let used: u128 = magnitude_of_i128(amount_specified - state.amount_specified_remaining);
        let calculated: u128 = magnitude_of_i128(state.amount_calculated);
        let (amount_a, amount_b) = if zero_for_one == exact_input {
            (used, calculated)
        } else {
            (calculated, used)
        };
        Some(
            SwapResult {
                amount_in: if zero_for_one {
                    amount_a
                } else {
                    amount_b
                },
                amount_out: if zero_for_one {
                    amount_b
                } else {
                    amount_a
                },
                sqrt_price_x64_after: state.sqrt_price_x64,
                tick_after: state.tick,
            },
        )
    }

    /// Swaps through this pool without changing it: token A for token B
    /// where `zero_for_one`, a fixed input where `amount_specified` is not
    /// negative and else a fixed output, down or up to the price limit.
    ///
    /// A fixed input is never overspent and a fixed output never exceeded.
    pub fn swap(
        &self,
        zero_for_one: bool,
        amount_specified: i128,
        sqrt_price_limit_x64: Option<u128>,
    ) -> (r: SwapResult)
        requires
            swap_computable(*self, zero_for_one, amount_specified as int, sqrt_price_limit_x64),
        ensures
            r == swap_outcome(*self, zero_for_one, amount_specified as int, sqrt_price_limit_x64),
            amount_specified >= 0 ==> r.amount_in <= amount_specified,
            amount_specified < 0 ==> r.amount_out <= -amount_specified,
    {
        self.try_swap(zero_for_one, amount_specified, sqrt_price_limit_x64).unwrap()
    }
}

/// A 128-bit amount read as a signed number in two's complement.
pub open spec fn reinterpret_signed(x: int) -> int {
    if x <= i128::MAX {
        x
    } else {
        x - 0x1_0000_0000_0000_0000_0000_0000_0000_0000
    }
}

/// What the hops of `route` from position `i` on give for `amount` of
/// `token`: each hop looks its pool up, sells the carried token to it for the
/// pool's other token, and carries on what came out. A hop fails where its
/// pool is unknown and where the carried token is none of the pool's.
pub open spec fn route_from(
    pools: Map<u32, PoolData>,
    route: Seq<u32>,
    i: int,
    amount: u128,
    token: Seq<char>,
) -> Result<u128, TradeError>
    decreases route.len() - i,
{
    if i < 0 || i >= route.len() {
        Ok(amount)
    } else if !pools.contains_key(route[i]) {
        Err(TradeError::PoolNotFound { pool_id: route[i], available: pools.len() as usize })
    } else {
        let pool = pools[route[i]];
        let zero_for_one = pool.token_a_id@ == token;
        if !zero_for_one && pool.token_b_id@ != token {
            Err(TradeError::TokenMismatch { pool_id: route[i] })
        } else {
            route_from(
                pools,
                route,
                i + 1,
                swap_outcome(
                    pool,
                    zero_for_one,
                    reinterpret_signed(amount as int),
                    None,
                ).amount_out,
                if zero_for_one {
                    pool.token_b_id@
                } else {
                    pool.token_a_id@
                },
            )
        }
    }
}

/// Whether the swaps of the hops of `route` from position `i` on can be
/// computed, as far as the hops are taken: up to the first hop that fails.
pub open spec fn route_computable_from(
    pools: Map<u32, PoolData>,
    route: Seq<u32>,
    i: int,
    amount: u128,
    token: Seq<char>,
) -> bool
    decreases route.len() - i,
{
    if i < 0 || i >= route.len() {
        true
    } else if !pools.contains_key(route[i]) {
        true
    } else {
        let pool = pools[route[i]];
        let zero_for_one = pool.token_a_id@ == token;
        if !zero_for_one && pool.token_b_id@ != token {
            true
        } else {
            swap_computable(pool, zero_for_one, reinterpret_signed(amount as int), None)
                && route_computable_from(
                pools,
                route,
                i + 1,
                swap_outcome(
                    pool,
                    zero_for_one,
                    reinterpret_signed(amount as int),
                    None,
                ).amount_out,
                if zero_for_one {
                    pool.token_b_id@
                } else {
                    pool.token_a_id@
                },
            )
        }
    }
}

/// Whether every pool of the map has a fee below the whole.
pub open spec fn fees_below_whole(pools: Map<u32, PoolData>) -> bool {
    forall|id: u32| pools.contains_key(id) ==> (#[trigger] pools[id]).fee < BAR_FEE
}

/// Whether a trade of `amount_in` of `token_in` along `route` can be
/// computed: whether every pool has a fee below the whole, or each swap that
/// the trade makes can be computed.
pub open spec fn route_computable(
    pools: Map<u32, PoolData>,
    route: Seq<u32>,
    amount_in: u128,
    token_in: Seq<char>,
) -> bool {
    fees_below_whole(pools) || route_computable_from(pools, route, 0, amount_in, token_in)
}

/// Whether the trade of every amount along every route can be computed.
pub open spec fn batch_computable(
    pools: Map<u32, PoolData>,
    routes: Seq<Vec<u32>>,
    amounts: Seq<u128>,
    token_in: Seq<char>,
) -> bool {
    forall|i: int, j: int|
        0 <= i < routes.len() && 0 <= j < amounts.len() ==> #[trigger] route_computable(
            pools,
            routes[i]@,
            amounts[j],
            token_in,
        )
}

/// What a trade of `amount_in` of `token_in` along `route` gives, or why it
/// gives nothing: an empty route is refused, then the hops are taken in
/// order.
pub open spec fn route_output(
    pools: Map<u32, PoolData>,
    route: Seq<u32>,
    amount_in: u128,
    token_in: Seq<char>,
) -> Result<u128, TradeError> {
    if route.len() == 0 {
        Err(TradeError::EmptyRoute)
    } else {
        route_from(pools, route, 0, amount_in, token_in)
    }
}

/// Whether `r` is what a trade of `amount_in` of `token_in` along `route`
/// returns.
pub open spec fn is_trade_of(
    r: Result<TradeResult, TradeError>,
    pools: Map<u32, PoolData>,
    route: Seq<u32>,
    amount_in: u128,
    token_in: Seq<char>,
) -> bool {
    match r {
        Ok(trade) => route_output(pools, route, amount_in, token_in) == Ok::<u128, TradeError>(
            trade.amount_out,
        ) && trade.amount_in == amount_in && trade.route@ == route,
        Err(e) => route_output(pools, route, amount_in, token_in) == Err::<u128, TradeError>(e),
    }
}

/// A 128-bit amount read as a signed number in two's complement.
pub fn as_signed(x: u128) -> (r: i128)
    ensures
        r == reinterpret_signed(x as int),
{
    if x <= i128::MAX as u128 {
        x as i128
    } else {
        ((x - 0x8000_0000_0000_0000_0000_0000_0000_0000) as i128) + i128::MIN
    }
}

/// The output of a trade of `amount_in` of `token_in` through the pools of
/// `route`, in order, where the trade can be computed; nothing where it
/// cannot.
pub fn try_calculate_route_output(
    pools: &HashMap<u32, PoolData>,
    route: &[u32],
    amount_in: u128,
    token_in: &str,
) -> (r: Option<Result<TradeResult, TradeError>>)
    ensures
        r is Some <==> route_computable(pools@, route@, amount_in, token_in@),
        r is Some ==> is_trade_of(r->Some_0, pools@, route@, amount_in, token_in@),
{
    if route.len() == 0 {
        return Some(Err(TradeError::EmptyRoute));
    }
    let mut current_amount: u128 = amount_in;
    let mut current_token: String = token_in.to_owned();
    let mut i: usize = 0;
    while i < route.len()
        invariant
            i <= route.len(),
            route_from(pools@, route@, i as int, current_amount, current_token@) == route_from(
                pools@,
                route@,
                0,
                amount_in,
                token_in@,
            ),
            route_computable_from(pools@, route@, i as int, current_amount, current_token@)
                == route_computable_from(pools@, route@, 0, amount_in, token_in@),
        decreases route.len() - i,
    {
        let pool_id: u32 = route[i];
        let pool: &PoolData = match pools.get(&pool_id) {
            Some(pool) => pool,
            None => {
                return Some(Err(TradeError::PoolNotFound { pool_id, available: pools.len() }));
            },
        };
        let zero_for_one: bool = pool.token_a_id == current_token;
        if !zero_for_one && pool.token_b_id != current_token {
            return Some(Err(TradeError::TokenMismatch { pool_id }));
        }
        let swap_result: SwapResult = match pool.try_swap(
            zero_for_one,
            as_signed(current_amount),
            None,
        ) {
            Some(swap_result) => swap_result,
            None => {
                assert(pools@[pool_id].fee >= BAR_FEE);
                return None;
            },
        };
        current_amount = swap_result.amount_out;
        current_token = if zero_for_one {
            pool.token_b_id.clone()
        } else {
            pool.token_a_id.clone()
        };
        i = i + 1;
    }
    Some(Ok(TradeResult { amount_in, amount_out: current_amount, route: slice_to_vec(route) }))
}

/// The output of a trade of `amount_in` of `token_in` through the pools of
/// `route`, in order.
pub fn calculate_route_output(
    pools: &HashMap<u32, PoolData>,
    route: &[u32],
    amount_in: u128,
    token_in: &str,
) -> (r: Result<TradeResult, TradeError>)
    requires
        route_computable(pools@, route@, amount_in, token_in@),
    ensures
        is_trade_of(r, pools@, route@, amount_in, token_in@),
{
    try_calculate_route_output(pools, route, amount_in, token_in).unwrap()
}

/// Whether `results` holds the trades of every amount along every route:
/// for each route in order, for each amount in order, one result.
pub open spec fn is_batch_of(
    results: Seq<Result<TradeResult, TradeError>>,
    pools: Map<u32, PoolData>,
    routes: Seq<Vec<u32>>,
    amounts: Seq<u128>,
    token_in: Seq<char>,
) -> bool {
    &&& results.len() == routes.len() * amounts.len()
    &&& forall|i: int, j: int|
        0 <= i < routes.len() && 0 <= j < amounts.len() ==> is_trade_of(
            #[trigger] results[i * amounts.len() + j],
            pools,
            routes[i]@,
            amounts[j],
            token_in,
        )
}

/// The trades of every amount along every route, where all of them can be
/// computed, and nothing where one cannot: for each route in order, for each
/// amount in order, one result, whether the trade went through or not.
pub fn try_calculate_trades_batch(
    pools: &HashMap<u32, PoolData>,
    routes: &[Vec<u32>],
    amounts: &[u128],
    token_in: &str,
) -> (r: Option<Vec<Result<TradeResult, TradeError>>>)
    ensures
        r is Some <==> batch_computable(pools@, routes@, amounts@, token_in@),
        r is Some ==> is_batch_of(r->Some_0@, pools@, routes@, amounts@, token_in@),
{
    let mut results: Vec<Result<TradeResult, TradeError>> = Vec::new();
    let mut i: usize = 0;
    while i < routes.len()
        invariant
            i <= routes@.len(),
            results@.len() == i * amounts@.len(),
            forall|a: int, b: int|
                0 <= a < i && 0 <= b < amounts@.len() ==> #[trigger] route_computable(
                    pools@,
                    routes@[a]@,
                    amounts@[b],
                    token_in@,
                ),
            forall|a: int, b: int|
                0 <= a < i && 0 <= b < amounts@.len() ==> is_trade_of(
                    #[trigger] results@[a * amounts@.len() + b],
                    pools@,
                    routes@[a]@,
                    amounts@[b],
                    token_in@,
                ),
        decreases routes@.len() - i,
    {
        let mut j: usize = 0;
        while j < amounts.len()
            invariant
                i < routes@.len(),
                j <= amounts@.len(),
                results@.len() == i * amounts@.len() + j,
                forall|b: int|
                    0 <= b < j ==> #[trigger] route_computable(
                        pools@,
                        routes@[i as int]@,
                        amounts@[b],
                        token_in@,
                    ),
                forall|a: int, b: int|
                    0 <= a < i && 0 <= b < amounts@.len() ==> is_trade_of(
                        #[trigger] results@[a * amounts@.len() + b],
                        pools@,
                        routes@[a]@,
                        amounts@[b],
                        token_in@,
                    ),
                forall|b: int|
                    0 <= b < j ==> is_trade_of(
                        #[trigger] results@[i * amounts@.len() + b],
                        pools@,
                        routes@[i as int]@,
                        amounts@[b],
                        token_in@,
                    ),
            decreases amounts@.len() - j,
        {
            let one: Result<TradeResult, TradeError> = match try_calculate_route_output(
                pools,
                routes[i].as_slice(),
                amounts[j],
                token_in,
            ) {
                Some(one) => one,
                None => {
                    assert(!route_computable(
                        pools@,
                        routes@[i as int]@,
                        amounts@[j as int],
                        token_in@,
                    ));
                    return None;
                },
            };
            let ghost before = results@;
            results.push(one);
            proof {
                let m: int = amounts@.len() as int;
                assert forall|a: int, b: int| 0 <= a < i && 0 <= b < m implies is_trade_of(
                    #[trigger] results@[a * m + b],
                    pools@,
                    routes@[a]@,
                    amounts@[b],
                    token_in@,
                ) by {
                    lemma_row_below(a, b, i as int, m);
                    assert(results@[a * m + b] == before[a * m + b]);
                }
                assert forall|b: int| 0 <= b < j + 1 implies is_trade_of(
                    #[trigger] results@[i * m + b],
                    pools@,
                    routes@[i as int]@,
                    amounts@[b],
                    token_in@,
                ) by {
                    if b < j {
                        assert(results@[i * m + b] == before[i * m + b]);
                    }
                }
            }
            j = j + 1;
        }
        proof {
            let m: int = amounts@.len() as int;
            assert((i + 1) * m == i * m + m) by (nonlinear_arith);
            assert forall|a: int, b: int| 0 <= a < i + 1 && 0 <= b < m implies is_trade_of(
                #[trigger] results@[a * m + b],
                pools@,
                routes@[a]@,
                amounts@[b],
                token_in@,
            ) by {
                if a == i {
                    assert(results@[a * m + b] == results@[i * m + b]);
                }
            }
        }
        i = i + 1;
    }
    Some(results)
}

/// The trades of every amount along every route: for each route in order,
/// for each amount in order, one result, whether the trade went through or
/// not.
pub fn calculate_trades_batch(
    pools: &HashMap<u32, PoolData>,
    routes: &[Vec<u32>],
    amounts: &[u128],
    token_in: &str,
) -> (results: Vec<Result<TradeResult, TradeError>>)
    requires
        batch_computable(pools@, routes@, amounts@, token_in@),
    ensures
        is_batch_of(results@, pools@, routes@, amounts@, token_in@),
{
    try_calculate_trades_batch(pools, routes, amounts, token_in).unwrap()
}

} // verus!
