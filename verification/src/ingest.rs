//! Descriptions of pools as JSON values: which members of a value are read,
//! under which keys, and the description that they give.

use crate::registry::{PoolDescriptor, TickDescriptor};
use vstd::prelude::*;

verus! {

/// A JSON value of `serde_json`, made known as a type; nothing here looks
/// inside one but through the functions below.
#[verifier::external_type_specification]
#[verifier::external_body]
pub struct ExValue(serde_json::Value);

/// The members of a JSON object that are strings, by key.
pub uninterp spec fn text_members(v: serde_json::Value) -> Map<Seq<char>, Seq<char>>;

/// The members of a JSON object that are integers of at most 64 bits without
/// a sign, by key.
pub uninterp spec fn unsigned_members(v: serde_json::Value) -> Map<Seq<char>, u64>;

/// The members of a JSON object that are integers of at most 64 bits with a
/// sign, by key.
pub uninterp spec fn signed_members(v: serde_json::Value) -> Map<Seq<char>, i64>;

/// The strings one level down: the members, by key, of the members of a JSON
/// object, by key, that are strings.
pub uninterp spec fn nested_text_members(v: serde_json::Value) -> Map<
    (Seq<char>, Seq<char>),
    Seq<char>,
>;

/// The lengths of the members of a JSON object that are arrays, by key.
pub uninterp spec fn array_lengths(v: serde_json::Value) -> Map<Seq<char>, nat>;

/// The signed integers within arrays: by the key of an array in a JSON
/// object, a position in the array and a key in the item there.
pub uninterp spec fn item_signed_members(v: serde_json::Value) -> Map<
    (Seq<char>, int, Seq<char>),
    i64,
>;

/// The strings within arrays: by the key of an array in a JSON object, a
/// position in the array and a key in the item there.
pub uninterp spec fn item_text_members(v: serde_json::Value) -> Map<
    (Seq<char>, int, Seq<char>),
    Seq<char>,
>;

/// The string under `key`, if there is one.
///
/// Trusted: `serde_json::Value`'s index by `&str`, which gives null for a
/// value that is no object or lacks the key, then `Value::as_str`, which
/// gives the text of a string and nothing for any other value.
#[verifier::external_body]
fn text_at(v: &serde_json::Value, key: &str) -> (r: Option<String>)
    ensures
        match r {
            Some(text) => text_members(*v).contains_key(key@) && text_members(*v)[key@] == text@,
            None => !text_members(*v).contains_key(key@),
        },
{
    v[key].as_str().map(|text| text.to_string())
}

/// The unsigned integer under `key`, if there is one.
///
/// Trusted: `serde_json::Value`'s index by `&str`, then `Value::as_u64`,
/// which gives a number that is an integer from zero to `u64::MAX` and
/// nothing for any other value.
#[verifier::external_body]
fn unsigned_at(v: &serde_json::Value, key: &str) -> (r: Option<u64>)
    ensures
        match r {
            Some(n) => unsigned_members(*v).contains_key(key@) && unsigned_members(*v)[key@] == n,
            None => !unsigned_members(*v).contains_key(key@),
        },
{
    v[key].as_u64()
}

/// The signed integer under `key`, if there is one.
///
/// Trusted: `serde_json::Value`'s index by `&str`, then `Value::as_i64`,
/// which gives a number that is an integer from `i64::MIN` to `i64::MAX` and
/// nothing for any other value.
#[verifier::external_body]
fn signed_at(v: &serde_json::Value, key: &str) -> (r: Option<i64>)
    ensures
        match r {
            Some(n) => signed_members(*v).contains_key(key@) && signed_members(*v)[key@] == n,
            None => !signed_members(*v).contains_key(key@),
        },
{
    v[key].as_i64()
}

/// The string under `inner` in the member under `outer`, if there is one.
///
/// Trusted: `serde_json::Value`'s index by `&str`, twice, then
/// `Value::as_str`.
#[verifier::external_body]
fn nested_text_at(v: &serde_json::Value, outer: &str, inner: &str) -> (r: Option<String>)
    ensures
        match r {
            Some(text) => nested_text_members(*v).contains_key((outer@, inner@))
                && nested_text_members(*v)[(outer@, inner@)] == text@,
            None => !nested_text_members(*v).contains_key((outer@, inner@)),
        },
{
    v[outer][inner].as_str().map(|text| text.to_string())
}

/// The length of the array under `key`, if there is one.
///
/// Trusted: `serde_json::Value`'s index by `&str`, then `Value::as_array`,
/// which gives the items of an array and nothing for any other value.
#[verifier::external_body]
fn array_len_at(v: &serde_json::Value, key: &str) -> (r: Option<usize>)
    ensures
        match r {
            Some(n) => array_lengths(*v).contains_key(key@) && array_lengths(*v)[key@] == n,
            None => !array_lengths(*v).contains_key(key@),
        },
{
    v[key].as_array().map(|items| items.len())
}

/// The signed integer under `field` in item `i` of the array under `key`,
/// if there is one.
///
/// Trusted: `serde_json::Value`'s index by `&str`, by `usize`, which gives
/// null for a value that is no array or is shorter, and by `&str` again,
/// then `Value::as_i64`.
#[verifier::external_body]
fn item_signed_at(v: &serde_json::Value, key: &str, i: usize, field: &str) -> (r: Option<i64>)
    ensures
        match r {
            Some(n) => item_signed_members(*v).contains_key((key@, i as int, field@))
                && item_signed_members(*v)[(key@, i as int, field@)] == n,
            None => !item_signed_members(*v).contains_key((key@, i as int, field@)),
        },
{
    v[key][i][field].as_i64()
}

/// The string under `field` in item `i` of the array under `key`, if there
/// is one.
///
/// Trusted: `serde_json::Value`'s index by `&str`, by `usize` and by `&str`
/// again, then `Value::as_str`.
#[verifier::external_body]
fn item_text_at(v: &serde_json::Value, key: &str, i: usize, field: &str) -> (r: Option<String>)
    ensures
        match r {
            Some(text) => item_text_members(*v).contains_key((key@, i as int, field@))
                && item_text_members(*v)[(key@, i as int, field@)] == text@,
            None => !item_text_members(*v).contains_key((key@, i as int, field@)),
        },
{
    v[key][i][field].as_str().map(|text| text.to_string())
}

/// What a map holds under the first of two keys, else under the second.
pub open spec fn first_of<K, V>(members: Map<K, V>, first: K, second: K) -> Option<V> {
    if members.contains_key(first) {
        Some(members[first])
    } else if members.contains_key(second) {
        Some(members[second])
    } else {
        None
    }
}

/// What a map holds under a key, if anything.
pub open spec fn member_of<K, V>(members: Map<K, V>, key: K) -> Option<V> {
    if members.contains_key(key) {
        Some(members[key])
    } else {
        None
    }
}

/// The text of a string that may be missing.
pub open spec fn text_of(text: Option<String>) -> Option<Seq<char>> {
    match text {
        Some(s) => Some(s@),
        None => None,
    }
}

/// Whether `d` is what item `i` of the array `ticks` of a JSON value
/// describes: the index under `id`, else under `index`; the net liquidity
/// under `liquidityNet`, else under `liquidity_net`; the gross liquidity
/// under `liquidityGross`, else under `liquidity_gross`.
pub open spec fn describes_tick(d: TickDescriptor, v: serde_json::Value, i: int) -> bool {
    &&& d.index == first_of(item_signed_members(v), ("ticks"@, i, "id"@), ("ticks"@, i, "index"@))
    &&& text_of(d.liquidity_net) == first_of(
        item_text_members(v),
        ("ticks"@, i, "liquidityNet"@),
        ("ticks"@, i, "liquidity_net"@),
    )
    &&& text_of(d.liquidity_gross) == first_of(
        item_text_members(v),
        ("ticks"@, i, "liquidityGross"@),
        ("ticks"@, i, "liquidity_gross"@),
    )
}

/// Whether `d` is what a JSON value describes: the id under `id` and the
/// tokens under `id` within `token_a` and `token_b`, empty where missing;
/// fee, price, liquidity and current tick under `fee`, `sqrtPriceX64`,
/// `liquidity` and `tickCurrent`; and the ticks in the array under `ticks`.
pub open spec fn describes_pool(d: PoolDescriptor, v: serde_json::Value) -> bool {
    &&& d.id@ == (match member_of(text_members(v), "id"@) {
        Some(text) => text,
        None => Seq::<char>::empty(),
    })
    &&& d.token_a_id@ == (match member_of(nested_text_members(v), ("token_a"@, "id"@)) {
        Some(text) => text,
        None => Seq::<char>::empty(),
    })
    &&& d.token_b_id@ == (match member_of(nested_text_members(v), ("token_b"@, "id"@)) {
        Some(text) => text,
        None => Seq::<char>::empty(),
    })
    &&& d.fee == member_of(unsigned_members(v), "fee"@)
    &&& text_of(d.sqrt_price_x64) == member_of(text_members(v), "sqrtPriceX64"@)
    &&& text_of(d.liquidity) == member_of(text_members(v), "liquidity"@)
    &&& d.tick_current == member_of(signed_members(v), "tickCurrent"@)
    &&& match d.ticks {
        Some(list) => array_lengths(v).contains_key("ticks"@) && list@.len() == array_lengths(
            v,
        )["ticks"@] && forall|i: int|
            0 <= i < list@.len() ==> describes_tick(#[trigger] list@[i], v, i),
        None => !array_lengths(v).contains_key("ticks"@),
    }
}

/// The first of two values that is there.
fn or_else<T>(first: Option<T>, second: Option<T>) -> (r: Option<T>)
    ensures
        r == (if first is Some {
            first
        } else {
            second
        }),
{
    match first {
        Some(value) => Some(value),
        None => second,
    }
}

/// The description of item `i` of the array `ticks` of a JSON value.
pub fn tick_descriptor_at(v: &serde_json::Value, i: usize) -> (d: TickDescriptor)
    ensures
        describes_tick(d, *v, i as int),
{
    TickDescriptor {
        index: or_else(item_signed_at(v, "ticks", i, "id"), item_signed_at(v, "ticks", i, "index")),
        liquidity_net: or_else(
            item_text_at(v, "ticks", i, "liquidityNet"),
            item_text_at(v, "ticks", i, "liquidity_net"),
        ),
        liquidity_gross: or_else(
            item_text_at(v, "ticks", i, "liquidityGross"),
            item_text_at(v, "ticks", i, "liquidity_gross"),
        ),
    }
}

/// A text, or the empty text where it is missing.
fn or_empty(text: Option<String>) -> (r: String)
    ensures
        r@ == (match text {
            Some(s) => s@,
            None => Seq::<char>::empty(),
        }),
{
    match text {
        Some(s) => s,
        None => String::new(),
    }
}

/// The description of a pool that a JSON value gives.
pub fn pool_descriptor_from(v: &serde_json::Value) -> (d: PoolDescriptor)
    ensures
        describes_pool(d, *v),
{
    let ticks: Option<Vec<TickDescriptor>> = match array_len_at(v, "ticks") {
        Some(n) => {
            let mut list: Vec<TickDescriptor> = Vec::new();
            let mut i: usize = 0;
            while i < n
                invariant
                    i <= n,
                    list@.len() == i,
                    forall|j: int| 0 <= j < i ==> describes_tick(#[trigger] list@[j], *v, j),
                decreases n - i,
            {
                list.push(tick_descriptor_at(v, i));
                i = i + 1;
            }
            Some(list)
        },
        None => None,
    };
    PoolDescriptor {
        id: or_empty(text_at(v, "id")),
        token_a_id: or_empty(nested_text_at(v, "token_a", "id")),
        token_b_id: or_empty(nested_text_at(v, "token_b", "id")),
        fee: unsigned_at(v, "fee"),
        sqrt_price_x64: text_at(v, "sqrtPriceX64"),
        liquidity: text_at(v, "liquidity"),
        tick_current: signed_at(v, "tickCurrent"),
        ticks,
    }
}

/// The descriptions of pools that a list of JSON values gives, one for each
/// value, in order.
pub fn describe_pools(values: &Vec<serde_json::Value>) -> (ds: Vec<PoolDescriptor>)
    ensures
        ds@.len() == values@.len(),
        forall|i: int| 0 <= i < ds@.len() ==> describes_pool(#[trigger] ds@[i], values@[i]),
{
    let mut ds: Vec<PoolDescriptor> = Vec::new();
    let mut i: usize = 0;
    while i < values.len()
        invariant
            i <= values@.len(),
            ds@.len() == i,
            forall|j: int| 0 <= j < i ==> describes_pool(#[trigger] ds@[j], values@[j]),
        decreases values@.len() - i,
    {
        ds.push(pool_descriptor_from(&values[i]));
        i = i + 1;
    }
    ds
}

} // verus!
