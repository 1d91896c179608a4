use vstd::prelude::*;
use vstd::bytes::{spec_u64_to_le_bytes, u64_to_le_bytes};
use crate::orderbook::OrderDirection;

verus! {

/// The longest namespace component that a key can carry.
pub const MAX_COMPONENT: usize = 0xFFFF;

/// A namespace component with its length in front, as two bytes, the
/// high byte first.
pub open spec fn spec_length_prefixed(component: Seq<u8>) -> Seq<u8> {
    seq![(component.len() / 256) as u8, (component.len() % 256) as u8] + component
}

/// Calls `cosmwasm_std::storage_keys::to_length_prefixed`. Trusted: for a
/// component of at most 65535 bytes the result is the length of the
/// component as two bytes, the high byte first, followed by the component.
#[verifier::external_body]
fn length_prefixed(component: &Vec<u8>) -> (r: Vec<u8>)
    requires
        component@.len() <= MAX_COMPONENT,
    ensures
        r@ == spec_length_prefixed(component@),
{
    cosmwasm_std::storage_keys::to_length_prefixed(component.as_slice())
}

/// The tag of the order table: the bytes of `order`.
pub open spec fn spec_tag_order() -> Seq<u8> {
    seq![111u8, 114u8, 100u8, 101u8, 114u8]
}

pub fn tag_order() -> (r: Vec<u8>)
    ensures
        r@ == spec_tag_order(),
{
    vec![111u8, 114u8, 100u8, 101u8, 114u8]
}

/// The tag of the tick tables: the bytes of `tick`.
pub open spec fn spec_tag_tick() -> Seq<u8> {
    seq![116u8, 105u8, 99u8, 107u8]
}

pub fn tag_tick() -> (r: Vec<u8>)
    ensures
        r@ == spec_tag_tick(),
{
    vec![116u8, 105u8, 99u8, 107u8]
}

/// The tag of the pair configurations: the bytes of `orderbook`.
pub open spec fn spec_tag_orderbook() -> Seq<u8> {
    seq![111u8, 114u8, 100u8, 101u8, 114u8, 98u8, 111u8, 111u8, 107u8]
}

pub fn tag_orderbook() -> (r: Vec<u8>)
    ensures
        r@ == spec_tag_orderbook(),
{
    vec![111u8, 114u8, 100u8, 101u8, 114u8, 98u8, 111u8, 111u8, 107u8]
}

/// The tag of the reward accounts: the bytes of `reward`.
pub open spec fn spec_tag_reward() -> Seq<u8> {
    seq![114u8, 101u8, 119u8, 97u8, 114u8, 100u8]
}

pub fn tag_reward() -> (r: Vec<u8>)
    ensures
        r@ == spec_tag_reward(),
{
    vec![114u8, 101u8, 119u8, 97u8, 114u8, 100u8]
}

/// The tag of the id counter: the bytes of `last_order_id`.
pub open spec fn spec_tag_last_order_id() -> Seq<u8> {
    seq![108u8, 97u8, 115u8, 116u8, 95u8, 111u8, 114u8, 100u8, 101u8, 114u8, 95u8, 105u8, 100u8]
}

pub fn tag_last_order_id() -> (r: Vec<u8>)
    ensures
        r@ == spec_tag_last_order_id(),
{
    vec![108u8, 97u8, 115u8, 116u8, 95u8, 111u8, 114u8, 100u8, 101u8, 114u8, 95u8, 105u8, 100u8]
}

/// Appends the bytes of `tail` to `head`.
pub fn append_bytes(head: &mut Vec<u8>, tail: &Vec<u8>)
    ensures
        final(head)@ == old(head)@ + tail@,
{
    let mut i: usize = 0;
    while i < tail.len()
        invariant
            i <= tail.len(),
            head@ == old(head)@ + tail@.take(i as int),
        decreases tail.len() - i,
    {
        head.push(tail[i]);
        i += 1;
        assert(tail@.take(i as int) =~= tail@.take(i - 1).push(tail@[i - 1]));
        assert(head@ =~= old(head)@ + tail@.take(i as int));
    }
    assert(tail@.take(tail@.len() as int) =~= tail@);
}

/// The namespace of the rows of one table of one pair: the tag and the
/// pair key, each with its length in front.
pub open spec fn spec_namespace(tag: Seq<u8>, pair_key: Seq<u8>) -> Seq<u8> {
    spec_length_prefixed(tag) + spec_length_prefixed(pair_key)
}

pub fn namespace(tag: &Vec<u8>, pair_key: &Vec<u8>) -> (r: Vec<u8>)
    requires
        tag@.len() <= MAX_COMPONENT,
        pair_key@.len() <= MAX_COMPONENT,
    ensures
        r@ == spec_namespace(tag@, pair_key@),
{
    let mut r = length_prefixed(tag);
    let second = length_prefixed(pair_key);
    append_bytes(&mut r, &second);
    r
}

/// The `n` low bytes of `v`, the highest first.
pub open spec fn be_bytes(v: nat, n: nat) -> Seq<u8>
    decreases n,
{
    if n == 0 {
        Seq::empty()
    } else {
        be_bytes(v / 256, (n - 1) as nat).push((v % 256) as u8)
    }
}

/// A price level as 16 bytes, the highest first: a fixed width, so that
/// the order of the keys is the order of the prices.
pub fn price_bytes(price: u128) -> (r: Vec<u8>)
    ensures
        r@ == be_bytes(price as nat, 16),
{
    let mut low_first: Vec<u8> = Vec::new();
    let mut v = price;
    let mut k: usize = 0;
    while k < 16
        invariant
            k <= 16,
            low_first@.len() == k,
            forall|n: nat| #![trigger be_bytes(v as nat, n)] be_bytes(price as nat, n + k as nat) == be_bytes(v as nat, n) + low_first@.reverse(),
        decreases 16 - k,
    {
        let ghost before = low_first@;
        let ghost was = v;
        low_first.push((v % 256) as u8);
        v = v / 256;
        k += 1;
        proof {
            assert(low_first@.reverse() =~= seq![(was % 256) as u8] + before.reverse());
            assert forall|n: nat| #![trigger be_bytes(v as nat, n)] be_bytes(price as nat, n + k as nat) == be_bytes(v as nat, n)
                + low_first@.reverse() by {
                assert(be_bytes(price as nat, (n + 1) + (k - 1) as nat) == be_bytes(was as nat, n + 1) + before.reverse());
                assert(be_bytes(was as nat, n + 1) == be_bytes(v as nat, n).push((was % 256) as u8));
                assert(be_bytes(v as nat, n).push((was % 256) as u8) + before.reverse() =~= be_bytes(v as nat, n)
                    + low_first@.reverse());
            }
        }
    }
    let mut r: Vec<u8> = Vec::new();
    let mut i: usize = 16;
    while i > 0
        invariant
            i <= 16,
            low_first@.len() == 16,
            r@ == low_first@.reverse().take(16 - i),
        decreases i,
    {
        i -= 1;
        r.push(low_first[i]);
        assert(r@ =~= low_first@.reverse().take(16 - i));
    }
    proof {
        assert(be_bytes(price as nat, 0 + 16) == be_bytes(v as nat, 0) + low_first@.reverse());
        assert(r@ =~= low_first@.reverse());
        assert(be_bytes(v as nat, 0) + low_first@.reverse() =~= low_first@.reverse());
    }
    r
}

/// `a` and `b` agree before place `i`, and there `a` has the smaller byte.
pub open spec fn differs_at(a: Seq<u8>, b: Seq<u8>, i: int) -> bool {
    0 <= i < a.len() && i < b.len() && a[i] < b[i] && a.take(i) == b.take(i)
}

/// `a` comes before `b` in the order of the keys: they have the same
/// length, and at the first place where they differ `a` has the smaller byte.
pub open spec fn key_lt(a: Seq<u8>, b: Seq<u8>) -> bool {
    a.len() == b.len() && exists|i: int| #[trigger] differs_at(a, b, i)
}

pub open spec fn pow256(n: nat) -> nat
    decreases n,
{
    if n == 0 {
        1
    } else {
        256 * pow256((n - 1) as nat)
    }
}

/// The order of fixed-width keys is the order of the numbers they stand for.
pub proof fn lemma_be_bytes_ordered(a: nat, b: nat, n: nat)
    requires
        a < b < pow256(n),
    ensures
        key_lt(be_bytes(a, n), be_bytes(b, n)),
    decreases n,
{
    lemma_be_len(a, n);
    lemma_be_len(b, n);
    if n > 0 {
        let m = (n - 1) as nat;
        let x = be_bytes(a, n);
        let y = be_bytes(b, n);
        lemma_be_len(a / 256, m);
        lemma_be_len(b / 256, m);
        if a / 256 == b / 256 {
            assert(x.take(m as int) =~= y.take(m as int));
            assert(differs_at(x, y, m as int));
        } else {
            assert(a / 256 < b / 256 < pow256(m)) by (nonlinear_arith)
                requires
                    a < b < 256 * pow256(m),
                    a / 256 != b / 256,
            ;
            lemma_be_bytes_ordered(a / 256, b / 256, m);
            let i = choose|i: int| #[trigger] differs_at(be_bytes(a / 256, m), be_bytes(b / 256, m), i);
            assert(x.take(i) =~= be_bytes(a / 256, m).take(i));
            assert(y.take(i) =~= be_bytes(b / 256, m).take(i));
            assert(differs_at(x, y, i));
        }
    }
}

/// The keys of two price levels stand in the order of the prices.
pub proof fn lemma_price_keys_ordered(a: u128, b: u128)
    requires
        a < b,
    ensures
        key_lt(be_bytes(a as nat, 16), be_bytes(b as nat, 16)),
{
    assert(pow256(16) == 0x1_0000_0000_0000_0000_0000_0000_0000_0000nat) by {
        reveal_with_fuel(pow256, 17);
    }
    lemma_be_bytes_ordered(a as nat, b as nat, 16);
}

proof fn lemma_be_len(v: nat, n: nat)
    ensures
        be_bytes(v, n).len() == n,
    decreases n,
{
    if n > 0 {
        lemma_be_len(v / 256, (n - 1) as nat);
    }
}

/// The byte that stands for a side of the book in a key.
pub open spec fn spec_direction_byte(direction: OrderDirection) -> u8 {
    match direction {
        OrderDirection::Buy => 0,
        OrderDirection::Sell => 1,
    }
}

/// The key of the row of an order: the namespace of the pair's order
/// table, then the id as 8 bytes, the lowest first.
pub open spec fn spec_order_key(pair_key: Seq<u8>, order_id: u64) -> Seq<u8> {
    spec_namespace(spec_tag_order(), pair_key) + spec_u64_to_le_bytes(order_id)
}

pub fn order_key(pair_key: &Vec<u8>, order_id: u64) -> (r: Vec<u8>)
    requires
        pair_key@.len() <= MAX_COMPONENT,
    ensures
        r@ == spec_order_key(pair_key@, order_id),
{
    let mut r = namespace(&tag_order(), pair_key);
    let id = u64_to_le_bytes(order_id);
    append_bytes(&mut r, &id);
    r
}

/// The key of the counter of a price level: the namespace of the pair's
/// tick tables, the byte of the side, and the price as 16 bytes, the
/// highest first.
pub open spec fn spec_tick_key(pair_key: Seq<u8>, direction: OrderDirection, price: u128) -> Seq<u8> {
    spec_namespace(spec_tag_tick(), pair_key).push(spec_direction_byte(direction)) + be_bytes(price as nat, 16)
}

pub fn tick_key(pair_key: &Vec<u8>, direction: OrderDirection, price: u128) -> (r: Vec<u8>)
    requires
        pair_key@.len() <= MAX_COMPONENT,
    ensures
        r@ == spec_tick_key(pair_key@, direction, price),
{
    let mut r = namespace(&tag_tick(), pair_key);
    r.push(match direction {
        OrderDirection::Buy => 0u8,
        OrderDirection::Sell => 1u8,
    });
    let price = price_bytes(price);
    append_bytes(&mut r, &price);
    r
}

/// The key of the configuration of a pair: the tag with its length in
/// front, then the pair key.
pub open spec fn spec_orderbook_key(pair_key: Seq<u8>) -> Seq<u8> {
    spec_length_prefixed(spec_tag_orderbook()) + pair_key
}

pub fn orderbook_key(pair_key: &Vec<u8>) -> (r: Vec<u8>)
    ensures
        r@ == spec_orderbook_key(pair_key@),
{
    let mut r = length_prefixed(&tag_orderbook());
    append_bytes(&mut r, pair_key);
    r
}

/// The key of a reward account: the namespace of the pair's accounts,
/// then the address.
pub open spec fn spec_reward_key(pair_key: Seq<u8>, address: Seq<u8>) -> Seq<u8> {
    spec_namespace(spec_tag_reward(), pair_key) + address
}

pub fn reward_key(pair_key: &Vec<u8>, address: &Vec<u8>) -> (r: Vec<u8>)
    requires
        pair_key@.len() <= MAX_COMPONENT,
    ensures
        r@ == spec_reward_key(pair_key@, address@),
{
    let mut r = namespace(&tag_reward(), pair_key);
    append_bytes(&mut r, address);
    r
}

/// The key of the id counter: its tag with its length in front.
pub fn last_order_id_key() -> (r: Vec<u8>)
    ensures
        r@ == spec_length_prefixed(spec_tag_last_order_id()),
{
    length_prefixed(&tag_last_order_id())
}

/// Of two levels of one side of one pair, the cheaper has the smaller key.
pub proof fn lemma_tick_keys_ordered(pair_key: Seq<u8>, direction: OrderDirection, a: u128, b: u128)
    requires
        a < b,
    ensures
        key_lt(spec_tick_key(pair_key, direction, a), spec_tick_key(pair_key, direction, b)),
{
    let head = spec_namespace(spec_tag_tick(), pair_key).push(spec_direction_byte(direction));
    let x = be_bytes(a as nat, 16);
    let y = be_bytes(b as nat, 16);
    lemma_price_keys_ordered(a, b);
    lemma_be_len(a as nat, 16);
    lemma_be_len(b as nat, 16);
    let i = choose|i: int| #[trigger] differs_at(x, y, i);
    let j = head.len() + i;
    assert((head + x).take(j) =~= head + x.take(i));
    assert((head + y).take(j) =~= head + y.take(i));
    assert(differs_at(head + x, head + y, j));
}

/// An order id is read back from its key bytes as it was written.
pub proof fn lemma_order_id_round_trip(order_id: u64)
    ensures
        vstd::bytes::spec_u64_from_le_bytes(spec_u64_to_le_bytes(order_id)) == order_id,
        spec_u64_to_le_bytes(order_id).len() == 8,
{
    vstd::bytes::lemma_auto_spec_u64_to_from_le_bytes();
}

} // verus!
