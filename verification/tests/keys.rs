use oraiswap_limit_order::keys::{
    append_bytes, last_order_id_key, namespace, order_key, orderbook_key, price_bytes, reward_key, tag_order,
    tag_last_order_id, tag_orderbook, tag_reward, tag_tick, tick_key,
};
use oraiswap_limit_order::orderbook::OrderDirection;
use oraiswap_limit_order::state::bytes_to_u64;

#[test]
fn tags_are_the_names_of_the_tables() {
    assert_eq!(tag_order(), b"order".to_vec());
    assert_eq!(tag_tick(), b"tick".to_vec());
    assert_eq!(tag_orderbook(), b"orderbook".to_vec());
    assert_eq!(tag_reward(), b"reward".to_vec());
    assert_eq!(tag_last_order_id(), b"last_order_id".to_vec());
}

#[test]
fn namespace_puts_lengths_in_front() {
    assert_eq!(namespace(&b"order".to_vec(), &b"ab".to_vec()), b"\x00\x05order\x00\x02ab".to_vec());
    assert_eq!(namespace(&Vec::new(), &vec![7u8; 300])[..4], [0, 0, 1, 44]);
    assert_eq!(last_order_id_key(), b"\x00\x0dlast_order_id".to_vec());
    assert_eq!(orderbook_key(&b"ab".to_vec()), b"\x00\x09orderbookab".to_vec());
    assert_eq!(reward_key(&b"ab".to_vec(), &b"xyz".to_vec()), b"\x00\x06reward\x00\x02abxyz".to_vec());
}

#[test]
fn order_key_ends_in_the_id_and_reads_back() {
    let key = order_key(&b"ab".to_vec(), 258);
    assert_eq!(key, b"\x00\x05order\x00\x02ab\x02\x01\x00\x00\x00\x00\x00\x00".to_vec());
    assert_eq!(bytes_to_u64(&key[11..]), Ok(258));
}

#[test]
fn tick_keys_stand_in_the_order_of_the_prices() {
    assert_eq!(price_bytes(258), vec![0, 0, 0, 0, 0, 0, 0, 0, 0, 0, 0, 0, 0, 0, 1, 2]);
    assert_eq!(price_bytes(u128::MAX), vec![255u8; 16]);
    let pair = b"ab".to_vec();
    let mut key = b"\x00\x04tick\x00\x02ab\x01".to_vec();
    key.extend_from_slice(&970u128.to_be_bytes());
    assert_eq!(tick_key(&pair, OrderDirection::Sell, 970), key);
    let prices = [0u128, 1, 255, 256, 257, 950, 970, 1000, 65535, 65536, u128::MAX - 1, u128::MAX];
    for w in prices.windows(2) {
        assert!(tick_key(&pair, OrderDirection::Buy, w[0]) < tick_key(&pair, OrderDirection::Buy, w[1]));
    }
    // all buy levels come before all sell levels
    assert!(tick_key(&pair, OrderDirection::Buy, u128::MAX) < tick_key(&pair, OrderDirection::Sell, 0));
}

#[test]
fn bytes_are_appended() {
    let mut head = vec![1u8, 2];
    append_bytes(&mut head, &vec![3u8, 4, 5]);
    assert_eq!(head, vec![1, 2, 3, 4, 5]);
}
