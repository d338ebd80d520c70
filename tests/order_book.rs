use orderbook::order_book::{Order, OrderBook, Side};

fn sample_book() -> OrderBook {
    let mut book = OrderBook::new();
    book.add_order(Side::Buy, 100, 5025);
    book.add_order(Side::Buy, 200, 4980);
    book.add_order(Side::Buy, 150, 5100);
    book.add_order(Side::Sell, 75, 5250);
    book.add_order(Side::Sell, 300, 5320);
    book.add_order(Side::Sell, 125, 5175);
    book
}

#[test]
fn scenario_two_orders() {
    let mut book = OrderBook::new();
    assert_eq!(book.add_order(Side::Buy, 100, 5025), 1);
    assert_eq!(book.add_order(Side::Sell, 75, 5250), 2);
    assert_eq!(book.total_orders(), 2);
    assert_eq!(
        book.find_by_id(1),
        Some(&Order { id: 1, side: Side::Buy, amount: 100, price: 5025 })
    );
    assert_eq!(book.total_value(Side::Buy), 502500);
    assert_eq!(book.find_by_id(99), None);
}

#[test]
fn ids_count_from_one_across_sides() {
    let mut book = OrderBook::new();
    let sides = [Side::Sell, Side::Buy, Side::Buy, Side::Sell, Side::Buy];
    for (k, side) in sides.iter().enumerate() {
        assert_eq!(book.add_order(*side, 1, 1), k as u64 + 1);
    }
    let buy_ids: Vec<u64> = book.orders_by_side(Side::Buy).iter().map(|o| o.id).collect();
    let sell_ids: Vec<u64> = book.orders_by_side(Side::Sell).iter().map(|o| o.id).collect();
    assert_eq!(buy_ids, vec![2, 3, 5]);
    assert_eq!(sell_ids, vec![1, 4]);
}

#[test]
fn sides_hold_only_their_own_orders() {
    let book = sample_book();
    assert!(book.orders_by_side(Side::Buy).iter().all(|o| o.side == Side::Buy));
    assert!(book.orders_by_side(Side::Sell).iter().all(|o| o.side == Side::Sell));
    let mut ids: Vec<u64> = book
        .orders_by_side(Side::Buy)
        .iter()
        .chain(book.orders_by_side(Side::Sell).iter())
        .map(|o| o.id)
        .collect();
    ids.sort();
    assert_eq!(ids, vec![1, 2, 3, 4, 5, 6]);
}

#[test]
fn orders_keep_insertion_order() {
    let book = sample_book();
    let sell = book.orders_by_side(Side::Sell);
    assert_eq!(sell[0], Order { id: 4, side: Side::Sell, amount: 75, price: 5250 });
    assert_eq!(sell[1], Order { id: 5, side: Side::Sell, amount: 300, price: 5320 });
    assert_eq!(sell[2], Order { id: 6, side: Side::Sell, amount: 125, price: 5175 });
}

#[test]
fn find_covers_both_sides_and_misses() {
    let book = sample_book();
    assert_eq!(
        book.find_by_id(3),
        Some(&Order { id: 3, side: Side::Buy, amount: 150, price: 5100 })
    );
    assert_eq!(
        book.find_by_id(6),
        Some(&Order { id: 6, side: Side::Sell, amount: 125, price: 5175 })
    );
    assert_eq!(book.find_by_id(0), None);
    assert_eq!(book.find_by_id(7), None);
    assert_eq!(book.find_by_id(u64::MAX), None);
}

#[test]
fn find_on_empty_book() {
    let book = OrderBook::new();
    assert_eq!(book.find_by_id(1), None);
}

#[test]
fn total_value_per_side() {
    let book = sample_book();
    assert_eq!(book.total_value(Side::Buy), 100 * 5025 + 200 * 4980 + 150 * 5100);
    assert_eq!(book.total_value(Side::Sell), 75 * 5250 + 300 * 5320 + 125 * 5175);
}

#[test]
fn total_value_of_empty_side_is_zero() {
    let mut book = OrderBook::new();
    assert_eq!(book.total_value(Side::Buy), 0);
    book.add_order(Side::Buy, 10, 10);
    assert_eq!(book.total_value(Side::Sell), 0);
    assert_eq!(book.total_value(Side::Buy), 100);
}

#[test]
fn total_value_accepts_negative_and_extreme_values() {
    let mut book = OrderBook::new();
    book.add_order(Side::Sell, -3, 7);
    book.add_order(Side::Sell, i32::MIN, i32::MIN);
    book.add_order(Side::Sell, i32::MAX, i32::MIN);
    let expected = -21i128
        + (i32::MIN as i128) * (i32::MIN as i128)
        + (i32::MAX as i128) * (i32::MIN as i128);
    assert_eq!(book.total_value(Side::Sell), expected);
}

#[test]
fn total_orders_is_sum_of_sides() {
    let mut book = OrderBook::new();
    assert_eq!(book.total_orders(), 0);
    book.add_order(Side::Sell, 1, 2);
    assert_eq!(book.total_orders(), 1);
    let book = sample_book();
    assert_eq!(
        book.total_orders(),
        (book.orders_by_side(Side::Buy).len() + book.orders_by_side(Side::Sell).len()) as u64
    );
    assert_eq!(book.total_orders(), 6);
}
