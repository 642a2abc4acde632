use bookstore::order::{OrderError, OrderItemDto};
use bookstore::store::Store;

const A: u128 = 0x67e5_5044_10b1_426f_9247_bb68_0e5f_e0c8;
const B: u128 = 0x1111_2222_3333_4444_8555_6666_7777_8888;
const GONE: u128 = 0x2222_0000_0000_4000_8000_0000_0000_0002;

fn line(book_id: u128, amount: i32) -> OrderItemDto {
    OrderItemDto { book_id, amount }
}

fn shop() -> Store {
    let mut s = Store::new();
    assert!(s.add_book(A, 1200, 3));
    assert!(s.add_book(B, 500, 10));
    s
}

fn stock_of(s: &Store, id: u128) -> i32 {
    s.books[s.position(id).unwrap()].stock_quantity
}

#[test]
fn failed_order_leaves_no_trace() {
    let mut s = shop();
    let r = s.place_order(&vec![line(B, 2), line(A, 4)], 1, 100);
    assert_eq!(r, Err(OrderError::InsufficientStock(A)));
    assert_eq!(stock_of(&s, A), 3);
    assert_eq!(stock_of(&s, B), 10);
    assert!(s.orders.is_empty());
}

#[test]
fn valid_and_unknown_line_fails_entirely() {
    let mut s = shop();
    let r = s.place_order(&vec![line(A, 1), line(GONE, 1)], 1, 100);
    assert_eq!(r, Err(OrderError::NotFound(GONE)));
    assert_eq!(stock_of(&s, A), 3);
    assert!(s.orders.is_empty());
}

#[test]
fn archived_book_is_not_orderable() {
    let mut s = shop();
    assert_eq!(s.archive(A), 1);
    assert_eq!(s.place_order(&vec![line(A, 1)], 1, 100), Err(OrderError::NotFound(A)));
    assert_eq!(stock_of(&s, A), 3);
    assert_eq!(s.archive(GONE), 0);
}

#[test]
fn successive_unit_orders_never_oversell() {
    let mut s = shop();
    let mut ok = 0;
    let mut short = 0;
    for i in 0..7u128 {
        match s.place_order(&vec![line(A, 1)], i, i as i64) {
            Ok(id) => {
                assert_eq!(id, i);
                ok += 1;
            }
            Err(e) => {
                assert_eq!(e, OrderError::InsufficientStock(A));
                short += 1;
            }
        }
    }
    assert_eq!(ok, 3);
    assert_eq!(short, 4);
    assert_eq!(stock_of(&s, A), 0);
    assert_eq!(s.orders.len(), 3);
}

#[test]
fn unit_orders_over_several_books_never_oversell() {
    let mut s = Store::new();
    assert!(s.add_book(A, 100, 2));
    assert!(s.add_book(B, 200, 2));
    let mut outcomes = Vec::new();
    for i in 0..5u128 {
        outcomes.push(s.place_order(&vec![line(A, 1), line(B, 1)], i, i as i64));
    }
    assert_eq!(outcomes[0], Ok(0));
    assert_eq!(outcomes[1], Ok(1));
    for r in &outcomes[2..] {
        assert_eq!(*r, Err(OrderError::InsufficientStock(A)));
    }
    assert_eq!(stock_of(&s, A), 0);
    assert_eq!(stock_of(&s, B), 0);
    assert_eq!(s.orders.len(), 2);
    assert_eq!(s.orders[1].total_price, 300);
}

#[test]
fn catalog_price_change_keeps_recorded_prices() {
    let mut s = shop();
    s.place_order(&vec![line(A, 2), line(B, 1)], 7, 100).unwrap();
    assert_eq!(s.set_price(A, 9999), 1);
    let o = &s.orders[0];
    assert_eq!(o.total_price, 2 * 1200 + 500);
    assert_eq!(o.items[0].price, 1200);
    assert_eq!(s.books[s.position(A).unwrap()].price, 9999);
    assert_eq!(s.set_price(GONE, 1), 0);
}

#[test]
fn total_is_sum_of_amount_times_price() {
    let mut s = shop();
    s.place_order(&vec![line(B, 4), line(A, 3)], 9, 100).unwrap();
    let o = &s.orders[0];
    let sum: i32 = o.items.iter().map(|i| i.amount * i.price).sum();
    assert_eq!(o.total_price, sum);
    assert_eq!(o.total_price, 4 * 500 + 3 * 1200);
}

#[test]
fn exact_remaining_stock_then_one_more() {
    let mut s = shop();
    assert_eq!(s.place_order(&vec![line(B, 10)], 1, 100), Ok(1));
    assert_eq!(stock_of(&s, B), 0);
    let mut t = shop();
    assert_eq!(t.place_order(&vec![line(B, 11)], 2, 100), Err(OrderError::InsufficientStock(B)));
    assert_eq!(stock_of(&t, B), 10);
}

#[test]
fn listing_is_newest_first_and_stable() {
    let mut s = shop();
    for i in 1..=4u128 {
        s.place_order(&vec![line(B, 1)], i, i as i64).unwrap();
    }
    let first = s.list_orders(1, 2);
    let second = s.list_orders(1, 2);
    let ids: Vec<u128> = first.iter().map(|o| o.id).collect();
    assert_eq!(ids, vec![3, 2]);
    assert!(first[0].created_at >= first[1].created_at);
    assert_eq!(ids, second.iter().map(|o| o.id).collect::<Vec<u128>>());
    assert_eq!(s.list_orders(0, 100).len(), 4);
    assert!(s.list_orders(10, 5).is_empty());
    assert!(s.list_orders(0, -1).is_empty());
    assert_eq!(s.list_orders(-3, 1)[0].id, 4);
}

#[test]
fn fresh_order_ids_are_version_four() {
    let mut s = shop();
    let id = s.place_new_order(&vec![line(A, 1)], 5).unwrap();
    assert_eq!((id >> 76) & 0xf, 4);
    assert_eq!(s.orders[0].id, id);
}

#[test]
fn snapshot_skips_archived_and_unrequested() {
    let mut s = shop();
    s.archive(B);
    let snap = s.stock_snapshot(&vec![A, B, GONE]);
    assert_eq!(snap.len(), 1);
    assert_eq!(snap[0].id, A);
    assert_eq!(snap[0].price, 1200);
}

#[test]
fn decrement_is_conditional() {
    let mut s = shop();
    assert_eq!(s.decrement_stock(A, 4), 0);
    assert_eq!(s.decrement_stock(A, 3), 1);
    assert_eq!(stock_of(&s, A), 0);
    assert_eq!(s.decrement_stock(GONE, 1), 0);
}

#[test]
fn recorded_order_id_is_refused() {
    let mut s = shop();
    assert_eq!(s.place_order(&vec![line(A, 1)], 100, 1), Ok(100));
    assert_eq!(s.place_order(&vec![line(A, 1)], 100, 2), Err(OrderError::DuplicateOrderId(100)));
    assert_eq!(stock_of(&s, A), 2);
    assert_eq!(s.orders.len(), 1);
}

#[test]
fn order_dated_before_ledger_is_refused() {
    let mut s = shop();
    assert_eq!(s.place_order(&vec![line(A, 1)], 1, 10), Ok(1));
    assert_eq!(s.place_order(&vec![line(A, 1)], 2, 5), Err(OrderError::EarlierThanLedger));
    assert_eq!(s.place_order(&vec![line(A, 1)], 3, 10), Ok(3));
    let times: Vec<i64> = s.list_orders(0, 10).iter().map(|o| o.created_at).collect();
    assert_eq!(times, vec![10, 10]);
    assert_eq!(stock_of(&s, A), 1);
}

#[test]
fn empty_order_changes_nothing() {
    let mut s = shop();
    assert_eq!(s.place_order(&vec![], 1, 100), Err(OrderError::EmptyOrder));
    assert!(s.orders.is_empty());
}

#[test]
fn duplicate_or_negative_books_are_refused() {
    let mut s = shop();
    assert!(!s.add_book(A, 1, 1));
    assert!(!s.add_book(GONE, 1, -1));
    assert_eq!(s.books.len(), 2);
}
