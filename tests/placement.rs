use bookstore::order::{order_total, plan_order, validate_stock, BookStock, OrderError, OrderItemDto};

const A: u128 = 0x67e5_5044_10b1_426f_9247_bb68_0e5f_e0c8;
const B: u128 = 0x1111_2222_3333_4444_8555_6666_7777_8888;
const UNKNOWN: u128 = 0x9999_0000_0000_4000_8000_0000_0000_0001;

fn snapshot() -> Vec<BookStock> {
    vec![
        BookStock { id: A, stock_quantity: 5, price: 1200 },
        BookStock { id: B, stock_quantity: 1, price: 350 },
    ]
}

fn line(book_id: u128, amount: i32) -> OrderItemDto {
    OrderItemDto { book_id, amount }
}

#[test]
fn plan_freezes_prices_and_total() {
    let plan = plan_order(&snapshot(), &vec![line(A, 2), line(B, 1)]).unwrap();
    assert_eq!(plan.total_price, 2 * 1200 + 350);
    assert_eq!(plan.items.len(), 2);
    assert_eq!(plan.items[0].price, 1200);
    assert_eq!(plan.items[0].amount, 2);
    assert_eq!(plan.items[1].book_id, B);
    assert_eq!(plan.items[1].price, 350);
}

#[test]
fn unknown_book_fails_whole_order() {
    let r = plan_order(&snapshot(), &vec![line(A, 1), line(UNKNOWN, 1)]);
    assert_eq!(r.unwrap_err(), OrderError::NotFound(UNKNOWN));
}

#[test]
fn more_than_stock_is_refused() {
    let r = validate_stock(&snapshot(), &vec![line(A, 6)]);
    assert_eq!(r, Err(OrderError::InsufficientStock(A)));
}

#[test]
fn exact_stock_is_accepted() {
    assert_eq!(validate_stock(&snapshot(), &vec![line(A, 5)]), Ok(()));
}

#[test]
fn repeated_lines_count_together() {
    let r = validate_stock(&snapshot(), &vec![line(A, 3), line(A, 3)]);
    assert_eq!(r, Err(OrderError::InsufficientStock(A)));
    assert_eq!(validate_stock(&snapshot(), &vec![line(A, 3), line(A, 2)]), Ok(()));
}

#[test]
fn zero_or_negative_amount_is_refused() {
    assert_eq!(validate_stock(&snapshot(), &vec![line(A, 0)]), Err(OrderError::InvalidAmount(A)));
    assert_eq!(validate_stock(&snapshot(), &vec![line(B, -1)]), Err(OrderError::InvalidAmount(B)));
}

#[test]
fn first_faulty_line_is_reported() {
    let r = validate_stock(&snapshot(), &vec![line(B, 2), line(UNKNOWN, 1)]);
    assert_eq!(r, Err(OrderError::InsufficientStock(B)));
}

#[test]
fn total_out_of_range_is_refused() {
    let books = vec![BookStock { id: A, stock_quantity: i32::MAX, price: i32::MAX }];
    let r = plan_order(&books, &vec![line(A, 2)]);
    assert_eq!(r.unwrap_err(), OrderError::TotalOutOfRange);
    assert_eq!(order_total(&books, &vec![line(A, 2)]), 2 * (i32::MAX as i128));
}

#[test]
fn empty_request_is_refused() {
    assert_eq!(plan_order(&snapshot(), &vec![]).unwrap_err(), OrderError::EmptyOrder);
    assert_eq!(validate_stock(&snapshot(), &vec![]), Ok(()));
}
