use bookstore::access::{require_admin, require_credentials, require_updated, require_valid_password, Claims, Role};
use bookstore::error::AppError;
use bookstore::order::OrderError;
use bookstore::passwords::verdict_to_result;

const A: u128 = 0x67e5_5044_10b1_426f_9247_bb68_0e5f_e0c8;

#[test]
fn order_errors_name_the_book() {
    let e = AppError::from_order_error(OrderError::NotFound(A));
    assert_eq!(e, AppError::NotFound("67e55044-10b1-426f-9247-bb680e5fe0c8".to_string()));
    assert_eq!(e.status_code(), 404);
    assert_eq!(e.message(), "Entity with id=67e55044-10b1-426f-9247-bb680e5fe0c8 not found");
    let e = AppError::from_order_error(OrderError::InsufficientStock(A));
    assert_eq!(e.status_code(), 400);
    assert_eq!(e.message(), "Bad request: Not enough stock for book 67e55044-10b1-426f-9247-bb680e5fe0c8");
    let e = AppError::from_order_error(OrderError::InvalidAmount(A));
    assert_eq!(e, AppError::BadRequest("Amount must be positive for book 67e55044-10b1-426f-9247-bb680e5fe0c8".to_string()));
    let e = AppError::from_order_error(OrderError::TotalOutOfRange);
    assert_eq!(e, AppError::BadRequest("Order total out of range".to_string()));
    assert_eq!(AppError::from_order_error(OrderError::DuplicateOrderId(A)), AppError::Conflict);
    assert_eq!(AppError::from_order_error(OrderError::EarlierThanLedger), AppError::Conflict);
    let e = AppError::from_order_error(OrderError::EmptyOrder);
    assert_eq!(e, AppError::BadRequest("Order has no items".to_string()));
}

#[test]
fn statuses_and_messages() {
    let db = AppError::Database("relation \"books\" does not exist".to_string());
    assert_eq!(db.status_code(), 500);
    assert_eq!(db.message(), "Database error");
    assert_eq!(AppError::Conflict.status_code(), 409);
    assert_eq!(AppError::WrongCredentials.status_code(), 401);
    assert_eq!(AppError::WrongCredentials.message(), "Wrong credentials");
    assert_eq!(AppError::MissingCredentials.status_code(), 400);
    assert_eq!(AppError::TokenCreation.status_code(), 500);
    assert_eq!(AppError::InvalidToken.message(), "Invalid token");
    assert_eq!(AppError::Forbidden("no".to_string()).status_code(), 403);
    assert_eq!(AppError::Forbidden("no".to_string()).message(), "no");
}

#[test]
fn store_failures_are_classified() {
    assert_eq!(AppError::from_store_failure(Some("40001".to_string()), "x".to_string()), AppError::Conflict);
    assert_eq!(AppError::from_store_failure(Some("40P01".to_string()), "x".to_string()), AppError::Conflict);
    assert_eq!(
        AppError::from_store_failure(Some("23505".to_string()), "dup".to_string()),
        AppError::Database("dup".to_string())
    );
    assert_eq!(AppError::from_store_failure(None, "io".to_string()), AppError::Database("io".to_string()));
}

#[test]
fn guards() {
    assert_eq!(require_admin(Role::Admin), Ok(()));
    assert_eq!(require_admin(Role::User), Err(AppError::Forbidden("Admin role required".to_string())));
    assert_eq!(require_credentials("a@b.c", "pw"), Ok(()));
    assert_eq!(require_credentials("", "pw"), Err(AppError::MissingCredentials));
    assert_eq!(require_credentials("a@b.c", ""), Err(AppError::MissingCredentials));
    assert_eq!(require_valid_password(false), Err(AppError::WrongCredentials));
    assert_eq!(require_updated(1, A), Ok(()));
    assert_eq!(require_updated(0, A), Err(AppError::NotFound("67e55044-10b1-426f-9247-bb680e5fe0c8".to_string())));
}

#[test]
fn roles_and_claims() {
    assert_eq!(Role::Admin.name(), "admin");
    assert_eq!(Role::from_name(&"user".to_string()), Some(Role::User));
    assert_eq!(Role::from_name(&"root".to_string()), None);
    let c = Claims::expiring(A, Role::User, 1_700_000_000, 3600).unwrap();
    assert_eq!(c.exp, 1_700_003_600);
    assert_eq!(Claims::expiring(A, Role::User, 10, -20), None);
    let c = Claims::new(A, Role::Admin, 60).unwrap();
    assert_eq!(c.sub, A);
    assert!(c.exp > 1_700_000_000);
}

#[test]
fn password_round_trip() {
    let h = bookstore::passwords::hash("hunter2").unwrap();
    assert_eq!(bookstore::passwords::verify("hunter2", &h), Ok(true));
    assert_eq!(bookstore::passwords::verify("hunter3", &h), Ok(false));
    assert_eq!(bookstore::passwords::verify("hunter2", "not a hash"), Err(AppError::WrongCredentials));
    assert_eq!(verdict_to_result(None), Err(AppError::WrongCredentials));
    assert_eq!(verdict_to_result(Some(true)), Ok(true));
}

#[test]
fn error_body_carries_the_message() {
    let b = AppError::Conflict.body();
    assert_eq!(b.error, "Conflicting update, please retry");
    let b = AppError::BadRequest("empty order".to_string()).body();
    assert_eq!(b.error, "Bad request: empty order");
}
