use vstd::prelude::*;
use crate::ids::{id_text, uuid_text};
use crate::order::OrderError;

verus! {

/// Every failure the service reports to its clients.
#[derive(Debug, PartialEq, Eq)]
pub enum AppError {
    /// A persistence failure; the store's own text is kept for logs only.
    Database(String),
    /// The entity with this identifier is unknown (or withdrawn from sale).
    NotFound(String),
    /// The request cannot be served as it stands.
    BadRequest(String),
    /// The store aborted the transaction because of a concurrent update; the
    /// request may be retried.
    Conflict,
    InvalidToken,
    WrongCredentials,
    TokenCreation,
    MissingCredentials,
    Forbidden(String),
}

/// The body of an error response.
#[derive(Debug, PartialEq, Eq)]
pub struct ErrorBody {
    pub error: String,
}

/// The HTTP status of each error.
pub open spec fn status_of(e: AppError) -> u16 {
    match e {
        AppError::Database(_) => 500,
        AppError::NotFound(_) => 404,
        AppError::BadRequest(_) => 400,
        AppError::Conflict => 409,
        AppError::InvalidToken => 400,
        AppError::WrongCredentials => 401,
        AppError::TokenCreation => 500,
        AppError::MissingCredentials => 400,
        AppError::Forbidden(_) => 403,
    }
}

/// The message shown to clients. A persistence failure shows a generic
/// message, never the store's own text.
pub open spec fn message_of(e: AppError) -> Seq<char> {
    match e {
        AppError::Database(_) => "Database error"@,
        AppError::NotFound(id) => "Entity with id="@ + id@ + " not found"@,
        AppError::BadRequest(msg) => "Bad request: "@ + msg@,
        AppError::Conflict => "Conflicting update, please retry"@,
        AppError::InvalidToken => "Invalid token"@,
        AppError::WrongCredentials => "Wrong credentials"@,
        AppError::TokenCreation => "Token creation error"@,
        AppError::MissingCredentials => "Missing credentials"@,
        AppError::Forbidden(msg) => msg@,
    }
}

/// The SQLSTATE codes with which the store aborts a transaction that lost a
/// race: a serialization failure and a detected deadlock.
pub open spec fn is_conflict_code(code: Seq<char>) -> bool {
    code == "40001"@ || code == "40P01"@
}

/// How a refused order is reported.
pub open spec fn order_error_text(e: OrderError) -> AppErrorText {
    match e {
        OrderError::NotFound(id) => AppErrorText::NotFound(uuid_text(id)),
        OrderError::InvalidAmount(id) => AppErrorText::BadRequest(
            "Amount must be positive for book "@ + uuid_text(id),
        ),
        OrderError::InsufficientStock(id) => AppErrorText::BadRequest(
            "Not enough stock for book "@ + uuid_text(id),
        ),
        OrderError::TotalOutOfRange => AppErrorText::BadRequest("Order total out of range"@),
        OrderError::EmptyOrder => AppErrorText::BadRequest("Order has no items"@),
        OrderError::DuplicateOrderId(_) => AppErrorText::Conflict,
        OrderError::EarlierThanLedger => AppErrorText::Conflict,
    }
}

/// The variants of an error that order placement produces, with their text
/// as a sequence.
pub enum AppErrorText {
    NotFound(Seq<char>),
    BadRequest(Seq<char>),
    Conflict,
}

/// The text view of an error, where it is one of the variants that order
/// placement produces.
pub open spec fn error_text(e: AppError) -> Option<AppErrorText> {
    match e {
        AppError::NotFound(s) => Some(AppErrorText::NotFound(s@)),
        AppError::BadRequest(s) => Some(AppErrorText::BadRequest(s@)),
        AppError::Conflict => Some(AppErrorText::Conflict),
        _ => None,
    }
}

impl AppError {
    /// The HTTP status code of the error.
    pub fn status_code(&self) -> (r: u16)
        ensures
            r == status_of(*self),
    {
        match self {
            AppError::Database(_) => 500,
            AppError::NotFound(_) => 404,
            AppError::BadRequest(_) => 400,
            AppError::Conflict => 409,
            AppError::InvalidToken => 400,
            AppError::WrongCredentials => 401,
            AppError::TokenCreation => 500,
            AppError::MissingCredentials => 400,
            AppError::Forbidden(_) => 403,
        }
    }

    /// The message shown to clients.
    pub fn message(&self) -> (r: String)
        ensures
            r@ == message_of(*self),
    {
        match self {
            AppError::Database(_) => String::from_str("Database error"),
            AppError::NotFound(id) => {
                let mut s = String::from_str("Entity with id=");
                s.append(id.as_str());
                s.append(" not found");
                s
            },
            AppError::BadRequest(msg) => {
                let mut s = String::from_str("Bad request: ");
                s.append(msg.as_str());
                s
            },
            AppError::Conflict => String::from_str("Conflicting update, please retry"),
            AppError::InvalidToken => String::from_str("Invalid token"),
            AppError::WrongCredentials => String::from_str("Wrong credentials"),
            AppError::TokenCreation => String::from_str("Token creation error"),
            AppError::MissingCredentials => String::from_str("Missing credentials"),
            AppError::Forbidden(msg) => msg.clone(),
        }
    }

    /// The body sent to the client with the error's status.
    pub fn body(&self) -> (r: ErrorBody)
        ensures
            r.error@ == message_of(*self),
    {
        ErrorBody { error: self.message() }
    }

    /// Classifies a store failure by its SQLSTATE code: a lost race becomes
    /// `Conflict`, anything else a generic persistence failure.
    pub fn from_store_failure(code: Option<String>, detail: String) -> (r: AppError)
        ensures
            match code {
                Some(c) => if is_conflict_code(c@) {
                    r == AppError::Conflict
                } else {
                    r == AppError::Database(detail)
                },
                None => r == AppError::Database(detail),
            },
    {
        match code {
            Some(c) => {
                let serialization = String::from_str("40001");
                let deadlock = String::from_str("40P01");
                if c == serialization || c == deadlock {
                    AppError::Conflict
                } else {
                    AppError::Database(detail)
                }
            },
            None => AppError::Database(detail),
        }
    }

    /// How a refused order is reported: an unknown book as `NotFound`, a
    /// ledger that cannot take the order as it stands as `Conflict` (a retry
    /// draws a new identifier and time), any other refusal as `BadRequest`.
    pub fn from_order_error(e: OrderError) -> (r: AppError)
        ensures
            error_text(r) == Some(order_error_text(e)),
    {
        match e {
            OrderError::NotFound(id) => AppError::NotFound(id_text(id)),
            OrderError::InvalidAmount(id) => {
                let mut s = String::from_str("Amount must be positive for book ");
                let t = id_text(id);
                s.append(t.as_str());
                AppError::BadRequest(s)
            },
            OrderError::InsufficientStock(id) => {
                let mut s = String::from_str("Not enough stock for book ");
                let t = id_text(id);
                s.append(t.as_str());
                AppError::BadRequest(s)
            },
            OrderError::TotalOutOfRange => AppError::BadRequest(
                String::from_str("Order total out of range"),
            ),
            OrderError::EmptyOrder => AppError::BadRequest(String::from_str("Order has no items")),
            OrderError::DuplicateOrderId(_) => AppError::Conflict,
            OrderError::EarlierThanLedger => AppError::Conflict,
        }
    }
}

} // verus!
