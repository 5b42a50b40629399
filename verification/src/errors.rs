//! Why a request is refused, and how that is answered.
use vstd::prelude::*;

verus! {

broadcast use vstd::string::to_string_from_display_ensures_for_str;

/// Why a request was refused.
#[derive(Clone, Debug, PartialEq, Eq)]
pub enum AppError {
    ProductNotFound,
    InsufficientStock,
    BidPriceTooLow,
    InvalidBidIncrement,
    LockExpired,
    BidNotFound,
    InvalidRequest(String),
    DatabaseError(String),
    InternalError,
}

pub type AppResult<T> = Result<T, AppError>;

impl AppError {
    /// The text that describes the error.
    pub open spec fn spec_message(self) -> Seq<char> {
        match self {
            AppError::ProductNotFound => "Product not found"@,
            AppError::InsufficientStock => "Insufficient stock"@,
            AppError::BidPriceTooLow => "Bid price too low"@,
            AppError::InvalidBidIncrement => "Invalid bid increment"@,
            AppError::LockExpired => "Lock expired"@,
            AppError::BidNotFound => "Bid not found"@,
            AppError::InvalidRequest(m) => "Invalid request: "@ + m@,
            AppError::DatabaseError(m) => "Database error: "@ + m@,
            AppError::InternalError => "Internal server error"@,
        }
    }

    /// The HTTP status with which the error is answered.
    pub open spec fn spec_status_code(self) -> u16 {
        match self {
            AppError::ProductNotFound => 404,
            AppError::InsufficientStock => 400,
            AppError::BidPriceTooLow => 400,
            AppError::InvalidBidIncrement => 400,
            AppError::LockExpired => 410,
            AppError::BidNotFound => 404,
            AppError::InvalidRequest(_) => 400,
            AppError::DatabaseError(_) => 500,
            AppError::InternalError => 500,
        }
    }

    /// The message put in the answer: a refused request is told its own
    /// message, and a database failure is not disclosed.
    pub open spec fn spec_response_message(self) -> Seq<char> {
        match self {
            AppError::InvalidRequest(m) => m@,
            AppError::DatabaseError(_) => "Internal server error"@,
            _ => self.spec_message(),
        }
    }

    pub fn message(&self) -> (r: String)
        ensures
            r@ == self.spec_message(),
    {
        match self {
            AppError::ProductNotFound => "Product not found".to_string(),
            AppError::InsufficientStock => "Insufficient stock".to_string(),
            AppError::BidPriceTooLow => "Bid price too low".to_string(),
            AppError::InvalidBidIncrement => "Invalid bid increment".to_string(),
            AppError::LockExpired => "Lock expired".to_string(),
            AppError::BidNotFound => "Bid not found".to_string(),
            AppError::InvalidRequest(m) => {
                let mut s = "Invalid request: ".to_string();
                s.append(m.as_str());
                s
            },
            AppError::DatabaseError(m) => {
                let mut s = "Database error: ".to_string();
                s.append(m.as_str());
                s
            },
            AppError::InternalError => "Internal server error".to_string(),
        }
    }

    pub fn status_code(&self) -> (r: u16)
        ensures
            r == self.spec_status_code(),
    {
        match self {
            AppError::ProductNotFound => 404,
            AppError::InsufficientStock => 400,
            AppError::BidPriceTooLow => 400,
            AppError::InvalidBidIncrement => 400,
            AppError::LockExpired => 410,
            AppError::BidNotFound => 404,
            AppError::InvalidRequest(_) => 400,
            AppError::DatabaseError(_) => 500,
            AppError::InternalError => 500,
        }
    }

    /// The status and message with which the error is answered.
    pub fn into_response(&self) -> (r: (u16, String))
        ensures
            r.0 == self.spec_status_code(),
            r.1@ == self.spec_response_message(),
    {
        let message = match self {
            AppError::InvalidRequest(m) => m.clone(),
            AppError::DatabaseError(_) => "Internal server error".to_string(),
            _ => self.message(),
        };
        (self.status_code(), message)
    }
}

} // verus!
