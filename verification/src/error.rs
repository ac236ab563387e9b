use vstd::prelude::*;

verus! {

/// A failure of the backing store. The in-memory store fails only when its
/// supply of fresh identifiers is exhausted; a remote store adds its own
/// failure modes behind the same kind. Its details are for the server log
/// and are never echoed to a client.
#[derive(Debug)]
pub struct StoreError {
    pub detail: String,
}

/// The closed error taxonomy of the library. Each kind maps to exactly one
/// HTTP status and one machine-readable code string.
#[derive(Debug)]
pub enum AppError {
    NotFound,
    ValidationError(String),
    InvalidId,
    DatabaseError(StoreError),
}

/// The HTTP status owed to each error kind.
pub open spec fn status_code_spec(e: AppError) -> int {
    match e {
        AppError::NotFound => 404,
        AppError::ValidationError(_) => 400,
        AppError::InvalidId => 400,
        AppError::DatabaseError(_) => 500,
    }
}

/// The machine-readable code string owed to each error kind.
pub open spec fn error_code_spec(e: AppError) -> Seq<char> {
    match e {
        AppError::NotFound => "NOT_FOUND"@,
        AppError::ValidationError(_) => "VALIDATION_ERROR"@,
        AppError::InvalidId => "INVALID_ID"@,
        AppError::DatabaseError(_) => "DATABASE_ERROR"@,
    }
}

/// The human-readable message of each error kind. A store failure renders a
/// fixed message: its detail never reaches the client.
pub open spec fn error_message_spec(e: AppError) -> Seq<char> {
    match e {
        AppError::NotFound => "Resource not found"@,
        AppError::ValidationError(m) => "Invalid input: "@ + m@,
        AppError::InvalidId => "Invalid ID format"@,
        AppError::DatabaseError(_) => "Database error"@,
    }
}

impl AppError {
    /// The HTTP status for this error: 404 for a missing record, 400 for bad
    /// input, 500 for a store failure.
    pub fn status_code(&self) -> (r: u16)
        ensures
            r as int == status_code_spec(*self),
    {
        match self {
            AppError::NotFound => 404,
            AppError::ValidationError(_) => 400,
            AppError::InvalidId => 400,
            AppError::DatabaseError(_) => 500,
        }
    }

    /// The stable code string of the error body.
    pub fn error_code(&self) -> (r: &'static str)
        ensures
            r@ == error_code_spec(*self),
    {
        match self {
            AppError::NotFound => "NOT_FOUND",
            AppError::ValidationError(_) => "VALIDATION_ERROR",
            AppError::InvalidId => "INVALID_ID",
            AppError::DatabaseError(_) => "DATABASE_ERROR",
        }
    }

    /// The message string of the error body.
    pub fn error_message(&self) -> (r: String)
        ensures
            r@ == error_message_spec(*self),
    {
        match self {
            AppError::NotFound => String::from_str("Resource not found"),
            AppError::ValidationError(m) => {
                let mut s = String::from_str("Invalid input: ");
                s.append(m.as_str());
                s
            },
            AppError::InvalidId => String::from_str("Invalid ID format"),
            AppError::DatabaseError(_) => String::from_str("Database error"),
        }
    }
}

} // verus!
