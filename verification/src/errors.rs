//! The closed error taxonomy of the service core.
//!
//! Store-level failures are `QueryError`; they are translated exactly once,
//! at the store-access boundary, into the caller-facing `ApiError`.

use vstd::prelude::*;

verus! {

/// Error of one store operation.
#[derive(Debug)]
pub enum QueryError {
    /// No row matched the predicate of a get, delete or update.
    NotFound,
    /// Any other store failure, carried as text.
    Other(String),
    /// An impossible outcome, such as a primary-key predicate touching
    /// more than one row.
    Unexpected(String),
}

/// Caller-facing error of one request.
#[derive(Debug)]
pub enum ApiError {
    /// The addressed resource does not exist.
    NotFound,
    /// The request itself is malformed; the payload names the offending field.
    InvalidArgument(String),
    /// An internal failure, reported opaquely.
    Internal(String),
}

impl QueryError {
    /// Classifies the affected-row count of an update or delete whose
    /// predicate is a primary key: zero rows is `NotFound`, one row is
    /// success, and more than one row is an internal correctness guard.
    pub fn ensure_single_affected(rows_affected: u64) -> (r: Result<(), QueryError>)
        ensures
            rows_affected == 0 ==> r == Err::<(), QueryError>(QueryError::NotFound),
            rows_affected == 1 ==> r == Ok::<(), QueryError>(()),
            rows_affected > 1 ==> (r matches Err(e) && e is Unexpected),
    {
        if rows_affected == 0 {
            Err(QueryError::NotFound)
        } else if rows_affected == 1 {
            Ok(())
        } else {
            Err(QueryError::Unexpected("unexpected number of rows affected".to_owned()))
        }
    }
}

impl ApiError {
    /// Translates a store error: `NotFound` passes through verbatim and
    /// everything else is reported as `Internal`.
    pub fn from_query(e: QueryError) -> (r: ApiError)
        ensures
            e is NotFound <==> r is NotFound,
            !(e is NotFound) ==> r is Internal,
    {
        match e {
            QueryError::NotFound => ApiError::NotFound,
            QueryError::Other(msg) => ApiError::Internal(msg),
            QueryError::Unexpected(msg) => ApiError::Internal(msg),
        }
    }

    /// Builds the rejection for a malformed request field.
    pub fn invalid(field: &str) -> (r: ApiError)
        ensures
            r matches ApiError::InvalidArgument(msg) && msg@ == field@,
    {
        ApiError::InvalidArgument(field.to_owned())
    }

    /// The caller-facing text: `NotFound` and `InvalidArgument` travel
    /// verbatim, while an internal failure is reported opaquely and its
    /// detail stays on the server side.
    pub fn status_message(&self) -> (r: String)
        ensures
            self is NotFound ==> r@ == "could not find specified resource"@,
            self matches ApiError::InvalidArgument(m) ==> r@ == m@,
            self is Internal ==> r@ == "internal error"@,
    {
        match self {
            ApiError::NotFound => "could not find specified resource".to_owned(),
            ApiError::InvalidArgument(m) => m.clone(),
            ApiError::Internal(_) => "internal error".to_owned(),
        }
    }
}

} // verus!
