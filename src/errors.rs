//! Error kinds of the retrieval core, and the request-level errors they map to.
use vstd::prelude::*;
use vstd::string::StringExecFns;

verus! {

/// A failure of the retrieval core, by kind.
#[derive(Debug, Clone, Copy, PartialEq, Eq, Structural)]
pub enum RagError {
    /// An empty document or query, or a malformed batch.
    InvalidInput,
    /// An embedding whose length differs from the store's dimensionality.
    DimensionMismatch,
    /// An embedding with a NaN or infinite component.
    DegenerateVector,
    /// The embedding model failed for a whole batch.
    AdapterFailure,
    /// The persistent cache could not be read or written.
    PersistenceFailure,
    /// The similarity index refused an insertion or a search.
    IndexFailure,
}

impl RagError {
    /// A short description of the failure.
    pub fn message(&self) -> (r: &'static str)
        ensures
            r@ == self.spec_message(),
    {
        match self {
            RagError::InvalidInput => "invalid input",
            RagError::DimensionMismatch => "embedding dimensions mismatch",
            RagError::DegenerateVector => "embedding contains NaN or Inf values",
            RagError::AdapterFailure => "failed to generate embeddings",
            RagError::PersistenceFailure => "failed to read or write cached embeddings",
            RagError::IndexFailure => "similarity index failure",
        }
    }

    pub closed spec fn spec_message(&self) -> Seq<char> {
        match self {
            RagError::InvalidInput => "invalid input"@,
            RagError::DimensionMismatch => "embedding dimensions mismatch"@,
            RagError::DegenerateVector => "embedding contains NaN or Inf values"@,
            RagError::AdapterFailure => "failed to generate embeddings"@,
            RagError::PersistenceFailure => "failed to read or write cached embeddings"@,
            RagError::IndexFailure => "similarity index failure"@,
        }
    }
}

/// A request-level failure, as reported to a caller of the service.
#[derive(Debug)]
pub enum AppError {
    BadRequest(String),
    Unauthorized(String),
    Conflict(String),
    InternalServerError(String),
}

/// Whether a core failure is the caller's fault rather than the service's.
pub open spec fn is_client_error(e: RagError) -> bool {
    e == RagError::InvalidInput
}

impl AppError {
    /// The request-level error for a core failure: invalid input is a bad
    /// request, every other kind an internal error; the message is kept.
    pub fn from_rag(e: RagError) -> (r: AppError)
        ensures
            is_client_error(e) ==> (r matches AppError::BadRequest(m) && m@ == e.spec_message()),
            !is_client_error(e) ==> (r matches AppError::InternalServerError(m) && m@ == e.spec_message()),
    {
        let m = String::from_str(e.message());
        match e {
            RagError::InvalidInput => AppError::BadRequest(m),
            _ => AppError::InternalServerError(m),
        }
    }

    /// The message carried by the error.
    pub fn message(&self) -> (r: &String)
        ensures
            r == match self {
                AppError::BadRequest(m) => m,
                AppError::Unauthorized(m) => m,
                AppError::Conflict(m) => m,
                AppError::InternalServerError(m) => m,
            },
    {
        match self {
            AppError::BadRequest(m) => m,
            AppError::Unauthorized(m) => m,
            AppError::Conflict(m) => m,
            AppError::InternalServerError(m) => m,
        }
    }
}

} // verus!
