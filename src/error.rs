use vstd::prelude::*;

verus! {

/// Failures reported by a storage implementation.
#[derive(Clone, Debug, PartialEq, Eq)]
pub enum RepoError {
    NotFound,
    AlreadyExists,
    TooManyFound,
    Other(String),
}

/// Rejected request parameters.
#[derive(Clone, Debug, PartialEq, Eq)]
pub enum ParameterError {
    Bbox,
    Forbidden,
    Unauthorized,
    InvalidLimit,
    ModeratedTag,
    EmptyComment,
    RatingValue,
    RatingContext(String),
}

#[derive(Clone, Debug, PartialEq, Eq)]
pub enum Error {
    Parameter(ParameterError),
    Repo(RepoError),
}

/// A failure reported by a search index implementation.
#[derive(Clone, Debug, PartialEq, Eq)]
pub struct IndexError {
    pub message: String,
}

} // verus!
