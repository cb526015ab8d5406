use vstd::prelude::*;

verus! {

/// The error type `anyhow::Error`, opaque here; errors carry it through.
#[verifier::external_type_specification]
#[verifier::external_body]
pub struct ExAnyhowError(anyhow::Error);

/// What can go wrong while syncing the help centre.
#[derive(Debug)]
pub enum SyncError {
    ApiClientError(anyhow::Error),
    CollectionFetchError(anyhow::Error),
    ArticleFetchError { collection_id: String, error: anyhow::Error },
    JobEnqueueError(anyhow::Error),
    JobPreparationError { collection_id: String, error: anyhow::Error },
    EmbeddingError(anyhow::Error),
    Other(anyhow::Error),
}

impl From<anyhow::Error> for SyncError {
    /// Any other error.
    fn from(err: anyhow::Error) -> (e: Self)
        ensures
            e == SyncError::Other(err),
    {
        SyncError::Other(err)
    }
}

impl vstd::std_specs::convert::FromSpecImpl<anyhow::Error> for SyncError {
    open spec fn obeys_from_spec() -> bool {
        true
    }

    open spec fn from_spec(err: anyhow::Error) -> SyncError {
        SyncError::Other(err)
    }
}

/// A failure while generating metadata.
#[derive(Debug)]
pub struct MetaDataError(pub anyhow::Error);

impl From<anyhow::Error> for MetaDataError {
    fn from(err: anyhow::Error) -> (e: Self)
        ensures
            e == MetaDataError(err),
    {
        MetaDataError(err)
    }
}

impl vstd::std_specs::convert::FromSpecImpl<anyhow::Error> for MetaDataError {
    open spec fn obeys_from_spec() -> bool {
        true
    }

    open spec fn from_spec(err: anyhow::Error) -> MetaDataError {
        MetaDataError(err)
    }
}

} // verus!
