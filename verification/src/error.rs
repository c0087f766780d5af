//! The ways in which an operation on the filesystem can fail.
use vstd::prelude::*;

verus! {

/// Why an operation failed.
#[derive(Debug)]
pub enum FsError {
    /// The engine failed to read or write a bucket.
    StoreDynamicObjectFailed(sled::Error),
    /// The engine failed to commit a transaction over several buckets.
    SledTransactionError(sled::transaction::TransactionError<sled::Error>),
    /// The inode bucket or the directory bucket holds, for this inode, bytes
    /// that are not the text of a record.
    CorruptRecord(u64),
    /// The path index holds, for this path, a value that is not an inode key.
    CorruptIndex(String),
    /// The path index holds nothing for this path.
    PathNotFound(String),
    /// The inode bucket holds nothing for this inode.
    InodeAttrNotFound(u64),
    /// The directory bucket holds nothing for this inode.
    DentryAttrNotFound(u64),
    /// The directory of the first name has no entry of the second name.
    ChildEntryNotFound(String, String),
    /// An object that belongs to no namespace arrived while the directory of
    /// its cluster was not mounted; the path is that of the directory of its
    /// kind.
    MockParentDirError(String),
    /// The data bucket holds nothing for this inode.
    ClusterObjectDataNotFound(u64),
}

/// An error as a mathematical value: its kind and what it names.
pub enum FsErrorView {
    StoreDynamicObjectFailed,
    SledTransactionError,
    CorruptRecord(u64),
    CorruptIndex(Seq<char>),
    PathNotFound(Seq<char>),
    InodeAttrNotFound(u64),
    DentryAttrNotFound(u64),
    ChildEntryNotFound(Seq<char>, Seq<char>),
    MockParentDirError(Seq<char>),
    ClusterObjectDataNotFound(u64),
}

impl View for FsError {
    type V = FsErrorView;

    open spec fn view(&self) -> FsErrorView {
        match self {
            FsError::StoreDynamicObjectFailed(_) => FsErrorView::StoreDynamicObjectFailed,
            FsError::SledTransactionError(_) => FsErrorView::SledTransactionError,
            FsError::CorruptRecord(inode) => FsErrorView::CorruptRecord(*inode),
            FsError::CorruptIndex(path) => FsErrorView::CorruptIndex(path@),
            FsError::PathNotFound(path) => FsErrorView::PathNotFound(path@),
            FsError::InodeAttrNotFound(inode) => FsErrorView::InodeAttrNotFound(*inode),
            FsError::DentryAttrNotFound(inode) => FsErrorView::DentryAttrNotFound(*inode),
            FsError::ChildEntryNotFound(parent, child) => FsErrorView::ChildEntryNotFound(
                parent@,
                child@,
            ),
            FsError::MockParentDirError(path) => FsErrorView::MockParentDirError(path@),
            FsError::ClusterObjectDataNotFound(inode) => FsErrorView::ClusterObjectDataNotFound(
                *inode,
            ),
        }
    }
}

impl FsErrorView {
    /// Whether the engine failed, as opposed to the operation finding the
    /// buckets in a state in which it cannot succeed.
    pub open spec fn is_engine_failure(self) -> bool {
        self is StoreDynamicObjectFailed || self is SledTransactionError
    }
}

/// The outcome of an operation as a mathematical value.
pub open spec fn outcome<T>(r: Result<T, FsError>) -> Result<T, FsErrorView> {
    match r {
        Ok(value) => Ok(value),
        Err(e) => Err(e@),
    }
}

/// Whether an operation ended because the engine failed.
pub open spec fn engine_failed<T>(r: Result<T, FsError>) -> bool {
    r matches Err(e) && e@.is_engine_failure()
}

} // verus!
