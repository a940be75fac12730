//! Errors of the storage.

use vstd::prelude::*;

verus! {

/// Why a transaction failed.
#[derive(Debug)]
pub enum TransactionError {
    /// Something that was read has been modified since.
    ReadWriteConflict(String),
    /// The transaction has a commit timestamp already.
    TransactionAlreadyCommitted(String),
    /// The transaction is not among the active ones.
    TransactionNotFound(String),
}

/// A vertex was not found.
#[derive(Debug)]
pub enum VertexNotFoundError {
    /// The vertex is not there.
    VertexNotFound(String),
}

/// An edge was not found.
#[derive(Debug)]
pub enum EdgeNotFoundError {
    /// The edge is not there.
    EdgeNotFound(String),
}

/// Why a write-ahead log failed.
#[derive(Debug)]
pub enum WalError {
    /// The log could not be read or written.
    Io(String),
}

/// Why a checkpoint failed.
#[derive(Debug)]
pub enum CheckpointError {
    /// A file could not be read or written.
    Io(String),
    /// The graph could not be turned into bytes.
    SerializationFailed(String),
    /// The bytes are not those of a graph.
    DeserializationFailed(String),
    /// The bytes are not those that the checksum was made of.
    ChecksumMismatch,
    /// The file is not one of a checkpoint.
    InvalidFormat(String),
    /// There is no such checkpoint.
    CheckpointNotFound(String),
    /// The directory of the checkpoints cannot be used.
    DirectoryError(String),
    /// Transactions were active for too long.
    Timeout,
}

/// An error of the storage.
#[derive(Debug)]
pub enum StorageError {
    /// Of a transaction.
    Transaction(TransactionError),
    /// A vertex was not found.
    VertexNotFound(VertexNotFoundError),
    /// An edge was not found.
    EdgeNotFound(EdgeNotFoundError),
    /// Of the write-ahead log.
    Wal(WalError),
    /// Of a checkpoint.
    Checkpoint(CheckpointError),
}

/// The outcome of an operation of the storage.
pub type StorageResult<T> = Result<T, StorageError>;

/// What an error of the storage is.
pub enum ErrorView {
    /// Something that was read has been modified since.
    ReadWriteConflict(Seq<char>),
    /// The transaction has a commit timestamp already.
    TransactionAlreadyCommitted(Seq<char>),
    /// The transaction is not among the active ones.
    TransactionNotFound(Seq<char>),
    /// A vertex was not found.
    VertexNotFound(Seq<char>),
    /// An edge was not found.
    EdgeNotFound(Seq<char>),
    /// The write-ahead log could not be read or written.
    WalIo(Seq<char>),
    /// A file could not be read or written.
    CheckpointIo(Seq<char>),
    /// The graph could not be turned into bytes.
    SerializationFailed(Seq<char>),
    /// The bytes are not those of a graph.
    DeserializationFailed(Seq<char>),
    /// The bytes are not those that the checksum was made of.
    ChecksumMismatch,
    /// The file is not one of a checkpoint.
    InvalidFormat(Seq<char>),
    /// There is no such checkpoint.
    CheckpointNotFound(Seq<char>),
    /// The directory of the checkpoints cannot be used.
    DirectoryError(Seq<char>),
    /// Transactions were active for too long.
    Timeout,
}

impl View for StorageError {
    type V = ErrorView;

    open spec fn view(&self) -> ErrorView {
        match *self {
            StorageError::Transaction(TransactionError::ReadWriteConflict(text)) =>
                ErrorView::ReadWriteConflict(text@),
            StorageError::Transaction(TransactionError::TransactionAlreadyCommitted(text)) =>
                ErrorView::TransactionAlreadyCommitted(text@),
            StorageError::Transaction(TransactionError::TransactionNotFound(text)) =>
                ErrorView::TransactionNotFound(text@),
            StorageError::VertexNotFound(VertexNotFoundError::VertexNotFound(text)) =>
                ErrorView::VertexNotFound(text@),
            StorageError::EdgeNotFound(EdgeNotFoundError::EdgeNotFound(text)) =>
                ErrorView::EdgeNotFound(text@),
            StorageError::Wal(WalError::Io(text)) => ErrorView::WalIo(text@),
            StorageError::Checkpoint(CheckpointError::Io(text)) => ErrorView::CheckpointIo(text@),
            StorageError::Checkpoint(CheckpointError::SerializationFailed(text)) =>
                ErrorView::SerializationFailed(text@),
            StorageError::Checkpoint(CheckpointError::DeserializationFailed(text)) =>
                ErrorView::DeserializationFailed(text@),
            StorageError::Checkpoint(CheckpointError::ChecksumMismatch) =>
                ErrorView::ChecksumMismatch,
            StorageError::Checkpoint(CheckpointError::InvalidFormat(text)) =>
                ErrorView::InvalidFormat(text@),
            StorageError::Checkpoint(CheckpointError::CheckpointNotFound(text)) =>
                ErrorView::CheckpointNotFound(text@),
            StorageError::Checkpoint(CheckpointError::DirectoryError(text)) =>
                ErrorView::DirectoryError(text@),
            StorageError::Checkpoint(CheckpointError::Timeout) => ErrorView::Timeout,
        }
    }
}

/// The error of a vertex that was not found.
pub fn vertex_not_found(text: String) -> (error: StorageError)
    ensures
        error@ == ErrorView::VertexNotFound(text@),
{
    StorageError::VertexNotFound(VertexNotFoundError::VertexNotFound(text))
}

/// The error of an edge that was not found.
pub fn edge_not_found(text: String) -> (error: StorageError)
    ensures
        error@ == ErrorView::EdgeNotFound(text@),
{
    StorageError::EdgeNotFound(EdgeNotFoundError::EdgeNotFound(text))
}

} // verus!
