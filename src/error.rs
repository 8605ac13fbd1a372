use vstd::prelude::*;

use crate::wrote::Wrote;

verus! {

/// A buffer, or a batch of buffers, that the queue refused; it is handed back
/// unchanged.
#[derive(Debug)]
pub enum EnqueueError<T> {
    /// Accepting the data would take the log past its maximum size.
    EndOfFile(T),
}

/// Something went wrong opening a log; `E` is the I/O error type.
#[derive(Debug)]
pub enum OpenError<E> {
    /// The file was at or over the maximum size.
    TooBig,
    /// The end of the file could not be found.
    Seek(E),
    /// The file could not be opened.
    Open(E),
}

/// Something went wrong setting up a log over an open file.
#[derive(Debug)]
pub enum FromFileError<E> {
    /// The file was at or over the maximum size.
    TooBig,
    /// The end of the file could not be found.
    Seek(E),
}

impl<E> From<FromFileError<E>> for OpenError<E> {
    fn from(this: FromFileError<E>) -> (r: OpenError<E>) {
        match this {
            FromFileError::TooBig => OpenError::TooBig,
            FromFileError::Seek(e) => OpenError::Seek(e),
        }
    }
}

impl<E> vstd::std_specs::convert::FromSpecImpl<FromFileError<E>> for OpenError<E> {
    open spec fn obeys_from_spec() -> bool {
        true
    }

    open spec fn from_spec(this: FromFileError<E>) -> OpenError<E> {
        match this {
            FromFileError::TooBig => OpenError::TooBig,
            FromFileError::Seek(e) => OpenError::Seek(e),
        }
    }
}

/// A commit that did not complete.
#[derive(Debug)]
pub enum WriteError<E> {
    /// The batched write failed and transferred nothing; the queue is unchanged.
    Unwritten(E),
    /// Bytes reached the file but the durability barrier failed. The buffers that
    /// were transferred whole have left the queue, and the durable offset has
    /// moved past them, because sending them again would write them twice. They
    /// are handed back here with their offsets; it is for the caller to decide
    /// whether to trust them, or to give up on the whole log.
    Unsynced(E, Wrote),
}

} // verus!
