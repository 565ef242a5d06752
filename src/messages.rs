use vstd::prelude::*;

verus! {

/// The row and event-context types that the row messages of one table carry.
pub trait TableMessage: Sized {
    /// A row of the table.
    type Row: Clone;

    /// The causal context of a row change (what remote operation caused it, if any).
    type Event: Clone;
}

/// Emitted when a connection to the remote database is established.
pub struct StdbConnectedMessage<I> {
    /// The identity of the successful connection.
    pub identity: I,
    /// The private access token which can later re-authenticate as the same identity.
    pub access_token: String,
}

/// Emitted when the connection to the remote database is lost.
pub struct StdbDisconnectedMessage<E> {
    /// The error that caused the disconnection, if any.
    pub err: Option<E>,
}

/// Emitted when the connection to the remote database encounters an error.
pub struct StdbConnectionErrorMessage<E> {
    /// The error that occurred.
    pub err: E,
}

/// Emitted when a row is inserted into a table.
pub struct InsertMessage<T: TableMessage> {
    pub event: T::Event,
    /// The row that was inserted.
    pub row: T::Row,
}

/// Emitted when a row is deleted from a table.
pub struct DeleteMessage<T: TableMessage> {
    pub event: T::Event,
    /// The row that was deleted.
    pub row: T::Row,
}

/// Emitted when a row is updated in a table.
pub struct UpdateMessage<T: TableMessage> {
    pub event: T::Event,
    /// The old row.
    pub old: T::Row,
    /// The new row.
    pub new: T::Row,
}

/// Emitted when a row is inserted or updated in a table.
pub struct InsertUpdateMessage<T: TableMessage> {
    pub event: T::Event,
    /// The previous value of the row if it was updated.
    pub old: Option<T::Row>,
    /// The new value of the row, or the inserted value.
    pub new: T::Row,
}

/// Emitted when a reducer invocation completes.
#[derive(Debug)]
pub struct ReducerResultMessage<T> {
    /// The result of the reducer invocation.
    pub result: T,
}

impl<T> ReducerResultMessage<T> {
    /// Creates a new reducer result message.
    pub fn new(result: T) -> (r: Self)
        ensures
            r.result == result,
    {
        Self { result }
    }
}

/// Emitted when a procedure invocation completes.
#[derive(Debug)]
pub struct ProcedureResultMessage<T> {
    /// The result of the procedure invocation.
    pub result: T,
}

impl<T> ProcedureResultMessage<T> {
    /// Creates a new procedure result message.
    pub fn new(result: T) -> (r: Self)
        ensures
            r.result == result,
    {
        Self { result }
    }
}

} // verus!
