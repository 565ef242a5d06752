//! A type-keyed event bridge: one channel per message type, created on first
//! use, fed by callbacks of a live-updating remote dataset and drained once per
//! tick by the host application.

pub mod bridge;
pub mod laws;
pub mod messages;
pub mod reducers;
pub mod routes;
pub mod tables;

pub use bridge::{EventBridge, MessageKind, Sender, TypeKey};
pub use messages::{
    DeleteMessage, InsertMessage, InsertUpdateMessage, ProcedureResultMessage,
    ReducerResultMessage, StdbConnectedMessage, StdbConnectionErrorMessage,
    StdbDisconnectedMessage, TableMessage, UpdateMessage,
};
pub use reducers::{on_procedure_result, on_reducer_result, register_procedure, register_reducer};
pub use routes::{RowCallback, RowChange, RowHook, RowMessage, TableRoutes};
pub use tables::{TableMessages, TableMessagesWithoutPrimaryKey};
