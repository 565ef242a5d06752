use vstd::prelude::*;

use crate::bridge::{EventBridge, MessageKind, Sender, TypeKey};
use crate::messages::{ProcedureResultMessage, ReducerResultMessage};

verus! {

/// Takes from the registry, or creates, the one channel for the results of
/// the reducer whose result type has the tag `reducer`.
pub fn register_reducer<T>(bridge: &mut EventBridge<ReducerResultMessage<T>>, reducer: u64) -> (r:
    Sender)
    requires
        old(bridge).wf(),
    ensures
        EventBridge::get_or_create_post(
            *old(bridge),
            *final(bridge),
            TypeKey { kind: MessageKind::ReducerResult, source: reducer },
            r,
        ),
{
    bridge.get_or_create(TypeKey { kind: MessageKind::ReducerResult, source: reducer })
}

/// Completion of a reducer invocation: sends its result on `sender` without
/// blocking. Where the receiver is gone the result is dropped silently.
pub fn on_reducer_result<T>(bridge: &mut EventBridge<ReducerResultMessage<T>>, sender: Sender, result: T)
    requires
        old(bridge).wf(),
        sender.channel < old(bridge).num_channels(),
    ensures
        EventBridge::send_post(
            *old(bridge),
            *final(bridge),
            sender,
            ReducerResultMessage { result },
            old(bridge).receivers_open()[sender.channel as int],
        ),
{
    let _ = bridge.send(sender, ReducerResultMessage::new(result));
}

/// Takes from the registry, or creates, the one channel for the results of
/// the procedure whose result type has the tag `procedure`.
pub fn register_procedure<T>(bridge: &mut EventBridge<ProcedureResultMessage<T>>, procedure: u64) -> (r:
    Sender)
    requires
        old(bridge).wf(),
    ensures
        EventBridge::get_or_create_post(
            *old(bridge),
            *final(bridge),
            TypeKey { kind: MessageKind::ProcedureResult, source: procedure },
            r,
        ),
{
    bridge.get_or_create(TypeKey { kind: MessageKind::ProcedureResult, source: procedure })
}

/// Completion of a procedure invocation: sends its result on `sender`
/// without blocking. Where the receiver is gone the result is dropped silently.
pub fn on_procedure_result<T>(
    bridge: &mut EventBridge<ProcedureResultMessage<T>>,
    sender: Sender,
    result: T,
)
    requires
        old(bridge).wf(),
        sender.channel < old(bridge).num_channels(),
    ensures
        EventBridge::send_post(
            *old(bridge),
            *final(bridge),
            sender,
            ProcedureResultMessage { result },
            old(bridge).receivers_open()[sender.channel as int],
        ),
{
    let _ = bridge.send(sender, ProcedureResultMessage::new(result));
}

} // verus!
