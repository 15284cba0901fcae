use crate::pipeline::state::EngineState;
use crate::pipeline::state::StateCell;
use vstd::prelude::*;

verus! {

/// What an engine tells the holders of its handle.
#[derive(Debug, Clone)]
pub enum Event {
    EndOfStream,
    Error(String),
    StateChanged { from: EngineState, to: EngineState },
}

/// A message on an engine's bus, reduced to what the worker reads of it.
/// `from_engine` tells a state change of the engine as a whole from one of a
/// part inside it.
#[derive(Debug, Clone)]
pub enum BusMessage {
    Eos,
    Error { message: String },
    StateChanged { from_engine: bool, from: EngineState, to: EngineState },
    Other,
}

/// What the watcher of a bus does after a message.
#[derive(Debug, Copy, Clone, PartialEq, Eq, Structural)]
pub enum Watch {
    Continue,
    Break,
}

/// The event that a bus message becomes for the handle's holders: end of
/// stream, errors, and state changes of the engine itself pass; state changes
/// of inner parts and every other message do not.
pub open spec fn forwarded(message: BusMessage) -> Option<Event> {
    match message {
        BusMessage::Eos => Some(Event::EndOfStream),
        BusMessage::Error { message } => Some(Event::Error(message)),
        BusMessage::StateChanged { from_engine, from, to } => if from_engine {
            Some(Event::StateChanged { from, to })
        } else {
            None
        },
        BusMessage::Other => None,
    }
}

/// The state a cell shows after a bus message: the new state of the engine
/// after a state change of the engine itself, else what it showed before.
pub open spec fn mirrored(before: EngineState, message: BusMessage) -> EngineState {
    match message {
        BusMessage::StateChanged { from_engine, from, to } => if from_engine {
            to
        } else {
            before
        },
        _ => before,
    }
}

/// Whether a message tells a state change of the engine itself.
pub open spec fn is_engine_change(message: BusMessage) -> bool {
    match message {
        BusMessage::StateChanged { from_engine, from, to } => from_engine,
        _ => false,
    }
}

/// The state a cell shows after the bus messages `messages`, in order.
pub open spec fn mirrored_all(before: EngineState, messages: Seq<BusMessage>) -> EngineState
    decreases messages.len(),
{
    if messages.len() == 0 {
        before
    } else {
        mirrored(mirrored_all(before, messages.drop_last()), messages.last())
    }
}

/// A cell shows the state its engine was built in until the engine itself
/// changes state: no other message, and no command sent in between,
/// changes what it shows.
pub proof fn lemma_state_stays(before: EngineState, messages: Seq<BusMessage>)
    requires
        forall|i: int| 0 <= i < messages.len() ==> !is_engine_change(#[trigger] messages[i]),
    ensures
        mirrored_all(before, messages) == before,
    decreases messages.len(),
{
    if messages.len() > 0 {
        lemma_state_stays(before, messages.drop_last());
    }
}

/// Once the engine itself has changed state, a cell shows the state it
/// changed to, whatever it showed before.
pub proof fn lemma_state_follows(
    before: EngineState,
    messages: Seq<BusMessage>,
    from: EngineState,
    to: EngineState,
)
    requires
        messages.len() > 0,
        messages.last() == (BusMessage::StateChanged { from_engine: true, from, to }),
    ensures
        mirrored_all(before, messages) == to,
{
}

/// Handles one bus message of an engine: records a state change of the engine
/// in `cell` and returns the event to pass on, if the message is one to pass
/// on.
pub fn observe(cell: &mut StateCell, message: BusMessage) -> (event: Option<Event>)
    ensures
        event == forwarded(message),
        final(cell).current_state == mirrored(old(cell).current_state, message),
{
    match message {
        BusMessage::Eos => Some(Event::EndOfStream),
        BusMessage::Error { message } => Some(Event::Error(message)),
        BusMessage::StateChanged { from_engine, from, to } => {
            if from_engine {
                cell.current_state = to;
                Some(Event::StateChanged { from, to })
            } else {
                None
            }
        },
        BusMessage::Other => None,
    }
}

/// Whether the watcher stays on the bus: it leaves exactly when there was an
/// event to pass on and nobody was left to take it.
pub fn after_delivery(had_event: bool, delivered: bool) -> (watch: Watch)
    ensures
        watch == if had_event && !delivered {
            Watch::Break
        } else {
            Watch::Continue
        },
{
    if had_event && !delivered {
        Watch::Break
    } else {
        Watch::Continue
    }
}

} // verus!
