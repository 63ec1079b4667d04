//! Routing inbound protocol messages and the dispatcher's lifecycle.
//!
//! While the dispatcher runs, every inbound message classifies into exactly
//! one action: answer a token request, enqueue a document event, shut down,
//! or ignore the message.  A shutdown request moves the dispatcher from
//! `Running` to `ShuttingDown`; once the queued events are drained it stops.

use vstd::prelude::*;

verus! {

/// The dispatcher's lifecycle state.
#[derive(Debug, Clone, Copy, PartialEq, Eq, Structural)]
pub enum DispatcherState {
    /// Serving messages.
    Running,
    /// Shutdown requested; in-flight renders drain, pending publishes flush.
    ShuttingDown,
    /// Tasks terminated, channels closed.
    Stopped,
}

/// A lifecycle event the dispatcher reacts to.
#[derive(Debug, Clone, Copy, PartialEq, Eq, Structural)]
pub enum DispatchEvent {
    /// The editor asked the session to shut down.
    ShutdownRequested,
    /// Every queued event up to the shutdown request has been flushed.
    QueuesDrained,
}

/// One inbound message, reduced to what routing reads: its kind and method,
/// whether the transport recognized it as the shutdown request, and whether
/// its parameters could be extracted.
#[derive(Debug, PartialEq, Eq)]
pub enum InboundMessage {
    Request { is_shutdown: bool, method: String, params_ok: bool },
    Response,
    Notification { method: String, params_ok: bool },
}

/// The action one inbound message maps to.
#[derive(Debug, Clone, Copy, PartialEq, Eq, Structural)]
pub enum LspAction {
    /// Answer a full semantic-token request from the store.
    SendSemanticTokens,
    /// Enqueue a whole-document replacement for rendering.
    UpdateDoc,
    /// Enqueue a newly opened document for rendering.
    OpenDoc,
    /// Begin the shutdown sequence.
    Shutdown,
    /// Nothing to do: a response, or an unrecognized or malformed message.
    Continue,
}

/// The routing table: a shutdown request shuts down; a well-formed full
/// token request is answered; well-formed change and open notifications are
/// enqueued; everything else — responses, unknown methods, messages whose
/// parameters did not extract — is ignored.
pub open spec fn action_of(msg: InboundMessage) -> LspAction {
    match msg {
        InboundMessage::Request { is_shutdown, method, params_ok } => {
            if is_shutdown {
                LspAction::Shutdown
            } else if method@ == "textDocument/semanticTokens/full"@ && params_ok {
                LspAction::SendSemanticTokens
            } else {
                LspAction::Continue
            }
        },
        InboundMessage::Response => LspAction::Continue,
        InboundMessage::Notification { method, params_ok } => {
            if method@ == "textDocument/didChange"@ && params_ok {
                LspAction::UpdateDoc
            } else if method@ == "textDocument/didOpen"@ && params_ok {
                LspAction::OpenDoc
            } else {
                LspAction::Continue
            }
        },
    }
}

/// Classifies one inbound message into its action, per [`action_of`].
pub fn handle_msg(msg: &InboundMessage) -> (r: LspAction)
    ensures
        r == action_of(*msg),
{
    match msg {
        InboundMessage::Request { is_shutdown, method, params_ok } => {
            let full_request: String = "textDocument/semanticTokens/full".to_owned();
            if *is_shutdown {
                LspAction::Shutdown
            } else if *method == full_request && *params_ok {
                LspAction::SendSemanticTokens
            } else {
                LspAction::Continue
            }
        },
        InboundMessage::Response => LspAction::Continue,
        InboundMessage::Notification { method, params_ok } => {
            let did_change: String = "textDocument/didChange".to_owned();
            let did_open: String = "textDocument/didOpen".to_owned();
            if *method == did_change && *params_ok {
                LspAction::UpdateDoc
            } else if *method == did_open && *params_ok {
                LspAction::OpenDoc
            } else {
                LspAction::Continue
            }
        },
    }
}

/// The lifecycle table: `Running` leaves on a shutdown request, the drained
/// queues end `ShuttingDown`, and every other pairing changes nothing.
pub open spec fn spec_transition(state: DispatcherState, event: DispatchEvent) -> DispatcherState {
    match (state, event) {
        (DispatcherState::Running, DispatchEvent::ShutdownRequested) => {
            DispatcherState::ShuttingDown
        },
        (DispatcherState::ShuttingDown, DispatchEvent::QueuesDrained) => DispatcherState::Stopped,
        _ => state,
    }
}

/// Advances the dispatcher's lifecycle by one event, per [`spec_transition`].
pub fn transition(state: DispatcherState, event: DispatchEvent) -> (r: DispatcherState)
    ensures
        r == spec_transition(state, event),
{
    match (state, event) {
        (DispatcherState::Running, DispatchEvent::ShutdownRequested) => {
            DispatcherState::ShuttingDown
        },
        (DispatcherState::ShuttingDown, DispatchEvent::QueuesDrained) => DispatcherState::Stopped,
        _ => state,
    }
}

} // verus!
