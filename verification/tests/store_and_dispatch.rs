use unimarkup_lsp::dispatch::DispatchEvent;
use unimarkup_lsp::dispatch::DispatcherState;
use unimarkup_lsp::dispatch::InboundMessage;
use unimarkup_lsp::dispatch::LspAction;
use unimarkup_lsp::dispatch::handle_msg;
use unimarkup_lsp::dispatch::transition;
use unimarkup_lsp::doc_sync::DocumentStore;
use unimarkup_lsp::doc_sync::ParseError;
use unimarkup_lsp::doc_sync::RenderOutcome;
use unimarkup_lsp::document::Block;
use unimarkup_lsp::document::Document;
use unimarkup_lsp::document::Heading;
use unimarkup_lsp::document::Position;
use unimarkup_lsp::document::Span;
use unimarkup_lsp::semantic_tokens::SemanticToken;
use unimarkup_lsp::semantic_tokens::block_tokens::TokenType;
use unimarkup_lsp::semantic_tokens::get_semantic_tokens_or_empty;

fn heading_doc(level: u8) -> Document {
    Document {
        blocks: vec![Block::Heading(Heading {
            level,
            span: Span {
                start: Position { line: 1, col_utf16: 1 },
                end: Position { line: 1, col_utf16: 10 },
            },
            content: vec![],
        })],
    }
}

#[test]
fn latest_completed_render_wins() {
    // Two rapid change events for one file: after both renders publish, the
    // store holds the second render's document whole.
    let mut store = DocumentStore::new();
    let key = String::from("file:///a.um");
    let first = store.apply_render(key.clone(), Ok(heading_doc(1)), true);
    assert_eq!(first, RenderOutcome::Published { refresh: true });
    let second = store.apply_render(key.clone(), Ok(heading_doc(2)), false);
    assert_eq!(second, RenderOutcome::Published { refresh: false });
    assert_eq!(store.get(&key), Some(&heading_doc(2)));
}

#[test]
fn parse_error_drops_the_event_silently() {
    let mut store = DocumentStore::new();
    let key = String::from("file:///a.um");
    store.apply_render(key.clone(), Ok(heading_doc(1)), true);
    let outcome = store.apply_render(key.clone(), Err(ParseError), true);
    assert_eq!(outcome, RenderOutcome::Dropped);
    assert_eq!(store.get(&key), Some(&heading_doc(1)));
}

#[test]
fn store_keeps_documents_per_file() {
    let mut store = DocumentStore::new();
    let a = String::from("file:///a.um");
    let b = String::from("file:///b.um");
    assert_eq!(store.get(&a), None);
    store.insert(a.clone(), heading_doc(1));
    store.insert(b.clone(), heading_doc(3));
    assert_eq!(store.get(&a), Some(&heading_doc(1)));
    assert_eq!(store.get(&b), Some(&heading_doc(3)));
    assert_eq!(store.get(&String::from("file:///c.um")), None);
}

#[test]
fn token_request_routes_to_send() {
    let msg = InboundMessage::Request {
        is_shutdown: false,
        method: String::from("textDocument/semanticTokens/full"),
        params_ok: true,
    };
    assert_eq!(handle_msg(&msg), LspAction::SendSemanticTokens);
}

#[test]
fn shutdown_request_routes_to_shutdown() {
    let msg = InboundMessage::Request {
        is_shutdown: true,
        method: String::from("shutdown"),
        params_ok: true,
    };
    assert_eq!(handle_msg(&msg), LspAction::Shutdown);
}

#[test]
fn change_and_open_notifications_enqueue() {
    let change = InboundMessage::Notification {
        method: String::from("textDocument/didChange"),
        params_ok: true,
    };
    let open = InboundMessage::Notification {
        method: String::from("textDocument/didOpen"),
        params_ok: true,
    };
    assert_eq!(handle_msg(&change), LspAction::UpdateDoc);
    assert_eq!(handle_msg(&open), LspAction::OpenDoc);
}

#[test]
fn unrecognized_or_malformed_messages_are_ignored() {
    let unknown = InboundMessage::Notification {
        method: String::from("textDocument/didSave"),
        params_ok: true,
    };
    let malformed = InboundMessage::Notification {
        method: String::from("textDocument/didChange"),
        params_ok: false,
    };
    let response = InboundMessage::Response;
    let odd_request = InboundMessage::Request {
        is_shutdown: false,
        method: String::from("textDocument/hover"),
        params_ok: true,
    };
    assert_eq!(handle_msg(&unknown), LspAction::Continue);
    assert_eq!(handle_msg(&malformed), LspAction::Continue);
    assert_eq!(handle_msg(&response), LspAction::Continue);
    assert_eq!(handle_msg(&odd_request), LspAction::Continue);
}

#[test]
fn dispatcher_lifecycle_follows_the_table() {
    assert_eq!(
        transition(DispatcherState::Running, DispatchEvent::ShutdownRequested),
        DispatcherState::ShuttingDown
    );
    assert_eq!(
        transition(DispatcherState::ShuttingDown, DispatchEvent::QueuesDrained),
        DispatcherState::Stopped
    );
    assert_eq!(
        transition(DispatcherState::Running, DispatchEvent::QueuesDrained),
        DispatcherState::Running
    );
    assert_eq!(
        transition(DispatcherState::ShuttingDown, DispatchEvent::ShutdownRequested),
        DispatcherState::ShuttingDown
    );
    assert_eq!(
        transition(DispatcherState::Stopped, DispatchEvent::ShutdownRequested),
        DispatcherState::Stopped
    );
    assert_eq!(
        transition(DispatcherState::Stopped, DispatchEvent::QueuesDrained),
        DispatcherState::Stopped
    );
}

#[test]
fn request_for_an_unknown_file_yields_no_tokens() {
    let store = DocumentStore::new();
    let tokens = get_semantic_tokens_or_empty(store.get(&String::from("file:///a.um")));
    assert_eq!(tokens, Vec::<SemanticToken>::new());
}

#[test]
fn default_token_type_is_the_neutral_paragraph() {
    assert_eq!(TokenType::default(), TokenType::Paragraph);
}
