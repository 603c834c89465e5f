//! Protocol-level behaviour: framing, envelope validation, dispatch
//! order, lock planning, and the handler cores end to end.

use ruffd::checks::ActionKind;
use ruffd::checks::Check;
use ruffd::checks::CheckRegistry;
use ruffd::checks::Position;
use ruffd::checks::Range;
use ruffd::checks::Severity;
use ruffd::checks::SourceLocation;
use ruffd::checks::action_from_check;
use ruffd::checks::diagnostic_from_check;
use ruffd::checks::Fix;
use ruffd::codec::encode_frame;
use ruffd::codec::frame_length;
use ruffd::codec::parse_decimal;
use ruffd::codec::parse_header_field;
use ruffd::codec::FrameError;
use ruffd::codec::HeaderField;
use ruffd::dispatch::can_grant;
use ruffd::dispatch::dispatch_in_order;
use ruffd::dispatch::dispatch_message;
use ruffd::dispatch::grant;
use ruffd::dispatch::plan_for;
use ruffd::dispatch::Access;
use ruffd::dispatch::DispatchDecision;
use ruffd::dispatch::FieldLockState;
use ruffd::dispatch::HandlerId;
use ruffd::dispatch::ServerLocks;
use ruffd::dispatch::ServerStage;
use ruffd::document::get_line_lengths;
use ruffd::document::DocumentBuffer;
use ruffd::error::RuntimeError;
use ruffd::handlers::doc_code_action;
use ruffd::handlers::document_did_change;
use ruffd::handlers::document_did_open;
use ruffd::handlers::initialized_notif;
use ruffd::handlers::run_diagnostic_op;
use ruffd::handlers::ContentChange;
use ruffd::rpc::RpcErrors;
use ruffd::rpc::RpcId;
use ruffd::rpc::RpcMessage;
use ruffd::rpc::RpcNotification;
use ruffd::rpc::RpcRequest;
use ruffd::state::ServerState;
use ruffd::state::UriMap;

fn free_field() -> FieldLockState {
    FieldLockState { readers: 0, writer: false }
}

fn free_locks() -> ServerLocks {
    ServerLocks {
        project_root: free_field(),
        open_buffers: free_field(),
        capabilities: free_field(),
        settings: free_field(),
        checks: free_field(),
    }
}

#[test]
fn frame_encoding_exact_bytes() {
    let framed = encode_frame(b"{}".to_vec());
    assert_eq!(framed, b"Content-Length: 2\r\n\r\n{}".to_vec());
}

#[test]
fn frame_round_trip() {
    let payload = b"{\"jsonrpc\":\"2.0\"}".to_vec();
    let framed = encode_frame(payload.clone());
    let newline = framed.iter().position(|&b| b == 13).unwrap();
    let header_line = framed[..newline].to_vec();
    match parse_header_field(&header_line) {
        HeaderField::ContentLength(n) => assert_eq!(n, payload.len()),
        other => panic!("unexpected field: {:?}", other),
    }
    assert_eq!(&framed[newline + 4..], &payload[..]);
}

#[test]
fn decimal_parsing() {
    assert_eq!(parse_decimal(&b"123".to_vec()), Some(123));
    assert_eq!(parse_decimal(&b"0".to_vec()), Some(0));
    assert_eq!(parse_decimal(&b"".to_vec()), None);
    assert_eq!(parse_decimal(&b"12a".to_vec()), None);
}

#[test]
fn header_field_classification() {
    assert_eq!(
        parse_header_field(&b"Content-Length: 42".to_vec()),
        HeaderField::ContentLength(42)
    );
    assert_eq!(
        parse_header_field(&b"Content-Length: abc".to_vec()),
        HeaderField::Malformed
    );
    assert_eq!(
        parse_header_field(&b"Content-Type: utf-8".to_vec()),
        HeaderField::ContentType { known: true }
    );
    assert_eq!(
        parse_header_field(&b"Content-Type: utf8".to_vec()),
        HeaderField::ContentType { known: true }
    );
    assert_eq!(
        parse_header_field(&b"Content-Type: latin-1".to_vec()),
        HeaderField::ContentType { known: false }
    );
    assert_eq!(parse_header_field(&b"X-Extra: ignored".to_vec()), HeaderField::Other);
}

#[test]
fn frame_header_decisions() {
    assert_eq!(frame_length(&vec![HeaderField::ContentLength(5)]), Ok(5));
    assert_eq!(
        frame_length(&vec![HeaderField::Other]),
        Err(FrameError::MissingContentLength)
    );
    assert_eq!(
        frame_length(&vec![
            HeaderField::ContentType { known: false },
            HeaderField::ContentLength(5),
        ]),
        Err(FrameError::UnknownEncoding)
    );
    assert_eq!(
        frame_length(&vec![HeaderField::Malformed]),
        Err(FrameError::BadContentLength)
    );
    assert_eq!(
        frame_length(&vec![
            HeaderField::Other,
            HeaderField::ContentLength(7),
            HeaderField::ContentType { known: true },
        ]),
        Ok(7)
    );
    // The first length wins over duplicates, and a bad field after a
    // good length still refuses the block.
    assert_eq!(
        frame_length(&vec![HeaderField::ContentLength(5), HeaderField::ContentLength(9)]),
        Ok(5)
    );
    assert_eq!(
        frame_length(&vec![HeaderField::ContentLength(5), HeaderField::Malformed]),
        Err(FrameError::BadContentLength)
    );
    assert_eq!(
        frame_length(&vec![
            HeaderField::ContentLength(5),
            HeaderField::ContentType { known: false },
        ]),
        Err(FrameError::UnknownEncoding)
    );
}

#[test]
fn envelope_validation() {
    let valid = RpcMessage::Notification(RpcNotification::new("initialized".to_string(), None));
    assert!(valid.validate());
    let invalid = RpcMessage::Request(RpcRequest {
        jsonrpc: "1.0".to_string(),
        id: RpcId::Num(1),
        method: "initialize".to_string(),
        params: None,
    });
    assert!(!invalid.validate());
}

#[test]
fn error_codes() {
    assert_eq!(RpcErrors::parse_error().code, -32700);
    assert_eq!(RpcErrors::invalid_request().code, -32600);
    assert_eq!(RpcErrors::method_not_found().code, -32601);
    assert_eq!(RpcErrors::invalid_params().code, -32602);
    assert_eq!(RpcErrors::internal_error().code, -32603);
    assert_eq!(RpcErrors::server_not_initialized().code, -32002);
    assert_eq!(RpcErrors::unknown_error_code().code, -32001);
    assert_eq!(RpcErrors::request_failed().code, -32803);
    assert_eq!(RpcErrors::server_cancelled().code, -32802);
    assert_eq!(RpcErrors::content_modified().code, -32801);
    assert_eq!(RpcErrors::request_cancelled().code, -32800);
}

fn request(method: &str, id: i64) -> RpcMessage {
    RpcMessage::Request(RpcRequest {
        jsonrpc: "2.0".to_string(),
        id: RpcId::Num(id),
        method: method.to_string(),
        params: None,
    })
}

fn notification(method: &str) -> RpcMessage {
    RpcMessage::Notification(RpcNotification::new(method.to_string(), None))
}

#[test]
fn pre_init_traffic_is_refused() {
    // A notification before `initialize` earns ServerNotInitialized
    // and leaves the server waiting for a valid initialize.
    let (stage, decision) = dispatch_message(
        ServerStage::Uninitialised,
        notification("textDocument/didOpen"),
    );
    assert_eq!(stage, ServerStage::Uninitialised);
    match decision {
        DispatchDecision::RespondError { id, code } => {
            assert!(id.is_none());
            assert_eq!(code, -32002);
        }
        _ => panic!("expected an error response"),
    }
}

#[test]
fn initialize_starts_the_server() {
    let (stage, decision) = dispatch_message(ServerStage::Uninitialised, request("initialize", 1));
    assert_eq!(stage, ServerStage::Initialised);
    assert!(matches!(decision, DispatchDecision::RespondInitialize { .. }));
}

#[test]
fn unknown_method_not_found() {
    let (stage, decision) = dispatch_message(
        ServerStage::Initialised,
        request("textDocument/rename", 7),
    );
    assert_eq!(stage, ServerStage::Initialised);
    match decision {
        DispatchDecision::RespondError { id, code } => {
            assert!(matches!(id, Some(RpcId::Num(7))));
            assert_eq!(code, -32601);
        }
        _ => panic!("expected an error response"),
    }
}

#[test]
fn invalid_envelope_refused_with_null_id() {
    let bad = RpcMessage::Request(RpcRequest {
        jsonrpc: "1.0".to_string(),
        id: RpcId::Num(4),
        method: "initialize".to_string(),
        params: None,
    });
    let (stage, decision) = dispatch_message(ServerStage::Uninitialised, bad);
    assert_eq!(stage, ServerStage::Uninitialised);
    match decision {
        DispatchDecision::RespondError { id, code } => {
            assert!(id.is_none());
            assert_eq!(code, -32600);
        }
        _ => panic!("expected an error response"),
    }
}

#[test]
fn dispatch_keeps_message_order() {
    // Submitting initialize, didOpen, codeAction in that order yields
    // their decisions in that order, each made in the stage left by
    // the previous message.
    let msgs = vec![
        request("initialize", 1),
        notification("textDocument/didOpen"),
        request("textDocument/codeAction", 2),
    ];
    let (decisions, stage) = dispatch_in_order(ServerStage::Uninitialised, msgs);
    assert_eq!(stage, ServerStage::Initialised);
    assert_eq!(decisions.len(), 3);
    assert!(matches!(decisions[0], DispatchDecision::RespondInitialize { .. }));
    assert!(matches!(
        decisions[1],
        DispatchDecision::SpawnNotification { handler: HandlerId::DidOpen }
    ));
    assert!(matches!(
        decisions[2],
        DispatchDecision::SpawnRequest { handler: HandlerId::CodeAction, .. }
    ));
}

#[test]
fn lock_plans_as_declared() {
    assert_eq!(plan_for(HandlerId::DidOpen).open_buffers, Access::Write);
    assert_eq!(plan_for(HandlerId::DidChange).open_buffers, Access::Write);
    assert_eq!(plan_for(HandlerId::CodeAction).checks, Access::Read);
    let publish = plan_for(HandlerId::PublishDiagnostics);
    assert_eq!(publish.open_buffers, Access::Read);
    assert_eq!(publish.checks, Access::Write);
    assert_eq!(plan_for(HandlerId::Initialized).open_buffers, Access::Unused);
}

#[test]
fn buffer_writers_never_overlap() {
    // Two handlers that both write the open buffers: once the first
    // holds its leases the second cannot be granted until release.
    let mut locks = free_locks();
    let first = plan_for(HandlerId::DidOpen);
    let second = plan_for(HandlerId::DidChange);
    assert!(can_grant(&locks, &first));
    grant(&mut locks, &first);
    assert!(!can_grant(&locks, &second));
}

#[test]
fn readers_may_share() {
    // Two handlers that only read disjoint or shared fields may hold
    // them together.
    let mut locks = free_locks();
    let first = plan_for(HandlerId::CodeAction);
    let second = plan_for(HandlerId::CodeAction);
    assert!(can_grant(&locks, &first));
    grant(&mut locks, &first);
    assert!(can_grant(&locks, &second));
}

#[test]
fn line_lengths_terminators() {
    let chars: Vec<char> = "a\r\nb\rc\nd".chars().collect();
    assert_eq!(get_line_lengths(&chars), vec![3, 2, 2, 1]);
    let empty: Vec<char> = Vec::new();
    assert_eq!(get_line_lengths(&empty), vec![0]);
}

#[test]
fn diagnostic_positions_zero_indexed() {
    // The engine reports one-indexed rows; the published diagnostic
    // uses zero-indexed lines with columns passed through.
    let check = Check {
        code: "F841".to_string(),
        message: "local variable `x` is assigned to but never used".to_string(),
        location: SourceLocation { row: 3, column: 4 },
        end_location: SourceLocation { row: 3, column: 5 },
        fix: None,
    };
    let diagnostic = diagnostic_from_check(&check);
    let expected_range = Range {
        start: Position { line: 2, character: 4 },
        end: Position { line: 2, character: 5 },
    };
    assert_eq!(diagnostic.range, expected_range);
    assert_eq!(diagnostic.severity, Severity::Warning);
    assert_eq!(diagnostic.source, "ruff");
    assert_eq!(diagnostic.code, "F841");
}

fn fixable_check() -> Check {
    Check {
        code: "W292".to_string(),
        message: "no newline at end of file".to_string(),
        location: SourceLocation { row: 1, column: 4 },
        end_location: SourceLocation { row: 1, column: 5 },
        fix: Some(Fix {
            content: "x\n".to_string(),
            location: SourceLocation { row: 1, column: 4 },
            end_location: SourceLocation { row: 1, column: 5 },
        }),
    }
}

#[test]
fn action_carries_fix_and_diagnostic() {
    let check = fixable_check();
    let uri = "file:///t.py".to_string();
    let action = action_from_check(&check, &uri).unwrap();
    assert_eq!(action.title, "fix W292");
    assert_eq!(action.kind, ActionKind::QuickFix);
    assert_eq!(action.document_uri, uri);
    assert_eq!(action.diagnostics.len(), 1);
    assert_eq!(action.edits.len(), 1);
    assert_eq!(action.edits[0].new_text, "x\n");
    assert_eq!(
        action.edits[0].range,
        Range {
            start: Position { line: 0, character: 4 },
            end: Position { line: 0, character: 5 },
        }
    );
    let unfixable = Check { fix: None, ..fixable_check() };
    assert!(action_from_check(&unfixable, &uri).is_none());
}

#[test]
fn registry_range_queries() {
    let far = Check {
        location: SourceLocation { row: 9, column: 0 },
        end_location: SourceLocation { row: 9, column: 3 },
        ..fixable_check()
    };
    let registry = CheckRegistry::from_vec(vec![fixable_check(), far]);
    let hits = registry.iter_range(
        SourceLocation { row: 1, column: 0 },
        SourceLocation { row: 2, column: 0 },
    );
    assert_eq!(hits, vec![0]);
    let all = registry.iter_range(
        SourceLocation { row: 1, column: 0 },
        SourceLocation { row: 10, column: 0 },
    );
    assert_eq!(all, vec![0, 1]);
    let none = registry.iter_range(
        SourceLocation { row: 4, column: 0 },
        SourceLocation { row: 5, column: 0 },
    );
    assert!(none.is_empty());
}

#[test]
fn initialized_is_a_no_op() {
    assert!(initialized_notif().is_ok());
}

#[test]
fn open_then_incremental_edit() {
    // didOpen stores the document; one incremental change replaces
    // the character at (0, 4), turning "x = 1\n" into "x = 2\n".
    let mut buffers: UriMap<DocumentBuffer> = UriMap::new();
    let uri = "file:///t.py".to_string();
    document_did_open(&mut buffers, uri.clone(), "x = 1\n".to_string());
    let change = ContentChange {
        range: Some(Range {
            start: Position { line: 0, character: 4 },
            end: Position { line: 0, character: 5 },
        }),
        text: "2".to_string(),
    };
    document_did_change(&mut buffers, &uri, &vec![change]).unwrap();
    let buffer = buffers.get(&uri).unwrap();
    assert_eq!(buffer.iter().into_iter().collect::<String>(), "x = 2\n");
}

#[test]
fn edit_of_unopened_document_is_refused() {
    let mut buffers: UriMap<DocumentBuffer> = UriMap::new();
    let uri = "file:///missing.py".to_string();
    let res = document_did_change(&mut buffers, &uri, &vec![]);
    match res {
        Err(RuntimeError::EditUnopenedDocument(u)) => assert_eq!(u, uri),
        other => panic!("unexpected outcome: {:?}", other),
    }
}

#[test]
fn change_without_range_is_refused() {
    let mut buffers: UriMap<DocumentBuffer> = UriMap::new();
    let uri = "file:///t.py".to_string();
    document_did_open(&mut buffers, uri.clone(), "x = 1\n".to_string());
    let change = ContentChange { range: None, text: "anything".to_string() };
    let res = document_did_change(&mut buffers, &uri, &vec![change]);
    assert!(matches!(res, Err(RuntimeError::UnexpectedNone)));
}

#[test]
fn reopening_replaces_the_buffer() {
    // Opening the same URI twice keeps a single entry holding the
    // latest text.
    let mut buffers: UriMap<DocumentBuffer> = UriMap::new();
    let uri = "file:///t.py".to_string();
    document_did_open(&mut buffers, uri.clone(), "first\n".to_string());
    document_did_open(&mut buffers, uri.clone(), "second\n".to_string());
    let buffer = buffers.get(&uri).unwrap();
    assert_eq!(buffer.iter().into_iter().collect::<String>(), "second\n");
}

#[test]
fn code_action_for_unknown_document_is_null() {
    // An unknown URI yields no list at all, distinct from an empty
    // list for a known document without matching checks.
    let checks: UriMap<CheckRegistry> = UriMap::new();
    let uri = "file:///unknown.py".to_string();
    let query = Range {
        start: Position { line: 0, character: 0 },
        end: Position { line: 5, character: 0 },
    };
    assert!(doc_code_action(&checks, &uri, query).is_none());
}

#[test]
fn diagnostics_then_code_action() {
    // A diagnostic run stores the registry; a code-action request
    // over the check's range then offers exactly its fix.
    let mut checks: UriMap<CheckRegistry> = UriMap::new();
    let uri = "file:///t.py".to_string();
    let diagnostics = run_diagnostic_op(&mut checks, &uri, vec![fixable_check()]);
    assert_eq!(diagnostics.len(), 1);
    let query = Range {
        start: Position { line: 0, character: 0 },
        end: Position { line: 1, character: 0 },
    };
    let actions = doc_code_action(&checks, &uri, query).unwrap();
    assert_eq!(actions.len(), 1);
    assert_eq!(actions[0].title, "fix W292");
    assert_eq!(actions[0].diagnostics[0].range, diagnostics[0].range);
    let miss = Range {
        start: Position { line: 7, character: 0 },
        end: Position { line: 8, character: 0 },
    };
    let empty = doc_code_action(&checks, &uri, miss).unwrap();
    assert!(empty.is_empty());
}

#[test]
fn initial_state_capabilities() {
    let state = ServerState::from_init(Some("file:///project".to_string()));
    assert!(state.capabilities.text_document_sync.open_close);
    assert!(state.capabilities.text_document_sync.change_incremental);
    assert!(state.capabilities.text_document_sync.will_save);
    assert_eq!(state.project_root.as_deref(), Some("file:///project"));
}

#[test]
fn many_edits_keep_sums_consistent() {
    // A long burst of front inserts and interior deletes leaves the
    // tree answering exact prefix sums.
    let mut tree = ruffd::agg_avl_tree::AggAvlTree::new();
    for i in 0..500usize {
        tree.insert_front(i);
    }
    assert_eq!(tree.len(), 500);
    assert_eq!(tree.get_range(0, 500), Some((0..500).sum()));
    for _ in 0..250usize {
        tree.delete(0).unwrap();
    }
    assert_eq!(tree.len(), 250);
    assert_eq!(tree.get(0), Some(249));
}
