use std::collections::HashSet;

use roslyn_ls::codec::encode;
use roslyn_ls::errors::ProxyError;
use roslyn_ls::hooks::{
    DocumentDidCloseHook, DocumentDidOpenHook, InitializeHook, RemoveParams, SyntheticIds,
    WorkspaceProjectInitializationComplete, WorkspaceRoslynNeedsRestore,
};
use roslyn_ls::json::Json;
use roslyn_ls::message::{message_clone, Direction, Message, MsgId};
use roslyn_ls::proxy::{Hook, HookKind, LspProxy, ProcessOutcome};
use roslyn_ls::state::SessionState;
use roslyn_ls::token::generate_restore_token;
use roslyn_ls::transport::{EndState, LspTransport, PumpRead};
use roslyn_ls::workspace::Candidate;

fn bytes(s: &str) -> Vec<u8> {
    s.as_bytes().to_vec()
}

fn obj(members: Vec<(&str, Json)>) -> Json {
    Json::Obj(members.into_iter().map(|(k, v)| (bytes(k), v)).collect())
}

fn did_open_notification(uri: &str) -> Message {
    Message::Notification {
        method: bytes("textDocument/didOpen"),
        params: Some(obj(vec![(
            "textDocument",
            obj(vec![("uri", Json::Str(bytes(uri)))]),
        )])),
    }
}

fn did_close_notification(uri: &str) -> Message {
    Message::Notification {
        method: bytes("textDocument/didClose"),
        params: Some(obj(vec![(
            "textDocument",
            obj(vec![("uri", Json::Str(bytes(uri)))]),
        )])),
    }
}

fn standard_proxy(solution_path: Option<String>, project_paths: Option<Vec<String>>) -> LspProxy {
    let mut proxy = LspProxy::new();
    proxy.add_request_hook(Hook::new(
        bytes("initialize"),
        HookKind::Initialize(InitializeHook::new(solution_path, project_paths)),
    ));
    proxy.add_request_hook(Hook::new(
        bytes("textDocument/didOpen"),
        HookKind::DidOpen(DocumentDidOpenHook::new()),
    ));
    proxy.add_request_hook(Hook::new(
        bytes("textDocument/didClose"),
        HookKind::DidClose(DocumentDidCloseHook::new()),
    ));
    proxy.add_response_hook(Hook::new(
        bytes("workspace/projectInitializationComplete"),
        HookKind::ProjectInitializationComplete(WorkspaceProjectInitializationComplete::new()),
    ));
    proxy.add_response_hook(Hook::new(
        bytes("workspace/_roslyn_projectNeedsRestore"),
        HookKind::NeedsRestore(WorkspaceRoslynNeedsRestore::new()),
    ));
    for method in [
        "workspace/diagnostic/refresh",
        "workspace/inlayHint/refresh",
        "workspace/codeLens/refresh",
    ] {
        proxy.add_response_hook(Hook::new(
            bytes(method),
            HookKind::StripParams(RemoveParams::new()),
        ));
    }
    proxy
}

// open then close clears the tracked document; a stale close is a no-op
#[test]
fn open_close_state_machine() {
    let mut state = SessionState::new();
    let mut ids = SyntheticIds::new();
    let open_hook = DocumentDidOpenHook::new();
    let close_hook = DocumentDidCloseHook::new();

    open_hook.on_notification(&did_open_notification("A"), &mut state, &mut ids);
    close_hook.on_notification(&did_close_notification("A"), &mut state);
    assert_eq!(state.opened_document, None);

    open_hook.on_notification(&did_open_notification("A"), &mut state, &mut ids);
    open_hook.on_notification(&did_open_notification("B"), &mut state, &mut ids);
    close_hook.on_notification(&did_close_notification("A"), &mut state);
    assert_eq!(state.opened_document, Some(bytes("B")));
}

#[test]
fn open_emits_a_diagnostic_pull() {
    let mut state = SessionState::new();
    let mut ids = SyntheticIds::new();
    let hook = DocumentDidOpenHook::new();
    let out = hook.on_notification(&did_open_notification("file:///a.cs"), &mut state, &mut ids);
    assert!(out.primary.is_some());
    assert_eq!(out.extras.len(), 1);
    let (dir, extra) = &out.extras[0];
    assert_eq!(*dir, Direction::ToServer);
    match extra {
        Message::Request { id: _, method, params } => {
            assert_eq!(method, &bytes("textDocument/diagnostic"));
            assert!(params.is_some());
        }
        other => panic!("expected a request, got {:?}", other),
    }
}

// ten thousand generated tokens all match the shape and never collide
#[test]
fn token_shape_and_uniqueness() {
    let mut seen: HashSet<Vec<u8>> = HashSet::new();
    for _ in 0..10000 {
        let t = generate_restore_token();
        assert_eq!(t.len(), 36);
        for (i, b) in t.iter().enumerate() {
            match i {
                8 | 13 | 18 | 23 => assert_eq!(*b, b'-'),
                14 => assert_eq!(*b, b'4'),
                19 => assert!(matches!(*b, b'8' | b'9' | b'a' | b'b')),
                _ => assert!(b.is_ascii_hexdigit() && !b.is_ascii_uppercase()),
            }
        }
        assert!(seen.insert(t), "token collision");
    }
}

// an explicit solution wins over explicit projects, and is announced
#[test]
fn initialization_priority_prefers_the_solution() {
    let mut proxy = standard_proxy(
        Some(String::from("/s.sln")),
        Some(vec![String::from("/p.csproj")]),
    );
    let request = Message::Request {
        id: MsgId::Int(1),
        method: bytes("initialize"),
        params: Some(obj(vec![("rootUri", Json::Str(bytes("file:///repo")))])),
    };
    let out = match proxy.process_request(message_clone(&request)) {
        Ok(ProcessOutcome::Done(o)) => o,
        other => panic!("expected a finished outcome, got {:?}", other),
    };
    assert_eq!(out.primary, Some(request));
    assert_eq!(out.extras.len(), 1);
    let (dir, extra) = &out.extras[0];
    assert_eq!(*dir, Direction::ToServer);
    match extra {
        Message::Notification { method, params } => {
            assert_eq!(method, &bytes("solution/open"));
            assert_eq!(
                params,
                &Some(obj(vec![("solution", Json::Str(bytes("/s.sln")))]))
            );
        }
        other => panic!("expected a notification, got {:?}", other),
    }
}

// end-to-end: an initialize without explicit paths walks the workspace
// and announces the discovered solution right after the request
#[test]
fn initialize_discovers_a_solution() {
    let mut proxy = standard_proxy(None, None);
    let request = Message::Request {
        id: MsgId::Int(1),
        method: bytes("initialize"),
        params: Some(obj(vec![("rootUri", Json::Str(bytes("file:///repo")))])),
    };
    let root = match proxy.process_request(message_clone(&request)) {
        Ok(ProcessOutcome::NeedsWorkspaceScan { root }) => root,
        other => panic!("expected a scan request, got {:?}", other),
    };
    assert_eq!(root, "/repo");
    // the walk found one solution and one project file
    let solutions = vec![Candidate {
        depth: 1,
        path: format!("{}/Foo.sln", root),
    }];
    let projects = vec![Candidate {
        depth: 2,
        path: format!("{}/src/Bar.csproj", root),
    }];
    let out = proxy
        .complete_initialize(&request, &solutions, &projects)
        .expect("initialization should resolve");
    assert_eq!(out.primary, Some(message_clone(&request)));
    assert_eq!(out.extras.len(), 1);
    let (dir, extra) = &out.extras[0];
    assert_eq!(*dir, Direction::ToServer);
    let expected = Message::Notification {
        method: bytes("solution/open"),
        params: Some(obj(vec![(
            "solution",
            Json::Str(bytes("file:///repo/Foo.sln")),
        )])),
    };
    assert_eq!(extra, &expected);
    // server-bound bytes: the request verbatim, then the announcement
    let mut wire = encode(&request);
    wire.extend_from_slice(&encode(&expected));
    assert!(wire.starts_with(&encode(&request)));
}

#[test]
fn initialize_without_a_root_fails_as_configuration() {
    let mut proxy = standard_proxy(None, None);
    let request = Message::Request {
        id: MsgId::Int(1),
        method: bytes("initialize"),
        params: None,
    };
    assert_eq!(
        proxy.process_request(request),
        Err(ProxyError::ConfigurationError)
    );
}

// each restore-needed signal yields one restore request with a fresh token
#[test]
fn needs_restore_yields_one_tokened_request_per_signal() {
    let mut proxy = standard_proxy(None, None);
    let signal = Message::Notification {
        method: bytes("workspace/_roslyn_projectNeedsRestore"),
        params: None,
    };
    let mut tokens: Vec<Vec<u8>> = Vec::new();
    for _ in 0..2 {
        let out = match proxy.process_response(message_clone(&signal)) {
            Ok(ProcessOutcome::Done(o)) => o,
            other => panic!("expected a finished outcome, got {:?}", other),
        };
        assert_eq!(out.primary, None);
        assert_eq!(out.extras.len(), 1);
        let (dir, extra) = &out.extras[0];
        assert_eq!(*dir, Direction::ToServer);
        match extra {
            Message::Request { id: _, method, params } => {
                assert_eq!(method, &bytes("workspace/_roslyn_restore"));
                match params {
                    Some(Json::Obj(ps)) => {
                        assert_eq!(ps.len(), 1);
                        assert_eq!(ps[0].0, bytes("partialResultToken"));
                        match &ps[0].1 {
                            Json::Str(t) => tokens.push(t.clone()),
                            other => panic!("expected a token string, got {:?}", other),
                        }
                    }
                    other => panic!("expected params with a token, got {:?}", other),
                }
            }
            other => panic!("expected a request, got {:?}", other),
        }
    }
    assert_ne!(tokens[0], tokens[1]);
    for t in tokens {
        assert_eq!(t.len(), 36);
        assert_eq!(t[14], b'4');
    }
}

// a refresh request reaches the client with its params stripped
#[test]
fn refresh_params_are_stripped() {
    let mut proxy = standard_proxy(None, None);
    let refresh = Message::Request {
        id: MsgId::Int(3),
        method: bytes("workspace/inlayHint/refresh"),
        params: Some(obj(vec![("anything", Json::Bool(true))])),
    };
    let out = match proxy.process_response(refresh) {
        Ok(ProcessOutcome::Done(o)) => o,
        other => panic!("expected a finished outcome, got {:?}", other),
    };
    assert_eq!(
        out.primary,
        Some(Message::Request {
            id: MsgId::Int(3),
            method: bytes("workspace/inlayHint/refresh"),
            params: None,
        })
    );
    assert_eq!(out.extras.len(), 0);
}

// once the server is ready, the tracked document gets a diagnostic pull
// and the readiness signal stays away from the client
#[test]
fn project_initialization_complete_pulls_diagnostics() {
    let mut proxy = standard_proxy(None, None);
    proxy
        .process_request(did_open_notification("file:///repo/a.cs"))
        .expect("the open should be processed");
    let ready = Message::Notification {
        method: bytes("workspace/projectInitializationComplete"),
        params: None,
    };
    let out = match proxy.process_response(message_clone(&ready)) {
        Ok(ProcessOutcome::Done(o)) => o,
        other => panic!("expected a finished outcome, got {:?}", other),
    };
    assert_eq!(out.primary, None);
    assert_eq!(out.extras.len(), 1);
    match &out.extras[0].1 {
        Message::Request { id: _, method, params } => {
            assert_eq!(method, &bytes("textDocument/diagnostic"));
            assert_eq!(
                params,
                &Some(obj(vec![(
                    "textDocument",
                    obj(vec![("uri", Json::Str(bytes("file:///repo/a.cs")))]),
                )]))
            );
        }
        other => panic!("expected a request, got {:?}", other),
    }
    // with nothing open the signal passes through unchanged
    let mut fresh = standard_proxy(None, None);
    let out = match fresh.process_response(message_clone(&ready)) {
        Ok(ProcessOutcome::Done(o)) => o,
        other => panic!("expected a finished outcome, got {:?}", other),
    };
    assert_eq!(out.primary, Some(ready));
    assert_eq!(out.extras.len(), 0);
}

// a truncated body fails its own pump while the other keeps its traffic
#[test]
fn framing_failure_stays_in_its_own_direction() {
    let mut failing = LspTransport::new();
    failing.feed(&b"Content-Length: 50\r\n\r\n0123456789".to_vec());
    assert!(matches!(failing.next_message(), PumpRead::NeedMore));
    // the stream closes here: what remains is a truncated message
    assert_eq!(failing.at_end(), EndState::Truncated);

    let mut healthy = LspTransport::new();
    let msg = Message::Notification {
        method: bytes("exit"),
        params: None,
    };
    healthy.feed(&encode(&msg));
    match healthy.next_message() {
        PumpRead::Msg(m) => assert_eq!(m, msg),
        other => panic!("expected the buffered message, got {:?}", other),
    }
    assert_eq!(healthy.at_end(), EndState::Clean);
}

#[test]
fn transport_reassembles_split_chunks() {
    let msg = Message::Request {
        id: MsgId::Int(9),
        method: bytes("m"),
        params: None,
    };
    let wire = encode(&msg);
    let mut t = LspTransport::new();
    let (a, b) = wire.split_at(7);
    t.feed(&a.to_vec());
    assert!(matches!(t.next_message(), PumpRead::NeedMore));
    t.feed(&b.to_vec());
    match t.next_message() {
        PumpRead::Msg(m) => assert_eq!(m, msg),
        other => panic!("expected the message, got {:?}", other),
    }
    assert!(matches!(t.next_message(), PumpRead::NeedMore));
}

#[test]
fn transport_reports_framing_and_serialization_failures() {
    let mut t = LspTransport::new();
    t.feed(&b"X-Only: 1\r\n\r\n{}".to_vec());
    assert!(matches!(
        t.next_message(),
        PumpRead::Failed(ProxyError::FramingError)
    ));

    let mut t2 = LspTransport::new();
    t2.feed(&b"Content-Length: 4\r\n\r\nnope".to_vec());
    assert!(matches!(
        t2.next_message(),
        PumpRead::Failed(ProxyError::SerializationError)
    ));
}

// a response consumes the correlation entry its request made
#[test]
fn responses_pass_through() {
    let mut proxy = standard_proxy(None, None);
    let request = Message::Request {
        id: MsgId::Int(5),
        method: bytes("textDocument/hover"),
        params: None,
    };
    proxy.process_request(request).expect("request should pass");
    let response = Message::Response {
        id: MsgId::Int(5),
        body: roslyn_ls::message::ResponseBody::Success(Json::Null),
    };
    let out = match proxy.process_response(message_clone(&response)) {
        Ok(ProcessOutcome::Done(o)) => o,
        other => panic!("expected a finished outcome, got {:?}", other),
    };
    assert_eq!(out.primary, Some(response));
    assert_eq!(out.extras.len(), 0);
}

// a method with no registered hook is forwarded verbatim
#[test]
fn unhooked_methods_pass_through_verbatim() {
    let mut proxy = standard_proxy(None, None);
    let request = Message::Request {
        id: MsgId::Int(11),
        method: bytes("textDocument/completion"),
        params: Some(obj(vec![("position", Json::Int(4))])),
    };
    let out = match proxy.process_request(message_clone(&request)) {
        Ok(ProcessOutcome::Done(o)) => o,
        other => panic!("expected a finished outcome, got {:?}", other),
    };
    assert_eq!(out.primary, Some(request));
    assert_eq!(out.extras.len(), 0);

    let notification = Message::Notification {
        method: bytes("$/progress"),
        params: None,
    };
    let out = match proxy.process_response(message_clone(&notification)) {
        Ok(ProcessOutcome::Done(o)) => o,
        other => panic!("expected a finished outcome, got {:?}", other),
    };
    assert_eq!(out.primary, Some(notification));
    assert_eq!(out.extras.len(), 0);
}

// a close of a document that is not tracked forwards unchanged
#[test]
fn stale_close_forwards_unchanged() {
    let mut state = SessionState::new();
    let close_hook = DocumentDidCloseHook::new();
    let notification = did_close_notification("X");
    let out = close_hook.on_notification(&notification, &mut state);
    assert_eq!(out.primary, Some(notification));
    assert_eq!(out.extras.len(), 0);
    assert_eq!(state.opened_document, None);
}
