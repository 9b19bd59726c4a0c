use diff_core::agent::{route_request, BackendCall};
use diff_core::json::JsonValue;
use diff_core::protocol::{err_response, notification, ok_response, Message, Request, JsonRpcVersion};
use diff_core::remote::{batch_params, build_request, commit_params, frame_action, path_params, response_result, FrameAction, PendingCalls};
use diff_core::types::{BackendError, FileContentsRequest};

#[test]
fn responses_become_results() {
    match response_result(ok_response(1, JsonValue::Str("main".into()))) {
        Ok(JsonValue::Str(s)) => assert_eq!(s, "main"),
        other => panic!("unexpected {other:?}"),
    }
    match response_result(err_response(2, -32000, "git error: x".into())) {
        Err(BackendError::Protocol { code, message }) => {
            assert_eq!(code, -32000);
            assert_eq!(message, "git error: x");
        }
        other => panic!("unexpected {other:?}"),
    }
}

#[test]
fn reader_dispatches_frames() {
    match frame_action(Message::Response(ok_response(7, JsonValue::Null))) {
        FrameAction::Deliver(r) => assert_eq!(r.id, 7),
        other => panic!("unexpected {other:?}"),
    }
    assert!(matches!(
        frame_action(Message::Notification(notification("repo:changed", JsonValue::empty_object()))),
        FrameAction::NotifyChanged
    ));
    assert!(matches!(
        frame_action(Message::Notification(notification("other", JsonValue::empty_object()))),
        FrameAction::Ignore
    ));
    let req = Request { jsonrpc: JsonRpcVersion, id: 1, method: "x".into(), params: JsonValue::Null };
    assert!(matches!(frame_action(Message::Request(req)), FrameAction::Ignore));
}

#[test]
fn request_parameters() {
    let r = build_request(3, "stage_file", path_params("a.txt"));
    assert_eq!(r.id, 3);
    assert_eq!(r.method, "stage_file");
    assert_eq!(r.params.get("path").and_then(|p| p.as_str()), Some("a.txt"));
    let c = commit_params("init", false);
    assert_eq!(c.get("message").and_then(|p| p.as_str()), Some("init"));
    assert_eq!(c.get("amend").and_then(|p| p.as_bool()), Some(false));
    let b = batch_params(&vec![FileContentsRequest { path: "x".into(), staged: true }]);
    match b.get("requests") {
        Some(JsonValue::Array(a)) => {
            assert_eq!(a[0].get("path").and_then(|p| p.as_str()), Some("x"));
            assert_eq!(a[0].get("staged").and_then(|p| p.as_bool()), Some(true));
        }
        other => panic!("unexpected {other:?}"),
    }
}

#[test]
fn pending_calls_deliver_once_to_their_caller() {
    let mut p: PendingCalls<&str> = PendingCalls::new();
    assert!(p.can_register());
    let a = p.register("first");
    let b = p.register("second");
    assert_eq!(a, 1);
    assert_eq!(b, 2);
    assert_eq!(p.take(2), Some("second"));
    assert_eq!(p.take(2), None);
    assert_eq!(p.take(9), None);
    let c = p.register("third");
    assert_eq!(c, 3);
    p.clear();
    assert_eq!(p.take(1), None);
    assert_eq!(p.take(3), None);
    assert_eq!(p.register("fourth"), 4);
}

#[test]
fn built_requests_route_to_their_operation() {
    match route_request(build_request(5, "discard_file", path_params("src/a b.rs"))) {
        Ok(BackendCall::DiscardFile(p)) => assert_eq!(p, "src/a b.rs"),
        other => panic!("unexpected {other:?}"),
    }
    match route_request(build_request(6, "commit", commit_params("fix", true))) {
        Ok(BackendCall::Commit { message, amend }) => {
            assert_eq!(message, "fix");
            assert!(amend);
        }
        other => panic!("unexpected {other:?}"),
    }
    let reqs = vec![FileContentsRequest { path: "x".into(), staged: false }];
    assert!(matches!(
        route_request(build_request(7, "get_file_contents_batch", batch_params(&reqs))),
        Ok(BackendCall::GetFileContentsBatch(JsonValue::Array(_)))
    ));
    assert!(matches!(route_request(build_request(8, "unstage_all", JsonValue::empty_object())), Ok(BackendCall::UnstageAll)));
}

#[test]
fn agent_errors_reach_the_caller() {
    let refused = match route_request(build_request(9, "push", JsonValue::empty_object())) {
        Err(resp) => resp,
        Ok(c) => panic!("unexpected {c:?}"),
    };
    assert_eq!(refused.id, 9);
    match response_result(refused) {
        Err(BackendError::Protocol { code, message }) => {
            assert_eq!(code, -32601);
            assert_eq!(message, "unknown method: push");
        }
        other => panic!("unexpected {other:?}"),
    }
}
