use diff_core::agent::{
    map_unit, params_str_field, parse_args, parse_error_response, respond, route_request,
    BackendCall, CallOutcome,
};
use diff_core::json::JsonValue;
use diff_core::protocol::{
    Request, Response, ResponseOutcome, APPLICATION_ERROR, INVALID_PARAMS, JsonRpcVersion,
    METHOD_NOT_FOUND, PARSE_ERROR,
};
use diff_core::types::{BackendError, ChangeKind, FileEntry, RepoStatus};

fn args(a: &[&str]) -> Vec<String> {
    a.iter().map(|s| s.to_string()).collect()
}

fn obj(fields: Vec<(&str, JsonValue)>) -> JsonValue {
    JsonValue::Object(fields.into_iter().map(|(k, v)| (k.to_string(), v)).collect())
}

fn req(method: &str, params: JsonValue) -> Request {
    Request { jsonrpc: JsonRpcVersion, id: 5, method: method.to_string(), params }
}

fn error_of(resp: Response) -> (i32, String) {
    match resp.outcome {
        ResponseOutcome::Error(e) => (e.code, e.message),
        _ => panic!("expected error"),
    }
}

#[test]
fn agent_arguments() {
    assert_eq!(parse_args(&args(&["--stdio", "--repo", "/r"])).unwrap().repo, "/r");
    assert_eq!(parse_args(&args(&["--repo", "/a", "--stdio", "--repo", "/b"])).unwrap().repo, "/b");
    assert_eq!(parse_args(&args(&["--stdio"])).unwrap_err(), "--repo is required");
    assert_eq!(parse_args(&args(&["--repo", "/r"])).unwrap_err(), "--stdio is required (only stdio transport is supported in v1)");
    assert_eq!(parse_args(&args(&["--stdio", "--repo"])).unwrap_err(), "--repo requires a value");
    assert_eq!(parse_args(&args(&["--stdio", "-x"])).unwrap_err(), "unknown argument: -x");
}

#[test]
fn agent_unknown_method_returns_error() {
    match route_request(req("nonexistent", JsonValue::empty_object())) {
        Err(resp) => {
            assert_eq!(resp.id, 5);
            let (code, msg) = error_of(resp);
            assert_eq!(code, -32601);
            assert_eq!(code, METHOD_NOT_FOUND);
            assert!(msg.contains("nonexistent"));
        }
        Ok(_) => panic!("expected error"),
    }
}

#[test]
fn methods_route_to_calls() {
    assert!(matches!(route_request(req("get_status", JsonValue::empty_object())), Ok(BackendCall::GetStatus)));
    assert!(matches!(route_request(req("unstage_all", JsonValue::Null)), Ok(BackendCall::UnstageAll)));
    match route_request(req("stage_file", obj(vec![("path", JsonValue::Str("a.txt".into()))]))) {
        Ok(BackendCall::StageFile(p)) => assert_eq!(p, "a.txt"),
        other => panic!("unexpected {other:?}"),
    }
    match route_request(req(
        "commit",
        obj(vec![("message", JsonValue::Str("init".into())), ("amend", JsonValue::Bool(true))]),
    )) {
        Ok(BackendCall::Commit { message, amend }) => {
            assert_eq!(message, "init");
            assert!(amend);
        }
        other => panic!("unexpected {other:?}"),
    }
    match route_request(req("commit", obj(vec![("message", JsonValue::Str("m".into())), ("amend", JsonValue::Str("yes".into()))]))) {
        Ok(BackendCall::Commit { amend, .. }) => assert!(!amend),
        other => panic!("unexpected {other:?}"),
    }
    match route_request(req("get_file_contents_batch", obj(vec![("requests", JsonValue::Array(vec![]))]))) {
        Ok(BackendCall::GetFileContentsBatch(JsonValue::Array(a))) => assert!(a.is_empty()),
        other => panic!("unexpected {other:?}"),
    }
}

#[test]
fn missing_params_are_invalid() {
    let (code, msg) = error_of(route_request(req("discard_file", JsonValue::empty_object())).unwrap_err());
    assert_eq!(code, INVALID_PARAMS);
    assert_eq!(msg, "missing or non-string field 'path'");
    let (code, msg) = error_of(route_request(req("get_file_contents_batch", JsonValue::empty_object())).unwrap_err());
    assert_eq!(code, INVALID_PARAMS);
    assert_eq!(msg, "missing 'requests' field");
    let p = obj(vec![("path", JsonValue::Number("3".into()))]);
    assert_eq!(params_str_field(&p, "path").unwrap_err(), "missing or non-string field 'path'");
}

#[test]
fn agent_returns_empty_status_on_fresh_repo() {
    let status = RepoStatus { staged: vec![], unstaged: vec![], untracked: vec![] };
    let resp = respond(3, CallOutcome::Status(Ok(status)));
    assert_eq!(resp.id, 3);
    match resp.outcome {
        ResponseOutcome::Result(v) => {
            for field in ["staged", "unstaged", "untracked"] {
                match v.get(field) {
                    Some(JsonValue::Array(a)) => assert!(a.is_empty()),
                    other => panic!("unexpected {other:?}"),
                }
            }
        }
        _ => panic!("expected result"),
    }
}

#[test]
fn status_result_uses_wire_names() {
    let status = RepoStatus {
        staged: vec![FileEntry { path: "a.txt".into(), kind: ChangeKind::Added, additions: 40, deletions: 0 }],
        unstaged: vec![],
        untracked: vec!["b.txt".into()],
    };
    let resp = respond(1, CallOutcome::Status(Ok(status)));
    let v = match resp.outcome {
        ResponseOutcome::Result(v) => v,
        _ => panic!("expected result"),
    };
    let staged = match v.get("staged") {
        Some(JsonValue::Array(a)) => a,
        other => panic!("unexpected {other:?}"),
    };
    assert_eq!(staged[0].get("path").and_then(|p| p.as_str()), Some("a.txt"));
    assert_eq!(staged[0].get("kind").and_then(|p| p.as_str()), Some("added"));
    assert!(matches!(staged[0].get("additions"), Some(JsonValue::Number(n)) if n == "40"));
    match v.get("untracked") {
        Some(JsonValue::Array(a)) => assert_eq!(a[0].as_str(), Some("b.txt")),
        other => panic!("unexpected {other:?}"),
    }
}

#[test]
fn backend_errors_become_application_errors() {
    let resp = respond(9, CallOutcome::Unit(Err(BackendError::NoRepoOpen)));
    let (code, msg) = error_of(resp);
    assert_eq!(code, APPLICATION_ERROR);
    assert_eq!(msg, "no repository open");
    let resp = map_unit(2, Ok(()));
    assert!(matches!(resp.outcome, ResponseOutcome::Result(JsonValue::Null)));
    let resp = respond(4, CallOutcome::Oid(Ok("0123456789012345678901234567890123456789".into())));
    match resp.outcome {
        ResponseOutcome::Result(JsonValue::Str(s)) => assert_eq!(s.len(), 40),
        _ => panic!("expected oid"),
    }
    let resp = respond(4, CallOutcome::Branch(Ok(None)));
    assert!(matches!(resp.outcome, ResponseOutcome::Result(JsonValue::Null)));
}

#[test]
fn parse_errors_answer_id_zero() {
    let resp = parse_error_response("EOF while parsing");
    assert_eq!(resp.id, 0);
    let (code, msg) = error_of(resp);
    assert_eq!(code, PARSE_ERROR);
    assert_eq!(msg, "parse error: EOF while parsing");
}

#[test]
fn error_texts() {
    assert_eq!(BackendError::Git("x".into()).message(), "git error: x");
    assert_eq!(BackendError::Protocol { code: -32000, message: "boom".into() }.message(), "agent error (-32000): boom");
    assert_eq!(BackendError::BareRepo.message(), "bare repositories are not supported");
    assert_eq!(BackendError::InvalidPath("p".into()).message(), "invalid path: p");
    assert_eq!(BackendError::Transport("t".into()).message(), "transport error: t");
    assert_eq!(BackendError::Io("i".into()).message(), "io error: i");
    assert_eq!(diff_core::types::err_to_string(BackendError::NoRepoOpen), "no repository open");
}
