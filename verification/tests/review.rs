use diff_core::review::{
    interpret_submit_response, server_base_url, server_info_path, server_url, sidecar_script_path,
    state_dir, validate_comments, ActionType, CommentIdMapping, ReviewComment, SseParser,
    SubmitResponse,
};

fn comment(path: &str, text: &str, start: u32, end: u32) -> ReviewComment {
    ReviewComment {
        key: "k".into(),
        file_path: path.into(),
        line_start: start,
        line_end: end,
        comment: text.into(),
        action_type: ActionType::Nit,
    }
}

#[test]
fn review_validation() {
    assert_eq!(validate_comments(&vec![]).unwrap_err(), "cannot submit an empty review");
    assert!(validate_comments(&vec![comment("a.rs", "fix", 1, 2)]).is_ok());
    assert_eq!(
        validate_comments(&vec![comment("a.rs", "fix", 1, 1), comment(" ", "x", 1, 1)]).unwrap_err(),
        "review comment file path cannot be empty"
    );
    assert_eq!(validate_comments(&vec![comment("a.rs", "\t", 1, 1)]).unwrap_err(), "review comment text cannot be empty");
    assert_eq!(validate_comments(&vec![comment("a.rs", "x", 9, 3)]).unwrap_err(), "invalid line range for a.rs: 9..3");
}

#[test]
fn submit_answers() {
    let rejected = SubmitResponse { ok: false, accepted_count: None, comment_ids: None, error: Some("busy".into()) };
    assert_eq!(interpret_submit_response(rejected).unwrap_err(), "review server rejected submission: busy");
    let unknown = SubmitResponse { ok: false, accepted_count: Some(1), comment_ids: None, error: None };
    assert_eq!(interpret_submit_response(unknown).unwrap_err(), "review server rejected submission: unknown error");
    let no_count = SubmitResponse { ok: true, accepted_count: None, comment_ids: None, error: None };
    assert_eq!(interpret_submit_response(no_count).unwrap_err(), "server omitted accepted_count");
    let ids = vec![CommentIdMapping { key: "k".into(), id: "c1".into() }];
    let ok = SubmitResponse { ok: true, accepted_count: Some(1), comment_ids: Some(ids), error: None };
    let r = interpret_submit_response(ok).unwrap();
    assert_eq!(r.submitted_count, 1);
    assert_eq!(r.comment_ids[0].id, "c1");
    let bare = SubmitResponse { ok: true, accepted_count: Some(0), comment_ids: None, error: None };
    assert!(interpret_submit_response(bare).unwrap().comment_ids.is_empty());
}

#[test]
fn server_addresses() {
    assert_eq!(server_base_url(4317), "http://127.0.0.1:4317");
    assert_eq!(server_url(80, "/events"), "http://127.0.0.1:80/events");
    assert_eq!(state_dir(Some("/home/u".into()), None).unwrap(), "/home/u/.diff");
    assert_eq!(state_dir(None, Some("C:/Users/u".into())).unwrap(), "C:/Users/u/.diff");
    assert_eq!(state_dir(None, None).unwrap_err(), "failed to resolve home directory");
    assert_eq!(server_info_path(Some("/h".into()), Some("/p".into())).unwrap(), "/h/.diff/review-bridge.json");
}

#[test]
fn sidecar_location() {
    assert_eq!(sidecar_script_path("/app", true, true).unwrap(), "/app/sidecar/diff-mcp.js");
    assert_eq!(sidecar_script_path("/app", false, true).unwrap(), "/app/diff-mcp.js");
    assert_eq!(
        sidecar_script_path("/app", false, false).unwrap_err(),
        "missing sidecar script (checked /app/sidecar/diff-mcp.js and /app/diff-mcp.js)"
    );
}

#[test]
fn event_stream_relays_status_changes() {
    let mut p = SseParser::new();
    assert_eq!(p.feed_line(": keep-alive"), None);
    assert_eq!(p.feed_line("event: comment_status_changed"), None);
    assert_eq!(p.feed_line("data: {\"a\":"), None);
    assert_eq!(p.feed_line("data: 1}"), None);
    assert_eq!(p.feed_line(""), Some("{\"a\":1}".to_string()));
    assert_eq!(p.event_name, "");
    assert_eq!(p.data, "");
    assert_eq!(p.feed_line("event: other"), None);
    assert_eq!(p.feed_line("data: x"), None);
    assert_eq!(p.feed_line(""), None);
    assert_eq!(p.feed_line("event: comment_status_changed"), None);
    assert_eq!(p.feed_line(""), None);
}
