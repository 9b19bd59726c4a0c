use diff_core::json::JsonValue;
use diff_core::protocol::{
    err_response, notification, ok_response, ErrorObj, JsonRpcVersion, Message, Notification,
    Request, Response, ResponseOutcome, APPLICATION_ERROR, METHOD_NOT_FOUND,
};

fn obj(fields: Vec<(&str, JsonValue)>) -> JsonValue {
    JsonValue::Object(fields.into_iter().map(|(k, v)| (k.to_string(), v)).collect())
}

#[test]
fn ok_response_carries_result() {
    let resp = ok_response(7, obj(vec![("branch", JsonValue::Str("main".to_string()))]));
    assert_eq!(resp.id, 7);
    match resp.outcome {
        ResponseOutcome::Result(v) => {
            assert!(matches!(v.get("branch").and_then(|b| b.as_str()), Some("main")));
        }
        _ => panic!("expected Result"),
    }
}

#[test]
fn err_response_carries_code_and_message() {
    let resp = err_response(8, -32000, "no repository open".to_string());
    assert_eq!(resp.id, 8);
    match resp.outcome {
        ResponseOutcome::Error(e) => {
            assert_eq!(e.code, -32000);
            assert_eq!(e.code, APPLICATION_ERROR);
            assert_eq!(e.message, "no repository open");
            assert!(e.data.is_none());
        }
        _ => panic!("expected Error"),
    }
}

#[test]
fn notification_has_method() {
    let notif: Notification = notification("repo:changed", JsonValue::empty_object());
    assert_eq!(notif.method, "repo:changed");
}

#[test]
fn rejects_wrong_jsonrpc_version() {
    let frame: serde_json::Value =
        serde_json::from_str(r#"{"jsonrpc":"1.0","id":1,"method":"x","params":{}}"#).unwrap();
    let version = frame["jsonrpc"].as_str().unwrap();
    assert!(JsonRpcVersion::parse(version).is_err());
}

#[test]
fn version_accepts_only_two_point_zero() {
    assert!(JsonRpcVersion::parse("2.0").is_ok());
    let err = JsonRpcVersion::parse("1.0").unwrap_err();
    assert_eq!(err, "unsupported jsonrpc version: 1.0");
    assert_eq!(JsonRpcVersion::text(), "2.0");
}

#[test]
fn message_variants_hold_frames() {
    let req = Request {
        jsonrpc: JsonRpcVersion,
        id: 1,
        method: "get_status".to_string(),
        params: JsonValue::empty_object(),
    };
    let m = Message::Request(req);
    assert!(matches!(m, Message::Request(_)));
    let r: Response = err_response(1, METHOD_NOT_FOUND, "unknown method: x".to_string());
    assert!(matches!(Message::Response(r), Message::Response(_)));
    let _e = ErrorObj { code: 0, message: String::new(), data: None };
}
