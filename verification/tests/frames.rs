//! The protocol's frames as JSON text, written and read the way the wire
//! format lays them out, around the library's frame values.

use diff_core::json::JsonValue;
use diff_core::protocol::{
    err_response, notification, ok_response, ErrorObj, JsonRpcVersion, Message, Notification,
    Request, Response, ResponseOutcome,
};
use serde_json::{Number, Value};

fn to_serde(v: &JsonValue) -> Value {
    match v {
        JsonValue::Null => Value::Null,
        JsonValue::Bool(b) => Value::Bool(*b),
        JsonValue::Number(n) => serde_json::from_str(n).unwrap(),
        JsonValue::Str(s) => Value::String(s.clone()),
        JsonValue::Array(a) => Value::Array(a.iter().map(to_serde).collect()),
        JsonValue::Object(fs) => {
            let mut m = serde_json::Map::new();
            for (k, v) in fs {
                m.insert(k.clone(), to_serde(v));
            }
            Value::Object(m)
        }
    }
}

fn from_serde(v: &Value) -> JsonValue {
    match v {
        Value::Null => JsonValue::Null,
        Value::Bool(b) => JsonValue::Bool(*b),
        Value::Number(n) => JsonValue::Number(n.to_string()),
        Value::String(s) => JsonValue::Str(s.clone()),
        Value::Array(a) => JsonValue::Array(a.iter().map(from_serde).collect()),
        Value::Object(m) => JsonValue::Object(m.iter().map(|(k, v)| (k.clone(), from_serde(v))).collect()),
    }
}

fn obj(fields: Vec<(&str, Value)>) -> Value {
    let mut m = serde_json::Map::new();
    for (k, v) in fields {
        m.insert(k.to_string(), v);
    }
    Value::Object(m)
}

fn version() -> Value {
    Value::String(JsonRpcVersion::text().to_string())
}

fn write_request(r: &Request) -> String {
    obj(vec![
        ("jsonrpc", version()),
        ("id", Value::Number(Number::from(r.id))),
        ("method", Value::String(r.method.clone())),
        ("params", to_serde(&r.params)),
    ])
    .to_string()
}

fn write_response(r: &Response) -> String {
    let mut fields = vec![("jsonrpc", version()), ("id", Value::Number(Number::from(r.id)))];
    match &r.outcome {
        ResponseOutcome::Result(v) => fields.push(("result", to_serde(v))),
        ResponseOutcome::Error(e) => {
            let mut ef = vec![("code", Value::Number(Number::from(e.code))), ("message", Value::String(e.message.clone()))];
            if let Some(d) = &e.data {
                ef.push(("data", to_serde(d)));
            }
            fields.push(("error", obj(ef)));
        }
    }
    obj(fields).to_string()
}

fn write_notification(n: &Notification) -> String {
    obj(vec![("jsonrpc", version()), ("method", Value::String(n.method.clone())), ("params", to_serde(&n.params))])
        .to_string()
}

fn read_frame(text: &str) -> Option<Message> {
    let v: Value = serde_json::from_str(text).ok()?;
    JsonRpcVersion::parse(v.get("jsonrpc")?.as_str()?).ok()?;
    let params = v.get("params").map(from_serde).unwrap_or(JsonValue::Null);
    let id = v.get("id").and_then(|i| i.as_u64());
    let method = v.get("method").and_then(|m| m.as_str()).map(|m| m.to_string());
    match (id, method) {
        (Some(id), Some(method)) => Some(Message::Request(Request { jsonrpc: JsonRpcVersion, id, method, params })),
        (Some(id), None) => {
            let outcome = if let Some(r) = v.get("result") {
                ResponseOutcome::Result(from_serde(r))
            } else {
                let e = v.get("error")?;
                ResponseOutcome::Error(ErrorObj {
                    code: e.get("code")?.as_i64()? as i32,
                    message: e.get("message")?.as_str()?.to_string(),
                    data: e.get("data").map(from_serde),
                })
            };
            Some(Message::Response(Response { jsonrpc: JsonRpcVersion, id, outcome }))
        }
        (None, Some(method)) => Some(Message::Notification(Notification { jsonrpc: JsonRpcVersion, method, params })),
        (None, None) => None,
    }
}

#[test]
fn request_roundtrip() {
    let req = Request { jsonrpc: JsonRpcVersion, id: 42, method: "get_status".to_string(), params: JsonValue::empty_object() };
    let s = write_request(&req);
    assert!(s.contains("\"jsonrpc\":\"2.0\""));
    assert!(s.contains("\"id\":42"));
    assert!(s.contains("\"method\":\"get_status\""));
    assert!(matches!(read_frame(&s), Some(Message::Request(_))));
}

#[test]
fn response_ok_roundtrip() {
    let resp = ok_response(7, JsonValue::Object(vec![("branch".to_string(), JsonValue::Str("main".to_string()))]));
    let s = write_response(&resp);
    let back = match read_frame(&s) {
        Some(Message::Response(r)) => r,
        other => panic!("expected a response, got {other:?}"),
    };
    assert_eq!(back.id, 7);
    match back.outcome {
        ResponseOutcome::Result(v) => assert_eq!(v.get("branch").and_then(|b| b.as_str()), Some("main")),
        _ => panic!("expected Result"),
    }
}

#[test]
fn response_err_roundtrip() {
    let resp = err_response(8, -32000, "no repository open".to_string());
    let s = write_response(&resp);
    let back = match read_frame(&s) {
        Some(Message::Response(r)) => r,
        other => panic!("expected a response, got {other:?}"),
    };
    assert_eq!(back.id, 8);
    match back.outcome {
        ResponseOutcome::Error(e) => {
            assert_eq!(e.code, -32000);
            assert_eq!(e.message, "no repository open");
        }
        _ => panic!("expected Error"),
    }
}

#[test]
fn notification_roundtrip() {
    let notif = notification("repo:changed", JsonValue::empty_object());
    let s = write_notification(&notif);
    match read_frame(&s) {
        Some(Message::Notification(back)) => assert_eq!(back.method, "repo:changed"),
        other => panic!("expected a notification, got {other:?}"),
    }
}

#[test]
fn message_enum_dispatches_correctly() {
    let req_str = r#"{"jsonrpc":"2.0","id":1,"method":"get_status","params":{}}"#;
    let resp_str = r#"{"jsonrpc":"2.0","id":1,"result":{"branch":"main"}}"#;
    let notif_str = r#"{"jsonrpc":"2.0","method":"repo:changed","params":{}}"#;
    assert!(matches!(read_frame(req_str), Some(Message::Request(_))));
    assert!(matches!(read_frame(resp_str), Some(Message::Response(_))));
    assert!(matches!(read_frame(notif_str), Some(Message::Notification(_))));
}
