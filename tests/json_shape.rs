use mail_laser::webhook::{EmailPayload, JsonValue};
use serde_json::Value;

fn plain() -> EmailPayload {
    EmailPayload {
        sender: "sender@test.com".to_string(),
        sender_name: None,
        recipient: "target@example.com".to_string(),
        subject: "Integration Test".to_string(),
        body: "Hello from integration test!\r\n".to_string(),
        html_body: None,
        headers: None,
    }
}

fn full() -> EmailPayload {
    EmailPayload {
        sender_name: Some("Ann".to_string()),
        html_body: Some("<p>hi</p>".to_string()),
        headers: Some(vec![("X-Custom-Foo".to_string(), "v1".to_string())]),
        ..plain()
    }
}

fn names(p: &EmailPayload) -> Vec<String> {
    p.to_json_fields().into_iter().map(|(n, _)| n).collect()
}

fn to_text(p: &EmailPayload) -> String {
    let mut object = serde_json::Map::new();
    for (name, value) in p.to_json_fields() {
        let value = match value {
            JsonValue::Text(t) => Value::String(t),
            JsonValue::Object(m) => Value::Object(m.into_iter().map(|(k, v)| (k, Value::String(v))).collect()),
        };
        object.insert(name, value);
    }
    serde_json::to_string(&Value::Object(object)).unwrap()
}

fn from_text(text: &str) -> Option<EmailPayload> {
    let object: serde_json::Map<String, Value> = serde_json::from_str(text).unwrap();
    let fields: Vec<(String, JsonValue)> = object
        .into_iter()
        .filter_map(|(k, v)| match v {
            Value::String(s) => Some((k, JsonValue::Text(s))),
            Value::Object(m) => Some((
                k,
                JsonValue::Object(m.into_iter().filter_map(|(a, b)| b.as_str().map(|b| (a, b.to_string()))).collect()),
            )),
            _ => None,
        })
        .collect();
    EmailPayload::from_json_fields(&fields)
}

fn same(a: &EmailPayload, b: &EmailPayload) -> bool {
    a.sender == b.sender
        && a.sender_name == b.sender_name
        && a.recipient == b.recipient
        && a.subject == b.subject
        && a.body == b.body
        && a.html_body == b.html_body
        && a.headers == b.headers
}

#[test]
fn required_fields_only_when_optional_absent() {
    assert_eq!(names(&plain()), vec!["sender", "recipient", "subject", "body"]);
}

#[test]
fn optional_fields_when_present() {
    assert_eq!(
        names(&full()),
        vec!["sender", "sender_name", "recipient", "subject", "body", "html_body", "headers"]
    );
}

#[test]
fn empty_headers_are_left_out() {
    let p = EmailPayload { headers: Some(vec![]), ..plain() };
    assert_eq!(names(&p), vec!["sender", "recipient", "subject", "body"]);
}

#[test]
fn json_text_round_trip() {
    for p in [plain(), full()] {
        let text = to_text(&p);
        assert!(!text.contains("null"));
        let back = from_text(&text).expect("payload");
        assert!(same(&p, &back), "{} did not come back", text);
    }
}

#[test]
fn plain_payload_json_text() {
    let text = to_text(&plain());
    let v: Value = serde_json::from_str(&text).unwrap();
    assert_eq!(v["sender"], "sender@test.com");
    assert_eq!(v["recipient"], "target@example.com");
    assert_eq!(v["subject"], "Integration Test");
    assert_eq!(v["body"], "Hello from integration test!\r\n");
    assert!(v.get("sender_name").is_none());
    assert!(v.get("html_body").is_none());
    assert!(v.get("headers").is_none());
}

#[test]
fn missing_required_field_is_refused() {
    let fields = vec![("sender".to_string(), JsonValue::Text("a@b.c".to_string()))];
    assert!(EmailPayload::from_json_fields(&fields).is_none());
    let fields = vec![
        ("sender".to_string(), JsonValue::Text("a@b.c".to_string())),
        ("recipient".to_string(), JsonValue::Text("t@x.org".to_string())),
        ("subject".to_string(), JsonValue::Object(vec![])),
        ("body".to_string(), JsonValue::Text("b".to_string())),
    ];
    assert!(EmailPayload::from_json_fields(&fields).is_none());
}
