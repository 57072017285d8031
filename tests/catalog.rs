use blueprint_vm::catalog::{find_type, GraphConsistencyError, Payload, TypeKind};

fn text_round_trip(s: &str) {
    let p = Payload::Text(s.to_string());
    let bytes = p.serialize();
    assert_eq!(bytes, s.as_bytes().to_vec());
    match TypeKind::Text.deserialize(&bytes) {
        Ok(Payload::Text(back)) => assert_eq!(back, s),
        other => panic!("unexpected {:?}", other),
    }
}

#[test]
fn text_payload_round_trips() {
    text_round_trip("");
    text_round_trip("/bin/ls");
    text_round_trip("\\\"\"\\");
    text_round_trip("zażółć");
}

#[test]
fn process_and_empty_payloads_round_trip() {
    assert!(Payload::Process.serialize().is_empty());
    assert!(matches!(TypeKind::Process.deserialize(&Payload::Process.serialize()), Ok(Payload::Process)));
    assert!(matches!(TypeKind::Empty.deserialize(&Payload::Empty.serialize()), Ok(Payload::Empty)));
}

#[test]
fn invalid_utf8_is_refused() {
    let r = TypeKind::Text.deserialize(&vec![0xff, 0xfe]);
    assert!(matches!(r, Err(GraphConsistencyError::BadPayload)));
}

#[test]
fn types_are_found_by_name() {
    assert_eq!(find_type("Process"), Some(TypeKind::Process));
    assert_eq!(find_type("Text"), Some(TypeKind::Text));
    assert_eq!(find_type("Empty"), Some(TypeKind::Empty));
    assert_eq!(find_type("text"), None);
    assert_eq!(find_type(""), None);
    assert_eq!(TypeKind::Process.name(), "Process");
    assert_eq!(TypeKind::Process.param_count(), 4);
    assert_eq!(TypeKind::Process.param_name(1), "Arguments");
    assert_eq!(TypeKind::Text.param_count(), 0);
}

#[test]
fn typing_edits_text_only() {
    let mut p = Payload::Text("ab".to_string());
    p.type_key("c");
    p.type_key("Shift");
    assert!(matches!(&p, Payload::Text(s) if s == "abc"));
    p.type_key("Backspace");
    p.type_key("Backspace");
    assert!(matches!(&p, Payload::Text(s) if s == "a"));
    let mut q = Payload::Empty;
    q.type_key("x");
    assert!(matches!(q, Payload::Empty));
    let mut e = Payload::Text(String::new());
    e.type_key("Backspace");
    assert!(matches!(&e, Payload::Text(s) if s.is_empty()));
}
