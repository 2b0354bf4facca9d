use todo_server::codec::serialize_task;
use todo_server::request::parse_u32;
use todo_server::store::TodoApp;

#[test]
fn serialized_description_is_escaped() {
    let mut app = TodoApp::new();
    let t = app.create_task(String::from("say \"hi\" and \\ wave"));
    let json = String::from_utf8(serialize_task(&t)).unwrap();
    assert_eq!(
        json,
        "{\"id\":1,\"description\":\"say \\\"hi\\\" and \\\\ wave\",\"completed\":false}"
    );
}

#[test]
fn serialized_task_matches_serde_json() {
    // The rendered record must be exactly what the JSON library would emit
    // for the same fixed record shape.
    let mut app = TodoApp::new();
    let t = app.create_task(String::from("line\nbreak\tand unicode \u{00e9}"));
    let json = String::from_utf8(serialize_task(&t)).unwrap();
    let quoted = serde_json::to_string("line\nbreak\tand unicode \u{00e9}").unwrap();
    let expected = format!("{{\"id\":1,\"description\":{},\"completed\":false}}", quoted);
    assert_eq!(json, expected);
}

#[test]
fn parse_u32_accepts_digits_and_one_plus_sign() {
    assert_eq!(parse_u32(b"0"), Some(0));
    assert_eq!(parse_u32(b"42"), Some(42));
    assert_eq!(parse_u32(b"+42"), Some(42));
    assert_eq!(parse_u32(b"007"), Some(7));
    assert_eq!(parse_u32(b"4294967295"), Some(u32::MAX));
}

#[test]
fn parse_u32_rejects_everything_else() {
    assert_eq!(parse_u32(b""), None);
    assert_eq!(parse_u32(b"+"), None);
    assert_eq!(parse_u32(b"-1"), None);
    assert_eq!(parse_u32(b"1.5"), None);
    assert_eq!(parse_u32(b"abc"), None);
    assert_eq!(parse_u32(b"12a"), None);
    assert_eq!(parse_u32(b" 12"), None);
    assert_eq!(parse_u32(b"4294967296"), None);
    assert_eq!(parse_u32(b"99999999999999999999"), None);
}

#[test]
fn parse_u32_agrees_with_str_parse() {
    for s in ["0", "1", "+9", "4294967295", "4294967296", "", "+", "x", "10 "] {
        assert_eq!(parse_u32(s.as_bytes()), s.parse::<u32>().ok(), "input {:?}", s);
    }
}
