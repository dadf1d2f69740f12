use kbchatbox::json::parse_line;
use kbchatbox::json::to_json_text;
use kbchatbox::json::JsonValue;
use kbchatbox::keybase::Keybase;

#[test]
fn list_request_serializes_exactly() {
    let req = Keybase::create_list_channels_req();
    assert_eq!(req.serialize().unwrap(), "{\"method\":\"list\"}");
}

#[test]
fn send_request_serializes_exactly() {
    let req = Keybase::create_msg_req("abc123", "hello");
    assert_eq!(
        req.serialize().unwrap(),
        "{\"method\":\"send\",\"params\":{\"options\":{\"conversation_id\":\"abc123\",\"message\":{\"body\":\"hello\"}}}}"
    );
}

#[test]
fn read_request_serializes_exactly() {
    let req = Keybase::create_read_conversation_req("abc123", 15);
    assert_eq!(
        req.serialize().unwrap(),
        "{\"method\":\"read\",\"params\":{\"options\":{\"conversation_id\":\"abc123\",\"pagination\":{\"num\":15}}}}"
    );
}

#[test]
fn send_request_round_trips_through_the_parser() {
    // Serializing the request and parsing the line back yields the very
    // value the builder produced.
    let req = Keybase::create_msg_req("abc123", "hello");
    let line = req.serialize().unwrap();
    assert_eq!(parse_line(&line), Some(req.msg));
}

#[test]
fn escaped_body_round_trips_through_the_parser() {
    let req = Keybase::create_msg_req("abc123", "a\"b\\c\nd\te");
    let line = req.serialize().unwrap();
    // The line itself holds no raw newline.
    assert!(!line.contains('\n'));
    assert_eq!(parse_line(&line), Some(req.msg));
}

#[test]
fn control_characters_are_escaped_as_hex() {
    let v = JsonValue::Str("a\nb".to_string());
    assert_eq!(to_json_text(&v).unwrap(), "\"a\\u000ab\"");
}

#[test]
fn negative_and_large_integers_serialize_exactly() {
    let v = JsonValue::Arr(vec![
        JsonValue::Int(0),
        JsonValue::Int(-1),
        JsonValue::Int(i64::MIN),
        JsonValue::Int(i64::MAX),
    ]);
    assert_eq!(
        to_json_text(&v).unwrap(),
        "[0,-1,-9223372036854775808,9223372036854775807]"
    );
    assert_eq!(parse_line(&to_json_text(&v).unwrap()), Some(v));
}

#[test]
fn non_integer_numbers_cannot_be_serialized() {
    let v = JsonValue::Obj(vec![("x".to_string(), JsonValue::NonInt)]);
    assert_eq!(to_json_text(&v), None);
}

#[test]
fn parser_maps_numbers_by_integer_range() {
    // Integers that fit i64 are held exactly; floats and too-large
    // integers become the unusable number marker.
    assert_eq!(
        parse_line("{\"a\":7}"),
        Some(JsonValue::Obj(vec![("a".to_string(), JsonValue::Int(7))]))
    );
    assert_eq!(
        parse_line("{\"a\":1.5}"),
        Some(JsonValue::Obj(vec![("a".to_string(), JsonValue::NonInt)]))
    );
    assert_eq!(
        parse_line("{\"a\":18446744073709551615}"),
        Some(JsonValue::Obj(vec![("a".to_string(), JsonValue::NonInt)]))
    );
}

#[test]
fn parser_rejects_malformed_lines() {
    assert_eq!(parse_line("not json"), None);
    assert_eq!(parse_line(""), None);
    assert_eq!(parse_line("{\"a\":"), None);
}

#[test]
fn parser_builds_full_trees() {
    assert_eq!(
        parse_line("[null,true,false,\"x\",[1]]"),
        Some(JsonValue::Arr(vec![
            JsonValue::Null,
            JsonValue::Bool(true),
            JsonValue::Bool(false),
            JsonValue::Str("x".to_string()),
            JsonValue::Arr(vec![JsonValue::Int(1)]),
        ]))
    );
}
