use kbchatbox::json::JsonValue;
use kbchatbox::keybase::Keybase;
use kbchatbox::keybase::KeybaseInternalError;
use kbchatbox::keybase::KeybaseReply;
use kbchatbox::keybase::MsgType;

fn obj(pairs: Vec<(&str, JsonValue)>) -> JsonValue {
    JsonValue::Obj(pairs.into_iter().map(|(k, v)| (k.to_string(), v)).collect())
}

fn jstr(s: &str) -> JsonValue {
    JsonValue::Str(s.to_string())
}

/// A batch entry: like a chat event, each element wraps its own `msg`.
fn batch_entry(sent_at: i64, username: &str, body: &str, conversation_id: &str) -> JsonValue {
    obj(vec![("msg", msg_obj(sent_at, username, body, conversation_id))])
}

/// The inner `msg` object of a chat event.
fn msg_obj(sent_at: i64, username: &str, body: &str, conversation_id: &str) -> JsonValue {
    obj(vec![
        ("sent_at", JsonValue::Int(sent_at)),
        ("sender", obj(vec![("username", jstr(username))])),
        (
            "content",
            obj(vec![("type", jstr("text")), ("text", obj(vec![("body", jstr(body))]))]),
        ),
        ("conversation_id", jstr(conversation_id)),
    ])
}

/// A full single chat event.
fn chat_event(sent_at: i64, username: &str, body: &str, conversation_id: &str) -> JsonValue {
    obj(vec![
        ("type", jstr("chat")),
        ("msg", msg_obj(sent_at, username, body, conversation_id)),
    ])
}

fn batch_event(entries: Vec<JsonValue>) -> JsonValue {
    obj(vec![("result", obj(vec![("messages", JsonValue::Arr(entries))]))])
}

fn channel_entry(name: &str, id: &str, unread: bool) -> JsonValue {
    obj(vec![
        ("channel", obj(vec![("name", jstr(name))])),
        ("id", jstr(id)),
        ("unread", JsonValue::Bool(unread)),
    ])
}

fn channel_list_event(entries: Vec<JsonValue>) -> JsonValue {
    obj(vec![("result", obj(vec![("conversations", JsonValue::Arr(entries))]))])
}

#[test]
fn single_chat_message_extracts_every_field() {
    let v = chat_event(1600000000, "alice", "  hello there \t", "C1");
    assert_eq!(Keybase::get_msg_type(&v), MsgType::ChatMsg);
    match Keybase::to_keybase_msg(&v) {
        Ok(KeybaseReply::ChatMsgReply { msg }) => {
            assert_eq!(msg.utc_timestamp, 1600000000);
            assert_eq!(msg.channel, "alice");
            assert_eq!(msg.conversation_id, "C1");
            assert_eq!(msg.text, "hello there");
        }
        other => panic!("expected a single chat message, got {:?}", other),
    }
}

#[test]
fn single_chat_message_with_bad_timestamp_is_parse_error() {
    // A string where the epoch integer should be.
    let mut v = chat_event(0, "alice", "hi", "C1");
    if let JsonValue::Obj(ref mut top) = v {
        if let JsonValue::Obj(ref mut m) = top[1].1 {
            m[0].1 = jstr("1600000000");
        }
    }
    assert_eq!(
        Keybase::to_keybase_msg(&v),
        Err(KeybaseInternalError::ParseError)
    );
}

#[test]
fn single_chat_message_missing_username_is_parse_error() {
    let v = obj(vec![
        ("type", jstr("chat")),
        (
            "msg",
            obj(vec![
                ("sent_at", JsonValue::Int(5)),
                ("sender", obj(vec![])),
                (
                    "content",
                    obj(vec![("type", jstr("text")), ("text", obj(vec![("body", jstr("hi"))]))]),
                ),
                ("conversation_id", jstr("C1")),
            ]),
        ),
    ]);
    assert_eq!(
        Keybase::to_keybase_msg(&v),
        Err(KeybaseInternalError::ParseError)
    );
}

#[test]
fn batch_keeps_well_formed_entries_in_order() {
    // Two well-formed entries around one malformed one: exactly the two
    // survive, in their original relative order.
    let good1 = batch_entry(1, "alice", "first", "C1");
    let bad = obj(vec![("sent_at", JsonValue::Int(2))]);
    let good2 = batch_entry(3, "bob", "second", "C1");
    let v = batch_event(vec![good1, bad, good2]);
    assert_eq!(Keybase::get_msg_type(&v), MsgType::ChatMsgList);
    match Keybase::to_keybase_msg(&v) {
        Ok(KeybaseReply::ChatMsgListReply { msgs }) => {
            assert_eq!(msgs.len(), 2);
            assert_eq!(msgs[0].text, "first");
            assert_eq!(msgs[0].channel, "alice");
            assert_eq!(msgs[1].text, "second");
            assert_eq!(msgs[1].channel, "bob");
        }
        other => panic!("expected a batch, got {:?}", other),
    }
}

#[test]
fn batch_of_only_malformed_entries_is_an_empty_success() {
    let bad = obj(vec![("nope", JsonValue::Null)]);
    let v = batch_event(vec![bad]);
    match Keybase::to_keybase_msg(&v) {
        Ok(KeybaseReply::ChatMsgListReply { msgs }) => assert_eq!(msgs.len(), 0),
        other => panic!("expected an empty batch, got {:?}", other),
    }
}

#[test]
fn channel_list_extracts_all_entries() {
    let v = channel_list_event(vec![
        channel_entry("general", "idA", false),
        channel_entry("random", "idB", true),
    ]);
    assert_eq!(Keybase::get_msg_type(&v), MsgType::ChannelList);
    match Keybase::to_keybase_msg(&v) {
        Ok(KeybaseReply::ChannelListReply { channels }) => {
            assert_eq!(channels.len(), 2);
            assert_eq!(channels[0].name, "general");
            assert_eq!(channels[0].id, "idA");
            assert!(!channels[0].unread_msgs);
            assert_eq!(channels[1].name, "random");
            assert_eq!(channels[1].id, "idB");
            assert!(channels[1].unread_msgs);
        }
        other => panic!("expected a channel list, got {:?}", other),
    }
}

#[test]
fn channel_list_with_one_entry_missing_id_fails_entirely() {
    let missing_id = obj(vec![
        ("channel", obj(vec![("name", jstr("general"))])),
        ("unread", JsonValue::Bool(false)),
    ]);
    let v = channel_list_event(vec![channel_entry("random", "idB", true), missing_id]);
    assert_eq!(
        Keybase::to_keybase_msg(&v),
        Err(KeybaseInternalError::ParseError)
    );
}

#[test]
fn channel_list_reply_on_wrong_shape_is_invalid_format() {
    // Called directly with `conversations` absent, the channel-list builder
    // reports the format itself as invalid.
    let v = obj(vec![("result", obj(vec![("conversations", jstr("not a list"))]))]);
    assert_eq!(
        Keybase::create_channel_list_reply(&v),
        Err(KeybaseInternalError::InvalidMessageFormat)
    );
}

#[test]
fn unknown_shape_is_unknown_message() {
    let v = obj(vec![("foo", jstr("bar"))]);
    assert_eq!(Keybase::get_msg_type(&v), MsgType::Unknown);
    assert_eq!(
        Keybase::to_keybase_msg(&v),
        Err(KeybaseInternalError::UnknownMessage)
    );
}

#[test]
fn whitespace_only_body_becomes_empty_text() {
    let v = chat_event(7, "alice", " \t  ", "C1");
    match Keybase::to_keybase_msg(&v) {
        Ok(KeybaseReply::ChatMsgReply { msg }) => assert_eq!(msg.text, ""),
        other => panic!("expected a chat message, got {:?}", other),
    }
}

#[test]
fn empty_sender_is_rejected() {
    let v = chat_event(7, "", "hi", "C1");
    assert_eq!(
        Keybase::to_keybase_msg(&v),
        Err(KeybaseInternalError::ParseError)
    );
}

#[test]
fn empty_conversation_id_is_rejected() {
    let v = chat_event(7, "alice", "hi", "");
    assert_eq!(
        Keybase::to_keybase_msg(&v),
        Err(KeybaseInternalError::ParseError)
    );
}

#[test]
fn empty_channel_name_rejects_the_list() {
    let v = channel_list_event(vec![channel_entry("", "idA", false)]);
    assert_eq!(
        Keybase::to_keybase_msg(&v),
        Err(KeybaseInternalError::ParseError)
    );
}

#[test]
fn batch_reply_on_wrong_shape_is_invalid_format() {
    let v = obj(vec![("result", obj(vec![("messages", jstr("not a list"))]))]);
    assert_eq!(
        Keybase::create_chat_msg_list_reply(&v),
        Err(KeybaseInternalError::InvalidMessageFormat)
    );
}
