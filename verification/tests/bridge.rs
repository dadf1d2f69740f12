//! End-to-end scenarios at the level the two transport loops see: one raw
//! line in, one action out, with the inbound queue simulated by a vector.
use kbchatbox::keybase::process_api_reply_line;
use kbchatbox::keybase::process_listener_line;
use kbchatbox::keybase::Keybase;
use kbchatbox::keybase::KeybaseReply;
use kbchatbox::keybase::ListenerAction;

#[test]
fn listener_stream_skips_malformed_lines_and_keeps_order() {
    let lines = vec![
        "{\"type\":\"chat\",\"msg\":{\"sent_at\":100,\"sender\":{\"username\":\"alice\"},\"content\":{\"type\":\"text\",\"text\":{\"body\":\"first\"}},\"conversation_id\":\"C1\"}}",
        "not json",
        "{\"type\":\"chat\",\"msg\":{\"sent_at\":200,\"sender\":{\"username\":\"bob\"},\"content\":{\"type\":\"text\",\"text\":{\"body\":\"second\"}},\"conversation_id\":\"C1\"}}",
    ];
    let mut inbound: Vec<KeybaseReply> = Vec::new();
    let mut skipped = 0;
    for line in lines {
        match process_listener_line(line) {
            ListenerAction::Deliver { reply, notify } => {
                // A single chat message always carries its notification text.
                match &reply {
                    KeybaseReply::ChatMsgReply { msg } => {
                        let expected = format!("Keybase: New message from {}", msg.channel);
                        assert_eq!(notify, Some(expected));
                    }
                    _ => assert_eq!(notify, None),
                }
                inbound.push(reply);
            }
            ListenerAction::Skip => {
                skipped += 1;
            }
        }
    }
    assert_eq!(skipped, 1);
    assert_eq!(inbound.len(), 2);
    match (&inbound[0], &inbound[1]) {
        (
            KeybaseReply::ChatMsgReply { msg: first },
            KeybaseReply::ChatMsgReply { msg: second },
        ) => {
            assert_eq!(first.conversation_id, "C1");
            assert_eq!(first.text, "first");
            assert_eq!(first.utc_timestamp, 100);
            assert_eq!(second.conversation_id, "C1");
            assert_eq!(second.text, "second");
            assert_eq!(second.utc_timestamp, 200);
        }
        other => panic!("expected two chat messages, got {:?}", other),
    }
}

#[test]
fn list_request_and_reply_cycle() {
    // The caller enqueues a list request; the API process answers with two
    // conversations, one unread.
    let req = Keybase::create_list_channels_req();
    let line = req.serialize().unwrap();
    assert_eq!(line, "{\"method\":\"list\"}");

    let reply_line = "{\"result\":{\"conversations\":[{\"channel\":{\"name\":\"general\"},\"id\":\"idA\",\"unread\":false},{\"channel\":{\"name\":\"random\"},\"id\":\"idB\",\"unread\":true}]}}";
    let mut inbound: Vec<KeybaseReply> = Vec::new();
    if let Some(reply) = process_api_reply_line(reply_line) {
        inbound.push(reply);
    }
    assert_eq!(inbound.len(), 1);
    match &inbound[0] {
        KeybaseReply::ChannelListReply { channels } => {
            assert_eq!(channels.len(), 2);
            assert_eq!(channels[0].name, "general");
            assert!(!channels[0].unread_msgs);
            assert_eq!(channels[1].name, "random");
            assert!(channels[1].unread_msgs);
        }
        other => panic!("expected a channel list, got {:?}", other),
    }
}

#[test]
fn api_reply_line_drops_unclassifiable_replies() {
    assert_eq!(process_api_reply_line("not json"), None);
    assert_eq!(process_api_reply_line("{\"foo\":\"bar\"}"), None);
}
