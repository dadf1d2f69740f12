//! The protocol core: typed replies, the message classifier that turns a
//! parsed wire value into one of them, the request builders, and the
//! per-line step functions that the two transport loops drive.
use vstd::prelude::*;

use crate::json::JsonValue;
use crate::json::field;
use crate::json::field_is_str_val;
use crate::json::get_field;
use crate::json::is_str_val;
use crate::json::json_of;
use crate::json::json_text;
use crate::json::serializable;
use crate::json::to_json_text;
use crate::json::parse_line;

verus! {

/// One chat message, with its timestamp kept as Unix-epoch seconds (UTC).
#[derive(Debug, PartialEq)]
pub struct ChatMsg {
    pub utc_timestamp: i64,
    pub channel: String,
    pub conversation_id: String,
    pub text: String,
}

/// One conversation in a channel list.
#[derive(Debug, PartialEq)]
pub struct Channel {
    pub name: String,
    pub id: String,
    pub unread_msgs: bool,
}

/// An outbound request: the structured value that will be written as one
/// line to the API process.
#[derive(Debug, PartialEq)]
pub struct KeybaseRequest {
    pub msg: JsonValue,
}

/// A classified inbound message.
#[derive(Debug, PartialEq)]
pub enum KeybaseReply {
    ChatMsgReply { msg: ChatMsg },
    ChatMsgListReply { msgs: Vec<ChatMsg> },
    ChannelListReply { channels: Vec<Channel> },
}

/// Why a line could not be turned into a reply. `IoError` never comes from
/// classification itself; the transport loops use it for read failures.
#[derive(Debug, PartialEq, Eq, Structural)]
pub enum KeybaseInternalError {
    IoError,
    ParseError,
    UnknownMessage,
    InvalidMessageFormat,
}

/// The shape a wire value is classified under, in priority order.
#[derive(Debug, PartialEq, Eq, Structural)]
pub enum MsgType {
    ChannelList,
    ChatMsg,
    ChatMsgList,
    Unknown,
}

/// The mathematical content of a `ChatMsg`.
pub ghost struct ChatMsgModel {
    pub ts: i64,
    pub channel: Seq<char>,
    pub conversation_id: Seq<char>,
    pub text: Seq<char>,
}

/// The mathematical content of a `Channel`.
pub ghost struct ChannelModel {
    pub name: Seq<char>,
    pub id: Seq<char>,
    pub unread_msgs: bool,
}

/// The mathematical content of a `KeybaseReply`.
pub ghost enum ReplyModel {
    Msg { msg: ChatMsgModel },
    MsgList { msgs: Seq<ChatMsgModel> },
    Channels { channels: Seq<ChannelModel> },
}

impl View for ChatMsg {
    type V = ChatMsgModel;

    open spec fn view(&self) -> ChatMsgModel {
        ChatMsgModel {
            ts: self.utc_timestamp,
            channel: self.channel@,
            conversation_id: self.conversation_id@,
            text: self.text@,
        }
    }
}

impl DeepView for ChatMsg {
    type V = ChatMsgModel;

    open spec fn deep_view(&self) -> ChatMsgModel {
        self.view()
    }
}

impl View for Channel {
    type V = ChannelModel;

    open spec fn view(&self) -> ChannelModel {
        ChannelModel { name: self.name@, id: self.id@, unread_msgs: self.unread_msgs }
    }
}

impl DeepView for Channel {
    type V = ChannelModel;

    open spec fn deep_view(&self) -> ChannelModel {
        self.view()
    }
}

impl View for KeybaseReply {
    type V = ReplyModel;

    open spec fn view(&self) -> ReplyModel {
        match self {
            KeybaseReply::ChatMsgReply { msg } => ReplyModel::Msg { msg: msg@ },
            KeybaseReply::ChatMsgListReply { msgs } => ReplyModel::MsgList {
                msgs: msgs.deep_view(),
            },
            KeybaseReply::ChannelListReply { channels } => ReplyModel::Channels {
                channels: channels.deep_view(),
            },
        }
    }
}

/// The white-space characters that message bodies are trimmed of, as Rust's
/// `char::is_whitespace` defines them.
pub open spec fn is_ws(c: char) -> bool {
    let u = c as u32;
    (0x9 <= u <= 0xd) || u == 0x20 || u == 0x85 || u == 0xa0 || u == 0x1680 || (0x2000 <= u
        <= 0x200a) || u == 0x2028 || u == 0x2029 || u == 0x202f || u == 0x205f || u == 0x3000
}

pub open spec fn trim_start_spec(s: Seq<char>) -> Seq<char>
    decreases s.len(),
{
    if s.len() > 0 && is_ws(s[0]) {
        trim_start_spec(s.drop_first())
    } else {
        s
    }
}

pub open spec fn trim_end_spec(s: Seq<char>) -> Seq<char>
    decreases s.len(),
{
    if s.len() > 0 && is_ws(s.last()) {
        trim_end_spec(s.drop_last())
    } else {
        s
    }
}

/// The body with leading and trailing white space removed.
pub open spec fn trim_spec(s: Seq<char>) -> Seq<char> {
    trim_end_spec(trim_start_spec(s))
}

fn is_ws_char(c: char) -> (r: bool)
    ensures
        r == is_ws(c),
{
    let u = c as u32;
    (0x9 <= u && u <= 0xd) || u == 0x20 || u == 0x85 || u == 0xa0 || u == 0x1680 || (0x2000 <= u
        && u <= 0x200a) || u == 0x2028 || u == 0x2029 || u == 0x202f || u == 0x205f || u == 0x3000
}

proof fn lemma_trim_start(s: Seq<char>, a: int)
    requires
        0 <= a <= s.len(),
        forall|k: int| 0 <= k < a ==> is_ws(s[k]),
        a == s.len() || !is_ws(s[a]),
    ensures
        trim_start_spec(s) == s.skip(a),
    decreases a,
{
    if a == 0 {
        assert(s.skip(0) =~= s);
    } else {
        lemma_trim_start(s.drop_first(), a - 1);
        assert(s.drop_first().skip(a - 1) =~= s.skip(a));
    }
}

proof fn lemma_trim_end(s: Seq<char>, b: int)
    requires
        0 <= b <= s.len(),
        forall|k: int| b <= k < s.len() ==> is_ws(s[k]),
        b == 0 || !is_ws(s[b - 1]),
    ensures
        trim_end_spec(s) == s.take(b),
    decreases s.len() - b,
{
    if b == s.len() {
        assert(s.take(b) =~= s);
    } else {
        lemma_trim_end(s.drop_last(), b);
        assert(s.drop_last().take(b) =~= s.take(b));
    }
}

/// A copy of `s` with surrounding white space removed, as `str::trim` would.
#[verifier::loop_isolation(false)]
pub fn trim_str(s: &str) -> (r: String)
    ensures
        r@ == trim_spec(s@),
{
    let n = s.unicode_len();
    let mut a: usize = 0;
    while a < n && is_ws_char(s.get_char(a))
        invariant
            a <= n,
            forall|k: int| 0 <= k < a ==> is_ws(s@[k]),
        decreases n - a,
    {
        a += 1;
    }
    proof {
        lemma_trim_start(s@, a as int);
    }
    if a == n {
        proof {
            assert(s@.skip(a as int) =~= Seq::<char>::empty());
        }
        return String::new();
    }
    let mut b: usize = n;
    while b > a && is_ws_char(s.get_char(b - 1))
        invariant
            a <= b <= n,
            forall|k: int| b <= k < n ==> is_ws(s@[k]),
        decreases b,
    {
        b -= 1;
    }
    proof {
        lemma_trim_end(s@.skip(a as int), b - a);
        assert(s@.skip(a as int).take(b - a) =~= s@.subrange(a as int, b as int));
    }
    let piece = s.substring_char(a, b);
    piece.to_owned()
}

/// Whether the nested content type marks `v` as carrying a text chat
/// message. Batch elements are checked with the same rule.
pub open spec fn chat_content_is_text(v: JsonValue) -> bool {
    is_str_val(field(field(field(v, "msg"@), "content"@), "type"@), "text"@)
}

/// Every field a single chat message needs, each of the right type; the
/// sender and the conversation id must be non-empty strings.
pub open spec fn chat_fields_ok(v: JsonValue) -> bool {
    &&& chat_content_is_text(v)
    &&& field(field(v, "msg"@), "sent_at"@) matches JsonValue::Int(_)
    &&& (field(field(field(v, "msg"@), "sender"@), "username"@) matches JsonValue::Str(u)
        && u@.len() > 0)
    &&& field(field(field(field(v, "msg"@), "content"@), "text"@), "body"@) matches JsonValue::Str(
        _,
    )
    &&& (field(field(v, "msg"@), "conversation_id"@) matches JsonValue::Str(c) && c@.len() > 0)
}

/// The message extracted from a well-shaped chat value: the epoch seconds,
/// the sender, the conversation id, and the trimmed body.
pub open spec fn chat_model(v: JsonValue) -> ChatMsgModel {
    ChatMsgModel {
        ts: field(field(v, "msg"@), "sent_at"@)->Int_0,
        channel: field(field(field(v, "msg"@), "sender"@), "username"@)->Str_0@,
        conversation_id: field(field(v, "msg"@), "conversation_id"@)->Str_0@,
        text: trim_spec(field(field(field(field(v, "msg"@), "content"@), "text"@), "body"@)->Str_0@),
    }
}

/// The batch result: the well-shaped elements' messages, kept in their
/// original relative order; malformed elements are skipped.
pub open spec fn batch_models(elts: Seq<JsonValue>) -> Seq<ChatMsgModel>
    decreases elts.len(),
{
    if elts.len() == 0 {
        Seq::empty()
    } else {
        let rest = batch_models(elts.drop_last());
        if chat_fields_ok(elts.last()) {
            rest.push(chat_model(elts.last()))
        } else {
            rest
        }
    }
}

/// Law: the batch result is exactly the order-preserving filter of the
/// input's well-shaped entries, each mapped to its extracted message; the
/// malformed entries around them change nothing.
pub proof fn lemma_batch_filter_order(elts: Seq<JsonValue>)
    ensures
        batch_models(elts) == elts.filter(|e: JsonValue| chat_fields_ok(e)).map_values(
            |e: JsonValue| chat_model(e),
        ),
    decreases elts.len(),
{
    reveal(Seq::filter);
    let pred = |e: JsonValue| chat_fields_ok(e);
    let f = |e: JsonValue| chat_model(e);
    if elts.len() == 0 {
        assert(batch_models(elts) =~= elts.filter(pred).map_values(f));
    } else {
        lemma_batch_filter_order(elts.drop_last());
        let single = seq![elts.last()];
        assert(single.drop_last() =~= Seq::<JsonValue>::empty());
        assert(Seq::<JsonValue>::empty().filter(pred) == Seq::<JsonValue>::empty());
        assert(single.filter(pred) == if pred(elts.last()) {
            Seq::<JsonValue>::empty().push(elts.last())
        } else {
            Seq::<JsonValue>::empty()
        });
        assert(elts =~= elts.drop_last() + single);
        assert((elts.drop_last() + single).filter(pred) == elts.drop_last().filter(pred)
            + single.filter(pred));
        if pred(elts.last()) {
            assert(elts.filter(pred) =~= elts.drop_last().filter(pred).push(elts.last()));
            assert(elts.filter(pred).map_values(f) =~= elts.drop_last().filter(pred).map_values(
                f,
            ).push(f(elts.last())));
        } else {
            assert(elts.filter(pred) =~= elts.drop_last().filter(pred));
        }
        assert(batch_models(elts) =~= elts.filter(pred).map_values(f));
    }
}

/// Law: every chat message that classification lets through satisfies the
/// data model's invariant — a non-empty sender and a non-empty
/// conversation id.
pub proof fn lemma_chat_msg_invariant(v: JsonValue)
    requires
        chat_fields_ok(v),
    ensures
        chat_model(v).channel.len() > 0,
        chat_model(v).conversation_id.len() > 0,
{
}

/// Law: the invariant holds of every message in a classified batch, whatever
/// the entries were.
pub proof fn lemma_batch_models_invariant(elts: Seq<JsonValue>)
    ensures
        forall|i: int|
            0 <= i < batch_models(elts).len() ==> (#[trigger] batch_models(elts)[i]).channel.len()
                > 0 && batch_models(elts)[i].conversation_id.len() > 0,
    decreases elts.len(),
{
    if elts.len() > 0 {
        lemma_batch_models_invariant(elts.drop_last());
        if chat_fields_ok(elts.last()) {
            lemma_chat_msg_invariant(elts.last());
        }
        let rest = batch_models(elts.drop_last());
        assert forall|i: int|
            0 <= i < batch_models(elts).len() implies (#[trigger] batch_models(
            elts,
        )[i]).channel.len() > 0 && batch_models(elts)[i].conversation_id.len() > 0 by {
            if chat_fields_ok(elts.last()) {
                assert(batch_models(elts) == rest.push(chat_model(elts.last())));
                if i < rest.len() {
                    assert(batch_models(elts)[i] == rest[i]);
                } else {
                    assert(batch_models(elts)[i] == chat_model(elts.last()));
                }
            } else {
                assert(batch_models(elts) == rest);
                assert(batch_models(elts)[i] == rest[i]);
            }
        }
    }
}

/// Every field a channel-list entry needs: a non-empty name, an id string,
/// and an unread flag.
pub open spec fn channel_ok(e: JsonValue) -> bool {
    &&& (field(field(e, "channel"@), "name"@) matches JsonValue::Str(n) && n@.len() > 0)
    &&& field(e, "id"@) matches JsonValue::Str(_)
    &&& field(e, "unread"@) matches JsonValue::Bool(_)
}

pub open spec fn channel_model(e: JsonValue) -> ChannelModel {
    ChannelModel {
        name: field(field(e, "channel"@), "name"@)->Str_0@,
        id: field(e, "id"@)->Str_0@,
        unread_msgs: field(e, "unread"@)->Bool_0,
    }
}

pub open spec fn channel_models(elts: Seq<JsonValue>) -> Seq<ChannelModel> {
    elts.map_values(|e: JsonValue| channel_model(e))
}

/// The shape-detection priority order: single chat event, then batch, then
/// channel list, then unknown.
pub open spec fn spec_msg_type(v: JsonValue) -> MsgType {
    if is_str_val(field(v, "type"@), "chat"@) && chat_content_is_text(v) {
        MsgType::ChatMsg
    } else if field(field(v, "result"@), "messages"@) matches JsonValue::Arr(_) {
        MsgType::ChatMsgList
    } else if field(field(v, "result"@), "conversations"@) matches JsonValue::Arr(_) {
        MsgType::ChannelList
    } else {
        MsgType::Unknown
    }
}

/// What classification owes for every parsed value: a chat shape must
/// extract fully or fail as `ParseError`; a batch always succeeds, skipping
/// bad elements; a channel list succeeds only if every entry is well-shaped;
/// everything else is `UnknownMessage`.
pub open spec fn spec_classify(v: JsonValue) -> Result<ReplyModel, KeybaseInternalError> {
    match spec_msg_type(v) {
        MsgType::ChatMsg => if chat_fields_ok(v) {
            Ok(ReplyModel::Msg { msg: chat_model(v) })
        } else {
            Err(KeybaseInternalError::ParseError)
        },
        MsgType::ChatMsgList => Ok(
            ReplyModel::MsgList {
                msgs: batch_models(field(field(v, "result"@), "messages"@)->Arr_0@),
            },
        ),
        MsgType::ChannelList => {
            let elts = field(field(v, "result"@), "conversations"@)->Arr_0@;
            if forall|i: int| 0 <= i < elts.len() ==> channel_ok(#[trigger] elts[i]) {
                Ok(ReplyModel::Channels { channels: channel_models(elts) })
            } else {
                Err(KeybaseInternalError::ParseError)
            }
        },
        MsgType::Unknown => Err(KeybaseInternalError::UnknownMessage),
    }
}

/// The exact shape of a send-message request:
/// `{"method":"send","params":{"options":{"conversation_id":...,"message":{"body":...}}}}`.
pub open spec fn is_send_req(v: JsonValue, conv: Seq<char>, body: Seq<char>) -> bool {
    v matches JsonValue::Obj(top) && top@.len() == 2 && top@[0].0@ == "method"@ && is_str_val(
        top@[0].1,
        "send"@,
    ) && top@[1].0@ == "params"@ && (top@[1].1 matches JsonValue::Obj(params) && params@.len() == 1
        && params@[0].0@ == "options"@ && (params@[0].1 matches JsonValue::Obj(opts)
        && opts@.len() == 2 && opts@[0].0@ == "conversation_id"@ && is_str_val(opts@[0].1, conv)
        && opts@[1].0@ == "message"@ && (opts@[1].1 matches JsonValue::Obj(body_obj)
        && body_obj@.len() == 1 && body_obj@[0].0@ == "body"@ && is_str_val(body_obj@[0].1, body))))
}

/// The exact shape of a read-conversation request:
/// `{"method":"read","params":{"options":{"conversation_id":...,"pagination":{"num":...}}}}`.
pub open spec fn is_read_req(v: JsonValue, conv: Seq<char>, num: int) -> bool {
    v matches JsonValue::Obj(top) && top@.len() == 2 && top@[0].0@ == "method"@ && is_str_val(
        top@[0].1,
        "read"@,
    ) && top@[1].0@ == "params"@ && (top@[1].1 matches JsonValue::Obj(params) && params@.len() == 1
        && params@[0].0@ == "options"@ && (params@[0].1 matches JsonValue::Obj(opts)
        && opts@.len() == 2 && opts@[0].0@ == "conversation_id"@ && is_str_val(opts@[0].1, conv)
        && opts@[1].0@ == "pagination"@ && (opts@[1].1 matches JsonValue::Obj(pag)
        && pag@.len() == 1 && pag@[0].0@ == "num"@ && pag@[0].1 == JsonValue::Int(num as i64)
        && num <= i64::MAX)))
}

/// The exact shape of a list-channels request: `{"method":"list"}`.
pub open spec fn is_list_req(v: JsonValue) -> bool {
    v matches JsonValue::Obj(top) && top@.len() == 1 && top@[0].0@ == "method"@ && is_str_val(
        top@[0].1,
        "list"@,
    )
}

/// Law: a well-shaped single chat event classifies as exactly the message
/// extracted from its fields, nothing else.
pub proof fn lemma_single_chat_exact(v: JsonValue)
    requires
        spec_msg_type(v) == MsgType::ChatMsg,
        chat_fields_ok(v),
    ensures
        spec_classify(v) == Ok::<ReplyModel, KeybaseInternalError>(
            ReplyModel::Msg { msg: chat_model(v) },
        ),
{
}

/// Law: one malformed conversation entry rejects the whole channel list —
/// no partial list is ever produced.
pub proof fn lemma_channel_list_no_partial(v: JsonValue, i: int)
    requires
        spec_msg_type(v) == MsgType::ChannelList,
        0 <= i < field(field(v, "result"@), "conversations"@)->Arr_0@.len(),
        !channel_ok(field(field(v, "result"@), "conversations"@)->Arr_0@[i]),
    ensures
        spec_classify(v) == Err::<ReplyModel, KeybaseInternalError>(
            KeybaseInternalError::ParseError,
        ),
{
}

/// Law: a value matching none of the known shapes is always classified as
/// an unknown message, never as one of the three reply variants.
pub proof fn lemma_unknown_shape_never_classified(v: JsonValue)
    requires
        spec_msg_type(v) == MsgType::Unknown,
    ensures
        spec_classify(v) == Err::<ReplyModel, KeybaseInternalError>(
            KeybaseInternalError::UnknownMessage,
        ),
{
}

/// Request construction and classification of the wire protocol's messages.
/// The transport itself (child processes, queues, threads) lives with the
/// caller; everything here is pure.
pub struct Keybase;

impl Keybase {
    /// Extracts a single chat message, validating every field; any missing
    /// or mistyped field rejects the whole value.
    pub fn parse_chat_msg(v: &JsonValue) -> (r: Result<ChatMsg, KeybaseInternalError>)
        ensures
            r matches Ok(m) ==> chat_fields_ok(*v) && m@ == chat_model(*v),
            r matches Err(e) ==> !chat_fields_ok(*v) && e == KeybaseInternalError::ParseError,
    {
        let m = match get_field(v, "msg") {
            Some(x) => x,
            None => return Err(KeybaseInternalError::ParseError),
        };
        let content = match get_field(m, "content") {
            Some(x) => x,
            None => return Err(KeybaseInternalError::ParseError),
        };
        if !field_is_str_val(content, "type", "text") {
            return Err(KeybaseInternalError::ParseError);
        }
        let ts: i64 = match get_field(m, "sent_at") {
            Some(x) => match x {
                JsonValue::Int(t) => *t,
                _ => return Err(KeybaseInternalError::ParseError),
            },
            None => return Err(KeybaseInternalError::ParseError),
        };
        let sender = match get_field(m, "sender") {
            Some(x) => x,
            None => return Err(KeybaseInternalError::ParseError),
        };
        let channel: String = match get_field(sender, "username") {
            Some(x) => match x {
                JsonValue::Str(u) => u.clone(),
                _ => return Err(KeybaseInternalError::ParseError),
            },
            None => return Err(KeybaseInternalError::ParseError),
        };
        if channel.as_str().unicode_len() == 0 {
            return Err(KeybaseInternalError::ParseError);
        }
        let text_val = match get_field(content, "text") {
            Some(x) => x,
            None => return Err(KeybaseInternalError::ParseError),
        };
        let text: String = match get_field(text_val, "body") {
            Some(x) => match x {
                JsonValue::Str(b) => trim_str(b.as_str()),
                _ => return Err(KeybaseInternalError::ParseError),
            },
            None => return Err(KeybaseInternalError::ParseError),
        };
        let conversation_id: String = match get_field(m, "conversation_id") {
            Some(x) => match x {
                JsonValue::Str(c) => c.clone(),
                _ => return Err(KeybaseInternalError::ParseError),
            },
            None => return Err(KeybaseInternalError::ParseError),
        };
        if conversation_id.as_str().unicode_len() == 0 {
            return Err(KeybaseInternalError::ParseError);
        }
        Ok(ChatMsg { utc_timestamp: ts, channel, conversation_id, text })
    }

    /// Wraps a single extracted chat message as a reply.
    pub fn create_chat_msg_reply(v: &JsonValue) -> (r: Result<KeybaseReply, KeybaseInternalError>)
        ensures
            r matches Ok(k) ==> chat_fields_ok(*v) && k@ == (ReplyModel::Msg {
                msg: chat_model(*v),
            }),
            r matches Err(e) ==> !chat_fields_ok(*v) && e == KeybaseInternalError::ParseError,
    {
        match Keybase::parse_chat_msg(v) {
            Ok(chat_msg) => Ok(KeybaseReply::ChatMsgReply { msg: chat_msg }),
            Err(e) => Err(e),
        }
    }

    /// Builds the batch reply: every well-shaped element of
    /// `result.messages`, in order; malformed elements are skipped, and an
    /// empty batch is still a success.
    #[verifier::loop_isolation(false)]
    pub fn create_chat_msg_list_reply(v: &JsonValue) -> (r: Result<
        KeybaseReply,
        KeybaseInternalError,
    >)
        ensures
            field(field(*v, "result"@), "messages"@) matches JsonValue::Arr(elts) ==> (r matches Ok(
                k,
            ) && k@ == (ReplyModel::MsgList { msgs: batch_models(elts@) })),
            !(field(field(*v, "result"@), "messages"@) matches JsonValue::Arr(_)) ==> r == Err::<
                KeybaseReply,
                _,
            >(KeybaseInternalError::InvalidMessageFormat),
    {
        let result = match get_field(v, "result") {
            Some(x) => x,
            None => return Err(KeybaseInternalError::InvalidMessageFormat),
        };
        let elts: &Vec<JsonValue> = match get_field(result, "messages") {
            Some(x) => match x {
                JsonValue::Arr(elts) => elts,
                _ => return Err(KeybaseInternalError::InvalidMessageFormat),
            },
            None => return Err(KeybaseInternalError::InvalidMessageFormat),
        };
        let n = elts.len();
        let mut msgs: Vec<ChatMsg> = Vec::new();
        let mut i: usize = 0;
        while i < n
            invariant
                i <= n,
                n == elts@.len(),
                msgs.deep_view() == batch_models(elts@.take(i as int)),
            decreases n - i,
        {
            match Keybase::parse_chat_msg(&elts[i]) {
                Ok(chat_msg) => {
                    msgs.push(chat_msg);
                },
                Err(_) => {
                    // One malformed entry must not hide the rest of the batch.
                },
            }
            proof {
                assert(elts@.take(i + 1).drop_last() =~= elts@.take(i as int));
                assert(elts@.take(i + 1).last() == elts@[i as int]);
                assert(msgs.deep_view() =~= batch_models(elts@.take(i + 1)));
            }
            i += 1;
        }
        proof {
            assert(elts@.take(n as int) =~= elts@);
        }
        Ok(KeybaseReply::ChatMsgListReply { msgs })
    }

    /// Builds the channel-list reply. Unlike the batch case, one malformed
    /// entry rejects the whole list.
    #[verifier::loop_isolation(false)]
    pub fn create_channel_list_reply(v: &JsonValue) -> (r: Result<
        KeybaseReply,
        KeybaseInternalError,
    >)
        ensures
            field(field(*v, "result"@), "conversations"@) matches JsonValue::Arr(elts) ==> (if (
            forall|i: int| 0 <= i < elts@.len() ==> channel_ok(#[trigger] elts@[i])) {
                r matches Ok(k) && k@ == (ReplyModel::Channels { channels: channel_models(elts@) })
            } else {
                r == Err::<KeybaseReply, _>(KeybaseInternalError::ParseError)
            }),
            !(field(field(*v, "result"@), "conversations"@) matches JsonValue::Arr(_)) ==> r
                == Err::<KeybaseReply, _>(KeybaseInternalError::InvalidMessageFormat),
    {
        let result = match get_field(v, "result") {
            Some(x) => x,
            None => return Err(KeybaseInternalError::InvalidMessageFormat),
        };
        let elts: &Vec<JsonValue> = match get_field(result, "conversations") {
            Some(x) => match x {
                JsonValue::Arr(elts) => elts,
                _ => return Err(KeybaseInternalError::InvalidMessageFormat),
            },
            None => return Err(KeybaseInternalError::InvalidMessageFormat),
        };
        let n = elts.len();
        let mut channels: Vec<Channel> = Vec::new();
        let mut i: usize = 0;
        while i < n
            invariant
                i <= n,
                n == elts@.len(),
                forall|k: int| 0 <= k < i ==> channel_ok(#[trigger] elts@[k]),
                channels.deep_view() == channel_models(elts@.take(i as int)),
            decreases n - i,
        {
            let e = &elts[i];
            let chan = match get_field(e, "channel") {
                Some(x) => x,
                None => return Err(KeybaseInternalError::ParseError),
            };
            let name: String = match get_field(chan, "name") {
                Some(x) => match x {
                    JsonValue::Str(nm) => nm.clone(),
                    _ => return Err(KeybaseInternalError::ParseError),
                },
                None => return Err(KeybaseInternalError::ParseError),
            };
            if name.as_str().unicode_len() == 0 {
                return Err(KeybaseInternalError::ParseError);
            }
            let id: String = match get_field(e, "id") {
                Some(x) => match x {
                    JsonValue::Str(id) => id.clone(),
                    _ => return Err(KeybaseInternalError::ParseError),
                },
                None => return Err(KeybaseInternalError::ParseError),
            };
            let unread_msgs: bool = match get_field(e, "unread") {
                Some(x) => match x {
                    JsonValue::Bool(u) => *u,
                    _ => return Err(KeybaseInternalError::ParseError),
                },
                None => return Err(KeybaseInternalError::ParseError),
            };
            let chan_rec = Channel { name, id, unread_msgs };
            proof {
                assert(channel_ok(elts@[i as int]));
                assert(chan_rec@ == channel_model(elts@[i as int]));
            }
            let ghost pre_models = channels.deep_view();
            let ghost pre_seq = channels@;
            channels.push(chan_rec);
            proof {
                assert(elts@.take(i + 1) =~= elts@.take(i as int).push(elts@[i as int]));
                assert forall|k: int| 0 <= k < channels@.len() implies channels.deep_view()[k]
                    == channel_models(elts@.take(i + 1))[k] by {
                    assert(channels.deep_view()[k] == channels@[k].deep_view());
                    assert(channel_models(elts@.take(i + 1))[k] == channel_model(
                        elts@.take(i + 1)[k],
                    ));
                    if k < i {
                        assert(channels@[k] == pre_seq[k]);
                        assert(pre_models[k] == pre_seq[k].deep_view());
                        assert(pre_models[k] == channel_models(elts@.take(i as int))[k]);
                        assert(channel_models(elts@.take(i as int))[k] == channel_model(
                            elts@.take(i as int)[k],
                        ));
                        assert(elts@.take(i as int)[k] == elts@.take(i + 1)[k]);
                    } else {
                        assert(channels@[k] == chan_rec);
                    }
                }
                assert(channels.deep_view() =~= channel_models(elts@.take(i + 1)));
            }
            i += 1;
        }
        proof {
            assert(elts@.take(n as int) =~= elts@);
        }
        Ok(KeybaseReply::ChannelListReply { channels })
    }

    /// Detects which of the known shapes `v` has, in priority order.
    pub fn get_msg_type(v: &JsonValue) -> (r: MsgType)
        ensures
            r == spec_msg_type(*v),
    {
        let is_chat = field_is_str_val(v, "type", "chat") && {
            let content_type_is_text = match get_field(v, "msg") {
                Some(m) => match get_field(m, "content") {
                    Some(content) => field_is_str_val(content, "type", "text"),
                    None => false,
                },
                None => false,
            };
            content_type_is_text
        };
        if is_chat {
            return MsgType::ChatMsg;
        }
        let result = match get_field(v, "result") {
            Some(x) => Some(x),
            None => None,
        };
        if let Some(res) = result {
            match get_field(res, "messages") {
                Some(x) => match x {
                    JsonValue::Arr(_) => return MsgType::ChatMsgList,
                    _ => {},
                },
                None => {},
            }
            match get_field(res, "conversations") {
                Some(x) => match x {
                    JsonValue::Arr(_) => return MsgType::ChannelList,
                    _ => {},
                },
                None => {},
            }
        }
        MsgType::Unknown
    }

    /// Builds the request that sends `text` to the conversation.
    pub fn create_msg_req(conversation_id: &str, text: &str) -> (r: KeybaseRequest)
        ensures
            is_send_req(r.msg, conversation_id@, text@),
            serializable(r.msg),
    {
        let mut body_obj: Vec<(String, JsonValue)> = Vec::new();
        body_obj.push((String::from_str("body"), JsonValue::Str(String::from_str(text))));
        let mut opts: Vec<(String, JsonValue)> = Vec::new();
        opts.push(
            (
                String::from_str("conversation_id"),
                JsonValue::Str(String::from_str(conversation_id)),
            ),
        );
        proof {
            assert(serializable(body_obj@[0].1));
            assert(serializable(JsonValue::Obj(body_obj)));
        }
        opts.push((String::from_str("message"), JsonValue::Obj(body_obj)));
        proof {
            assert(serializable(opts@[0].1));
            assert(serializable(opts@[1].1));
            assert(serializable(JsonValue::Obj(opts)));
        }
        let mut params: Vec<(String, JsonValue)> = Vec::new();
        params.push((String::from_str("options"), JsonValue::Obj(opts)));
        proof {
            assert(serializable(params@[0].1));
            assert(serializable(JsonValue::Obj(params)));
        }
        let mut top: Vec<(String, JsonValue)> = Vec::new();
        top.push((String::from_str("method"), JsonValue::Str(String::from_str("send"))));
        top.push((String::from_str("params"), JsonValue::Obj(params)));
        proof {
            assert(serializable(top@[0].1));
            assert(serializable(top@[1].1));
            assert(serializable(JsonValue::Obj(top)));
        }
        KeybaseRequest { msg: JsonValue::Obj(top) }
    }

    /// Builds the request that asks for the newest `num_msgs` messages of
    /// the conversation.
    pub fn create_read_conversation_req(conversation_id: &str, num_msgs: usize) -> (r:
        KeybaseRequest)
        requires
            num_msgs <= i64::MAX,
        ensures
            is_read_req(r.msg, conversation_id@, num_msgs as int),
            serializable(r.msg),
    {
        let mut pag: Vec<(String, JsonValue)> = Vec::new();
        pag.push((String::from_str("num"), JsonValue::Int(num_msgs as i64)));
        let mut opts: Vec<(String, JsonValue)> = Vec::new();
        opts.push(
            (
                String::from_str("conversation_id"),
                JsonValue::Str(String::from_str(conversation_id)),
            ),
        );
        proof {
            assert(serializable(pag@[0].1));
            assert(serializable(JsonValue::Obj(pag)));
        }
        opts.push((String::from_str("pagination"), JsonValue::Obj(pag)));
        proof {
            assert(serializable(opts@[0].1));
            assert(serializable(opts@[1].1));
            assert(serializable(JsonValue::Obj(opts)));
        }
        let mut params: Vec<(String, JsonValue)> = Vec::new();
        params.push((String::from_str("options"), JsonValue::Obj(opts)));
        proof {
            assert(serializable(params@[0].1));
            assert(serializable(JsonValue::Obj(params)));
        }
        let mut top: Vec<(String, JsonValue)> = Vec::new();
        top.push((String::from_str("method"), JsonValue::Str(String::from_str("read"))));
        top.push((String::from_str("params"), JsonValue::Obj(params)));
        proof {
            assert(serializable(top@[0].1));
            assert(serializable(top@[1].1));
            assert(serializable(JsonValue::Obj(top)));
        }
        KeybaseRequest { msg: JsonValue::Obj(top) }
    }

    /// Builds the request that asks for the channel list.
    pub fn create_list_channels_req() -> (r: KeybaseRequest)
        ensures
            is_list_req(r.msg),
            serializable(r.msg),
    {
        let mut top: Vec<(String, JsonValue)> = Vec::new();
        top.push((String::from_str("method"), JsonValue::Str(String::from_str("list"))));
        proof {
            assert(serializable(top@[0].1));
            assert(serializable(JsonValue::Obj(top)));
        }
        KeybaseRequest { msg: JsonValue::Obj(top) }
    }

    /// Classifies one parsed wire value into a typed reply, or says why it
    /// could not be.
    pub fn to_keybase_msg(v: &JsonValue) -> (r: Result<KeybaseReply, KeybaseInternalError>)
        ensures
            r matches Ok(k) ==> spec_classify(*v) matches Ok(m) && k@ == m,
            r matches Err(e) ==> spec_classify(*v) == Err::<ReplyModel, _>(e),
    {
        match Keybase::get_msg_type(v) {
            MsgType::ChatMsg => Keybase::create_chat_msg_reply(v),
            MsgType::ChatMsgList => Keybase::create_chat_msg_list_reply(v),
            MsgType::ChannelList => Keybase::create_channel_list_reply(v),
            MsgType::Unknown => Err(KeybaseInternalError::UnknownMessage),
        }
    }
}

impl KeybaseRequest {
    /// Renders the request as the single line that is written to the API
    /// process. Requests built by this library always serialize.
    pub fn serialize(&self) -> (r: Option<String>)
        ensures
            r matches Some(s) ==> serializable(self.msg) && s@ == json_text(self.msg),
            r is None ==> !serializable(self.msg),
    {
        to_json_text(&self.msg)
    }
}

/// What the listener loop must do with one line read from the listener
/// process: deliver a classified reply (with a desktop notification for a
/// single chat message), or skip the line.
#[derive(Debug, PartialEq)]
pub enum ListenerAction {
    Deliver { reply: KeybaseReply, notify: Option<String> },
    Skip,
}

/// One step of the listener loop: parse and classify one line. Parse and
/// classification failures are skipped so that one bad line never stops the
/// stream; a single chat message also carries its notification text.
pub fn process_listener_line(line: &str) -> (r: ListenerAction)
    ensures
        json_of(line@) is None ==> r is Skip,
        json_of(line@) matches Some(v) ==> match spec_classify(v) {
            Ok(m) => {
                &&& r matches ListenerAction::Deliver { reply, notify }
                &&& reply@ == m
                &&& (m matches ReplyModel::Msg { msg } ==> notify matches Some(n) && n@
                    == "Keybase: New message from "@ + msg.channel)
                &&& (!(m matches ReplyModel::Msg { .. }) ==> notify is None)
            },
            Err(_) => r is Skip,
        },
{
    match parse_line(line) {
        None => ListenerAction::Skip,
        Some(v) => match Keybase::to_keybase_msg(&v) {
            Err(_) => ListenerAction::Skip,
            Ok(reply) => {
                let notify: Option<String> = match &reply {
                    KeybaseReply::ChatMsgReply { msg } => {
                        let mut note = String::from_str("Keybase: New message from ");
                        note.append(msg.channel.as_str());
                        Some(note)
                    },
                    _ => None,
                };
                ListenerAction::Deliver { reply, notify }
            },
        },
    }
}

/// One step of the request/reply loop, after the reply line has been read:
/// parse and classify it, or say that it must be dropped.
pub fn process_api_reply_line(line: &str) -> (r: Option<KeybaseReply>)
    ensures
        json_of(line@) is None ==> r is None,
        json_of(line@) matches Some(v) ==> match spec_classify(v) {
            Ok(m) => r matches Some(k) && k@ == m,
            Err(_) => r is None,
        },
{
    match parse_line(line) {
        None => None,
        Some(v) => match Keybase::to_keybase_msg(&v) {
            Err(_) => None,
            Ok(reply) => Some(reply),
        },
    }
}

} // verus!
