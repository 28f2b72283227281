//! Messages that the robot sends of its own accord.

use crate::error::{Error, ErrorView};
use crate::json;
use crate::json::{Json, JsonView};
use crate::outbound::retry::RetryOptions;
use crate::reply;
use crate::reply::first_line_title;
use crate::text;
use crate::types::{IncomingMessage, MessageView, OutboundConfig, CONVERSATION_TYPE_GROUP};
use vstd::prelude::*;

verus! {

// ── whom ──

/// Whom a message goes to: exactly one of a user and a group.
#[derive(Debug, Default)]
pub struct SendTarget {
    pub user_id: String,
    pub conversation_id: String,
    /// The users who are mentioned in a group.
    pub at_user_ids: Vec<String>,
    pub at_dingtalk_ids: Vec<String>,
    /// Everybody is mentioned.
    pub at_all: bool,
}

pub struct TargetView {
    pub user_id: Seq<char>,
    pub conversation_id: Seq<char>,
    pub at_user_ids: Seq<Seq<char>>,
    pub at_dingtalk_ids: Seq<Seq<char>>,
    pub at_all: bool,
}

impl View for SendTarget {
    type V = TargetView;

    open spec fn view(&self) -> TargetView {
        TargetView {
            user_id: self.user_id@,
            conversation_id: self.conversation_id@,
            at_user_ids: text::texts(self.at_user_ids@),
            at_dingtalk_ids: text::texts(self.at_dingtalk_ids@),
            at_all: self.at_all,
        }
    }
}

impl Clone for SendTarget {
    fn clone(&self) -> (r: SendTarget)
        ensures
            r@ == self@,
    {
        SendTarget {
            user_id: self.user_id.clone(),
            conversation_id: self.conversation_id.clone(),
            at_user_ids: text::copy_texts(&self.at_user_ids),
            at_dingtalk_ids: text::copy_texts(&self.at_dingtalk_ids),
            at_all: self.at_all,
        }
    }
}

/// A user.
pub open spec fn to_user(id: Seq<char>) -> TargetView {
    TargetView {
        user_id: id,
        conversation_id: Seq::empty(),
        at_user_ids: Seq::empty(),
        at_dingtalk_ids: Seq::empty(),
        at_all: false,
    }
}

/// A group.
pub open spec fn to_group(id: Seq<char>) -> TargetView {
    TargetView {
        user_id: Seq::empty(),
        conversation_id: id,
        at_user_ids: Seq::empty(),
        at_dingtalk_ids: Seq::empty(),
        at_all: false,
    }
}

impl TargetView {
    /// Exactly one of a user and a group is named.
    pub open spec fn is_valid(self) -> bool {
        (self.user_id.len() == 0) != (self.conversation_id.len() == 0)
    }

    /// The one that is named.
    pub open spec fn id(self) -> Seq<char> {
        if self.user_id.len() == 0 {
            self.conversation_id
        } else {
            self.user_id
        }
    }
}

impl SendTarget {
    pub fn user(id: &str) -> (r: SendTarget)
        ensures
            r@ == to_user(id@),
    {
        let r = SendTarget {
            user_id: text::owned(id),
            conversation_id: String::new(),
            at_user_ids: Vec::new(),
            at_dingtalk_ids: Vec::new(),
            at_all: false,
        };
        assert(text::texts(Seq::<String>::empty()) =~= Seq::empty());
        r
    }

    pub fn group(conversation_id: &str) -> (r: SendTarget)
        ensures
            r@ == to_group(conversation_id@),
    {
        let r = SendTarget {
            user_id: String::new(),
            conversation_id: text::owned(conversation_id),
            at_user_ids: Vec::new(),
            at_dingtalk_ids: Vec::new(),
            at_all: false,
        };
        assert(text::texts(Seq::<String>::empty()) =~= Seq::empty());
        r
    }

    /// Exactly one of a user and a group is named.
    pub fn valid(&self) -> (r: bool)
        ensures
            r == self@.is_valid(),
    {
        self.user_id.as_str().is_empty() != self.conversation_id.as_str().is_empty()
    }

    /// The one that is named.
    pub fn target_id(&self) -> (r: &str)
        ensures
            r@ == self@.id(),
    {
        if self.user_id.as_str().is_empty() {
            self.conversation_id.as_str()
        } else {
            self.user_id.as_str()
        }
    }
}

/// Whom an answer to a message goes to when its own way is closed: the group,
/// or the sender.
pub open spec fn answer_target(m: MessageView) -> TargetView {
    if m.conversation_type == CONVERSATION_TYPE_GROUP@ {
        to_group(m.conversation_id)
    } else if m.sender_id.len() == 0 {
        to_user(m.sender_staff_id)
    } else {
        to_user(m.sender_id)
    }
}

/// Whom an answer to a message goes to when its own way is closed.
pub fn fallback_target(msg: &IncomingMessage) -> (r: SendTarget)
    ensures
        r@ == answer_target(msg@),
{
    if text::same(msg.conversation_type.as_str(), CONVERSATION_TYPE_GROUP) {
        SendTarget::group(msg.conversation_id.as_str())
    } else if msg.sender_id.as_str().is_empty() {
        SendTarget::user(msg.sender_staff_id.as_str())
    } else {
        SendTarget::user(msg.sender_id.as_str())
    }
}

// ── what ──

/// A message: its template and what fills it.
#[derive(Debug)]
pub struct Payload {
    pub msg_key: String,
    pub param: Json,
}

pub struct PayloadView {
    pub msg_key: Seq<char>,
    pub param: JsonView,
}

impl View for Payload {
    type V = PayloadView;

    open spec fn view(&self) -> PayloadView {
        PayloadView { msg_key: self.msg_key@, param: self.param@ }
    }
}

pub open spec fn text_message(content: Seq<char>) -> PayloadView {
    PayloadView {
        msg_key: "sampleText"@,
        param: JsonView::object().with_text("content"@, content),
    }
}

/// A markdown text; without a title its first line is the title.
pub open spec fn markdown_message(title: Seq<char>, body: Seq<char>) -> PayloadView {
    PayloadView {
        msg_key: "sampleMarkdown"@,
        param: JsonView::object().with_text(
            "title"@,
            if title.len() == 0 {
                reply::title_of(body)
            } else {
                title
            },
        ).with_text("text"@, body),
    }
}

/// A length of time where one is given, else a minute.
pub open spec fn duration_or_minute(ms: i64) -> int {
    if ms <= 0 {
        60000
    } else {
        ms as int
    }
}

/// A text.
pub fn text_payload(content: &str) -> (r: Payload)
    ensures
        r@ == text_message(content@),
{
    Payload {
        msg_key: text::owned("sampleText"),
        param: Json::object().with_text("content", content),
    }
}

/// A markdown text.
pub fn markdown_payload(title: &str, body: &str) -> (r: Payload)
    ensures
        r@ == markdown_message(title@, body@),
{
    let shown = if title.is_empty() {
        first_line_title(body)
    } else {
        text::owned(title)
    };
    Payload {
        msg_key: text::owned("sampleMarkdown"),
        param: Json::object().with_text("title", shown.as_str()).with_text("text", body),
    }
}

/// A file by its key.
pub open spec fn file_message(file_name: Seq<char>, raw_media_id: Seq<char>) -> PayloadView {
    PayloadView {
        msg_key: "sampleFile"@,
        param: JsonView::object().with_text("mediaId"@, raw_media_id).with_text(
            "fileName"@,
            file_name,
        ).with_text("fileType"@, "png"@),
    }
}

/// A video by its key and that of its first picture.
pub open spec fn video_message(
    raw_video_media_id: Seq<char>,
    raw_pic_media_id: Seq<char>,
    duration_ms: i64,
) -> PayloadView {
    PayloadView {
        msg_key: "sampleVideo"@,
        param: JsonView::object().with_text(
            "duration"@,
            text::signed_decimal(duration_or_minute(duration_ms)),
        ).with_text("videoMediaId"@, raw_video_media_id).with_text("videoType"@, "mp4"@).with_text(
            "picMediaId"@,
            raw_pic_media_id,
        ),
    }
}

/// A sound by its key.
pub open spec fn audio_message(raw_media_id: Seq<char>, duration_ms: i64) -> PayloadView {
    PayloadView {
        msg_key: "sampleAudio"@,
        param: JsonView::object().with_text("mediaId"@, raw_media_id).with_text(
            "duration"@,
            text::signed_decimal(duration_or_minute(duration_ms)),
        ),
    }
}

/// A picture by its address.
pub open spec fn image_message(image_url: Seq<char>) -> PayloadView {
    PayloadView {
        msg_key: "sampleImageMsg"@,
        param: JsonView::object().with_text("photoURL"@, image_url),
    }
}

/// A medium that was uploaded, as a file.
pub fn file_payload(file_name: &str, raw_media_id: &str) -> (r: Payload)
    ensures
        r@ == (PayloadView {
            msg_key: "sampleFile"@,
            param: JsonView::object().with_text("mediaId"@, raw_media_id@).with_text(
                "fileName"@,
                file_name@,
            ).with_text("fileType"@, "png"@),
        }),
        r@ == file_message(file_name@, raw_media_id@),
{
    Payload {
        msg_key: text::owned("sampleFile"),
        param: Json::object().with_text("mediaId", raw_media_id).with_text(
            "fileName",
            file_name,
        ).with_text("fileType", "png"),
    }
}

fn duration_text(ms: i64) -> (r: String)
    ensures
        r@ == text::signed_decimal(duration_or_minute(ms)),
{
    if ms <= 0 {
        text::signed_decimal_text(60000)
    } else {
        text::signed_decimal_text(ms)
    }
}

/// A video that was uploaded, with its first picture.
pub fn video_payload(raw_video_media_id: &str, raw_pic_media_id: &str, duration_ms: i64) -> (r:
    Payload)
    ensures
        r@ == (PayloadView {
            msg_key: "sampleVideo"@,
            param: JsonView::object().with_text(
                "duration"@,
                text::signed_decimal(duration_or_minute(duration_ms)),
            ).with_text("videoMediaId"@, raw_video_media_id@).with_text(
                "videoType"@,
                "mp4"@,
            ).with_text("picMediaId"@, raw_pic_media_id@),
        }),
        r@ == video_message(raw_video_media_id@, raw_pic_media_id@, duration_ms),
{
    let duration = duration_text(duration_ms);
    Payload {
        msg_key: text::owned("sampleVideo"),
        param: Json::object().with_text("duration", duration.as_str()).with_text(
            "videoMediaId",
            raw_video_media_id,
        ).with_text("videoType", "mp4").with_text("picMediaId", raw_pic_media_id),
    }
}

/// A sound that was uploaded.
pub fn audio_payload(raw_media_id: &str, duration_ms: i64) -> (r: Payload)
    ensures
        r@ == (PayloadView {
            msg_key: "sampleAudio"@,
            param: JsonView::object().with_text("mediaId"@, raw_media_id@).with_text(
                "duration"@,
                text::signed_decimal(duration_or_minute(duration_ms)),
            ),
        }),
        r@ == audio_message(raw_media_id@, duration_ms),
{
    let duration = duration_text(duration_ms);
    Payload {
        msg_key: text::owned("sampleAudio"),
        param: Json::object().with_text("mediaId", raw_media_id).with_text(
            "duration",
            duration.as_str(),
        ),
    }
}

/// A picture by its public address.
pub fn image_payload(image_url: &str) -> (r: Payload)
    ensures
        r@ == (PayloadView {
            msg_key: "sampleImageMsg"@,
            param: JsonView::object().with_text("photoURL"@, image_url@),
        }),
        r@ == image_message(image_url@),
{
    Payload {
        msg_key: text::owned("sampleImageMsg"),
        param: Json::object().with_text("photoURL", image_url),
    }
}

// ── what holds for every message ──

/// A text with another below it, where the member is one.
pub open spec fn appended(
    param: JsonView,
    key: Seq<char>,
    between: Seq<char>,
    footer: Seq<char>,
) -> JsonView {
    match param.get(key) {
        Some(JsonView::Text(s)) => param.with_other(key, JsonView::Text(s + between + footer)),
        _ => param,
    }
}

/// A message with the footer below its text.
pub open spec fn with_footer(
    footer: Seq<char>,
    msg_key: Seq<char>,
    param: JsonView,
) -> JsonView {
    if footer.len() == 0 {
        param
    } else if msg_key == "sampleText"@ {
        appended(param, "content"@, "\n\n"@, footer)
    } else if msg_key == "sampleMarkdown"@ {
        appended(param, "text"@, "\n\n---\n"@, footer)
    } else {
        param
    }
}

fn append_below(param: Json, key: &str, between: &str, footer: &str) -> (r: Json)
    ensures
        r@ == appended(param@, key@, between@, footer@),
{
    let longer = match param.get(key) {
        Some(Json::Text(s)) => {
            let mut t = s.clone();
            t.append(between);
            t.append(footer);
            t
        },
        _ => return param,
    };
    param.with_other(key, Json::Text(longer))
}

/// A message with the footer below its text.
pub fn add_footer(footer: &str, msg_key: &str, param: Json) -> (r: Json)
    ensures
        r@ == with_footer(footer@, msg_key@, param@),
{
    if footer.is_empty() {
        param
    } else if text::same(msg_key, "sampleText") {
        append_below(param, "content", "\n\n", footer)
    } else if text::same(msg_key, "sampleMarkdown") {
        append_below(param, "text", "\n\n---\n", footer)
    } else {
        param
    }
}

/// A message as it goes out: with the footer, which is not put below a text that
/// has it already.
pub open spec fn outgoing(
    footer: Seq<char>,
    msg_key: Seq<char>,
    param: JsonView,
    has_footer: bool,
) -> JsonView {
    if has_footer {
        param
    } else {
        with_footer(footer, msg_key, param)
    }
}

/// A message as it goes out: an answer that could not go to its session has its
/// footer already.
pub fn outgoing_param(footer: &str, msg_key: &str, param: Json, has_footer: bool) -> (r: Json)
    ensures
        r@ == outgoing(footer@, msg_key@, param@, has_footer),
{
    if has_footer {
        param
    } else {
        add_footer(footer, msg_key, param)
    }
}

/// An answer that cannot go to its session and is sent on its own instead has
/// the footer once, as it would have in the session.
pub proof fn footer_stands_once(footer: Seq<char>, msg_key: Seq<char>, param: JsonView)
    ensures
        outgoing(footer, msg_key, outgoing(footer, msg_key, param, false), true) == with_footer(
            footer,
            msg_key,
            param,
        ),
{
}

/// The text of a message keeps what it said and ends with the footer.
pub proof fn footer_stands_below(footer: Seq<char>, content: Seq<char>)
    requires
        footer.len() > 0,
    ensures
        with_footer(footer, "sampleText"@, text_message(content).param).get("content"@) == Some(
            JsonView::Text(content + "\n\n"@ + footer),
        ),
{
    let p = text_message(content).param;
    json::with_then_get(JsonView::object(), "content"@, JsonView::Text(content), "content"@);
    json::replaced_then_get(
        p->Object_0,
        "content"@,
        JsonView::Text(content + "\n\n"@ + footer),
        "content"@,
    );
}

/// A markdown text keeps what it said and its title, and ends with the footer.
pub proof fn footer_stands_below_markdown(footer: Seq<char>, title: Seq<char>, body: Seq<char>)
    requires
        footer.len() > 0,
        title.len() > 0,
    ensures
        ({
            let p = with_footer(footer, "sampleMarkdown"@, markdown_message(title, body).param);
            &&& p.get("text"@) == Some(JsonView::Text(body + "\n\n---\n"@ + footer))
            &&& p.get("title"@) == Some(JsonView::Text(title))
        }),
{
    reveal_strlit("sampleMarkdown");
    reveal_strlit("sampleText");
    reveal_strlit("title");
    reveal_strlit("text");
    assert("sampleMarkdown"@.len() != "sampleText"@.len());
    assert("title"@.len() != "text"@.len());
    let head = JsonView::object().with_text("title"@, title);
    let p = markdown_message(title, body).param;
    json::with_then_get(JsonView::object(), "title"@, JsonView::Text(title), "title"@);
    json::with_then_get(head, "text"@, JsonView::Text(body), "title"@);
    json::with_then_get(head, "text"@, JsonView::Text(body), "text"@);
    let longer = JsonView::Text(body + "\n\n---\n"@ + footer);
    json::replaced_then_get(p->Object_0, "text"@, longer, "text"@);
    json::replaced_then_get(p->Object_0, "text"@, longer, "title"@);
}

/// A message once a hook gave another one in its place, which was read as JSON
/// with the given outcome: what is no JSON does not replace it.
pub open spec fn replacement(param: JsonView, read: Option<Result<JsonView, Seq<char>>>) -> JsonView {
    match read {
        Some(Ok(v)) => v,
        _ => param,
    }
}

/// A message once a hook gave another one in its place, which was read as JSON
/// with the given outcome.
pub fn replace_read(param: Json, read: Option<Result<Json, String>>) -> (r: Json)
    ensures
        r@ == replacement(
            param@,
            match read {
                Some(x) => Some(json::outcome(x)),
                None => None,
            },
        ),
{
    match read {
        Some(Ok(v)) => v,
        _ => param,
    }
}

/// A message once a hook gave another one in its place, or none.
pub fn replace_param(param: Json, given: Option<&str>) -> (r: Json)
    ensures
        r@ == replacement(
            param@,
            match given {
                Some(s) => Some(json::parsed_json(vstd::utf8::encode_utf8(s@))),
                None => None,
            },
        ),
{
    match given {
        Some(s) => replace_read(param, Some(json::parse(s.as_bytes()))),
        None => param,
    }
}

/// The words of a message as a hook sees them.
pub fn payload_text(param: &Json) -> (r: String)
    ensures
        r@ == json::json_text(param@),
{
    json::to_text(param)
}

/// How often a message is tried: as it is said, else by default.
pub fn retry_options(outbound: Option<&OutboundConfig>) -> (r: RetryOptions)
    ensures
        match outbound {
            Some(o) => r.max_attempts == o.retry.max_attempts && r.base_delay.nanos
                == o.retry.base_delay_ms * 1_000_000,
            None => r.max_attempts == 3 && r.base_delay.nanos == 500_000_000,
        },
{
    match outbound {
        Some(o) => RetryOptions::of_config(&o.retry),
        None => RetryOptions::default(),
    }
}

// ── how ──

/// A request to the service.
#[derive(Debug)]
pub struct SendRequest {
    pub path: String,
    pub body: Json,
}

pub struct RequestView {
    pub path: Seq<char>,
    pub body: JsonView,
}

impl View for SendRequest {
    type V = RequestView;

    open spec fn view(&self) -> RequestView {
        RequestView { path: self.path@, body: self.body@ }
    }
}

/// Texts as a document.
pub open spec fn text_array(s: Seq<Seq<char>>) -> JsonView {
    JsonView::Array(Seq::new(s.len(), |i: int| JsonView::Text(s[i])))
}

fn text_array_of(v: &Vec<String>) -> (r: Json)
    ensures
        r@ == text_array(text::texts(v@)),
{
    let mut out: Vec<Json> = Vec::new();
    let mut i: usize = 0;
    while i < v.len()
        invariant
            i <= v@.len(),
            out@.len() == i,
            forall|k: int| 0 <= k < i ==> (#[trigger] out@[k])@ == JsonView::Text(v@[k]@),
        decreases v@.len() - i,
    {
        out.push(Json::string(v[i].as_str()));
        i += 1;
    }
    assert(json::views(out@) =~= Seq::new(
        text::texts(v@).len(),
        |i: int| JsonView::Text(text::texts(v@)[i]),
    ));
    Json::array(out)
}

/// The members of a message to a group that say who is mentioned.
pub open spec fn with_mentions(body: JsonView, t: TargetView) -> JsonView {
    let a = if t.at_user_ids.len() == 0 {
        body
    } else {
        body.with("atUserIds"@, text_array(t.at_user_ids))
    };
    let b = if t.at_dingtalk_ids.len() == 0 {
        a
    } else {
        a.with("atOpendingtalkIds"@, text_array(t.at_dingtalk_ids))
    };
    if t.at_all {
        b.with("isAtAll"@, JsonView::Bool(true))
    } else {
        b
    }
}

/// The request that sends a message whose words are given: to a user, or to a
/// group.
pub open spec fn request_of(
    robot_code: Seq<char>,
    t: TargetView,
    msg_key: Seq<char>,
    param_text: Seq<char>,
) -> RequestView {
    if t.user_id.len() > 0 {
        RequestView {
            path: "/v1.0/robot/oToMessages/batchSend"@,
            body: JsonView::object().with_text("robotCode"@, robot_code).with(
                "userIds"@,
                text_array(seq![t.user_id]),
            ).with_text("msgKey"@, msg_key).with_text("msgParam"@, param_text),
        }
    } else {
        RequestView {
            path: "/v1.0/robot/groupMessages/send"@,
            body: with_mentions(
                JsonView::object().with_text("robotCode"@, robot_code).with_text(
                    "openConversationId"@,
                    t.conversation_id,
                ).with_text("msgKey"@, msg_key).with_text("msgParam"@, param_text),
                t,
            ),
        }
    }
}

/// The request that sends a message whose words are given.
pub fn request_with(robot_code: &str, target: &SendTarget, msg_key: &str, param_text: &str) -> (r:
    SendRequest)
    ensures
        r@ == request_of(robot_code@, target@, msg_key@, param_text@),
{
    if !target.user_id.as_str().is_empty() {
        let mut users: Vec<String> = Vec::new();
        users.push(target.user_id.clone());
        assert(text::texts(users@) =~= seq![target@.user_id]);
        let body = Json::object().with_text("robotCode", robot_code).with(
            "userIds",
            text_array_of(&users),
        ).with_text("msgKey", msg_key).with_text("msgParam", param_text);
        return SendRequest { path: text::owned("/v1.0/robot/oToMessages/batchSend"), body };
    }
    let mut body = Json::object().with_text("robotCode", robot_code).with_text(
        "openConversationId",
        target.conversation_id.as_str(),
    ).with_text("msgKey", msg_key).with_text("msgParam", param_text);
    if target.at_user_ids.len() > 0 {
        body = body.with("atUserIds", text_array_of(&target.at_user_ids));
    }
    if target.at_dingtalk_ids.len() > 0 {
        body = body.with("atOpendingtalkIds", text_array_of(&target.at_dingtalk_ids));
    }
    if target.at_all {
        body = body.with("isAtAll", Json::Bool(true));
    }
    SendRequest { path: text::owned("/v1.0/robot/groupMessages/send"), body }
}

/// The words for a target that names not exactly one.
pub open spec fn bad_target() -> ErrorView {
    ErrorView::Channel("SendTarget: 恰好设置 UserID（单聊）或 ConversationID（群聊）之一"@)
}

/// Refuses a target that names not exactly one of a user and a group.
pub fn check_target(target: &SendTarget) -> (r: Result<(), Error>)
    ensures
        r is Ok <==> target@.is_valid(),
        r matches Err(e) ==> e@ == bad_target(),
{
    if target.valid() {
        Ok(())
    } else {
        Err(
            Error::channel(
                "SendTarget: 恰好设置 UserID（单聊）或 ConversationID（群聊）之一",
            ),
        )
    }
}

/// The request that sends a message. What fills it is sent as a text that holds
/// JSON.
pub fn send_request(robot_code: &str, target: &SendTarget, msg_key: &str, param: &Json) -> (r:
    Result<SendRequest, Error>)
    ensures
        match r {
            Ok(q) => target@.is_valid() && q@ == request_of(
                robot_code@,
                target@,
                msg_key@,
                json::json_text(param@),
            ),
            Err(e) => !target@.is_valid() && e@ == bad_target(),
        },
{
    match check_target(target) {
        Ok(()) => {},
        Err(e) => return Err(e),
    }
    let words = json::to_text(param);
    Ok(request_with(robot_code, target, msg_key, words.as_str()))
}

/// The answer to a message goes to somebody, where its sender or its group is
/// known.
pub proof fn answer_target_is_valid(m: MessageView)
    requires
        m.conversation_type == CONVERSATION_TYPE_GROUP@ ==> m.conversation_id.len() > 0,
        m.conversation_type != CONVERSATION_TYPE_GROUP@ ==> m.sender_id.len() > 0
            || m.sender_staff_id.len() > 0,
    ensures
        answer_target(m).is_valid(),
{
}

// ── what the requests say ──

/// A message to a user names the robot, the user and no other, the template and
/// what fills it.
pub proof fn message_to_a_user_goes_to_the_user(
    robot_code: Seq<char>,
    t: TargetView,
    msg_key: Seq<char>,
    param_text: Seq<char>,
)
    requires
        t.user_id.len() > 0,
    ensures
        ({
            let b = request_of(robot_code, t, msg_key, param_text).body;
            &&& b.get("robotCode"@) == Some(JsonView::Text(robot_code))
            &&& b.get("userIds"@) == Some(JsonView::Array(seq![JsonView::Text(t.user_id)]))
            &&& b.get("msgKey"@) == Some(JsonView::Text(msg_key))
            &&& b.get("msgParam"@) == Some(JsonView::Text(param_text))
            &&& b.get("openConversationId"@) is None
        }),
        request_of(robot_code, t, msg_key, param_text).path == "/v1.0/robot/oToMessages/batchSend"@,
{
    let b = request_of(robot_code, t, msg_key, param_text).body;
    let s = seq![
        ("robotCode"@, JsonView::Text(robot_code)),
        ("userIds"@, JsonView::Array(seq![JsonView::Text(t.user_id)])),
        ("msgKey"@, JsonView::Text(msg_key)),
        ("msgParam"@, JsonView::Text(param_text)),
    ];
    reveal_strlit("robotCode");
    reveal_strlit("userIds");
    reveal_strlit("msgKey");
    reveal_strlit("msgParam");
    reveal_strlit("openConversationId");
    assert("robotCode"@.len() != "userIds"@.len());
    assert("robotCode"@.len() != "msgKey"@.len());
    assert("robotCode"@.len() != "msgParam"@.len());
    assert("robotCode"@.len() != "openConversationId"@.len());
    assert("userIds"@.len() != "msgKey"@.len());
    assert("userIds"@.len() != "msgParam"@.len());
    assert("userIds"@.len() != "openConversationId"@.len());
    assert("msgKey"@.len() != "msgParam"@.len());
    assert("msgKey"@.len() != "openConversationId"@.len());
    assert("msgParam"@.len() != "openConversationId"@.len());
    assert(text_array(seq![t.user_id])->Array_0 =~= seq![JsonView::Text(t.user_id)]);
    assert(b->Object_0 =~= s);
    json::member_is_found(s, 0, "robotCode"@);
    json::member_is_found(s, 1, "userIds"@);
    json::member_is_found(s, 2, "msgKey"@);
    json::member_is_found(s, 3, "msgParam"@);
    json::member_is_missing(s, "openConversationId"@);
}

/// A message to a group names the robot, the group, the template and what fills
/// it; where nobody is mentioned it says no more.
pub proof fn message_to_a_group_goes_to_the_group(
    robot_code: Seq<char>,
    t: TargetView,
    msg_key: Seq<char>,
    param_text: Seq<char>,
)
    requires
        t.user_id.len() == 0,
        t.at_user_ids.len() == 0,
        t.at_dingtalk_ids.len() == 0,
        !t.at_all,
    ensures
        ({
            let b = request_of(robot_code, t, msg_key, param_text).body;
            &&& b.get("robotCode"@) == Some(JsonView::Text(robot_code))
            &&& b.get("openConversationId"@) == Some(JsonView::Text(t.conversation_id))
            &&& b.get("msgKey"@) == Some(JsonView::Text(msg_key))
            &&& b.get("msgParam"@) == Some(JsonView::Text(param_text))
            &&& b.get("userIds"@) is None
            &&& b.get("atUserIds"@) is None
            &&& b.get("atOpendingtalkIds"@) is None
            &&& b.get("isAtAll"@) is None
        }),
        request_of(robot_code, t, msg_key, param_text).path == "/v1.0/robot/groupMessages/send"@,
{
    let b = request_of(robot_code, t, msg_key, param_text).body;
    let s = seq![
        ("robotCode"@, JsonView::Text(robot_code)),
        ("openConversationId"@, JsonView::Text(t.conversation_id)),
        ("msgKey"@, JsonView::Text(msg_key)),
        ("msgParam"@, JsonView::Text(param_text)),
    ];
    reveal_strlit("robotCode");
    reveal_strlit("openConversationId");
    reveal_strlit("msgKey");
    reveal_strlit("msgParam");
    reveal_strlit("userIds");
    reveal_strlit("atUserIds");
    reveal_strlit("atOpendingtalkIds");
    reveal_strlit("isAtAll");
    assert("robotCode"@.len() != "openConversationId"@.len());
    assert("robotCode"@.len() != "msgKey"@.len());
    assert("robotCode"@.len() != "msgParam"@.len());
    assert("robotCode"@.len() != "userIds"@.len());
    assert("robotCode"@[0] != "atUserIds"@[0]);
    assert("robotCode"@.len() != "atOpendingtalkIds"@.len());
    assert("robotCode"@.len() != "isAtAll"@.len());
    assert("openConversationId"@.len() != "msgKey"@.len());
    assert("openConversationId"@.len() != "msgParam"@.len());
    assert("openConversationId"@.len() != "userIds"@.len());
    assert("openConversationId"@.len() != "atUserIds"@.len());
    assert("openConversationId"@.len() != "atOpendingtalkIds"@.len());
    assert("openConversationId"@.len() != "isAtAll"@.len());
    assert("msgKey"@.len() != "msgParam"@.len());
    assert("msgKey"@.len() != "userIds"@.len());
    assert("msgKey"@.len() != "atUserIds"@.len());
    assert("msgKey"@.len() != "atOpendingtalkIds"@.len());
    assert("msgKey"@.len() != "isAtAll"@.len());
    assert("msgParam"@.len() != "userIds"@.len());
    assert("msgParam"@.len() != "atUserIds"@.len());
    assert("msgParam"@.len() != "atOpendingtalkIds"@.len());
    assert("msgParam"@.len() != "isAtAll"@.len());
    assert("userIds"@.len() != "atUserIds"@.len());
    assert("userIds"@.len() != "atOpendingtalkIds"@.len());
    assert("userIds"@[0] != "isAtAll"@[0]);
    assert("atUserIds"@.len() != "atOpendingtalkIds"@.len());
    assert("atUserIds"@.len() != "isAtAll"@.len());
    assert("atOpendingtalkIds"@.len() != "isAtAll"@.len());
    assert(b->Object_0 =~= s);
    json::member_is_found(s, 0, "robotCode"@);
    json::member_is_found(s, 1, "openConversationId"@);
    json::member_is_found(s, 2, "msgKey"@);
    json::member_is_found(s, 3, "msgParam"@);
    json::member_is_missing(s, "userIds"@);
    json::member_is_missing(s, "atUserIds"@);
    json::member_is_missing(s, "atOpendingtalkIds"@);
    json::member_is_missing(s, "isAtAll"@);
}

/// A message to a group mentions the users of the target, each of them by the name
/// it is given with, and everybody where the target says so.
pub proof fn users_of_a_target_are_mentioned(
    robot_code: Seq<char>,
    t: TargetView,
    msg_key: Seq<char>,
    param_text: Seq<char>,
)
    requires
        t.user_id.len() == 0,
    ensures
        ({
            let b = request_of(robot_code, t, msg_key, param_text).body;
            &&& b.get("openConversationId"@) == Some(JsonView::Text(t.conversation_id))
            &&& b.get("msgKey"@) == Some(JsonView::Text(msg_key))
            &&& b.get("msgParam"@) == Some(JsonView::Text(param_text))
            &&& b.get("robotCode"@) == Some(JsonView::Text(robot_code))
            &&& b.get("atUserIds"@) is Some <==> t.at_user_ids.len() > 0
            &&& b.get("atOpendingtalkIds"@) is Some <==> t.at_dingtalk_ids.len() > 0
            &&& b.get("isAtAll"@) == (if t.at_all {
                Some(JsonView::Bool(true))
            } else {
                None
            })
            &&& forall|i: int|
                0 <= i < t.at_user_ids.len() ==> b.items_at("atUserIds"@)[i] == JsonView::Text(
                    #[trigger] t.at_user_ids[i],
                )
            &&& t.at_user_ids.len() == b.items_at("atUserIds"@).len()
            &&& forall|i: int|
                0 <= i < t.at_dingtalk_ids.len() ==> b.items_at("atOpendingtalkIds"@)[i]
                    == JsonView::Text(#[trigger] t.at_dingtalk_ids[i])
            &&& t.at_dingtalk_ids.len() == b.items_at("atOpendingtalkIds"@).len()
        }),
{
    reveal_strlit("robotCode");
    reveal_strlit("openConversationId");
    reveal_strlit("msgKey");
    reveal_strlit("msgParam");
    reveal_strlit("atUserIds");
    reveal_strlit("atOpendingtalkIds");
    reveal_strlit("isAtAll");
    assert("robotCode"@.len() != "openConversationId"@.len());
    assert("robotCode"@.len() != "msgKey"@.len());
    assert("robotCode"@.len() != "msgParam"@.len());
    assert("robotCode"@[0] != "atUserIds"@[0]);
    assert("robotCode"@.len() != "atOpendingtalkIds"@.len());
    assert("robotCode"@.len() != "isAtAll"@.len());
    assert("openConversationId"@.len() != "msgKey"@.len());
    assert("openConversationId"@.len() != "msgParam"@.len());
    assert("openConversationId"@.len() != "atUserIds"@.len());
    assert("openConversationId"@.len() != "atOpendingtalkIds"@.len());
    assert("openConversationId"@.len() != "isAtAll"@.len());
    assert("msgKey"@.len() != "msgParam"@.len());
    assert("msgKey"@.len() != "atUserIds"@.len());
    assert("msgKey"@.len() != "atOpendingtalkIds"@.len());
    assert("msgKey"@.len() != "isAtAll"@.len());
    assert("msgParam"@.len() != "atUserIds"@.len());
    assert("msgParam"@.len() != "atOpendingtalkIds"@.len());
    assert("msgParam"@.len() != "isAtAll"@.len());
    assert("atUserIds"@.len() != "atOpendingtalkIds"@.len());
    assert("atUserIds"@.len() != "isAtAll"@.len());
    assert("atOpendingtalkIds"@.len() != "isAtAll"@.len());
    let head = seq![
        ("robotCode"@, JsonView::Text(robot_code)),
        ("openConversationId"@, JsonView::Text(t.conversation_id)),
        ("msgKey"@, JsonView::Text(msg_key)),
        ("msgParam"@, JsonView::Text(param_text)),
    ];
    let users: Seq<(Seq<char>, JsonView)> = if t.at_user_ids.len() > 0 {
        seq![("atUserIds"@, text_array(t.at_user_ids))]
    } else {
        Seq::empty()
    };
    let others: Seq<(Seq<char>, JsonView)> = if t.at_dingtalk_ids.len() > 0 {
        seq![("atOpendingtalkIds"@, text_array(t.at_dingtalk_ids))]
    } else {
        Seq::empty()
    };
    let all: Seq<(Seq<char>, JsonView)> = if t.at_all {
        seq![("isAtAll"@, JsonView::Bool(true))]
    } else {
        Seq::empty()
    };
    let s = head + users + others + all;
    let b = request_of(robot_code, t, msg_key, param_text).body;
    assert(b->Object_0 =~= s);
    json::member_is_found(s, 0, "robotCode"@);
    json::member_is_found(s, 1, "openConversationId"@);
    json::member_is_found(s, 2, "msgKey"@);
    json::member_is_found(s, 3, "msgParam"@);
    if t.at_user_ids.len() > 0 {
        json::member_is_found(s, 4, "atUserIds"@);
    } else {
        json::member_is_missing(s, "atUserIds"@);
    }
    if t.at_dingtalk_ids.len() > 0 {
        json::member_is_found(s, 4 + users.len() as int, "atOpendingtalkIds"@);
    } else {
        json::member_is_missing(s, "atOpendingtalkIds"@);
    }
    if t.at_all {
        json::member_is_found(s, 4 + users.len() as int + others.len(), "isAtAll"@);
    } else {
        json::member_is_missing(s, "isAtAll"@);
    }
}

/// A text says its content, and a markdown text its title and its body.
pub proof fn messages_say_what_they_are_given(
    content: Seq<char>,
    title: Seq<char>,
    body: Seq<char>,
)
    requires
        title.len() > 0,
    ensures
        text_message(content).msg_key == "sampleText"@,
        text_message(content).param.get("content"@) == Some(JsonView::Text(content)),
        markdown_message(title, body).msg_key == "sampleMarkdown"@,
        markdown_message(title, body).param.get("title"@) == Some(JsonView::Text(title)),
        markdown_message(title, body).param.get("text"@) == Some(JsonView::Text(body)),
{
    reveal_strlit("title");
    reveal_strlit("text");
    assert("title"@.len() != "text"@.len());
    let c = seq![("content"@, JsonView::Text(content))];
    let m = seq![("title"@, JsonView::Text(title)), ("text"@, JsonView::Text(body))];
    assert(text_message(content).param->Object_0 =~= c);
    assert(markdown_message(title, body).param->Object_0 =~= m);
    json::member_is_found(c, 0, "content"@);
    json::member_is_found(m, 0, "title"@);
    json::member_is_found(m, 1, "text"@);
}

/// An answer goes to the group that the message came from, and between two to its
/// sender.
pub proof fn answer_goes_where_the_message_came_from(m: MessageView)
    ensures
        m.conversation_type == "group"@ ==> answer_target(m).conversation_id == m.conversation_id
            && answer_target(m).user_id.len() == 0,
        m.conversation_type != "group"@ ==> answer_target(m).conversation_id.len() == 0,
        m.conversation_type != "group"@ && m.sender_id.len() > 0 ==> answer_target(m).user_id
            == m.sender_id,
        m.conversation_type != "group"@ && m.sender_id.len() == 0 ==> answer_target(m).user_id
            == m.sender_staff_id,
        !answer_target(m).at_all,
        answer_target(m).at_user_ids.len() == 0,
        answer_target(m).at_dingtalk_ids.len() == 0,
{
}

/// A target is good exactly where it names a user or a group, and not both.
pub proof fn target_names_one(t: TargetView)
    ensures
        t.user_id.len() > 0 && t.conversation_id.len() == 0 ==> t.is_valid() && t.id()
            == t.user_id,
        t.user_id.len() == 0 && t.conversation_id.len() > 0 ==> t.is_valid() && t.id()
            == t.conversation_id,
        t.user_id.len() > 0 && t.conversation_id.len() > 0 ==> !t.is_valid(),
        t.user_id.len() == 0 && t.conversation_id.len() == 0 ==> !t.is_valid(),
{
}

/// Messages other than texts have no footer, and an empty footer changes nothing.
pub proof fn other_messages_have_no_footer(
    footer: Seq<char>,
    msg_key: Seq<char>,
    param: JsonView,
)
    ensures
        footer.len() == 0 ==> with_footer(footer, msg_key, param) == param,
        msg_key != "sampleText"@ && msg_key != "sampleMarkdown"@ ==> with_footer(
            footer,
            msg_key,
            param,
        ) == param,
{
}

/// What a hook gives in place of a message takes its place where it is JSON; else
/// the message stays.
pub proof fn hook_replaces_with_json(param: JsonView, v: JsonView, e: Seq<char>)
    ensures
        replacement(param, Some(Ok(v))) == v,
        replacement(param, Some(Err(e))) == param,
        replacement(param, None) == param,
{
}

/// A file is sent by its key and under its name.
pub proof fn file_is_sent_by_its_key(name: Seq<char>, id: Seq<char>)
    ensures
        ({
            let b = file_message(name, id).param;
            &&& b.get("mediaId"@) == Some(JsonView::Text(id))
            &&& b.get("fileName"@) == Some(JsonView::Text(name))
            &&& b.get("fileType"@) == Some(JsonView::Text("png"@))
        }),
        file_message(name, id).msg_key == "sampleFile"@,
{
    let b = file_message(name, id).param;
    let s = seq![
        ("mediaId"@, JsonView::Text(id)),
        ("fileName"@, JsonView::Text(name)),
        ("fileType"@, JsonView::Text("png"@)),
    ];
    reveal_strlit("mediaId");
    reveal_strlit("fileName");
    reveal_strlit("fileType");
    assert("mediaId"@.len() != "fileName"@.len());
    assert("mediaId"@.len() != "fileType"@.len());
    assert("fileName"@[4] != "fileType"@[4]);
    assert(b->Object_0 =~= s);
    json::member_is_found(s, 0, "mediaId"@);
    json::member_is_found(s, 1, "fileName"@);
    json::member_is_found(s, 2, "fileType"@);
}

/// A video is sent by its key, with its first picture and its length, which is a minute
/// where it is not known.
pub proof fn video_is_sent_by_its_key(id: Seq<char>, picture: Seq<char>, ms: i64)
    ensures
        ({
            let b = video_message(id, picture, ms).param;
            let length: int = if ms > 0 {
                ms as int
            } else {
                60000
            };
            &&& b.get("duration"@) == Some(JsonView::Text(text::signed_decimal(length)))
            &&& b.get("videoMediaId"@) == Some(JsonView::Text(id))
            &&& b.get("videoType"@) == Some(JsonView::Text("mp4"@))
            &&& b.get("picMediaId"@) == Some(JsonView::Text(picture))
        }),
        video_message(id, picture, ms).msg_key == "sampleVideo"@,
{
    let b = video_message(id, picture, ms).param;
    let length: int = if ms > 0 {
        ms as int
    } else {
        60000
    };
    let s = seq![
        ("duration"@, JsonView::Text(text::signed_decimal(length))),
        ("videoMediaId"@, JsonView::Text(id)),
        ("videoType"@, JsonView::Text("mp4"@)),
        ("picMediaId"@, JsonView::Text(picture)),
    ];
    reveal_strlit("duration");
    reveal_strlit("videoMediaId");
    reveal_strlit("videoType");
    reveal_strlit("picMediaId");
    assert("duration"@.len() != "videoMediaId"@.len());
    assert("duration"@.len() != "videoType"@.len());
    assert("duration"@.len() != "picMediaId"@.len());
    assert("videoMediaId"@.len() != "videoType"@.len());
    assert("videoMediaId"@.len() != "picMediaId"@.len());
    assert("videoType"@.len() != "picMediaId"@.len());
    assert(b->Object_0 =~= s);
    json::member_is_found(s, 0, "duration"@);
    json::member_is_found(s, 1, "videoMediaId"@);
    json::member_is_found(s, 2, "videoType"@);
    json::member_is_found(s, 3, "picMediaId"@);
}

/// A sound is sent by its key with its length, which is a minute where it is not known.
pub proof fn sound_is_sent_by_its_key(id: Seq<char>, ms: i64)
    ensures
        ({
            let b = audio_message(id, ms).param;
            let length: int = if ms > 0 {
                ms as int
            } else {
                60000
            };
            &&& b.get("mediaId"@) == Some(JsonView::Text(id))
            &&& b.get("duration"@) == Some(JsonView::Text(text::signed_decimal(length)))
        }),
        audio_message(id, ms).msg_key == "sampleAudio"@,
{
    let b = audio_message(id, ms).param;
    let length: int = if ms > 0 {
        ms as int
    } else {
        60000
    };
    let s = seq![
        ("mediaId"@, JsonView::Text(id)),
        ("duration"@, JsonView::Text(text::signed_decimal(length))),
    ];
    reveal_strlit("mediaId");
    reveal_strlit("duration");
    assert("mediaId"@.len() != "duration"@.len());
    assert(b->Object_0 =~= s);
    json::member_is_found(s, 0, "mediaId"@);
    json::member_is_found(s, 1, "duration"@);
}

/// A picture is sent by its address.
pub proof fn picture_is_sent_by_its_address(u: Seq<char>)
    ensures
        ({
            let b = image_message(u).param;
            &&& b.get("photoURL"@) == Some(JsonView::Text(u))
        }),
        image_message(u).msg_key == "sampleImageMsg"@,
{
    let b = image_message(u).param;
    let s = seq![("photoURL"@, JsonView::Text(u))];
    reveal_strlit("photoURL");
    assert(b->Object_0 =~= s);
    json::member_is_found(s, 0, "photoURL"@);
}

/// A message that has its footer goes out as it is, and another gets the footer.
pub proof fn footer_is_put_once(footer: Seq<char>, key: Seq<char>, param: JsonView)
    ensures
        outgoing(footer, key, param, true) == param,
        outgoing(footer, key, param, false) == with_footer(footer, key, param),
        outgoing(Seq::empty(), key, param, false) == param,
{
}

/// What is said of a target that names not exactly one.
pub proof fn bad_target_is_told()
    ensures
        bad_target() == ErrorView::Channel(
            "SendTarget: 恰好设置 UserID（单聊）或 ConversationID（群聊）之一"@,
        ),
{
}

} // verus!
