//! Stamps on the message of a user: that the robot thinks, and that it is done.

use crate::error::{Error, ErrorView};
use crate::json;
use crate::json::{Json, JsonView};
use crate::text;
use vstd::prelude::*;

verus! {

pub const EMOTION_THINKING: &'static str = "🤔思考中";

pub const EMOTION_DONE: &'static str = "🥳完成";

/// A request for a stamp, or for taking one back.
#[derive(Debug)]
pub struct EmotionRequest {
    pub path: String,
    pub body: Json,
}

/// Where a stamp is asked for, or taken back.
pub open spec fn emotion_path(recall: bool) -> Seq<char> {
    if recall {
        "/v1.0/robot/emotion/recall"@
    } else {
        "/v1.0/robot/emotion/reply"@
    }
}

/// What a stamp is asked for with.
pub open spec fn emotion_body(
    robot_code: Seq<char>,
    conversation_id: Seq<char>,
    msg_id: Seq<char>,
    name: Seq<char>,
) -> JsonView {
    JsonView::object().with_text("robotCode"@, robot_code).with_text(
        "openConversationId"@,
        conversation_id,
    ).with_text("openMsgId"@, msg_id).with("emotionType"@, JsonView::Integer(2)).with_text(
        "emotionName"@,
        name,
    ).with(
        "textEmotion"@,
        JsonView::object().with_text("emotionId"@, "2659900"@).with_text(
            "emotionName"@,
            name,
        ).with_text("text"@, name).with_text("backgroundId"@, "im_bg_1"@),
    )
}

/// The outcome of asking for a stamp: a message that is not named has none.
pub open spec fn emotion_outcome(
    r: Result<EmotionRequest, Error>,
    robot_code: Seq<char>,
    conversation_id: Seq<char>,
    msg_id: Seq<char>,
    name: Seq<char>,
    recall: bool,
) -> bool {
    if conversation_id.len() == 0 || msg_id.len() == 0 {
        r matches Err(e) && e@ == ErrorView::Channel(
            "emotion needs openConversationId and openMsgId"@,
        )
    } else {
        r matches Ok(q) && q.path@ == emotion_path(recall) && q.body@ == emotion_body(
            robot_code,
            conversation_id,
            msg_id,
            name,
        )
    }
}

/// The request for a stamp, or for taking one back.
pub fn send_emotion(
    robot_code: &str,
    conversation_id: &str,
    msg_id: &str,
    name: &str,
    recall: bool,
) -> (r: Result<EmotionRequest, Error>)
    ensures
        emotion_outcome(r, robot_code@, conversation_id@, msg_id@, name@, recall),
{
    if conversation_id.is_empty() || msg_id.is_empty() {
        return Err(Error::channel("emotion needs openConversationId and openMsgId"));
    }
    let path = if recall {
        text::owned("/v1.0/robot/emotion/recall")
    } else {
        text::owned("/v1.0/robot/emotion/reply")
    };
    let stamp = Json::object().with_text("emotionId", "2659900").with_text(
        "emotionName",
        name,
    ).with_text("text", name).with_text("backgroundId", "im_bg_1");
    let body = Json::object().with_text("robotCode", robot_code).with_text(
        "openConversationId",
        conversation_id,
    ).with_text("openMsgId", msg_id).with("emotionType", Json::Integer(2)).with_text(
        "emotionName",
        name,
    ).with("textEmotion", stamp);
    Ok(EmotionRequest { path, body })
}

/// The request for the stamp that the robot thinks.
pub fn mark_thinking(robot_code: &str, conversation_id: &str, msg_id: &str) -> (r: Result<
    EmotionRequest,
    Error,
>)
    ensures
        emotion_outcome(
            r,
            robot_code@,
            conversation_id@,
            msg_id@,
            EMOTION_THINKING@,
            false,
        ),
{
    send_emotion(robot_code, conversation_id, msg_id, EMOTION_THINKING, false)
}

/// The request for taking back the stamp that the robot thinks.
pub fn recall_thinking(robot_code: &str, conversation_id: &str, msg_id: &str) -> (r: Result<
    EmotionRequest,
    Error,
>)
    ensures
        emotion_outcome(r, robot_code@, conversation_id@, msg_id@, EMOTION_THINKING@, true),
{
    send_emotion(robot_code, conversation_id, msg_id, EMOTION_THINKING, true)
}

/// The request for the stamp that the robot is done; the other one is taken
/// back before.
pub fn mark_done(robot_code: &str, conversation_id: &str, msg_id: &str) -> (r: (
    Result<EmotionRequest, Error>,
    Result<EmotionRequest, Error>,
))
    ensures
        emotion_outcome(
            r.0,
            robot_code@,
            conversation_id@,
            msg_id@,
            EMOTION_THINKING@,
            true,
        ),
        emotion_outcome(r.1, robot_code@, conversation_id@, msg_id@, EMOTION_DONE@, false),
{
    (
        recall_thinking(robot_code, conversation_id, msg_id),
        send_emotion(robot_code, conversation_id, msg_id, EMOTION_DONE, false),
    )
}

/// A stamp names the robot, the conversation and the message, and says its word.
pub proof fn stamp_names_the_message(
    robot_code: Seq<char>,
    conversation_id: Seq<char>,
    msg_id: Seq<char>,
    name: Seq<char>,
)
    ensures
        ({
            let b = emotion_body(robot_code, conversation_id, msg_id, name);
            &&& b.get("robotCode"@) == Some(JsonView::Text(robot_code))
            &&& b.get("openConversationId"@) == Some(JsonView::Text(conversation_id))
            &&& b.get("openMsgId"@) == Some(JsonView::Text(msg_id))
            &&& b.get("emotionType"@) == Some(JsonView::Integer(2))
            &&& b.get("emotionName"@) == Some(JsonView::Text(name))
            &&& b.get("textEmotion"@) == Some(
                JsonView::object()
                    .with_text("emotionId"@, "2659900"@)
                    .with_text("emotionName"@, name)
                    .with_text("text"@, name)
                    .with_text("backgroundId"@, "im_bg_1"@),
            )
        }),
        emotion_path(false) == "/v1.0/robot/emotion/reply"@,
        emotion_path(true) == "/v1.0/robot/emotion/recall"@,
{
    let b = emotion_body(robot_code, conversation_id, msg_id, name);
    let s = seq![
        ("robotCode"@, JsonView::Text(robot_code)),
        ("openConversationId"@, JsonView::Text(conversation_id)),
        ("openMsgId"@, JsonView::Text(msg_id)),
        ("emotionType"@, JsonView::Integer(2)),
        ("emotionName"@, JsonView::Text(name)),
        (
            "textEmotion"@,
            JsonView::object()
                .with_text("emotionId"@, "2659900"@)
                .with_text("emotionName"@, name)
                .with_text("text"@, name)
                .with_text("backgroundId"@, "im_bg_1"@),
        ),
    ];
    reveal_strlit("robotCode");
    reveal_strlit("openConversationId");
    reveal_strlit("openMsgId");
    reveal_strlit("emotionType");
    reveal_strlit("emotionName");
    reveal_strlit("textEmotion");
    assert("robotCode"@.len() != "openConversationId"@.len());
    assert("robotCode"@[0] != "openMsgId"@[0]);
    assert("robotCode"@.len() != "emotionType"@.len());
    assert("robotCode"@.len() != "emotionName"@.len());
    assert("robotCode"@.len() != "textEmotion"@.len());
    assert("openConversationId"@.len() != "openMsgId"@.len());
    assert("openConversationId"@.len() != "emotionType"@.len());
    assert("openConversationId"@.len() != "emotionName"@.len());
    assert("openConversationId"@.len() != "textEmotion"@.len());
    assert("openMsgId"@.len() != "emotionType"@.len());
    assert("openMsgId"@.len() != "emotionName"@.len());
    assert("openMsgId"@.len() != "textEmotion"@.len());
    assert("emotionType"@[7] != "emotionName"@[7]);
    assert("emotionType"@[0] != "textEmotion"@[0]);
    assert("emotionName"@[0] != "textEmotion"@[0]);
    assert(b->Object_0 =~= s);
    json::member_is_found(s, 0, "robotCode"@);
    json::member_is_found(s, 1, "openConversationId"@);
    json::member_is_found(s, 2, "openMsgId"@);
    json::member_is_found(s, 3, "emotionType"@);
    json::member_is_found(s, 4, "emotionName"@);
    json::member_is_found(s, 5, "textEmotion"@);
}

} // verus!
