//! Cards that fill while the robot writes.
//!
//! A card is created and delivered, told to be in writing, filled frame by
//! frame, and finished.

use crate::chance;
use crate::chance::rand_suffix;
use crate::error::{ApiError, ApiErrorView, Error, ErrorView};
use crate::json;
use crate::json::{Json, JsonView};
use crate::outbound::markdown;
use crate::outbound::normalize_for_card;
use crate::reply;
use crate::reply::first_non_empty;
use crate::send::{RequestView, SendRequest};
use crate::text;
use crate::text::CharClass;
use crate::types::{IncomingMessage, MessageView, CONVERSATION_TYPE_GROUP};
use vstd::prelude::*;

verus! {

// ── states of a card ──

pub const FLOW_PROCESSING: &'static str = "1";

pub const FLOW_INPUTING: &'static str = "2";

pub const FLOW_FINISHED: &'static str = "3";

pub const FLOW_FAILED: &'static str = "5";

/// Between two frames some time has to pass, or the card is not shown.
pub const CARD_FRAME_GAP_MS: u64 = 500;

/// The characters of a frame at most.
pub const CARD_MAX_CONTENT: usize = 20000;

/// Behind so long a silence the first update waits a little.
pub const LONG_GAP_THRESHOLD_MS: u64 = 2_000;

/// How long the first update behind a silence waits.
pub const LONG_GAP_BATCH_WAIT_MS: u64 = 300;

/// What a frame holds of a text.
pub open spec fn capped(s: Seq<char>) -> Seq<char> {
    if s.len() > CARD_MAX_CONTENT {
        s.take(CARD_MAX_CONTENT as int)
    } else {
        s
    }
}

/// What a frame does not hold of a text.
pub open spec fn overflow(s: Seq<char>) -> Option<Seq<char>> {
    if s.len() > CARD_MAX_CONTENT {
        Some(s.skip(CARD_MAX_CONTENT as int))
    } else {
        None
    }
}

/// What a frame holds of a text.
pub fn cap_content(s: &str) -> (r: String)
    ensures
        r@ == capped(s@),
{
    let v = text::chars_of(s);
    if v.len() > CARD_MAX_CONTENT {
        let cut = text::slice_of(&v, 0, CARD_MAX_CONTENT);
        assert(cut@ =~= v@.take(CARD_MAX_CONTENT as int));
        text::string_of(&cut)
    } else {
        text::owned(s)
    }
}

/// What a frame does not hold of a text.
pub fn overflow_remainder(content: &str) -> (r: Option<String>)
    ensures
        match r {
            Some(rest) => overflow(content@) == Some(rest@),
            None => overflow(content@) is None,
        },
{
    let v = text::chars_of(content);
    if v.len() > CARD_MAX_CONTENT {
        let rest = text::slice_of(&v, CARD_MAX_CONTENT, v.len());
        assert(rest@ =~= v@.skip(CARD_MAX_CONTENT as int));
        Some(text::string_of(&rest))
    } else {
        None
    }
}

/// A frame and what it does not hold are the whole text.
pub proof fn frame_and_rest_are_the_text(s: Seq<char>)
    ensures
        capped(s).len() <= CARD_MAX_CONTENT,
        match overflow(s) {
            Some(rest) => capped(s) + rest == s && rest.len() > 0,
            None => capped(s) == s,
        },
{
    if s.len() > CARD_MAX_CONTENT {
        assert(s.take(CARD_MAX_CONTENT as int) + s.skip(CARD_MAX_CONTENT as int) =~= s);
    }
}

// ── requests ──

/// Whom a card is shown to.
#[derive(Debug)]
pub struct CardTarget {
    pub is_group: bool,
    pub conversation_id: String,
    pub user_id: String,
    pub robot_code: String,
}

pub struct CardTargetView {
    pub is_group: bool,
    pub conversation_id: Seq<char>,
    pub user_id: Seq<char>,
    pub robot_code: Seq<char>,
}

impl View for CardTarget {
    type V = CardTargetView;

    open spec fn view(&self) -> CardTargetView {
        CardTargetView {
            is_group: self.is_group,
            conversation_id: self.conversation_id@,
            user_id: self.user_id@,
            robot_code: self.robot_code@,
        }
    }
}

/// Whom the card for a message is shown to.
pub open spec fn card_target(m: MessageView, robot_code: Seq<char>) -> CardTargetView {
    CardTargetView {
        is_group: m.conversation_type == CONVERSATION_TYPE_GROUP@,
        conversation_id: m.conversation_id,
        user_id: reply::first_nonempty(m.sender_staff_id, m.sender_id),
        robot_code,
    }
}

/// Whom the card for a message is shown to.
pub fn target_of(msg: &IncomingMessage, robot_code: &str) -> (r: CardTarget)
    ensures
        r@ == card_target(msg@, robot_code@),
{
    CardTarget {
        is_group: text::same(msg.conversation_type.as_str(), CONVERSATION_TYPE_GROUP),
        conversation_id: msg.conversation_id.clone(),
        user_id: first_non_empty(msg.sender_staff_id.as_str(), msg.sender_id.as_str()),
        robot_code: text::owned(robot_code),
    }
}

/// The key of a card that is made at some millisecond.
pub open spec fn track_id(millis: nat, suffix: Seq<char>) -> Seq<char> {
    "card_"@ + text::decimal(millis) + "_"@ + suffix
}

/// The key of a card that is made at some millisecond.
pub fn track_id_of(millis: u64, suffix: &str) -> (r: String)
    ensures
        r@ == track_id(millis as nat, suffix@),
{
    let mut s = text::owned("card_");
    s.append(text::decimal_text(millis).as_str());
    s.append("_");
    s.append(suffix);
    s
}

/// A fresh key for a card that is made at some millisecond: chance makes its
/// end.
pub fn new_track_id(millis: u64) -> (r: String)
    ensures
        exists|suffix: Seq<char>|
            {
                &&& r@ == #[trigger] track_id(millis as nat, suffix)
                &&& suffix.len() == 8
                &&& forall|i: int| 0 <= i < 8 ==> chance::in_alphabet(#[trigger] suffix[i])
            },
{
    let suffix = rand_suffix(8);
    track_id_of(millis, suffix.as_str())
}

/// The key of a frame that is made at some millisecond.
pub open spec fn frame_key(millis: nat, suffix: Seq<char>) -> Seq<char> {
    text::decimal(millis) + "_"@ + suffix
}

/// The key of a frame that is made at some millisecond.
pub fn frame_guid(millis: u64, suffix: &str) -> (r: String)
    ensures
        r@ == text::decimal(millis as nat) + "_"@ + suffix@,
        r@ == frame_key(millis as nat, suffix@),
{
    let mut s = text::decimal_text(millis);
    s.append("_");
    s.append(suffix);
    s
}

/// The request that creates a card.
pub open spec fn create_request(template: Seq<char>, id: Seq<char>) -> RequestView {
    let forward = JsonView::object().with("supportForward"@, JsonView::Bool(true));
    RequestView {
        path: "/v1.0/card/instances"@,
        body: JsonView::object().with_text("cardTemplateId"@, template).with_text(
            "outTrackId"@,
            id,
        ).with(
            "cardData"@,
            JsonView::object().with(
                "cardParamMap"@,
                JsonView::object().with_text("config"@, "{\"autoLayout\":true}"@),
            ),
        ).with_text("callbackType"@, "STREAM"@).with("imGroupOpenSpaceModel"@, forward).with(
            "imRobotOpenSpaceModel"@,
            forward,
        ),
    }
}

/// The request that creates a card.
pub fn create_card(template: &str, id: &str) -> (r: SendRequest)
    ensures
        r@ == create_request(template@, id@),
{
    let group = Json::object().with("supportForward", Json::Bool(true));
    let robot = Json::object().with("supportForward", Json::Bool(true));
    let data = Json::object().with(
        "cardParamMap",
        Json::object().with_text("config", "{\"autoLayout\":true}"),
    );
    let body = Json::object().with_text("cardTemplateId", template).with_text(
        "outTrackId",
        id,
    ).with("cardData", data).with_text("callbackType", "STREAM").with(
        "imGroupOpenSpaceModel",
        group,
    ).with("imRobotOpenSpaceModel", robot);
    SendRequest { path: text::owned("/v1.0/card/instances"), body }
}

/// The request that delivers a card: to a group, or to a user.
pub open spec fn deliver_request(t: CardTargetView, id: Seq<char>) -> RequestView {
    let head = JsonView::object().with_text("outTrackId"@, id).with(
        "userIdType"@,
        JsonView::Integer(1),
    );
    RequestView {
        path: "/v1.0/card/instances/deliver"@,
        body: if t.is_group {
            head.with_text("openSpaceId"@, "dtv1.card//IM_GROUP."@ + t.conversation_id).with(
                "imGroupOpenDeliverModel"@,
                JsonView::object().with_text("robotCode"@, t.robot_code),
            )
        } else {
            head.with_text("openSpaceId"@, "dtv1.card//IM_ROBOT."@ + t.user_id).with(
                "imRobotOpenDeliverModel"@,
                JsonView::object().with_text("spaceType"@, "IM_ROBOT"@).with_text(
                    "robotCode"@,
                    t.robot_code,
                ).with(
                    "extension"@,
                    JsonView::object().with_text("dynamicSummary"@, "true"@),
                ),
            )
        },
    }
}

/// The request that delivers a card.
pub fn deliver_card(t: &CardTarget, id: &str) -> (r: SendRequest)
    ensures
        r@ == deliver_request(t@, id@),
{
    let head = Json::object().with_text("outTrackId", id).with("userIdType", Json::Integer(1));
    let body = if t.is_group {
        let space = text::cat("dtv1.card//IM_GROUP.", t.conversation_id.as_str());
        head.with_text("openSpaceId", space.as_str()).with(
            "imGroupOpenDeliverModel",
            Json::object().with_text("robotCode", t.robot_code.as_str()),
        )
    } else {
        let space = text::cat("dtv1.card//IM_ROBOT.", t.user_id.as_str());
        let model = Json::object().with_text("spaceType", "IM_ROBOT").with_text(
            "robotCode",
            t.robot_code.as_str(),
        ).with("extension", Json::object().with_text("dynamicSummary", "true"));
        head.with_text("openSpaceId", space.as_str()).with("imRobotOpenDeliverModel", model)
    };
    SendRequest { path: text::owned("/v1.0/card/instances/deliver"), body }
}

/// The request that sets the state of a card and what it says.
pub open spec fn status_request(
    id: Seq<char>,
    status: Seq<char>,
    content: Seq<char>,
) -> RequestView {
    let body = JsonView::object().with_text("outTrackId"@, id).with(
        "cardData"@,
        JsonView::object().with(
            "cardParamMap"@,
            JsonView::object().with_text("flowStatus"@, status).with_text(
                "msgContent"@,
                content,
            ).with_text("staticMsgContent"@, ""@).with_text(
                "sys_full_json_obj"@,
                "{\"order\":[\"msgContent\"]}"@,
            ).with_text("config"@, "{\"autoLayout\":true}"@),
        ),
    );
    RequestView {
        path: "/v1.0/card/instances"@,
        body: if status == FLOW_FINISHED@ {
            body.with(
                "cardUpdateOptions"@,
                JsonView::object().with("updateCardDataByKey"@, JsonView::Bool(true)),
            )
        } else {
            body
        },
    }
}

/// The request that sets the state of a card and what it says.
pub fn set_status(id: &str, status: &str, content: &str) -> (r: SendRequest)
    ensures
        r@ == status_request(id@, status@, content@),
{
    let map = Json::object().with_text("flowStatus", status).with_text(
        "msgContent",
        content,
    ).with_text("staticMsgContent", "").with_text(
        "sys_full_json_obj",
        "{\"order\":[\"msgContent\"]}",
    ).with_text("config", "{\"autoLayout\":true}");
    let body = Json::object().with_text("outTrackId", id).with(
        "cardData",
        Json::object().with("cardParamMap", map),
    );
    let body = if text::same(status, FLOW_FINISHED) {
        body.with(
            "cardUpdateOptions",
            Json::object().with("updateCardDataByKey", Json::Bool(true)),
        )
    } else {
        body
    };
    SendRequest { path: text::owned("/v1.0/card/instances"), body }
}

/// What a frame says: as much as it holds, as cards show it; a frame that is
/// not the last one without line feeds at its end.
pub open spec fn frame_content(content: Seq<char>, last: bool) -> Seq<char> {
    let norm = markdown::card_text(capped(content));
    if last {
        norm
    } else {
        text::trim_end(norm, CharClass::Newline)
    }
}

/// The request that sends a frame.
pub open spec fn frame_request(
    id: Seq<char>,
    guid: Seq<char>,
    content: Seq<char>,
    last: bool,
) -> RequestView {
    RequestView {
        path: "/v1.0/card/streaming"@,
        body: JsonView::object().with_text("outTrackId"@, id).with_text("guid"@, guid).with_text(
            "key"@,
            "msgContent"@,
        ).with_text("content"@, frame_content(content, last)).with(
            "isFull"@,
            JsonView::Bool(true),
        ).with("isFinalize"@, JsonView::Bool(last)).with("isError"@, JsonView::Bool(false)),
    }
}

/// A text without line feeds at its end.
pub fn strip_trailing_newlines(s: &str) -> (r: String)
    ensures
        r@ == text::trim_end(s@, CharClass::Newline),
{
    let v = text::chars_of(s);
    text::string_of(&text::trimmed_end(&v, CharClass::Newline))
}

/// The request that sends a frame.
pub fn stream_frame(id: &str, guid: &str, content: &str, last: bool) -> (r: SendRequest)
    ensures
        r@ == frame_request(id@, guid@, content@, last),
{
    let cut = cap_content(content);
    let norm = normalize_for_card(cut.as_str());
    let shown = if last {
        norm
    } else {
        strip_trailing_newlines(norm.as_str())
    };
    let body = Json::object().with_text("outTrackId", id).with_text("guid", guid).with_text(
        "key",
        "msgContent",
    ).with_text("content", shown.as_str()).with("isFull", Json::Bool(true)).with(
        "isFinalize",
        Json::Bool(last),
    ).with("isError", Json::Bool(false));
    SendRequest { path: text::owned("/v1.0/card/streaming"), body }
}

// ── answers ──

/// What the answer of the service is taken as, when its body was read as JSON
/// with the given outcome.
pub open spec fn api_answer(
    status: u16,
    raw: Seq<char>,
    read: Result<JsonView, Seq<char>>,
) -> Result<Seq<char>, ErrorView> {
    if status >= 400 {
        Err(
            ErrorView::Api(
                ApiErrorView {
                    status,
                    code: match read {
                        Ok(v) => v.text_at("code"@),
                        Err(_) => Seq::empty(),
                    },
                    msg: match read {
                        Ok(v) => v.text_at("message"@),
                        Err(_) => Seq::empty(),
                    },
                    body: raw,
                },
            ),
        )
    } else {
        Ok(raw)
    }
}

pub open spec fn text_result(r: Result<String, Error>) -> Result<Seq<char>, ErrorView> {
    match r {
        Ok(s) => Ok(s@),
        Err(e) => Err(e@),
    }
}

/// What the answer of the service is taken as, when its body was read as JSON
/// with the given outcome.
pub fn read_api_answer(status: u16, raw: &str, read: &Result<Json, String>) -> (r: Result<
    String,
    Error,
>)
    ensures
        text_result(r) == api_answer(status, raw@, json::outcome(*read)),
{
    if status >= 400 {
        let (code, msg) = match read {
            Ok(v) => (text::owned(v.text_at("code")), text::owned(v.text_at("message"))),
            Err(_) => (String::new(), String::new()),
        };
        return Err(Error::Api(ApiError { status, code, msg, body: text::owned(raw) }));
    }
    Ok(text::owned(raw))
}

/// What the answer of the service is taken as.
pub fn accept_api_answer(status: u16, raw: &str) -> (r: Result<String, Error>)
    ensures
        text_result(r) == api_answer(
            status,
            raw@,
            json::parsed_json(vstd::utf8::encode_utf8(raw@)),
        ),
{
    let read = json::parse(raw.as_bytes());
    read_api_answer(status, raw, &read)
}

/// A request that the service refused inside a good answer.
pub open spec fn checked(raw: Seq<char>) -> Option<ErrorView> {
    if text::occurs(raw, "\"success\":false"@) {
        Some(
            ErrorView::Api(
                ApiErrorView { status: 200, code: "BusinessFailure"@, msg: raw, body: raw },
            ),
        )
    } else {
        None
    }
}

/// Refuses a good answer in which the service refused the request.
pub fn check_answer(raw: &str) -> (r: Result<(), Error>)
    ensures
        match r {
            Ok(()) => checked(raw@) is None,
            Err(e) => checked(raw@) == Some(e@),
        },
{
    if text::text_contains(raw, "\"success\":false") {
        return Err(
            Error::Api(
                ApiError {
                    status: 200,
                    code: text::owned("BusinessFailure"),
                    msg: text::owned(raw),
                    body: text::owned(raw),
                },
            ),
        );
    }
    Ok(())
}

/// What is to be done behind an attempt to ask the service.
#[derive(Debug)]
pub enum CallStep {
    /// Return with this outcome.
    Return(Result<String, Error>),
    /// Pause the bucket, take a token and ask once more.
    PauseAndRepeat,
}

/// Whether the service says that it was asked too often.
pub open spec fn too_often(r: Result<Seq<char>, ErrorView>) -> bool {
    r matches Err(ErrorView::Api(a)) && a.qps_limit()
}

/// What is to be done behind an attempt: where the service was asked too often,
/// it is asked once more, and only once.
pub fn after_call(outcome: Result<String, Error>, repeated: bool) -> (r: CallStep)
    ensures
        r is PauseAndRepeat <==> !repeated && too_often(text_result(outcome)),
        r matches CallStep::Return(x) ==> text_result(x) == text_result(outcome),
{
    if !repeated {
        if let Err(Error::Api(api)) = &outcome {
            if api.is_qps_limit() {
                return CallStep::PauseAndRepeat;
            }
        }
    }
    CallStep::Return(outcome)
}

// ── what the requests say ──

/// The request for a frame names its card and the frame, says all that the card
/// shows, and ends the stream exactly where the frame is the last one.
pub proof fn last_frame_ends_the_stream(
    id: Seq<char>,
    guid: Seq<char>,
    content: Seq<char>,
    last: bool,
)
    ensures
        ({
            let b = frame_request(id, guid, content, last).body;
            &&& b.get("outTrackId"@) == Some(JsonView::Text(id))
            &&& b.get("guid"@) == Some(JsonView::Text(guid))
            &&& b.get("key"@) == Some(JsonView::Text("msgContent"@))
            &&& b.get("content"@) == Some(JsonView::Text(frame_content(content, last)))
            &&& b.get("isFull"@) == Some(JsonView::Bool(true))
            &&& b.get("isFinalize"@) == Some(JsonView::Bool(last))
            &&& b.get("isError"@) == Some(JsonView::Bool(false))
        }),
        frame_request(id, guid, content, last).path == "/v1.0/card/streaming"@,
{
    let b = frame_request(id, guid, content, last).body;
    let s = seq![
        ("outTrackId"@, JsonView::Text(id)),
        ("guid"@, JsonView::Text(guid)),
        ("key"@, JsonView::Text("msgContent"@)),
        ("content"@, JsonView::Text(frame_content(content, last))),
        ("isFull"@, JsonView::Bool(true)),
        ("isFinalize"@, JsonView::Bool(last)),
        ("isError"@, JsonView::Bool(false)),
    ];
    reveal_strlit("outTrackId");
    reveal_strlit("guid");
    reveal_strlit("key");
    reveal_strlit("content");
    reveal_strlit("isFull");
    reveal_strlit("isFinalize");
    reveal_strlit("isError");
    assert("outTrackId"@.len() != "guid"@.len());
    assert("outTrackId"@.len() != "key"@.len());
    assert("outTrackId"@.len() != "content"@.len());
    assert("outTrackId"@.len() != "isFull"@.len());
    assert("outTrackId"@[0] != "isFinalize"@[0]);
    assert("outTrackId"@.len() != "isError"@.len());
    assert("guid"@.len() != "key"@.len());
    assert("guid"@.len() != "content"@.len());
    assert("guid"@.len() != "isFull"@.len());
    assert("guid"@.len() != "isFinalize"@.len());
    assert("guid"@.len() != "isError"@.len());
    assert("key"@.len() != "content"@.len());
    assert("key"@.len() != "isFull"@.len());
    assert("key"@.len() != "isFinalize"@.len());
    assert("key"@.len() != "isError"@.len());
    assert("content"@.len() != "isFull"@.len());
    assert("content"@.len() != "isFinalize"@.len());
    assert("content"@[0] != "isError"@[0]);
    assert("isFull"@.len() != "isFinalize"@.len());
    assert("isFull"@.len() != "isError"@.len());
    assert("isFinalize"@.len() != "isError"@.len());
    assert(b->Object_0 =~= s);
    json::member_is_found(s, 0, "outTrackId"@);
    json::member_is_found(s, 1, "guid"@);
    json::member_is_found(s, 2, "key"@);
    json::member_is_found(s, 3, "content"@);
    json::member_is_found(s, 4, "isFull"@);
    json::member_is_found(s, 5, "isFinalize"@);
    json::member_is_found(s, 6, "isError"@);
}

/// A line of words that a frame holds is what the frame says, be it the last one
/// or not.
pub proof fn frame_says_the_words(content: Seq<char>, last: bool)
    requires
        0 < content.len() <= 20000,
        !content.contains('\n'),
        !content.contains('\r'),
    ensures
        frame_content(content, last) == content,
{
    markdown::one_line_stays(content);
    assert(content.last() != '\n') by {
        assert(content.contains(content[content.len() - 1]));
    }
    text::run_begins_behind_others(content, CharClass::Newline, 0);
    assert(content.take(content.len() as int) =~= content);
}

/// The request for a state of a card names the card, sets the state and says what
/// the card shows. Where the card is finished, only what is named is replaced.
pub proof fn state_of_a_card_is_set(id: Seq<char>, status: Seq<char>, content: Seq<char>)
    ensures
        ({
            let q = status_request(id, status, content);
            let map = q.body.get("cardData"@).unwrap().get("cardParamMap"@).unwrap();
            &&& q.path == "/v1.0/card/instances"@
            &&& q.body.get("outTrackId"@) == Some(JsonView::Text(id))
            &&& map.get("flowStatus"@) == Some(JsonView::Text(status))
            &&& map.get("msgContent"@) == Some(JsonView::Text(content))
            &&& map.get("staticMsgContent"@) == Some(JsonView::Text(""@))
            &&& map.get("sys_full_json_obj"@) == Some(
                JsonView::Text("{\"order\":[\"msgContent\"]}"@),
            )
            &&& map.get("config"@) == Some(JsonView::Text("{\"autoLayout\":true}"@))
            &&& status == "3"@ ==> q.body.get("cardUpdateOptions"@).unwrap().get(
                "updateCardDataByKey"@,
            ) == Some(JsonView::Bool(true))
            &&& status != "3"@ ==> q.body.get("cardUpdateOptions"@) is None
        }),
{
    reveal_strlit("outTrackId");
    reveal_strlit("cardData");
    reveal_strlit("cardUpdateOptions");
    assert("outTrackId"@.len() != "cardData"@.len());
    assert("outTrackId"@.len() != "cardUpdateOptions"@.len());
    assert("cardData"@.len() != "cardUpdateOptions"@.len());
    reveal_strlit("flowStatus");
    reveal_strlit("msgContent");
    reveal_strlit("staticMsgContent");
    reveal_strlit("sys_full_json_obj");
    reveal_strlit("config");
    assert("flowStatus"@[0] != "msgContent"@[0]);
    assert("flowStatus"@.len() != "staticMsgContent"@.len());
    assert("flowStatus"@.len() != "sys_full_json_obj"@.len());
    assert("flowStatus"@.len() != "config"@.len());
    assert("msgContent"@.len() != "staticMsgContent"@.len());
    assert("msgContent"@.len() != "sys_full_json_obj"@.len());
    assert("msgContent"@.len() != "config"@.len());
    assert("staticMsgContent"@.len() != "sys_full_json_obj"@.len());
    assert("staticMsgContent"@.len() != "config"@.len());
    assert("sys_full_json_obj"@.len() != "config"@.len());
    let m = seq![
        ("flowStatus"@, JsonView::Text(status)),
        ("msgContent"@, JsonView::Text(content)),
        ("staticMsgContent"@, JsonView::Text(""@)),
        ("sys_full_json_obj"@, JsonView::Text("{\"order\":[\"msgContent\"]}"@)),
        ("config"@, JsonView::Text("{\"autoLayout\":true}"@)),
    ];
    let map = JsonView::Object(m);
    let data = seq![("cardParamMap"@, map)];
    let options = seq![("updateCardDataByKey"@, JsonView::Bool(true))];
    let head = seq![("outTrackId"@, JsonView::Text(id)), ("cardData"@, JsonView::Object(data))];
    let all = head.push(("cardUpdateOptions"@, JsonView::Object(options)));
    let b = status_request(id, status, content).body;
    let made = JsonView::object().with_text("flowStatus"@, status).with_text(
        "msgContent"@,
        content,
    ).with_text("staticMsgContent"@, ""@).with_text(
        "sys_full_json_obj"@,
        "{\"order\":[\"msgContent\"]}"@,
    ).with_text("config"@, "{\"autoLayout\":true}"@);
    assert(made->Object_0 =~= m);
    assert(JsonView::object().with("cardParamMap"@, made)->Object_0 =~= data);
    assert(JsonView::object().with("updateCardDataByKey"@, JsonView::Bool(true))->Object_0
        =~= options);
    assert(FLOW_FINISHED@ == "3"@);
    if status == "3"@ {
        assert(b->Object_0 =~= all);
        json::member_is_found(all, 0, "outTrackId"@);
        json::member_is_found(all, 1, "cardData"@);
        json::member_is_found(all, 2, "cardUpdateOptions"@);
    } else {
        assert(b->Object_0 =~= head);
        json::member_is_found(head, 0, "outTrackId"@);
        json::member_is_found(head, 1, "cardData"@);
        json::member_is_missing(head, "cardUpdateOptions"@);
    }
    json::member_is_found(data, 0, "cardParamMap"@);
    json::member_is_found(options, 0, "updateCardDataByKey"@);
    json::member_is_found(m, 0, "flowStatus"@);
    json::member_is_found(m, 1, "msgContent"@);
    json::member_is_found(m, 2, "staticMsgContent"@);
    json::member_is_found(m, 3, "sys_full_json_obj"@);
    json::member_is_found(m, 4, "config"@);
}

/// The request that creates a card names its template and the card, asks for
/// actions on the connection, and lets it be forwarded.
pub proof fn card_is_created_from_its_template(template: Seq<char>, id: Seq<char>)
    ensures
        ({
            let b = create_request(template, id).body;
            &&& b.get("cardTemplateId"@) == Some(JsonView::Text(template))
            &&& b.get("outTrackId"@) == Some(JsonView::Text(id))
            &&& b.get("cardData"@) == Some(
                JsonView::object()
                    .with("cardParamMap"@, JsonView::object().with_text("config"@, "{\"autoLayout\":true}"@)),
            )
            &&& b.get("callbackType"@) == Some(JsonView::Text("STREAM"@))
            &&& b.get("imGroupOpenSpaceModel"@) == Some(
                JsonView::object().with("supportForward"@, JsonView::Bool(true)),
            )
            &&& b.get("imRobotOpenSpaceModel"@) == Some(
                JsonView::object().with("supportForward"@, JsonView::Bool(true)),
            )
        }),
        create_request(template, id).path == "/v1.0/card/instances"@,
{
    let b = create_request(template, id).body;
    let s = seq![
        ("cardTemplateId"@, JsonView::Text(template)),
        ("outTrackId"@, JsonView::Text(id)),
        (
            "cardData"@,
            JsonView::object()
                .with("cardParamMap"@, JsonView::object().with_text("config"@, "{\"autoLayout\":true}"@)),
        ),
        ("callbackType"@, JsonView::Text("STREAM"@)),
        (
            "imGroupOpenSpaceModel"@,
            JsonView::object().with("supportForward"@, JsonView::Bool(true)),
        ),
        (
            "imRobotOpenSpaceModel"@,
            JsonView::object().with("supportForward"@, JsonView::Bool(true)),
        ),
    ];
    reveal_strlit("cardTemplateId");
    reveal_strlit("outTrackId");
    reveal_strlit("cardData");
    reveal_strlit("callbackType");
    reveal_strlit("imGroupOpenSpaceModel");
    reveal_strlit("imRobotOpenSpaceModel");
    assert("cardTemplateId"@.len() != "outTrackId"@.len());
    assert("cardTemplateId"@.len() != "cardData"@.len());
    assert("cardTemplateId"@.len() != "callbackType"@.len());
    assert("cardTemplateId"@.len() != "imGroupOpenSpaceModel"@.len());
    assert("cardTemplateId"@.len() != "imRobotOpenSpaceModel"@.len());
    assert("outTrackId"@.len() != "cardData"@.len());
    assert("outTrackId"@.len() != "callbackType"@.len());
    assert("outTrackId"@.len() != "imGroupOpenSpaceModel"@.len());
    assert("outTrackId"@.len() != "imRobotOpenSpaceModel"@.len());
    assert("cardData"@.len() != "callbackType"@.len());
    assert("cardData"@.len() != "imGroupOpenSpaceModel"@.len());
    assert("cardData"@.len() != "imRobotOpenSpaceModel"@.len());
    assert("callbackType"@.len() != "imGroupOpenSpaceModel"@.len());
    assert("callbackType"@.len() != "imRobotOpenSpaceModel"@.len());
    assert("imGroupOpenSpaceModel"@[2] != "imRobotOpenSpaceModel"@[2]);
    assert(b->Object_0 =~= s);
    json::member_is_found(s, 0, "cardTemplateId"@);
    json::member_is_found(s, 1, "outTrackId"@);
    json::member_is_found(s, 2, "cardData"@);
    json::member_is_found(s, 3, "callbackType"@);
    json::member_is_found(s, 4, "imGroupOpenSpaceModel"@);
    json::member_is_found(s, 5, "imRobotOpenSpaceModel"@);
}

/// A card for a group is delivered to the conversation.
pub proof fn card_for_a_group_goes_to_the_group(t: CardTargetView, id: Seq<char>)
    requires
        t.is_group,
    ensures
        ({
            let b = deliver_request(t, id).body;
            &&& b.get("outTrackId"@) == Some(JsonView::Text(id))
            &&& b.get("userIdType"@) == Some(JsonView::Integer(1))
            &&& b.get("openSpaceId"@) == Some(
                JsonView::Text("dtv1.card//IM_GROUP."@ + t.conversation_id),
            )
            &&& b.get("imGroupOpenDeliverModel"@) == Some(
                JsonView::object().with_text("robotCode"@, t.robot_code),
            )
            &&& b.get("imRobotOpenDeliverModel"@) is None
        }),
        deliver_request(t, id).path == "/v1.0/card/instances/deliver"@,
{
    let b = deliver_request(t, id).body;
    let s = seq![
        ("outTrackId"@, JsonView::Text(id)),
        ("userIdType"@, JsonView::Integer(1)),
        ("openSpaceId"@, JsonView::Text("dtv1.card//IM_GROUP."@ + t.conversation_id)),
        ("imGroupOpenDeliverModel"@, JsonView::object().with_text("robotCode"@, t.robot_code)),
    ];
    reveal_strlit("outTrackId");
    reveal_strlit("userIdType");
    reveal_strlit("openSpaceId");
    reveal_strlit("imGroupOpenDeliverModel");
    reveal_strlit("imRobotOpenDeliverModel");
    assert("outTrackId"@[0] != "userIdType"@[0]);
    assert("outTrackId"@.len() != "openSpaceId"@.len());
    assert("outTrackId"@.len() != "imGroupOpenDeliverModel"@.len());
    assert("outTrackId"@.len() != "imRobotOpenDeliverModel"@.len());
    assert("userIdType"@.len() != "openSpaceId"@.len());
    assert("userIdType"@.len() != "imGroupOpenDeliverModel"@.len());
    assert("userIdType"@.len() != "imRobotOpenDeliverModel"@.len());
    assert("openSpaceId"@.len() != "imGroupOpenDeliverModel"@.len());
    assert("openSpaceId"@.len() != "imRobotOpenDeliverModel"@.len());
    assert("imGroupOpenDeliverModel"@[2] != "imRobotOpenDeliverModel"@[2]);
    assert(b->Object_0 =~= s);
    json::member_is_found(s, 0, "outTrackId"@);
    json::member_is_found(s, 1, "userIdType"@);
    json::member_is_found(s, 2, "openSpaceId"@);
    json::member_is_found(s, 3, "imGroupOpenDeliverModel"@);
    json::member_is_missing(s, "imRobotOpenDeliverModel"@);
}

/// A card for one user is delivered to the user.
pub proof fn card_for_a_user_goes_to_the_user(t: CardTargetView, id: Seq<char>)
    requires
        !t.is_group,
    ensures
        ({
            let b = deliver_request(t, id).body;
            &&& b.get("outTrackId"@) == Some(JsonView::Text(id))
            &&& b.get("userIdType"@) == Some(JsonView::Integer(1))
            &&& b.get("openSpaceId"@) == Some(JsonView::Text("dtv1.card//IM_ROBOT."@ + t.user_id))
            &&& b.get("imRobotOpenDeliverModel"@) == Some(
                JsonView::object()
                    .with_text("spaceType"@, "IM_ROBOT"@)
                    .with_text("robotCode"@, t.robot_code)
                    .with("extension"@, JsonView::object().with_text("dynamicSummary"@, "true"@)),
            )
            &&& b.get("imGroupOpenDeliverModel"@) is None
        }),
        deliver_request(t, id).path == "/v1.0/card/instances/deliver"@,
{
    let b = deliver_request(t, id).body;
    let s = seq![
        ("outTrackId"@, JsonView::Text(id)),
        ("userIdType"@, JsonView::Integer(1)),
        ("openSpaceId"@, JsonView::Text("dtv1.card//IM_ROBOT."@ + t.user_id)),
        (
            "imRobotOpenDeliverModel"@,
            JsonView::object()
                .with_text("spaceType"@, "IM_ROBOT"@)
                .with_text("robotCode"@, t.robot_code)
                .with("extension"@, JsonView::object().with_text("dynamicSummary"@, "true"@)),
        ),
    ];
    reveal_strlit("outTrackId");
    reveal_strlit("userIdType");
    reveal_strlit("openSpaceId");
    reveal_strlit("imRobotOpenDeliverModel");
    reveal_strlit("imGroupOpenDeliverModel");
    assert("outTrackId"@[0] != "userIdType"@[0]);
    assert("outTrackId"@.len() != "openSpaceId"@.len());
    assert("outTrackId"@.len() != "imRobotOpenDeliverModel"@.len());
    assert("outTrackId"@.len() != "imGroupOpenDeliverModel"@.len());
    assert("userIdType"@.len() != "openSpaceId"@.len());
    assert("userIdType"@.len() != "imRobotOpenDeliverModel"@.len());
    assert("userIdType"@.len() != "imGroupOpenDeliverModel"@.len());
    assert("openSpaceId"@.len() != "imRobotOpenDeliverModel"@.len());
    assert("openSpaceId"@.len() != "imGroupOpenDeliverModel"@.len());
    assert("imRobotOpenDeliverModel"@[2] != "imGroupOpenDeliverModel"@[2]);
    assert(b->Object_0 =~= s);
    json::member_is_found(s, 0, "outTrackId"@);
    json::member_is_found(s, 1, "userIdType"@);
    json::member_is_found(s, 2, "openSpaceId"@);
    json::member_is_found(s, 3, "imRobotOpenDeliverModel"@);
    json::member_is_missing(s, "imGroupOpenDeliverModel"@);
}

/// The card for a message is shown in its group, or to its sender: by the name in
/// the company where there is one.
pub proof fn card_is_shown_where_it_was_asked_for(m: MessageView, robot_code: Seq<char>)
    ensures
        ({
            let t = card_target(m, robot_code);
            &&& t.is_group == (m.conversation_type == "group"@)
            &&& t.conversation_id == m.conversation_id
            &&& m.sender_staff_id.len() > 0 ==> t.user_id == m.sender_staff_id
            &&& m.sender_staff_id.len() == 0 ==> t.user_id == m.sender_id
            &&& t.robot_code == robot_code
        }),
{
}

/// An answer below 400 is taken as it is; from 400 on it is an error that holds the
/// status, the answer and what the service says of it.
pub proof fn refused_request_is_an_error(
    status: u16,
    raw: Seq<char>,
    v: JsonView,
    code: Seq<char>,
    message: Seq<char>,
)
    requires
        v.get("code"@) == Some(JsonView::Text(code)),
        v.get("message"@) == Some(JsonView::Text(message)),
    ensures
        status < 400 ==> api_answer(status, raw, Ok(v)) == Ok::<Seq<char>, ErrorView>(raw),
        status >= 400 ==> api_answer(status, raw, Ok(v)) == Err::<Seq<char>, ErrorView>(
            ErrorView::Api(ApiErrorView { status, code, msg: message, body: raw }),
        ),
{
}

/// A good answer is a refusal exactly where it says so.
pub proof fn refusal_in_a_good_answer_is_found(front: Seq<char>, back: Seq<char>, plain: Seq<char>)
    requires
        !plain.contains('"'),
    ensures
        checked(front + "\"success\":false"@ + back) is Some,
        checked(plain) is None,
{
    reveal_strlit("\"success\":false");
    let p = "\"success\":false"@;
    let s = front + p + back;
    assert(s.subrange(front.len() as int, front.len() as int + p.len()) =~= p);
    assert(text::occurs_at(s, p, front.len() as int));
    if text::occurs(plain, p) {
        let i = choose|i: int| #[trigger] text::occurs_at(plain, p, i);
        assert(plain.subrange(i, i + p.len())[0] == plain[i]);
        assert(p[0] == '"');
        assert(plain.contains(plain[i]));
    }
}

/// The key of a card shows when it was made, and what tells it apart.
pub proof fn key_of_a_card_shows_its_time(millis: nat, suffix: Seq<char>, other: Seq<char>)
    ensures
        track_id(millis, suffix) == "card_"@ + (text::decimal(millis) + ("_"@ + suffix)),
        other != suffix ==> track_id(millis, suffix) != track_id(millis, other),
{
    let front = "card_"@ + text::decimal(millis) + "_"@;
    let n = front.len() as int;
    assert(track_id(millis, suffix) =~= "card_"@ + (text::decimal(millis) + ("_"@ + suffix)));
    assert(track_id(millis, suffix).skip(n) =~= suffix);
    assert(track_id(millis, other).skip(n) =~= other);
}

/// A service that refuses with the status 403 and names its limit was asked too
/// often; no other outcome says so.
pub proof fn limit_is_known_by_its_name(
    e: ErrorView,
    s: Seq<char>,
    front: Seq<char>,
    back: Seq<char>,
)
    ensures
        !too_often(Ok(s)),
        e matches ErrorView::Api(a) ==> a.status != 403 ==> !too_often(Err(e)),
        e matches ErrorView::Api(a) ==> a.status == 403 && a.code == front + "QpsLimit"@ + back
            ==> too_often(Err(e)),
        !(e is Api) ==> !too_often(Err(e)),
{
    text::middle_occurs(front, "QpsLimit"@, back);
}

/// The key of a frame shows when it was made, and what tells it apart.
pub proof fn key_of_a_frame_shows_its_time(millis: nat, suffix: Seq<char>)
    ensures
        ({
            let n = text::decimal(millis).len() as int;
            &&& frame_key(millis, suffix).take(n) == text::decimal(millis)
            &&& frame_key(millis, suffix)[n] == '_'
            &&& frame_key(millis, suffix).skip(n + 1) == suffix
        }),
{
    reveal_strlit("_");
    let n = text::decimal(millis).len() as int;
    assert(frame_key(millis, suffix).take(n) =~= text::decimal(millis));
    assert(frame_key(millis, suffix).skip(n + 1) =~= suffix);
}

/// The last frame says all that a frame holds as cards show it; a frame before it
/// says the same without the line feeds at its end.
pub proof fn only_the_last_frame_ends_with_line_feeds(content: Seq<char>)
    ensures
        ({
            let whole = frame_content(content, true);
            let part = frame_content(content, false);
            &&& content.len() <= 20000 ==> whole == markdown::card_text(content)
            &&& content.len() > 20000 ==> whole == markdown::card_text(content.take(20000))
            &&& part.len() <= whole.len()
            &&& part == whole.take(part.len() as int)
            &&& forall|i: int| part.len() <= i < whole.len() ==> #[trigger] whole[i] == '\n'
            &&& part.len() > 0 ==> part.last() != '\n'
        }),
{
    let whole = frame_content(content, true);
    let part = frame_content(content, false);
    text::lemma_trailing_run(whole, CharClass::Newline);
    assert forall|i: int| part.len() <= i < whole.len() implies #[trigger] whole[i] == '\n' by {
        assert(text::in_class(whole[i], CharClass::Newline));
    }
    if part.len() > 0 {
        assert(part.last() == whole[part.len() - 1]);
    }
}

} // verus!
