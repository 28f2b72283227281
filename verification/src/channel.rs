//! The channel as a whole: when it can start, where frames go, actions on cards
//! and files.

use crate::config::{Transport, TOPIC_BOT_MESSAGE, TOPIC_CARD_INSTANCE_CB};
use crate::error::{Error, ErrorView};
use crate::json;
use crate::json::{Json, JsonView};
use crate::safety::content_fingerprint;
use crate::safety::seen_cache;
use crate::text;
use crate::types::{CardAction, CardActionView, IncomingMessage, MessageView};
use crate::url;
use vstd::prelude::*;

verus! {

// ── starting ──

/// Why a channel cannot start, or that it can.
pub open spec fn start_verdict(
    has_on_message: bool,
    has_on_batch: bool,
    transport: Transport,
) -> Option<Seq<char>> {
    if !has_on_message && !has_on_batch {
        Some("OnMessage handler not registered"@)
    } else if transport == Transport::Http {
        Some(
            "http mode has no long-running connection; call handle_http_callback per HTTP request instead of start()"@,
        )
    } else {
        None
    }
}

/// Refuses to start without a handler, or without a connection.
pub fn check_start(has_on_message: bool, has_on_batch: bool, transport: Transport) -> (r: Result<
    (),
    Error,
>)
    ensures
        match start_verdict(has_on_message, has_on_batch, transport) {
            Some(message) => r matches Err(e) && e@ == ErrorView::Channel(message),
            None => r is Ok,
        },
{
    if !has_on_message && !has_on_batch {
        return Err(Error::channel("OnMessage handler not registered"));
    }
    match transport {
        Transport::Http => Err(
            Error::channel(
                "http mode has no long-running connection; call handle_http_callback per HTTP request instead of start()",
            ),
        ),
        Transport::Stream => Ok(()),
    }
}

// ── frames ──

/// Where a frame goes.
#[derive(Debug, Clone, Copy, PartialEq, Eq, Structural)]
pub enum Route {
    Message,
    CardAction,
    /// Nobody wanted to be told.
    Ignored,
}

/// Where a frame about something goes.
pub open spec fn route_of(topic: Seq<char>) -> Route {
    if topic == TOPIC_BOT_MESSAGE@ {
        Route::Message
    } else if topic == TOPIC_CARD_INSTANCE_CB@ {
        Route::CardAction
    } else {
        Route::Ignored
    }
}

/// Where a frame about something goes.
pub fn route(topic: &str) -> (r: Route)
    ensures
        r == route_of(topic@),
{
    if text::same(topic, TOPIC_BOT_MESSAGE) {
        Route::Message
    } else if text::same(topic, TOPIC_CARD_INSTANCE_CB) {
        Route::CardAction
    } else {
        Route::Ignored
    }
}

// ── actions on cards ──

/// The action in a document.
pub open spec fn action_of(v: JsonView) -> CardActionView {
    CardActionView {
        out_track_id: v.text_at("outTrackId"@),
        user_id: v.text_at("userId"@),
        data_content: match v.get("dataContent"@) {
            Some(d) => d,
            None => JsonView::Null,
        },
        raw: v,
    }
}

/// The action in a document.
pub fn read_action(v: Json) -> (r: CardAction)
    ensures
        r@ == action_of(v@),
{
    let data_content = match v.get("dataContent") {
        Some(d) => d.clone(),
        None => Json::Null,
    };
    CardAction {
        out_track_id: text::owned(v.text_at("outTrackId")),
        user_id: text::owned(v.text_at("userId")),
        data_content,
        raw: v,
    }
}

/// What a payload is taken as, when it was read as JSON with the given outcome.
pub open spec fn action_outcome(read: Result<JsonView, Seq<char>>) -> Result<
    CardActionView,
    ErrorView,
> {
    match read {
        Err(e) => Err(ErrorView::Json(e)),
        Ok(v) => Ok(action_of(v)),
    }
}

pub open spec fn action_view(r: Result<CardAction, Error>) -> Result<CardActionView, ErrorView> {
    match r {
        Ok(a) => Ok(a@),
        Err(e) => Err(e@),
    }
}

/// The action in the payload of a frame.
pub fn accept_action(data: &str) -> (r: Result<CardAction, Error>)
    ensures
        action_view(r) == action_outcome(
            json::parsed_json(vstd::utf8::encode_utf8(data@)),
        ),
{
    match json::parse(data.as_bytes()) {
        Err(e) => Err(Error::Json(e)),
        Ok(v) => Ok(read_action(v)),
    }
}

/// The actions on one card are run one behind the other.
pub open spec fn action_scope(a: CardActionView) -> Seq<char> {
    "card:"@ + a.out_track_id
}

/// The key by which an action is known again, whatever delivery it comes in:
/// its card, its user and what it says.
pub open spec fn action_key(a: CardActionView, data_text: Seq<char>) -> Seq<char> {
    seen_cache::fingerprint(action_scope(a), 0, a.user_id, data_text)
}

/// The actions on one card are run one behind the other.
pub fn scope_of(a: &CardAction) -> (r: String)
    ensures
        r@ == action_scope(a@),
{
    text::cat("card:", a.out_track_id.as_str())
}

/// The key by which an action is known again.
pub fn fingerprint_of_action(a: &CardAction) -> (r: String)
    ensures
        r@ == action_key(a@, json::json_text(a@.data_content)),
{
    let scope = scope_of(a);
    let data = json::to_text(&a.data_content);
    content_fingerprint(scope.as_str(), 0, a.user_id.as_str(), data.as_str())
}

/// A message that holds nothing but its conversation.
pub open spec fn bare_message(conversation_id: Seq<char>) -> MessageView {
    MessageView {
        conversation_id,
        conversation_type: Seq::empty(),
        conversation_title: Seq::empty(),
        sender_id: Seq::empty(),
        sender_staff_id: Seq::empty(),
        sender_nick: Seq::empty(),
        sender_corp_id: Seq::empty(),
        text: Seq::empty(),
        msg_type: Seq::empty(),
        content: JsonView::Null,
        resources: Seq::empty(),
        mentions: Seq::empty(),
        mention_all: false,
        at_users: Seq::empty(),
        session_webhook: Seq::empty(),
        webhook_expired_at: 0,
        msg_id: Seq::empty(),
        create_at: 0,
        is_admin: false,
        is_in_at_list: false,
        batched_sources: Seq::empty(),
        raw: JsonView::Null,
    }
}

/// The message that the answer to an action on a card answers.
pub fn message_of_action(a: &CardAction) -> (r: IncomingMessage)
    ensures
        r@ == bare_message(a@.out_track_id),
{
    let m = IncomingMessage {
        conversation_id: a.out_track_id.clone(),
        conversation_type: String::new(),
        conversation_title: String::new(),
        sender_id: String::new(),
        sender_staff_id: String::new(),
        sender_nick: String::new(),
        sender_corp_id: String::new(),
        text: String::new(),
        msg_type: String::new(),
        content: Json::Null,
        resources: Vec::new(),
        mentions: Vec::new(),
        mention_all: false,
        at_users: Vec::new(),
        session_webhook: String::new(),
        webhook_expired_at: 0,
        msg_id: String::new(),
        create_at: 0,
        is_admin: false,
        is_in_at_list: false,
        batched_sources: Vec::new(),
        raw: Json::Null,
    };
    proof {
        assert(m@.resources =~= Seq::empty());
        assert(m@.mentions =~= Seq::empty());
        assert(m@.at_users =~= Seq::empty());
    }
    m
}

// ── files ──

/// Where the address of a file is asked for.
pub open spec fn media_path(
    download_code: Seq<char>,
    msg_id: Seq<char>,
    client_id: Seq<char>,
) -> Seq<char> {
    "/v1.0/robot/messageFiles/download?downloadCode="@ + url::percent_encoded(download_code)
        + "&messageId="@ + url::percent_encoded(msg_id) + "&robotCode="@ + url::percent_encoded(
        client_id,
    )
}

/// Where the address of a file is asked for.
pub fn media_path_of(download_code: &str, msg_id: &str, client_id: &str) -> (r: String)
    ensures
        r@ == media_path(download_code@, msg_id@, client_id@),
{
    let mut s = text::owned("/v1.0/robot/messageFiles/download?downloadCode=");
    s.append(url::percent_encode(download_code).as_str());
    s.append("&messageId=");
    s.append(url::percent_encode(msg_id).as_str());
    s.append("&robotCode=");
    s.append(url::percent_encode(client_id).as_str());
    s
}

/// Where the address of a file is asked for; a file needs a download code.
pub fn media_request(download_code: &str, msg_id: &str, client_id: &str) -> (r: Result<
    String,
    Error,
>)
    ensures
        match r {
            Ok(p) => download_code@.len() > 0 && p@ == media_path(
                download_code@,
                msg_id@,
                client_id@,
            ),
            Err(e) => download_code@.len() == 0 && e@ == ErrorView::Channel(
                "downloadCode cannot be empty"@,
            ),
        },
{
    if download_code.is_empty() {
        return Err(Error::channel("downloadCode cannot be empty"));
    }
    Ok(media_path_of(download_code, msg_id, client_id))
}

/// The address of a file in the answer of the service, when it was read as JSON
/// with the given outcome; empty where there is none.
pub open spec fn download_answer(read: Result<JsonView, Seq<char>>) -> Result<Seq<char>, ErrorView> {
    match read {
        Err(e) => Err(ErrorView::Json(e)),
        Ok(v) => Ok(v.text_at("downloadUrl"@)),
    }
}

/// The address of a file in the answer of the service, when it was read as JSON
/// with the given outcome.
pub fn read_download_answer(read: Result<Json, String>) -> (r: Result<String, Error>)
    ensures
        crate::card::text_result(r) == download_answer(json::outcome(read)),
{
    match read {
        Err(e) => Err(Error::Json(e)),
        Ok(v) => Ok(text::owned(v.text_at("downloadUrl"))),
    }
}

/// The address of a file in the answer of the service.
pub fn accept_download_answer(raw: &str) -> (r: Result<String, Error>)
    ensures
        crate::card::text_result(r) == download_answer(
            json::parsed_json(vstd::utf8::encode_utf8(raw@)),
        ),
{
    read_download_answer(json::parse(raw.as_bytes()))
}

/// Refuses an address that is empty.
pub fn check_download_url(u: &str) -> (r: Result<(), Error>)
    ensures
        r is Ok <==> u@.len() > 0,
        r matches Err(e) ==> e@ == ErrorView::Channel("empty download URL"@),
{
    if u.is_empty() {
        Err(Error::channel("empty download URL"))
    } else {
        Ok(())
    }
}

/// Refuses a file that was not sent.
pub fn check_media_status(status: u16) -> (r: Result<(), Error>)
    ensures
        r is Ok <==> status == 200,
        r matches Err(e) ==> e@ == ErrorView::Channel(
            "download failed: http "@ + text::decimal(status as nat),
        ),
{
    if status != 200 {
        let digits = text::decimal_text(status as u64);
        let message = text::cat("download failed: http ", digits.as_str());
        return Err(Error::channel(message.as_str()));
    }
    Ok(())
}

/// Two actions on one card are run one behind the other.
pub proof fn actions_of_a_card_share_a_scope(a: CardActionView, b: CardActionView)
    requires
        a.out_track_id == b.out_track_id,
    ensures
        action_scope(a) == action_scope(b),
{
}

/// The same action has the same key in every delivery.
pub proof fn repeated_action_is_known(a: CardActionView, b: CardActionView, data_text: Seq<char>)
    requires
        a.out_track_id == b.out_track_id,
        a.user_id == b.user_id,
    ensures
        action_key(a, data_text) == action_key(b, data_text),
{
}

/// A channel starts where it has a handler and holds a connection, and only there.
pub proof fn channel_starts_with_a_handler_and_a_connection(message: bool, batch: bool)
    ensures
        start_verdict(message, batch, Transport::Stream) is None <==> message || batch,
        start_verdict(message, batch, Transport::Http) is Some,
        start_verdict(false, false, Transport::Http) == Some("OnMessage handler not registered"@),
        start_verdict(false, false, Transport::Stream) == Some(
            "OnMessage handler not registered"@,
        ),
{
}

/// Frames about messages and about cards have their own ways, and others none.
pub proof fn topics_have_their_ways(topic: Seq<char>)
    ensures
        route_of("/v1.0/im/bot/messages/get"@) == Route::Message,
        route_of("/v1.0/card/instances/callback"@) == Route::CardAction,
        route_of(topic) == Route::Ignored <==> topic != "/v1.0/im/bot/messages/get"@ && topic
            != "/v1.0/card/instances/callback"@,
{
    reveal_strlit("/v1.0/im/bot/messages/get");
    reveal_strlit("/v1.0/card/instances/callback");
    assert("/v1.0/im/bot/messages/get"@.len() != "/v1.0/card/instances/callback"@.len());
}

/// An action names its card and its user, empty where it does not, and holds what
/// was entered, and itself.
pub proof fn action_says_what_the_document_says(v: JsonView)
    ensures
        ({
            let a = action_of(v);
            &&& v.get("outTrackId"@) matches Some(JsonView::Text(s)) ==> a.out_track_id == s
            &&& v.get("outTrackId"@) is None ==> a.out_track_id.len() == 0
            &&& v.get("userId"@) matches Some(JsonView::Text(s)) ==> a.user_id == s
            &&& v.get("userId"@) is None ==> a.user_id.len() == 0
            &&& v.get("dataContent"@) matches Some(d) ==> a.data_content == d
            &&& v.get("dataContent"@) is None ==> a.data_content == JsonView::Null
            &&& a.raw == v
            &&& action_outcome(Ok(v)) == Ok::<CardActionView, ErrorView>(a)
        }),
{
}

/// A payload that is no JSON is no action, and an answer that is none names no file.
pub proof fn what_cannot_be_read_is_an_error(e: Seq<char>)
    ensures
        action_outcome(Err(e)) == Err::<CardActionView, ErrorView>(ErrorView::Json(e)),
        download_answer(Err(e)) == Err::<Seq<char>, ErrorView>(ErrorView::Json(e)),
{
}

/// The address of a file is what the answer gives, and empty where it gives none.
pub proof fn answer_gives_the_address_of_a_file(v: JsonView)
    ensures
        v.get("downloadUrl"@) matches Some(JsonView::Text(u)) ==> download_answer(Ok(v)) == Ok::<
            Seq<char>,
            ErrorView,
        >(u),
        v.get("downloadUrl"@) is None ==> download_answer(Ok(v)) == Ok::<Seq<char>, ErrorView>(
            Seq::empty(),
        ),
{
}

/// Actions on different cards are run apart from each other.
pub proof fn cards_have_their_own_scopes(a: CardActionView, b: CardActionView)
    requires
        a.out_track_id != b.out_track_id,
    ensures
        action_scope(a) != action_scope(b),
{
    let n = "card:"@.len() as int;
    assert(action_scope(a).skip(n) =~= a.out_track_id);
    assert(action_scope(b).skip(n) =~= b.out_track_id);
}

/// The key of an action is that of the words of its user on its card, at no time.
pub proof fn key_of_an_action(a: CardActionView, data: Seq<char>)
    ensures
        action_key(a, data) == seen_cache::fingerprint("card:"@ + a.out_track_id, 0, a.user_id, data),
{
}

/// The message behind an action is in the conversation of the card and says
/// nothing else.
pub proof fn message_behind_an_action_is_bare(id: Seq<char>)
    ensures
        ({
            let m = bare_message(id);
            &&& m.conversation_id == id
            &&& m.conversation_type.len() == 0
            &&& m.sender_id.len() == 0
            &&& m.sender_staff_id.len() == 0
            &&& m.session_webhook.len() == 0
            &&& m.webhook_expired_at == 0
            &&& m.text.len() == 0
            &&& m.msg_id.len() == 0
            &&& m.create_at == 0
            &&& !m.mention_all
            &&& !m.is_admin
            &&& !m.is_in_at_list
            &&& m.resources.len() == 0
            &&& m.mentions.len() == 0
        }),
{
}

/// A file is asked for by its code, its message and the robot, in that order.
pub proof fn file_is_asked_for_by_its_code(code: Seq<char>, id: Seq<char>, robot: Seq<char>)
    ensures
        ({
            let front = "/v1.0/robot/messageFiles/download?downloadCode="@;
            let c = url::percent_encoded(code);
            let i = url::percent_encoded(id);
            let r = url::percent_encoded(robot);
            let p = media_path(code, id, robot);
            &&& p.take(front.len() as int) == front
            &&& p == front + (c + ("&messageId="@ + (i + ("&robotCode="@ + r))))
        }),
{
    let front = "/v1.0/robot/messageFiles/download?downloadCode="@;
    let c = url::percent_encoded(code);
    let i = url::percent_encoded(id);
    let r = url::percent_encoded(robot);
    let p = media_path(code, id, robot);
    assert(p =~= front + (c + ("&messageId="@ + (i + ("&robotCode="@ + r)))));
    assert(p.take(front.len() as int) =~= front);
}

} // verus!
