//! Messages and media as JSON documents.
//!
//! Of a message, neither the way to its session nor the messages that it was
//! merged from are written down; the payload that it came in is, where it is
//! known.

use crate::json;
use crate::json::{Json, JsonView};
use crate::oapi::{MediaUploadResult, MediaView};
use crate::types;
use crate::types::{
    AtUser, AtUserView, IncomingMessage, Mention, MentionView, MessageView, Resource, ResourceView,
};
use std::sync::Arc;
use vstd::prelude::*;

verus! {

pub open spec fn at_user_document(u: AtUserView) -> JsonView {
    JsonView::object().with_text("dingtalkId"@, u.dingtalk_id).with_text("staffId"@, u.staff_id)
}

pub open spec fn resource_document(r: ResourceView) -> JsonView {
    JsonView::object().with_text("type"@, r.kind).with_text(
        "downloadCode"@,
        r.download_code,
    ).with_text("fileName"@, r.file_name).with_text("recognition"@, r.recognition)
}

pub open spec fn mention_document(m: MentionView) -> JsonView {
    JsonView::object().with_text("key"@, m.key).with_text("userId"@, m.user_id).with_text(
        "name"@,
        m.name,
    ).with("isBot"@, JsonView::Bool(m.is_bot)).with("isAll"@, JsonView::Bool(m.is_all))
}

pub open spec fn media_document(m: MediaView) -> JsonView {
    JsonView::object().with_text("mediaId"@, m.media_id).with_text(
        "rawMediaId"@,
        m.raw_media_id,
    ).with_text("type"@, m.kind).with("created_at"@, JsonView::Integer(m.created_at)).with_text(
        "downloadUrl"@,
        m.download_url,
    )
}

pub open spec fn at_user_documents(s: Seq<AtUserView>) -> Seq<JsonView> {
    Seq::new(s.len(), |i: int| at_user_document(s[i]))
}

pub open spec fn resource_documents(s: Seq<ResourceView>) -> Seq<JsonView> {
    Seq::new(s.len(), |i: int| resource_document(s[i]))
}

pub open spec fn mention_documents(s: Seq<MentionView>) -> Seq<JsonView> {
    Seq::new(s.len(), |i: int| mention_document(s[i]))
}

/// A document with a member more, where it says something.
pub open spec fn with_said(body: JsonView, key: Seq<char>, value: JsonView) -> JsonView {
    if value == JsonView::Null {
        body
    } else {
        body.with(key, value)
    }
}

/// A document with a list more, where it is not empty.
pub open spec fn with_list(body: JsonView, key: Seq<char>, items: Seq<JsonView>) -> JsonView {
    if items.len() == 0 {
        body
    } else {
        body.with(key, JsonView::Array(items))
    }
}

/// A message as a document. Lists that are empty and contents that say nothing
/// are left out.
pub open spec fn message_document(m: MessageView) -> JsonView {
    let head = JsonView::object().with_text("conversationId"@, m.conversation_id).with_text(
        "conversationType"@,
        m.conversation_type,
    ).with_text("conversationTitle"@, m.conversation_title).with_text(
        "senderId"@,
        m.sender_id,
    ).with_text("senderStaffId"@, m.sender_staff_id).with_text(
        "senderNick"@,
        m.sender_nick,
    ).with_text("senderCorpId"@, m.sender_corp_id).with_text("text"@, m.text).with_text(
        "msgType"@,
        m.msg_type,
    );
    let told = with_list(
        with_list(
            with_said(head, "content"@, m.content),
            "resources"@,
            resource_documents(m.resources),
        ),
        "mentions"@,
        mention_documents(m.mentions),
    ).with("mentionAll"@, JsonView::Bool(m.mention_all));
    let tail = with_list(told, "atUsers"@, at_user_documents(m.at_users)).with(
        "webhookExpiredAt"@,
        JsonView::Integer(m.webhook_expired_at),
    ).with_text("msgId"@, m.msg_id).with("createAt"@, JsonView::Integer(m.create_at)).with(
        "isAdmin"@,
        JsonView::Bool(m.is_admin),
    ).with("isInAtList"@, JsonView::Bool(m.is_in_at_list));
    with_said(tail, "raw"@, m.raw)
}

impl AtUser {
    pub fn to_json(&self) -> (r: Json)
        ensures
            r@ == at_user_document(self@),
    {
        Json::object().with_text("dingtalkId", self.dingtalk_id.as_str()).with_text(
            "staffId",
            self.staff_id.as_str(),
        )
    }
}

impl Resource {
    pub fn to_json(&self) -> (r: Json)
        ensures
            r@ == resource_document(self@),
    {
        Json::object().with_text("type", self.kind.as_str()).with_text(
            "downloadCode",
            self.download_code.as_str(),
        ).with_text("fileName", self.file_name.as_str()).with_text(
            "recognition",
            self.recognition.as_str(),
        )
    }
}

impl Mention {
    pub fn to_json(&self) -> (r: Json)
        ensures
            r@ == mention_document(self@),
    {
        Json::object().with_text("key", self.key.as_str()).with_text(
            "userId",
            self.user_id.as_str(),
        ).with_text("name", self.name.as_str()).with("isBot", Json::Bool(self.is_bot)).with(
            "isAll",
            Json::Bool(self.is_all),
        )
    }
}

impl MediaUploadResult {
    pub fn to_json(&self) -> (r: Json)
        ensures
            r@ == media_document(self@),
    {
        Json::object().with_text("mediaId", self.media_id.as_str()).with_text(
            "rawMediaId",
            self.raw_media_id.as_str(),
        ).with_text("type", self.kind.as_str()).with(
            "created_at",
            Json::Integer(self.created_at),
        ).with_text("downloadUrl", self.download_url.as_str())
    }
}

fn add_said(body: Json, key: &str, value: &Json) -> (r: Json)
    ensures
        r@ == with_said(body@, key@, value@),
{
    if value.is_null() {
        body
    } else {
        body.with(key, value.clone())
    }
}

fn add_list(body: Json, key: &str, items: Vec<Json>) -> (r: Json)
    ensures
        r@ == with_list(body@, key@, json::views(items@)),
{
    if items.len() == 0 {
        body
    } else {
        body.with(key, Json::array(items))
    }
}

fn resources_of(v: &Vec<Resource>) -> (r: Vec<Json>)
    ensures
        json::views(r@) == resource_documents(types::views(v@)),
{
    let mut out: Vec<Json> = Vec::new();
    let mut i: usize = 0;
    while i < v.len()
        invariant
            i <= v@.len(),
            out@.len() == i,
            forall|k: int| 0 <= k < i ==> (#[trigger] out@[k])@ == resource_document(v@[k]@),
        decreases v@.len() - i,
    {
        out.push(v[i].to_json());
        i += 1;
    }
    assert(json::views(out@) =~= resource_documents(types::views(v@)));
    out
}

fn mentions_of(v: &Vec<Mention>) -> (r: Vec<Json>)
    ensures
        json::views(r@) == mention_documents(types::views(v@)),
{
    let mut out: Vec<Json> = Vec::new();
    let mut i: usize = 0;
    while i < v.len()
        invariant
            i <= v@.len(),
            out@.len() == i,
            forall|k: int| 0 <= k < i ==> (#[trigger] out@[k])@ == mention_document(v@[k]@),
        decreases v@.len() - i,
    {
        out.push(v[i].to_json());
        i += 1;
    }
    assert(json::views(out@) =~= mention_documents(types::views(v@)));
    out
}

fn at_users_of(v: &Vec<AtUser>) -> (r: Vec<Json>)
    ensures
        json::views(r@) == at_user_documents(types::views(v@)),
{
    let mut out: Vec<Json> = Vec::new();
    let mut i: usize = 0;
    while i < v.len()
        invariant
            i <= v@.len(),
            out@.len() == i,
            forall|k: int| 0 <= k < i ==> (#[trigger] out@[k])@ == at_user_document(v@[k]@),
        decreases v@.len() - i,
    {
        out.push(v[i].to_json());
        i += 1;
    }
    assert(json::views(out@) =~= at_user_documents(types::views(v@)));
    out
}

impl IncomingMessage {
    /// The message as a document.
    pub fn to_json(&self) -> (r: Json)
        ensures
            r@ == message_document(self@),
    {
        let head = Json::object().with_text(
            "conversationId",
            self.conversation_id.as_str(),
        ).with_text("conversationType", self.conversation_type.as_str()).with_text(
            "conversationTitle",
            self.conversation_title.as_str(),
        ).with_text("senderId", self.sender_id.as_str()).with_text(
            "senderStaffId",
            self.sender_staff_id.as_str(),
        ).with_text("senderNick", self.sender_nick.as_str()).with_text(
            "senderCorpId",
            self.sender_corp_id.as_str(),
        ).with_text("text", self.text.as_str()).with_text("msgType", self.msg_type.as_str());
        let content = add_said(head, "content", &self.content);
        let resources = add_list(content, "resources", resources_of(&self.resources));
        let told = add_list(resources, "mentions", mentions_of(&self.mentions)).with(
            "mentionAll",
            Json::Bool(self.mention_all),
        );
        let tail = add_list(told, "atUsers", at_users_of(&self.at_users)).with(
            "webhookExpiredAt",
            Json::Integer(self.webhook_expired_at),
        ).with_text("msgId", self.msg_id.as_str()).with(
            "createAt",
            Json::Integer(self.create_at),
        ).with("isAdmin", Json::Bool(self.is_admin)).with(
            "isInAtList",
            Json::Bool(self.is_in_at_list),
        );
        add_said(tail, "raw", &self.raw)
    }
}

/// The document of a message does not depend on the way to its session, nor on
/// the messages that it was merged from.
pub proof fn session_is_not_written_down(
    m: MessageView,
    session_webhook: Seq<char>,
    batched_sources: Seq<Arc<IncomingMessage>>,
)
    ensures
        message_document(MessageView { session_webhook, batched_sources, ..m })
            == message_document(m),
{
}

/// A user is written down by both of its keys.
pub proof fn user_is_written_down(u: AtUserView)
    ensures
        ({
            let b = at_user_document(u);
            &&& b.get("dingtalkId"@) == Some(JsonView::Text(u.dingtalk_id))
            &&& b.get("staffId"@) == Some(JsonView::Text(u.staff_id))
        }),
{
    let b = at_user_document(u);
    let s = seq![
        ("dingtalkId"@, JsonView::Text(u.dingtalk_id)),
        ("staffId"@, JsonView::Text(u.staff_id)),
    ];
    reveal_strlit("dingtalkId");
    reveal_strlit("staffId");
    assert("dingtalkId"@.len() != "staffId"@.len());
    assert(b->Object_0 =~= s);
    json::member_is_found(s, 0, "dingtalkId"@);
    json::member_is_found(s, 1, "staffId"@);
}

/// A resource is written down with its kind, its code, its name and its words.
pub proof fn resource_is_written_down(r: ResourceView)
    ensures
        ({
            let b = resource_document(r);
            &&& b.get("type"@) == Some(JsonView::Text(r.kind))
            &&& b.get("downloadCode"@) == Some(JsonView::Text(r.download_code))
            &&& b.get("fileName"@) == Some(JsonView::Text(r.file_name))
            &&& b.get("recognition"@) == Some(JsonView::Text(r.recognition))
        }),
{
    let b = resource_document(r);
    let s = seq![
        ("type"@, JsonView::Text(r.kind)),
        ("downloadCode"@, JsonView::Text(r.download_code)),
        ("fileName"@, JsonView::Text(r.file_name)),
        ("recognition"@, JsonView::Text(r.recognition)),
    ];
    reveal_strlit("type");
    reveal_strlit("downloadCode");
    reveal_strlit("fileName");
    reveal_strlit("recognition");
    assert("type"@.len() != "downloadCode"@.len());
    assert("type"@.len() != "fileName"@.len());
    assert("type"@.len() != "recognition"@.len());
    assert("downloadCode"@.len() != "fileName"@.len());
    assert("downloadCode"@.len() != "recognition"@.len());
    assert("fileName"@.len() != "recognition"@.len());
    assert(b->Object_0 =~= s);
    json::member_is_found(s, 0, "type"@);
    json::member_is_found(s, 1, "downloadCode"@);
    json::member_is_found(s, 2, "fileName"@);
    json::member_is_found(s, 3, "recognition"@);
}

/// A mention is written down with its key, its user, its name and what it mentions.
pub proof fn mention_is_written_down(m: MentionView)
    ensures
        ({
            let b = mention_document(m);
            &&& b.get("key"@) == Some(JsonView::Text(m.key))
            &&& b.get("userId"@) == Some(JsonView::Text(m.user_id))
            &&& b.get("name"@) == Some(JsonView::Text(m.name))
            &&& b.get("isBot"@) == Some(JsonView::Bool(m.is_bot))
            &&& b.get("isAll"@) == Some(JsonView::Bool(m.is_all))
        }),
{
    let b = mention_document(m);
    let s = seq![
        ("key"@, JsonView::Text(m.key)),
        ("userId"@, JsonView::Text(m.user_id)),
        ("name"@, JsonView::Text(m.name)),
        ("isBot"@, JsonView::Bool(m.is_bot)),
        ("isAll"@, JsonView::Bool(m.is_all)),
    ];
    reveal_strlit("key");
    reveal_strlit("userId");
    reveal_strlit("name");
    reveal_strlit("isBot");
    reveal_strlit("isAll");
    assert("key"@.len() != "userId"@.len());
    assert("key"@.len() != "name"@.len());
    assert("key"@.len() != "isBot"@.len());
    assert("key"@.len() != "isAll"@.len());
    assert("userId"@.len() != "name"@.len());
    assert("userId"@.len() != "isBot"@.len());
    assert("userId"@.len() != "isAll"@.len());
    assert("name"@.len() != "isBot"@.len());
    assert("name"@.len() != "isAll"@.len());
    assert("isBot"@[2] != "isAll"@[2]);
    assert(b->Object_0 =~= s);
    json::member_is_found(s, 0, "key"@);
    json::member_is_found(s, 1, "userId"@);
    json::member_is_found(s, 2, "name"@);
    json::member_is_found(s, 3, "isBot"@);
    json::member_is_found(s, 4, "isAll"@);
}

/// A file is written down with both of its keys, its kind, its time and its address.
pub proof fn file_is_written_down(m: MediaView)
    ensures
        ({
            let b = media_document(m);
            &&& b.get("mediaId"@) == Some(JsonView::Text(m.media_id))
            &&& b.get("rawMediaId"@) == Some(JsonView::Text(m.raw_media_id))
            &&& b.get("type"@) == Some(JsonView::Text(m.kind))
            &&& b.get("created_at"@) == Some(JsonView::Integer(m.created_at))
            &&& b.get("downloadUrl"@) == Some(JsonView::Text(m.download_url))
        }),
{
    let b = media_document(m);
    let s = seq![
        ("mediaId"@, JsonView::Text(m.media_id)),
        ("rawMediaId"@, JsonView::Text(m.raw_media_id)),
        ("type"@, JsonView::Text(m.kind)),
        ("created_at"@, JsonView::Integer(m.created_at)),
        ("downloadUrl"@, JsonView::Text(m.download_url)),
    ];
    reveal_strlit("mediaId");
    reveal_strlit("rawMediaId");
    reveal_strlit("type");
    reveal_strlit("created_at");
    reveal_strlit("downloadUrl");
    assert("mediaId"@.len() != "rawMediaId"@.len());
    assert("mediaId"@.len() != "type"@.len());
    assert("mediaId"@.len() != "created_at"@.len());
    assert("mediaId"@.len() != "downloadUrl"@.len());
    assert("rawMediaId"@.len() != "type"@.len());
    assert("rawMediaId"@[0] != "created_at"@[0]);
    assert("rawMediaId"@.len() != "downloadUrl"@.len());
    assert("type"@.len() != "created_at"@.len());
    assert("type"@.len() != "downloadUrl"@.len());
    assert("created_at"@.len() != "downloadUrl"@.len());
    assert(b->Object_0 =~= s);
    json::member_is_found(s, 0, "mediaId"@);
    json::member_is_found(s, 1, "rawMediaId"@);
    json::member_is_found(s, 2, "type"@);
    json::member_is_found(s, 3, "created_at"@);
    json::member_is_found(s, 4, "downloadUrl"@);
}

proof fn lemma_put(a: JsonView, b: JsonView, key: Seq<char>, value: JsonView, said: bool)
    requires
        a is Object,
        b == (if said {
            a.with(key, value)
        } else {
            a
        }),
    ensures
        b is Object,
        said ==> b.get(key) == Some(value),
        !said ==> b.get(key) == a.get(key),
        forall|other: Seq<char>| other != key ==> #[trigger] b.get(other) == a.get(other),
{
    json::with_then_get(a, key, value, key);
    assert forall|other: Seq<char>| other != key implies #[trigger] b.get(other) == a.get(
        other,
    ) by {
        json::with_then_get(a, key, value, other);
    }
}

/// A message is written down under the names of the service: its texts, its times
/// and what it is; its contents and its lists where they hold something; and
/// nothing of its session.
#[verifier::rlimit(60)]
pub proof fn message_is_written_down(m: MessageView)
    ensures
        ({
            let d = message_document(m);
            &&& d.get("conversationId"@) == Some(JsonView::Text(m.conversation_id))
            &&& d.get("conversationType"@) == Some(JsonView::Text(m.conversation_type))
            &&& d.get("conversationTitle"@) == Some(JsonView::Text(m.conversation_title))
            &&& d.get("senderId"@) == Some(JsonView::Text(m.sender_id))
            &&& d.get("senderStaffId"@) == Some(JsonView::Text(m.sender_staff_id))
            &&& d.get("senderNick"@) == Some(JsonView::Text(m.sender_nick))
            &&& d.get("senderCorpId"@) == Some(JsonView::Text(m.sender_corp_id))
            &&& d.get("text"@) == Some(JsonView::Text(m.text))
            &&& d.get("msgType"@) == Some(JsonView::Text(m.msg_type))
            &&& d.get("msgId"@) == Some(JsonView::Text(m.msg_id))
            &&& d.get("mentionAll"@) == Some(JsonView::Bool(m.mention_all))
            &&& d.get("isAdmin"@) == Some(JsonView::Bool(m.is_admin))
            &&& d.get("isInAtList"@) == Some(JsonView::Bool(m.is_in_at_list))
            &&& d.get("webhookExpiredAt"@) == Some(JsonView::Integer(m.webhook_expired_at))
            &&& d.get("createAt"@) == Some(JsonView::Integer(m.create_at))
            &&& m.content != JsonView::Null ==> d.get("content"@) == Some(m.content)
            &&& m.content == JsonView::Null ==> d.get("content"@) is None
            &&& m.raw != JsonView::Null ==> d.get("raw"@) == Some(m.raw)
            &&& m.raw == JsonView::Null ==> d.get("raw"@) is None
            &&& m.resources.len() == 0 ==> d.get("resources"@) is None
            &&& m.resources.len() > 0 ==> d.get("resources"@) == Some(
                JsonView::Array(Seq::new(m.resources.len(), |i: int| resource_document(m.resources[i]))),
            )
            &&& m.mentions.len() == 0 ==> d.get("mentions"@) is None
            &&& m.mentions.len() > 0 ==> d.get("mentions"@) == Some(
                JsonView::Array(Seq::new(m.mentions.len(), |i: int| mention_document(m.mentions[i]))),
            )
            &&& m.at_users.len() == 0 ==> d.get("atUsers"@) is None
            &&& m.at_users.len() > 0 ==> d.get("atUsers"@) == Some(
                JsonView::Array(Seq::new(m.at_users.len(), |i: int| at_user_document(m.at_users[i]))),
            )
            &&& d.get("sessionWebhook"@) is None
        }),
{
    reveal_strlit("conversationId");
    reveal_strlit("conversationType");
    reveal_strlit("conversationTitle");
    reveal_strlit("senderId");
    reveal_strlit("senderStaffId");
    reveal_strlit("senderNick");
    reveal_strlit("senderCorpId");
    reveal_strlit("text");
    reveal_strlit("msgType");
    reveal_strlit("content");
    reveal_strlit("resources");
    reveal_strlit("mentions");
    reveal_strlit("mentionAll");
    reveal_strlit("atUsers");
    reveal_strlit("webhookExpiredAt");
    reveal_strlit("msgId");
    reveal_strlit("createAt");
    reveal_strlit("isAdmin");
    reveal_strlit("isInAtList");
    reveal_strlit("raw");
    reveal_strlit("sessionWebhook");
    assert("conversationId"@.len() == 14);
    assert("conversationType"@.len() == 16);
    assert("conversationTitle"@.len() == 17);
    assert("senderId"@.len() == 8);
    assert("senderStaffId"@.len() == 13);
    assert("senderNick"@.len() == 10);
    assert("senderCorpId"@.len() == 12);
    assert("text"@.len() == 4);
    assert("msgType"@.len() == 7);
    assert("content"@.len() == 7);
    assert("resources"@.len() == 9);
    assert("mentions"@.len() == 8);
    assert("mentionAll"@.len() == 10);
    assert("atUsers"@.len() == 7);
    assert("webhookExpiredAt"@.len() == 16);
    assert("msgId"@.len() == 5);
    assert("createAt"@.len() == 8);
    assert("isAdmin"@.len() == 7);
    assert("isInAtList"@.len() == 10);
    assert("raw"@.len() == 3);
    assert("sessionWebhook"@.len() == 14);
    assert("conversationId"@[0] != "sessionWebhook"@[0]);
    assert("conversationType"@[0] != "webhookExpiredAt"@[0]);
    assert("senderId"@[0] != "mentions"@[0]);
    assert("senderId"@[0] != "createAt"@[0]);
    assert("senderNick"@[0] != "mentionAll"@[0]);
    assert("senderNick"@[0] != "isInAtList"@[0]);
    assert("msgType"@[0] != "content"@[0]);
    assert("msgType"@[0] != "atUsers"@[0]);
    assert("msgType"@[0] != "isAdmin"@[0]);
    assert("content"@[0] != "atUsers"@[0]);
    assert("content"@[0] != "isAdmin"@[0]);
    assert("mentions"@[0] != "createAt"@[0]);
    assert("mentionAll"@[0] != "isInAtList"@[0]);
    assert("atUsers"@[0] != "isAdmin"@[0]);
    let b0 = JsonView::object();
    let b1 = b0.with("conversationId"@, JsonView::Text(m.conversation_id));
    lemma_put(b0, b1, "conversationId"@, JsonView::Text(m.conversation_id), true);
    let b2 = b1.with("conversationType"@, JsonView::Text(m.conversation_type));
    lemma_put(b1, b2, "conversationType"@, JsonView::Text(m.conversation_type), true);
    let b3 = b2.with("conversationTitle"@, JsonView::Text(m.conversation_title));
    lemma_put(b2, b3, "conversationTitle"@, JsonView::Text(m.conversation_title), true);
    let b4 = b3.with("senderId"@, JsonView::Text(m.sender_id));
    lemma_put(b3, b4, "senderId"@, JsonView::Text(m.sender_id), true);
    let b5 = b4.with("senderStaffId"@, JsonView::Text(m.sender_staff_id));
    lemma_put(b4, b5, "senderStaffId"@, JsonView::Text(m.sender_staff_id), true);
    let b6 = b5.with("senderNick"@, JsonView::Text(m.sender_nick));
    lemma_put(b5, b6, "senderNick"@, JsonView::Text(m.sender_nick), true);
    let b7 = b6.with("senderCorpId"@, JsonView::Text(m.sender_corp_id));
    lemma_put(b6, b7, "senderCorpId"@, JsonView::Text(m.sender_corp_id), true);
    let b8 = b7.with("text"@, JsonView::Text(m.text));
    lemma_put(b7, b8, "text"@, JsonView::Text(m.text), true);
    let b9 = b8.with("msgType"@, JsonView::Text(m.msg_type));
    lemma_put(b8, b9, "msgType"@, JsonView::Text(m.msg_type), true);
    let b10 = with_said(b9, "content"@, m.content);
    lemma_put(b9, b10, "content"@, m.content, m.content != JsonView::Null);
    let b11 = with_list(b10, "resources"@, resource_documents(m.resources));
    lemma_put(
        b10,
        b11,
        "resources"@,
        JsonView::Array(resource_documents(m.resources)),
        m.resources.len() > 0,
    );
    let b12 = with_list(b11, "mentions"@, mention_documents(m.mentions));
    lemma_put(
        b11,
        b12,
        "mentions"@,
        JsonView::Array(mention_documents(m.mentions)),
        m.mentions.len() > 0,
    );
    let b13 = b12.with("mentionAll"@, JsonView::Bool(m.mention_all));
    lemma_put(b12, b13, "mentionAll"@, JsonView::Bool(m.mention_all), true);
    let b14 = with_list(b13, "atUsers"@, at_user_documents(m.at_users));
    lemma_put(
        b13,
        b14,
        "atUsers"@,
        JsonView::Array(at_user_documents(m.at_users)),
        m.at_users.len() > 0,
    );
    let b15 = b14.with("webhookExpiredAt"@, JsonView::Integer(m.webhook_expired_at));
    lemma_put(b14, b15, "webhookExpiredAt"@, JsonView::Integer(m.webhook_expired_at), true);
    let b16 = b15.with("msgId"@, JsonView::Text(m.msg_id));
    lemma_put(b15, b16, "msgId"@, JsonView::Text(m.msg_id), true);
    let b17 = b16.with("createAt"@, JsonView::Integer(m.create_at));
    lemma_put(b16, b17, "createAt"@, JsonView::Integer(m.create_at), true);
    let b18 = b17.with("isAdmin"@, JsonView::Bool(m.is_admin));
    lemma_put(b17, b18, "isAdmin"@, JsonView::Bool(m.is_admin), true);
    let b19 = b18.with("isInAtList"@, JsonView::Bool(m.is_in_at_list));
    lemma_put(b18, b19, "isInAtList"@, JsonView::Bool(m.is_in_at_list), true);
    let b20 = with_said(b19, "raw"@, m.raw);
    lemma_put(b19, b20, "raw"@, m.raw, m.raw != JsonView::Null);
    assert(b20 == message_document(m));
    assert(resource_documents(m.resources) =~= Seq::new(
        m.resources.len(),
        |i: int| resource_document(m.resources[i]),
    ));
    assert(mention_documents(m.mentions) =~= Seq::new(
        m.mentions.len(),
        |i: int| mention_document(m.mentions[i]),
    ));
    assert(at_user_documents(m.at_users) =~= Seq::new(
        m.at_users.len(),
        |i: int| at_user_document(m.at_users[i]),
    ));
}

} // verus!
