//! The normal form of inbound messages.

use crate::error::{Error, ErrorView};
use crate::json;
use crate::json::{Json, JsonView};
use crate::record;
use crate::record::{is_record, read_bool, read_integer, read_text, slot_of};
use crate::text;
use crate::text::CharClass;
use crate::types;
use crate::types::{
    AtUser, AtUserView, IncomingMessage, Mention, MentionView, MessageView, Resource, ResourceView,
    CONVERSATION_TYPE_DM, CONVERSATION_TYPE_GROUP,
};
use vstd::prelude::*;

verus! {

// ── reading the payload ──

/// A user who is mentioned in the payload.
pub open spec fn at_user(v: JsonView) -> Option<AtUserView> {
    match (record::text_slot(v, "dingtalkId"@, 0), record::text_slot(v, "staffId"@, 1)) {
        (Some(dingtalk_id), Some(staff_id)) => if record::record(v, 2) {
            Some(AtUserView { dingtalk_id, staff_id })
        } else {
            None
        },
        _ => None,
    }
}

/// The mentioned users, all of them or none.
pub open spec fn at_user_list(items: Seq<JsonView>) -> Option<Seq<AtUserView>>
    decreases items.len(),
{
    if items.len() == 0 {
        Some(Seq::empty())
    } else {
        match (at_user_list(items.drop_last()), at_user(items.last())) {
            (Some(users), Some(user)) => Some(users.push(user)),
            _ => None,
        }
    }
}

pub open spec fn at_users_slot(v: JsonView, key: Seq<char>, place: nat) -> Option<Seq<AtUserView>> {
    match record::slot(v, key, place) {
        None => Some(Seq::empty()),
        Some(JsonView::Array(items)) => at_user_list(items),
        Some(_) => None,
    }
}

/// The text inside the field of a text message.
pub open spec fn inner_text_slot(v: JsonView, key: Seq<char>, place: nat) -> Option<Seq<char>> {
    match record::slot(v, key, place) {
        None => Some(Seq::empty()),
        Some(t) => if record::record(t, 1) {
            record::text_slot(t, "content"@, 0)
        } else {
            None
        },
    }
}

/// The payload of a message.
#[derive(Debug)]
pub struct BotCallbackData {
    pub conversation_id: String,
    pub at_users: Vec<AtUser>,
    pub msg_id: String,
    pub sender_nick: String,
    pub is_admin: bool,
    pub sender_staff_id: String,
    pub session_webhook_expired_time: i64,
    pub create_at: i64,
    pub sender_corp_id: String,
    pub conversation_type: String,
    pub sender_id: String,
    pub conversation_title: String,
    pub is_in_at_list: bool,
    pub session_webhook: String,
    pub text: String,
    pub msg_type: String,
    pub content: Json,
}

pub struct CallbackView {
    pub conversation_id: Seq<char>,
    pub at_users: Seq<AtUserView>,
    pub msg_id: Seq<char>,
    pub sender_nick: Seq<char>,
    pub is_admin: bool,
    pub sender_staff_id: Seq<char>,
    pub session_webhook_expired_time: i64,
    pub create_at: i64,
    pub sender_corp_id: Seq<char>,
    pub conversation_type: Seq<char>,
    pub sender_id: Seq<char>,
    pub conversation_title: Seq<char>,
    pub is_in_at_list: bool,
    pub session_webhook: Seq<char>,
    pub text: Seq<char>,
    pub msg_type: Seq<char>,
    pub content: JsonView,
}

impl View for BotCallbackData {
    type V = CallbackView;

    open spec fn view(&self) -> CallbackView {
        CallbackView {
            conversation_id: self.conversation_id@,
            at_users: types::views(self.at_users@),
            msg_id: self.msg_id@,
            sender_nick: self.sender_nick@,
            is_admin: self.is_admin,
            sender_staff_id: self.sender_staff_id@,
            session_webhook_expired_time: self.session_webhook_expired_time,
            create_at: self.create_at,
            sender_corp_id: self.sender_corp_id@,
            conversation_type: self.conversation_type@,
            sender_id: self.sender_id@,
            conversation_title: self.conversation_title@,
            is_in_at_list: self.is_in_at_list,
            session_webhook: self.session_webhook@,
            text: self.text@,
            msg_type: self.msg_type@,
            content: self.content@,
        }
    }
}

/// Every field of a payload has the type that it should have.
pub open spec fn well_typed(v: JsonView) -> bool {
    &&& record::record(v, 17)
    &&& record::text_slot(v, "conversationId"@, 0) is Some
    &&& at_users_slot(v, "atUsers"@, 1) is Some
    &&& record::text_slot(v, "msgId"@, 2) is Some
    &&& record::text_slot(v, "senderNick"@, 3) is Some
    &&& record::bool_slot(v, "isAdmin"@, 4) is Some
    &&& record::text_slot(v, "senderStaffId"@, 5) is Some
    &&& record::integer_slot(v, "sessionWebhookExpiredTime"@, 6) is Some
    &&& record::integer_slot(v, "createAt"@, 7) is Some
    &&& record::text_slot(v, "senderCorpId"@, 8) is Some
    &&& record::text_slot(v, "conversationType"@, 9) is Some
    &&& record::text_slot(v, "senderId"@, 10) is Some
    &&& record::text_slot(v, "conversationTitle"@, 11) is Some
    &&& record::bool_slot(v, "isInAtList"@, 12) is Some
    &&& record::text_slot(v, "sessionWebhook"@, 13) is Some
    &&& inner_text_slot(v, "text"@, 14) is Some
    &&& record::text_slot(v, "msgtype"@, 15) is Some
}

/// The payload in a document. A field that is missing has its default value;
/// one of another type makes the whole document no payload.
pub open spec fn callback(v: JsonView) -> Option<CallbackView> {
    if well_typed(v) {
        Some(
            CallbackView {
                conversation_id: record::text_slot(v, "conversationId"@, 0).unwrap(),
                at_users: at_users_slot(v, "atUsers"@, 1).unwrap(),
                msg_id: record::text_slot(v, "msgId"@, 2).unwrap(),
                sender_nick: record::text_slot(v, "senderNick"@, 3).unwrap(),
                is_admin: record::bool_slot(v, "isAdmin"@, 4).unwrap(),
                sender_staff_id: record::text_slot(v, "senderStaffId"@, 5).unwrap(),
                session_webhook_expired_time: record::integer_slot(
                    v,
                    "sessionWebhookExpiredTime"@,
                    6,
                ).unwrap(),
                create_at: record::integer_slot(v, "createAt"@, 7).unwrap(),
                sender_corp_id: record::text_slot(v, "senderCorpId"@, 8).unwrap(),
                conversation_type: record::text_slot(v, "conversationType"@, 9).unwrap(),
                sender_id: record::text_slot(v, "senderId"@, 10).unwrap(),
                conversation_title: record::text_slot(v, "conversationTitle"@, 11).unwrap(),
                is_in_at_list: record::bool_slot(v, "isInAtList"@, 12).unwrap(),
                session_webhook: record::text_slot(v, "sessionWebhook"@, 13).unwrap(),
                text: inner_text_slot(v, "text"@, 14).unwrap(),
                msg_type: record::text_slot(v, "msgtype"@, 15).unwrap(),
                content: match record::slot(v, "content"@, 16) {
                    Some(c) => c,
                    None => JsonView::Null,
                },
            },
        )
    } else {
        None
    }
}

fn read_at_user(v: &Json) -> (r: Option<AtUser>)
    ensures
        match r {
            Some(u) => at_user(v@) == Some(u@),
            None => at_user(v@) is None,
        },
{
    if !is_record(v, 2) {
        return None;
    }
    match (read_text(v, "dingtalkId", 0), read_text(v, "staffId", 1)) {
        (Some(dingtalk_id), Some(staff_id)) => Some(AtUser { dingtalk_id, staff_id }),
        _ => None,
    }
}

/// Users before one that is none are not read either.
proof fn lemma_at_user_list_none(items: Seq<JsonView>, i: int)
    requires
        0 <= i < items.len(),
        at_user(items[i]) is None,
    ensures
        at_user_list(items) is None,
    decreases items.len(),
{
    if i < items.len() - 1 {
        lemma_at_user_list_none(items.drop_last(), i);
    }
}

fn read_at_users(v: &Json, key: &str, place: usize) -> (r: Option<Vec<AtUser>>)
    ensures
        match r {
            Some(u) => at_users_slot(v@, key@, place as nat) == Some(types::views(u@)),
            None => at_users_slot(v@, key@, place as nat) is None,
        },
{
    match slot_of(v, key, place) {
        None => {
            let none: Vec<AtUser> = Vec::new();
            assert(types::views(none@) =~= Seq::empty());
            Some(none)
        },
        Some(Json::Array(items)) => {
            proof {
                json::array_view(*items);
            }
            let ghost all = json::views(items@);
            let mut out: Vec<AtUser> = Vec::new();
            let mut i: usize = 0;
            proof {
                assert(all.take(0) =~= Seq::empty());
                assert(types::views(out@) =~= Seq::empty());
            }
            while i < items.len()
                invariant
                    i <= items@.len(),
                    all == json::views(items@),
                    record::slot(v@, key@, place as nat) == Some(JsonView::Array(all)),
                    at_user_list(all.take(i as int)) == Some(types::views(out@)),
                decreases items@.len() - i,
            {
                match read_at_user(&items[i]) {
                    Some(u) => {
                        let ghost before = out@;
                        out.push(u);
                        proof {
                            assert(all.take(i + 1).drop_last() =~= all.take(i as int));
                            assert(all.take(i + 1).last() == all[i as int]);
                            assert(types::views(out@) =~= types::views(before).push(u@));
                        }
                    },
                    None => {
                        proof {
                            lemma_at_user_list_none(all, i as int);
                        }
                        return None;
                    },
                }
                i += 1;
            }
            assert(all.take(i as int) =~= all);
            Some(out)
        },
        Some(_) => None,
    }
}

fn read_inner_text(v: &Json, key: &str, place: usize) -> (r: Option<String>)
    ensures
        match r {
            Some(s) => inner_text_slot(v@, key@, place as nat) == Some(s@),
            None => inner_text_slot(v@, key@, place as nat) is None,
        },
{
    match slot_of(v, key, place) {
        None => Some(String::new()),
        Some(t) => {
            if is_record(t, 1) {
                read_text(t, "content", 0)
            } else {
                None
            }
        },
    }
}

/// The payload in a document.
pub fn read_callback(v: &Json) -> (r: Option<BotCallbackData>)
    ensures
        match r {
            Some(d) => callback(v@) == Some(d@),
            None => callback(v@) is None,
        },
{
    if !is_record(v, 17) {
        return None;
    }
    let content = match slot_of(v, "content", 16) {
        Some(c) => c.clone(),
        None => Json::Null,
    };
    let d = BotCallbackData {
        conversation_id: match read_text(v, "conversationId", 0) {
            Some(x) => x,
            None => return None,
        },
        at_users: match read_at_users(v, "atUsers", 1) {
            Some(x) => x,
            None => return None,
        },
        msg_id: match read_text(v, "msgId", 2) {
            Some(x) => x,
            None => return None,
        },
        sender_nick: match read_text(v, "senderNick", 3) {
            Some(x) => x,
            None => return None,
        },
        is_admin: match read_bool(v, "isAdmin", 4) {
            Some(x) => x,
            None => return None,
        },
        sender_staff_id: match read_text(v, "senderStaffId", 5) {
            Some(x) => x,
            None => return None,
        },
        session_webhook_expired_time: match read_integer(v, "sessionWebhookExpiredTime", 6) {
            Some(x) => x,
            None => return None,
        },
        create_at: match read_integer(v, "createAt", 7) {
            Some(x) => x,
            None => return None,
        },
        sender_corp_id: match read_text(v, "senderCorpId", 8) {
            Some(x) => x,
            None => return None,
        },
        conversation_type: match read_text(v, "conversationType", 9) {
            Some(x) => x,
            None => return None,
        },
        sender_id: match read_text(v, "senderId", 10) {
            Some(x) => x,
            None => return None,
        },
        conversation_title: match read_text(v, "conversationTitle", 11) {
            Some(x) => x,
            None => return None,
        },
        is_in_at_list: match read_bool(v, "isInAtList", 12) {
            Some(x) => x,
            None => return None,
        },
        session_webhook: match read_text(v, "sessionWebhook", 13) {
            Some(x) => x,
            None => return None,
        },
        text: match read_inner_text(v, "text", 14) {
            Some(x) => x,
            None => return None,
        },
        msg_type: match read_text(v, "msgtype", 15) {
            Some(x) => x,
            None => return None,
        },
        content,
    };
    Some(d)
}

// ── content by message type ──

/// What the content of a message holds.
pub struct ContentView {
    pub text: Seq<char>,
    pub resources: Seq<ResourceView>,
    pub mentions: Seq<MentionView>,
}

/// What the content of a message holds.
#[derive(Debug)]
pub struct Content {
    pub text: String,
    pub resources: Vec<Resource>,
    pub mentions: Vec<Mention>,
}

impl View for Content {
    type V = ContentView;

    open spec fn view(&self) -> ContentView {
        ContentView {
            text: self.text@,
            resources: types::views(self.resources@),
            mentions: types::views(self.mentions@),
        }
    }
}

/// Content that is nothing but a text.
pub open spec fn words(text: Seq<char>) -> ContentView {
    ContentView { text, resources: Seq::empty(), mentions: Seq::empty() }
}

fn only_text(text: String) -> (r: Content)
    ensures
        r@ == words(text@),
{
    let r = Content { text, resources: Vec::new(), mentions: Vec::new() };
    proof {
        assert(types::views(r.resources@) =~= Seq::empty());
        assert(types::views(r.mentions@) =~= Seq::empty());
    }
    r
}

/// A trimmed copy of a text.
pub fn trimmed_text(s: &str, k: CharClass) -> (r: String)
    ensures
        r@ == text::trim(s@, k),
{
    let v = text::chars_of(s);
    text::string_of(&text::trimmed(&v, k))
}

// rich text

/// The kind of a segment; what is no object has none.
pub open spec fn segment_kind(v: JsonView) -> Seq<char> {
    v.text_at("type"@)
}

/// The texts of the segments, one behind the other.
pub open spec fn rich_words(items: Seq<JsonView>) -> Seq<char>
    decreases items.len(),
{
    if items.len() == 0 {
        Seq::empty()
    } else if segment_kind(items.last()) == "text"@ {
        rich_words(items.drop_last()) + items.last().text_at("text"@)
    } else {
        rich_words(items.drop_last())
    }
}

/// An identifier as it is written in the payload, without its quotes.
pub open spec fn bare(v: JsonView) -> Seq<char> {
    text::trim(json::json_text(v), CharClass::Quote)
}

/// A mention of a user by an identifier.
pub open spec fn mention_of(v: JsonView, named: bool) -> MentionView {
    MentionView {
        key: Seq::empty(),
        user_id: bare(v),
        name: if named {
            bare(v)
        } else {
            Seq::empty()
        },
        is_bot: false,
        is_all: false,
    }
}

/// The mentions of users by their identifiers.
pub open spec fn mentions_of(ids: Seq<JsonView>, named: bool) -> Seq<MentionView> {
    Seq::new(ids.len(), |i: int| mention_of(ids[i], named))
}

/// The mentions of one segment: its users, then its mobile numbers.
pub open spec fn segment_mentions(v: JsonView) -> Seq<MentionView> {
    if segment_kind(v) == "at"@ {
        mentions_of(v.items_at("atUserIds"@), false) + mentions_of(v.items_at("atMobiles"@), true)
    } else {
        Seq::empty()
    }
}

/// The mentions of all segments in their order.
pub open spec fn rich_mentions(items: Seq<JsonView>) -> Seq<MentionView>
    decreases items.len(),
{
    if items.len() == 0 {
        Seq::empty()
    } else {
        rich_mentions(items.drop_last()) + segment_mentions(items.last())
    }
}

/// A resource of some kind.
pub open spec fn resource(
    kind: Seq<char>,
    code: Seq<char>,
    file_name: Seq<char>,
    recognition: Seq<char>,
) -> ResourceView {
    ResourceView { kind, download_code: code, file_name, recognition }
}

/// The resource of one segment: a picture or a file that has a download code.
pub open spec fn segment_resource(v: JsonView) -> Option<ResourceView> {
    if segment_kind(v) == "picture"@ && v.text_at("picture"@).len() > 0 {
        Some(resource("image"@, v.text_at("picture"@), Seq::empty(), Seq::empty()))
    } else if segment_kind(v) == "file"@ && v.text_at("downloadCode"@).len() > 0 {
        Some(
            resource("file"@, v.text_at("downloadCode"@), v.text_at("fileName"@), Seq::empty()),
        )
    } else {
        None
    }
}

/// Whether one of the resources has a download code.
pub open spec fn has_code(rs: Seq<ResourceView>, code: Seq<char>) -> bool {
    exists|i: int| 0 <= i < rs.len() && (#[trigger] rs[i]).download_code == code
}

/// The resources of all segments in their order, each download code once.
pub open spec fn rich_resources(items: Seq<JsonView>) -> Seq<ResourceView>
    decreases items.len(),
{
    if items.len() == 0 {
        Seq::empty()
    } else {
        let before = rich_resources(items.drop_last());
        match segment_resource(items.last()) {
            Some(r) => if has_code(before, r.download_code) {
                before
            } else {
                before.push(r)
            },
            None => before,
        }
    }
}

pub open spec fn rich_text_content(m: JsonView) -> ContentView {
    let items = m.items_at("richText"@);
    ContentView {
        text: rich_words(items),
        resources: rich_resources(items),
        mentions: rich_mentions(items),
    }
}

/// No download code stands twice among the resources of a rich text, and none
/// of them is empty.
pub proof fn rich_resources_are_distinct(items: Seq<JsonView>)
    ensures
        forall|i: int, j: int|
            0 <= i < j < rich_resources(items).len() ==> (#[trigger] rich_resources(
                items,
            )[i]).download_code != (#[trigger] rich_resources(items)[j]).download_code,
        forall|i: int|
            0 <= i < rich_resources(items).len() ==> (#[trigger] rich_resources(
                items,
            )[i]).download_code.len() > 0,
    decreases items.len(),
{
    if items.len() > 0 {
        rich_resources_are_distinct(items.drop_last());
        let before = rich_resources(items.drop_last());
        let after = rich_resources(items);
        assert forall|i: int, j: int| 0 <= i < j < after.len() implies (
        #[trigger] after[i]).download_code != (#[trigger] after[j]).download_code by {
            assert(after[i] == before[i]);
            if j < before.len() {
                assert(after[j] == before[j]);
            }
        }
        assert forall|i: int| 0 <= i < after.len() implies (
        #[trigger] after[i]).download_code.len() > 0 by {
            if i < before.len() {
                assert(after[i] == before[i]);
            }
        }
    }
}

/// A text without quotes comes out from between two of them as it was.
pub proof fn unquoting_keeps_plain_text(id: Seq<char>)
    requires
        json::plain(id),
    ensures
        text::trim(seq!['"'] + id + seq!['"'], CharClass::Quote) == id,
{
    let k = CharClass::Quote;
    let s = seq!['"'] + id + seq!['"'];
    let t = s.skip(1);
    assert(t =~= id + seq!['"']);
    text::lemma_leading(s, k);
    text::lemma_leading(t, k);
    assert(text::leading(s, k) == 1 + text::leading(t, k)) by {
        assert(s.first() == '"');
        assert(s.drop_first() =~= t);
    }
    if id.len() == 0 {
        assert(t =~= seq!['"']);
        assert(text::leading(t, k) == 1) by {
            assert(t.drop_first() =~= Seq::<char>::empty());
            assert(text::leading(t.drop_first(), k) == 0);
        }
        assert(text::trim_start(s, k) =~= Seq::<char>::empty());
        assert(text::trim(s, k) =~= Seq::<char>::empty());
    } else {
        assert(t[0] == id[0]);
        assert(text::leading(t, k) == 0);
        assert(text::trim_start(s, k) =~= t);
        text::lemma_trailing(t, k);
        assert(t.last() == '"');
        assert(t.drop_last() =~= id);
        text::lemma_trailing(id, k);
        assert(id.last() == id[id.len() - 1]);
        assert(text::trailing(id, k) == 0);
        assert(text::trailing(t, k) == 1);
        assert(text::trim(s, k) =~= id);
    }
}

/// An identifier as it is written in the payload, without its quotes. An
/// identifier that is a text without quotes, backslashes and control characters
/// is that text; an integer is its digits.
fn bare_of(v: &Json) -> (r: String)
    ensures
        r@ == bare(v@),
        v@ matches JsonView::Text(s) ==> json::plain(s) ==> r@ == s,
{
    let t = json::to_text(v);
    proof {
        if let JsonView::Text(s) = v@ {
            if json::plain(s) {
                unquoting_keeps_plain_text(s);
            }
        }
    }
    trimmed_text(t.as_str(), CharClass::Quote)
}

/// Adds the mentions of users by their identifiers.
fn add_mentions(out: &mut Vec<Mention>, ids: &Vec<Json>, named: bool)
    ensures
        types::views(final(out)@) == types::views(old(out)@) + mentions_of(
            json::views(ids@),
            named,
        ),
{
    let ghost before = types::views(out@);
    let ghost all = mentions_of(json::views(ids@), named);
    let mut i: usize = 0;
    assert(types::views(out@) =~= before + all.take(0));
    while i < ids.len()
        invariant
            i <= ids@.len(),
            all == mentions_of(json::views(ids@), named),
            types::views(out@) == before + all.take(i as int),
        decreases ids@.len() - i,
    {
        let id = bare_of(&ids[i]);
        let name = if named {
            id.clone()
        } else {
            String::new()
        };
        let m = Mention { key: String::new(), user_id: id, name, is_bot: false, is_all: false };
        let ghost so_far = out@;
        out.push(m);
        proof {
            assert(m@ == mention_of(ids@[i as int]@, named)) by {
                assert(json::views(ids@)[i as int] == ids@[i as int]@);
            }
            assert(types::views(out@) =~= types::views(so_far).push(m@));
            assert(all.take(i + 1) =~= all.take(i as int).push(all[i as int]));
            assert((before + all.take(i as int)).push(m@) =~= before + all.take(i + 1));
        }
        i += 1;
    }
    assert(all.take(i as int) =~= all);
}

/// Adds the resource of a segment, unless its download code is there already.
pub fn add_resource(out: &mut Vec<Resource>, r: Resource)
    ensures
        types::views(final(out)@) == (if has_code(types::views(old(out)@), r@.download_code) {
            types::views(old(out)@)
        } else {
            types::views(old(out)@).push(r@)
        }),
{
    let mut i: usize = 0;
    while i < out.len()
        invariant
            i <= out@.len(),
            out@ == old(out)@,
            forall|k: int|
                0 <= k < i ==> (#[trigger] types::views(out@)[k]).download_code
                    != r@.download_code,
        decreases out@.len() - i,
    {
        if text::same(out[i].download_code.as_str(), r.download_code.as_str()) {
            assert(types::views(out@)[i as int].download_code == r@.download_code);
            return;
        }
        i += 1;
    }
    let ghost before = out@;
    out.push(r);
    assert(types::views(out@) =~= types::views(before).push(r@));
}

/// The resource of one segment.
fn read_segment_resource(v: &Json) -> (r: Option<Resource>)
    ensures
        match r {
            Some(x) => segment_resource(v@) == Some(x@),
            None => segment_resource(v@) is None,
        },
{
    let kind = v.text_at("type");
    if text::same(kind, "picture") {
        let code = v.text_at("picture");
        proof {
            reveal_strlit("picture");
            reveal_strlit("file");
            assert("picture"@.len() != "file"@.len());
        }
        if code.is_empty() {
            return None;
        }
        return Some(
            Resource {
                kind: text::owned("image"),
                download_code: text::owned(code),
                file_name: String::new(),
                recognition: String::new(),
            },
        );
    }
    if text::same(kind, "file") {
        let code = v.text_at("downloadCode");
        if code.is_empty() {
            return None;
        }
        return Some(
            Resource {
                kind: text::owned("file"),
                download_code: text::owned(code),
                file_name: text::owned(v.text_at("fileName")),
                recognition: String::new(),
            },
        );
    }
    None
}

fn convert_rich_text(m: &Json) -> (r: Content)
    ensures
        r@ == rich_text_content(m@),
{
    let mut words = String::new();
    let mut resources: Vec<Resource> = Vec::new();
    let mut mentions: Vec<Mention> = Vec::new();
    proof {
        assert(types::views(resources@) =~= Seq::empty());
        assert(types::views(mentions@) =~= Seq::empty());
    }
    if let Some(items) = m.items_at("richText") {
        let ghost all = json::views(items@);
        let mut i: usize = 0;
        assert(all.take(0) =~= Seq::empty());
        while i < items.len()
            invariant
                i <= items@.len(),
                all == json::views(items@),
                words@ == rich_words(all.take(i as int)),
                types::views(resources@) == rich_resources(all.take(i as int)),
                types::views(mentions@) == rich_mentions(all.take(i as int)),
            decreases items@.len() - i,
        {
            let item = &items[i];
            let kind = item.text_at("type");
            proof {
                assert(all.take(i + 1).drop_last() =~= all.take(i as int));
                assert(all.take(i + 1).last() == item@);
                reveal_strlit("at");
                reveal_strlit("text");
            }
            if text::same(kind, "text") {
                words.append(item.text_at("text"));
            }
            let ghost before = types::views(mentions@);
            if text::same(kind, "at") {
                if let Some(ids) = item.items_at("atUserIds") {
                    add_mentions(&mut mentions, ids, false);
                } else {
                    assert(mentions_of(Seq::empty(), false) =~= Seq::empty());
                    assert(types::views(mentions@) =~= before + mentions_of(
                        item@.items_at("atUserIds"@),
                        false,
                    ));
                }
                let ghost mid = types::views(mentions@);
                if let Some(ids) = item.items_at("atMobiles") {
                    add_mentions(&mut mentions, ids, true);
                } else {
                    assert(mentions_of(Seq::empty(), true) =~= Seq::empty());
                    assert(types::views(mentions@) =~= mid + mentions_of(
                        item@.items_at("atMobiles"@),
                        true,
                    ));
                }
            }
            assert(types::views(mentions@) =~= before + segment_mentions(item@));
            if let Some(r) = read_segment_resource(item) {
                add_resource(&mut resources, r);
            }
            i += 1;
        }
        assert(all.take(i as int) =~= all);
    }
    Content { text: words, resources, mentions }
}

// media

/// One resource where it has a download code, else none.
pub open spec fn coded(r: ResourceView) -> Seq<ResourceView> {
    if r.download_code.len() > 0 {
        seq![r]
    } else {
        Seq::empty()
    }
}

pub open spec fn picture_content(m: JsonView) -> ContentView {
    ContentView {
        text: "[图片]"@,
        resources: coded(
            resource("image"@, m.text_at("downloadCode"@), Seq::empty(), Seq::empty()),
        ),
        mentions: Seq::empty(),
    }
}

/// A file is shown by its name, or by the word for a file where it has none.
pub open spec fn file_content(m: JsonView) -> ContentView {
    let name = m.text_at("fileName"@);
    ContentView {
        text: "[文件: "@ + (if name.len() > 0 {
            name
        } else {
            "文件"@
        }) + "]"@,
        resources: coded(resource("file"@, m.text_at("downloadCode"@), name, Seq::empty())),
        mentions: Seq::empty(),
    }
}

/// A sound is shown by what was said, where that is known.
pub open spec fn audio_content(m: JsonView) -> ContentView {
    let said = m.text_at("recognition"@);
    ContentView {
        text: if said.len() > 0 {
            said
        } else {
            "[语音消息]"@
        },
        resources: coded(
            resource("audio"@, m.text_at("downloadCode"@), m.text_at("fileName"@), said),
        ),
        mentions: Seq::empty(),
    }
}

pub open spec fn video_content(m: JsonView) -> ContentView {
    ContentView {
        text: "[视频]"@,
        resources: coded(
            resource(
                "video"@,
                m.text_at("downloadCode"@),
                m.text_at("fileName"@),
                Seq::empty(),
            ),
        ),
        mentions: Seq::empty(),
    }
}

fn with_resource(text: String, r: Resource) -> (c: Content)
    ensures
        c@ == (ContentView { text: text@, resources: coded(r@), mentions: Seq::empty() }),
{
    let mut resources: Vec<Resource> = Vec::new();
    let keep = !r.download_code.as_str().is_empty();
    let ghost rv = r@;
    if keep {
        resources.push(r);
    }
    let c = Content { text, resources, mentions: Vec::new() };
    proof {
        assert(types::views(c.resources@) =~= coded(rv));
        assert(types::views(c.mentions@) =~= Seq::empty());
    }
    c
}

fn convert_picture(m: &Json) -> (r: Content)
    ensures
        r@ == picture_content(m@),
{
    with_resource(
        text::owned("[图片]"),
        Resource {
            kind: text::owned("image"),
            download_code: text::owned(m.text_at("downloadCode")),
            file_name: String::new(),
            recognition: String::new(),
        },
    )
}

fn convert_file(m: &Json) -> (r: Content)
    ensures
        r@ == file_content(m@),
{
    let name = m.text_at("fileName");
    let mut shown = text::owned("[文件: ");
    if name.is_empty() {
        shown.append("文件");
    } else {
        shown.append(name);
    }
    shown.append("]");
    with_resource(
        shown,
        Resource {
            kind: text::owned("file"),
            download_code: text::owned(m.text_at("downloadCode")),
            file_name: text::owned(name),
            recognition: String::new(),
        },
    )
}

fn convert_audio(m: &Json) -> (r: Content)
    ensures
        r@ == audio_content(m@),
{
    let said = m.text_at("recognition");
    let shown = if said.is_empty() {
        text::owned("[语音消息]")
    } else {
        text::owned(said)
    };
    with_resource(
        shown,
        Resource {
            kind: text::owned("audio"),
            download_code: text::owned(m.text_at("downloadCode")),
            file_name: text::owned(m.text_at("fileName")),
            recognition: text::owned(said),
        },
    )
}

fn convert_video(m: &Json) -> (r: Content)
    ensures
        r@ == video_content(m@),
{
    with_resource(
        text::owned("[视频]"),
        Resource {
            kind: text::owned("video"),
            download_code: text::owned(m.text_at("downloadCode")),
            file_name: text::owned(m.text_at("fileName")),
            recognition: String::new(),
        },
    )
}

// cards

/// The links of a card that are not empty, in their order.
pub open spec fn action_links(items: Seq<JsonView>) -> Seq<Seq<char>>
    decreases items.len(),
{
    if items.len() == 0 {
        Seq::empty()
    } else {
        let before = action_links(items.drop_last());
        let link = items.last().text_at("actionUrl"@);
        if link.len() > 0 {
            before.push(link)
        } else {
            before
        }
    }
}

/// Those of the given texts that are not empty.
pub open spec fn nonempty(a: Seq<char>, b: Seq<char>) -> Seq<Seq<char>> {
    (if a.len() > 0 {
        seq![a]
    } else {
        Seq::empty()
    }) + (if b.len() > 0 {
        seq![b]
    } else {
        Seq::empty()
    })
}

/// The title, the body and the links of a card.
pub open spec fn action_card_text(m: JsonView) -> Seq<char> {
    let parts = nonempty(m.text_at("title"@), m.text_at("text"@));
    let links = action_links(m.items_at("actionUrlItemList"@));
    let head = text::join(parts, "\n\n"@);
    if links.len() == 1 {
        head + "\n\n操作链接："@ + links[0]
    } else if links.len() > 1 {
        head + "\n\n操作链接：\n- "@ + text::join(links, "\n- "@)
    } else if parts.len() > 0 {
        head
    } else {
        "[actionCard消息]"@
    }
}

pub open spec fn interactive_card_text(m: JsonView) -> Seq<char> {
    let url = m.text_at("biz_custom_action_url"@);
    if url.len() > 0 {
        "收到交互式卡片链接："@ + url
    } else {
        "[interactiveCard消息]"@
    }
}

fn read_links(m: &Json) -> (r: Vec<String>)
    ensures
        text::texts(r@) == action_links(m@.items_at("actionUrlItemList"@)),
{
    let mut links: Vec<String> = Vec::new();
    assert(text::texts(links@) =~= Seq::empty());
    if let Some(items) = m.items_at("actionUrlItemList") {
        let ghost all = json::views(items@);
        let mut i: usize = 0;
        assert(all.take(0) =~= Seq::empty());
        while i < items.len()
            invariant
                i <= items@.len(),
                all == json::views(items@),
                text::texts(links@) == action_links(all.take(i as int)),
            decreases items@.len() - i,
        {
            let link = items[i].text_at("actionUrl");
            proof {
                assert(all.take(i + 1).drop_last() =~= all.take(i as int));
                assert(all.take(i + 1).last() == items@[i as int]@);
            }
            if !link.is_empty() {
                let ghost before = links@;
                links.push(text::owned(link));
                assert(text::texts(links@) =~= text::texts(before).push(link@));
            }
            i += 1;
        }
        assert(all.take(i as int) =~= all);
    }
    links
}

fn convert_action_card(m: &Json) -> (r: String)
    ensures
        r@ == action_card_text(m@),
{
    let title = m.text_at("title");
    let body = m.text_at("text");
    let mut parts: Vec<String> = Vec::new();
    if !title.is_empty() {
        parts.push(text::owned(title));
    }
    if !body.is_empty() {
        parts.push(text::owned(body));
    }
    assert(text::texts(parts@) =~= nonempty(title@, body@));
    let links = read_links(m);
    let mut head = text::joined_texts(&parts, "\n\n");
    if links.len() == 1 {
        head.append("\n\n操作链接：");
        head.append(links[0].as_str());
        assert(text::texts(links@)[0] == links@[0]@);
        head
    } else if links.len() > 1 {
        head.append("\n\n操作链接：\n- ");
        let list = text::joined_texts(&links, "\n- ");
        head.append(list.as_str());
        head
    } else if parts.len() > 0 {
        head
    } else {
        text::owned("[actionCard消息]")
    }
}

fn convert_interactive_card(m: &Json) -> (r: String)
    ensures
        r@ == interactive_card_text(m@),
{
    let url = m.text_at("biz_custom_action_url");
    if url.is_empty() {
        text::owned("[interactiveCard消息]")
    } else {
        text::cat("收到交互式卡片链接：", url)
    }
}

// quotations

pub open spec fn quoted_default(kind: Seq<char>) -> Seq<char> {
    "[引用] "@ + kind + "消息"@
}

/// The words of a quoted message, where they are not an object: a text as it
/// is, anything else as JSON writes it, without quotes round it.
pub open spec fn quoted_raw(content: Option<JsonView>) -> Seq<char> {
    let raw = match content {
        Some(JsonView::Text(s)) => s,
        Some(JsonView::Null) => Seq::empty(),
        Some(JsonView::Object(_)) => Seq::empty(),
        Some(v) => json::json_text(v),
        None => Seq::empty(),
    };
    text::trim(raw, CharClass::Quote)
}

/// What is shown of a quoted message whose words were read as JSON with the
/// given outcome.
pub open spec fn quoted_words(
    kind: Seq<char>,
    raw: Seq<char>,
    read: Result<JsonView, Seq<char>>,
) -> Seq<char> {
    match read {
        Err(_) => "[引用] "@ + raw,
        Ok(v) => if kind == "text"@ {
            "[引用] "@ + v.text_at("text"@)
        } else if kind == "picture"@ {
            "[引用] [图片]"@
        } else if kind == "file"@ {
            "[引用] [文件: "@ + v.text_at("fileName"@) + "]"@
        } else {
            quoted_default(kind)
        },
    }
}

/// What is shown of a quoted message.
pub open spec fn quoted(m: JsonView) -> Seq<char> {
    let kind = m.text_at("msgType"@);
    let raw = quoted_raw(m.get("content"@));
    if raw.len() == 0 {
        match m.get("content"@) {
            Some(JsonView::Object(s)) => if kind == "text"@ && JsonView::Object(s).text_at(
                "text"@,
            ).len() > 0 {
                "[引用] "@ + JsonView::Object(s).text_at("text"@)
            } else {
                quoted_default(kind)
            },
            _ => quoted_default(kind),
        }
    } else {
        quoted_words(kind, raw, json::parsed_json(vstd::utf8::encode_utf8(raw)))
    }
}

/// A reply: its own words, then the quoted message on a line of its own.
pub open spec fn reply_text(m: JsonView) -> Seq<char> {
    let own = m.text_at("text"@);
    match m.get("repliedMsg"@) {
        Some(JsonView::Object(s)) => {
            let q = quoted(JsonView::Object(s));
            if q.len() == 0 {
                own
            } else if own.len() == 0 {
                q
            } else {
                own.push('\n') + q
            }
        },
        _ => own,
    }
}

fn quoted_default_text(kind: &str) -> (r: String)
    ensures
        r@ == quoted_default(kind@),
{
    let mut s = text::owned("[引用] ");
    s.append(kind);
    s.append("消息");
    s
}

/// What is shown of a quoted message whose words were read as JSON with the
/// given outcome.
pub fn quoted_summary(kind: &str, raw: &str, read: &Result<Json, String>) -> (r: String)
    ensures
        r@ == quoted_words(kind@, raw@, json::outcome(*read)),
{
    match read {
        Err(_) => text::cat("[引用] ", raw),
        Ok(v) => {
            if text::same(kind, "text") {
                text::cat("[引用] ", v.text_at("text"))
            } else if text::same(kind, "picture") {
                text::owned("[引用] [图片]")
            } else if text::same(kind, "file") {
                let mut s = text::owned("[引用] [文件: ");
                s.append(v.text_at("fileName"));
                s.append("]");
                s
            } else {
                quoted_default_text(kind)
            }
        },
    }
}

fn quoted_raw_text(content: Option<&Json>) -> (r: String)
    ensures
        r@ == quoted_raw(
            match content {
                Some(v) => Some(v@),
                None => None,
            },
        ),
{
    let raw = match content {
        Some(Json::Text(s)) => s.clone(),
        Some(Json::Null) => String::new(),
        Some(Json::Object(_)) => String::new(),
        Some(v) => json::to_text(v),
        None => String::new(),
    };
    trimmed_text(raw.as_str(), CharClass::Quote)
}

/// What is shown of a quoted message.
fn extract_quoted_text(m: &Json) -> (r: String)
    ensures
        r@ == quoted(m@),
{
    let kind = m.text_at("msgType");
    let content = m.get("content");
    let raw = quoted_raw_text(content);
    if raw.as_str().is_empty() {
        if let Some(c) = content {
            if c.is_object() && text::same(kind, "text") {
                let t = c.text_at("text");
                if !t.is_empty() {
                    return text::cat("[引用] ", t);
                }
            }
        }
        quoted_default_text(kind)
    } else {
        let read = json::parse(raw.as_str().as_bytes());
        quoted_summary(kind, raw.as_str(), &read)
    }
}

fn convert_reply(m: &Json) -> (r: String)
    ensures
        r@ == reply_text(m@),
{
    let mut own = text::owned(m.text_at("text"));
    if let Some(q) = m.get("repliedMsg") {
        if q.is_object() {
            let shown = extract_quoted_text(q);
            if !shown.as_str().is_empty() {
                if !own.as_str().is_empty() {
                    own.push('\n');
                } else {
                    assert(own@ + shown@ =~= shown@);
                }
                own.append(shown.as_str());
            }
        }
    }
    own
}

/// What the content of a message of some type holds. Content that is no object
/// holds nothing; of a type that is not known the text is taken.
pub open spec fn content_of(msg_type: Seq<char>, m: JsonView) -> ContentView {
    if !(m is Object) {
        words(Seq::empty())
    } else if msg_type == "text"@ {
        words(text::trim(m.text_at("content"@), CharClass::Whitespace))
    } else if msg_type == "richText"@ {
        rich_text_content(m)
    } else if msg_type == "picture"@ {
        picture_content(m)
    } else if msg_type == "file"@ {
        file_content(m)
    } else if msg_type == "audio"@ {
        audio_content(m)
    } else if msg_type == "video"@ {
        video_content(m)
    } else if msg_type == "markdown"@ {
        words(m.text_at("text"@))
    } else if msg_type == "actionCard"@ {
        words(action_card_text(m))
    } else if msg_type == "interactiveCard"@ {
        words(interactive_card_text(m))
    } else if msg_type == "reply"@ {
        words(reply_text(m))
    } else {
        words(m.text_at("content"@))
    }
}

/// What the content of a message of some type holds.
pub fn parse_content(msg_type: &str, m: &Json) -> (r: Content)
    ensures
        r@ == content_of(msg_type@, m@),
{
    if !m.is_object() {
        only_text(String::new())
    } else if text::same(msg_type, "text") {
        only_text(trimmed_text(m.text_at("content"), CharClass::Whitespace))
    } else if text::same(msg_type, "richText") {
        convert_rich_text(m)
    } else if text::same(msg_type, "picture") {
        convert_picture(m)
    } else if text::same(msg_type, "file") {
        convert_file(m)
    } else if text::same(msg_type, "audio") {
        convert_audio(m)
    } else if text::same(msg_type, "video") {
        convert_video(m)
    } else if text::same(msg_type, "markdown") {
        only_text(text::owned(m.text_at("text")))
    } else if text::same(msg_type, "actionCard") {
        only_text(convert_action_card(m))
    } else if text::same(msg_type, "interactiveCard") {
        only_text(convert_interactive_card(m))
    } else if text::same(msg_type, "reply") {
        only_text(convert_reply(m))
    } else {
        only_text(text::owned(m.text_at("content")))
    }
}

// ── the normal form ──

/// The type of a conversation: "1" is one between two, all else a group.
pub open spec fn conversation_type(t: Seq<char>) -> Seq<char> {
    if t == "1"@ {
        CONVERSATION_TYPE_DM@
    } else {
        CONVERSATION_TYPE_GROUP@
    }
}

fn normalize_conversation_type(t: &str) -> (r: &'static str)
    ensures
        r@ == conversation_type(t@),
{
    if text::same(t, "1") {
        CONVERSATION_TYPE_DM
    } else {
        CONVERSATION_TYPE_GROUP
    }
}

/// A text without the mention at its front: what follows the first space,
/// trimmed. A text that is nothing but a mention stays as it is.
pub open spec fn without_mention(s: Seq<char>) -> Seq<char> {
    let i = text::index_of(s, ' ');
    if s.len() > 0 && s[0] == '@' && i < s.len() {
        text::trim(s.skip(i as int + 1), CharClass::Whitespace)
    } else {
        s
    }
}

fn strip_mention(s: &str) -> (r: String)
    ensures
        r@ == without_mention(s@),
{
    let v = text::chars_of(s);
    let i = text::index_of_char(&v, ' ');
    if v.len() > 0 && v[0] == '@' && i < v.len() {
        let rest = text::slice_of(&v, i + 1, v.len());
        assert(rest@ =~= v@.skip(i as int + 1));
        text::string_of(&text::trimmed(&rest, CharClass::Whitespace))
    } else {
        text::owned(s)
    }
}

/// A text message has its text in a field of its own, any other in its content.
pub open spec fn parsed_text(d: CallbackView) -> Seq<char> {
    if d.msg_type.len() == 0 || d.msg_type == "text"@ {
        text::trim(d.text, CharClass::Whitespace)
    } else {
        content_of(d.msg_type, d.content).text
    }
}

/// The text of a message: in a group without the mention at its front.
pub open spec fn message_text(d: CallbackView) -> Seq<char> {
    if conversation_type(d.conversation_type) == CONVERSATION_TYPE_GROUP@ {
        without_mention(parsed_text(d))
    } else {
        parsed_text(d)
    }
}

/// The mention of a user of the payload.
pub open spec fn user_mention(u: AtUserView) -> MentionView {
    MentionView {
        key: Seq::empty(),
        user_id: u.staff_id,
        name: u.staff_id,
        is_bot: false,
        is_all: false,
    }
}

pub open spec fn user_mentions(us: Seq<AtUserView>) -> Seq<MentionView> {
    Seq::new(us.len(), |i: int| user_mention(us[i]))
}

/// Whether the user stands for everybody.
pub open spec fn is_everybody(u: AtUserView) -> bool {
    u.staff_id == "all"@ || u.dingtalk_id == "all"@
}

pub open spec fn everybody(us: Seq<AtUserView>) -> bool {
    exists|i: int| 0 <= i < us.len() && #[trigger] is_everybody(us[i])
}

/// The normal form of a payload.
pub open spec fn message_of(d: CallbackView, raw: JsonView) -> MessageView {
    MessageView {
        conversation_id: d.conversation_id,
        conversation_type: conversation_type(d.conversation_type),
        conversation_title: d.conversation_title,
        sender_id: d.sender_id,
        sender_staff_id: d.sender_staff_id,
        sender_nick: d.sender_nick,
        sender_corp_id: d.sender_corp_id,
        text: message_text(d),
        msg_type: d.msg_type,
        content: d.content,
        resources: content_of(d.msg_type, d.content).resources,
        mentions: content_of(d.msg_type, d.content).mentions + user_mentions(d.at_users),
        mention_all: everybody(d.at_users),
        at_users: d.at_users,
        session_webhook: d.session_webhook,
        webhook_expired_at: d.session_webhook_expired_time,
        msg_id: d.msg_id,
        create_at: d.create_at,
        is_admin: d.is_admin,
        is_in_at_list: d.is_in_at_list,
        batched_sources: Seq::empty(),
        raw,
    }
}

/// Adds the mentions of the users of a payload.
fn add_user_mentions(out: &mut Vec<Mention>, us: &Vec<AtUser>) -> (all: bool)
    ensures
        types::views(final(out)@) == types::views(old(out)@) + user_mentions(
            types::views(us@),
        ),
        all == everybody(types::views(us@)),
{
    let ghost before = types::views(out@);
    let ghost users = types::views(us@);
    let ghost added = user_mentions(users);
    let mut all = false;
    let mut i: usize = 0;
    assert(types::views(out@) =~= before + added.take(0));
    while i < us.len()
        invariant
            i <= us@.len(),
            users == types::views(us@),
            added == user_mentions(users),
            types::views(out@) == before + added.take(i as int),
            all == (exists|k: int| 0 <= k < i && #[trigger] is_everybody(users[k])),
        decreases us@.len() - i,
    {
        let u = &us[i];
        if text::same(u.staff_id.as_str(), "all") || text::same(u.dingtalk_id.as_str(), "all") {
            all = true;
            assert(is_everybody(users[i as int]));
        } else {
            assert(!is_everybody(users[i as int]));
        }
        let m = Mention {
            key: String::new(),
            user_id: u.staff_id.clone(),
            name: u.staff_id.clone(),
            is_bot: false,
            is_all: false,
        };
        let ghost so_far = out@;
        out.push(m);
        proof {
            assert(m@ == user_mention(users[i as int]));
            assert(types::views(out@) =~= types::views(so_far).push(m@));
            assert(added.take(i + 1) =~= added.take(i as int).push(added[i as int]));
            assert((before + added.take(i as int)).push(m@) =~= before + added.take(i + 1));
        }
        i += 1;
    }
    assert(added.take(i as int) =~= added);
    all
}

/// The normal form of a payload that was read from `raw`.
pub fn normalize_callback(d: BotCallbackData, raw: Json) -> (r: IncomingMessage)
    ensures
        r@ == message_of(d@, raw@),
{
    let ctype = normalize_conversation_type(d.conversation_type.as_str());
    let content = parse_content(d.msg_type.as_str(), &d.content);
    let Content { text: content_text, resources, mentions } = content;
    let mut mentions = mentions;
    let parsed = if d.msg_type.as_str().is_empty() || text::same(d.msg_type.as_str(), "text") {
        trimmed_text(d.text.as_str(), CharClass::Whitespace)
    } else {
        content_text
    };
    let text = if text::same(ctype, CONVERSATION_TYPE_GROUP) {
        strip_mention(parsed.as_str())
    } else {
        parsed
    };
    let mention_all = add_user_mentions(&mut mentions, &d.at_users);
    IncomingMessage {
        conversation_id: d.conversation_id,
        conversation_type: text::owned(ctype),
        conversation_title: d.conversation_title,
        sender_id: d.sender_id,
        sender_staff_id: d.sender_staff_id,
        sender_nick: d.sender_nick,
        sender_corp_id: d.sender_corp_id,
        text,
        msg_type: d.msg_type,
        content: d.content,
        resources,
        mentions,
        mention_all,
        at_users: d.at_users,
        session_webhook: d.session_webhook,
        webhook_expired_at: d.session_webhook_expired_time,
        msg_id: d.msg_id,
        create_at: d.create_at,
        is_admin: d.is_admin,
        is_in_at_list: d.is_in_at_list,
        batched_sources: Vec::new(),
        raw,
    }
}

/// What comes of a payload that was read as JSON with the given outcome.
pub open spec fn incoming(read: Result<JsonView, Seq<char>>) -> Result<MessageView, ErrorView> {
    match read {
        Err(e) => Err(ErrorView::Json(e)),
        Ok(v) => match callback(v) {
            Some(d) => Ok(message_of(d, v)),
            None => Err(ErrorView::Json("payload field of an unexpected type"@)),
        },
    }
}

/// What a result holds.
pub open spec fn result_view(r: Result<IncomingMessage, Error>) -> Result<MessageView, ErrorView> {
    match r {
        Ok(m) => Ok(m@),
        Err(e) => Err(e@),
    }
}

/// The normal form of a payload that was read as JSON with the given outcome.
pub fn normalize_read(read: Result<Json, String>) -> (r: Result<IncomingMessage, Error>)
    ensures
        result_view(r) == incoming(json::outcome(read)),
{
    match read {
        Err(e) => Err(Error::Json(e)),
        Ok(v) => match read_callback(&v) {
            Some(d) => Ok(normalize_callback(d, v)),
            None => Err(Error::Json(text::owned("payload field of an unexpected type"))),
        },
    }
}

/// The normal form of a payload. It is refused where it is no JSON, and where a
/// field is not of its type.
pub fn normalize_incoming(raw: &[u8]) -> (r: Result<IncomingMessage, Error>)
    ensures
        result_view(r) == incoming(json::parsed_json(raw@)),
{
    normalize_read(json::parse(raw))
}

/// A message in its normal form is one between two or one in a group.
pub proof fn conversation_type_is_known(d: CallbackView, raw: JsonView)
    ensures
        message_of(d, raw).conversation_type == CONVERSATION_TYPE_DM@ || message_of(
            d,
            raw,
        ).conversation_type == CONVERSATION_TYPE_GROUP@,
{
}

/// Every user of the payload is among the mentions, in order and behind those
/// of the content.
pub proof fn users_are_mentioned(d: CallbackView, raw: JsonView, i: int)
    requires
        0 <= i < d.at_users.len(),
    ensures
        message_of(d, raw).mentions.len() == content_of(d.msg_type, d.content).mentions.len()
            + d.at_users.len(),
        message_of(d, raw).mentions[content_of(d.msg_type, d.content).mentions.len() + i].user_id
            == d.at_users[i].staff_id,
{
}

/// In a group the mention of the robot at the front of a text is cut, and what
/// is said behind it is kept.
pub proof fn front_mention_is_cut(name: Seq<char>, said: Seq<char>)
    requires
        !name.contains(' '),
    ensures
        without_mention(seq!['@'] + name + seq![' '] + said) == text::trim(
            said,
            CharClass::Whitespace,
        ),
{
    let s = seq!['@'] + name + seq![' '] + said;
    let n = name.len() + 1;
    assert forall|i: int| 0 <= i < n implies s[i] != ' ' by {
        if i > 0 {
            assert(s[i] == name[i - 1]);
            assert(name.contains(name[i - 1]));
        }
    }
    text::lemma_index_of_is(s, ' ', n as int);
    assert(s.skip(n as int + 1) =~= said);
}

/// Between two, nothing is cut from a text; nor is it in a group, where it does
/// not begin with a mention.
pub proof fn other_texts_are_kept(d: CallbackView)
    requires
        d.conversation_type == "1"@ || parsed_text(d).len() == 0 || parsed_text(d)[0] != '@',
    ensures
        message_text(d) == parsed_text(d),
{
    reveal_strlit("dm");
    reveal_strlit("group");
    assert(CONVERSATION_TYPE_DM@.len() != CONVERSATION_TYPE_GROUP@.len());
}

/// The types of messages are different words.
proof fn lemma_types_differ()
    ensures
        "text"@ != "richText"@,
        "text"@ != "picture"@,
        "text"@ != "file"@,
        "text"@ != "audio"@,
        "text"@ != "video"@,
        "text"@ != "markdown"@,
        "text"@ != "actionCard"@,
        "text"@ != "interactiveCard"@,
        "text"@ != "reply"@,
        "richText"@ != "picture"@,
        "richText"@ != "file"@,
        "richText"@ != "audio"@,
        "richText"@ != "video"@,
        "richText"@ != "markdown"@,
        "richText"@ != "actionCard"@,
        "richText"@ != "interactiveCard"@,
        "richText"@ != "reply"@,
        "picture"@ != "file"@,
        "picture"@ != "audio"@,
        "picture"@ != "video"@,
        "picture"@ != "markdown"@,
        "picture"@ != "actionCard"@,
        "picture"@ != "interactiveCard"@,
        "picture"@ != "reply"@,
        "file"@ != "audio"@,
        "file"@ != "video"@,
        "file"@ != "markdown"@,
        "file"@ != "actionCard"@,
        "file"@ != "interactiveCard"@,
        "file"@ != "reply"@,
        "audio"@ != "video"@,
        "audio"@ != "markdown"@,
        "audio"@ != "actionCard"@,
        "audio"@ != "interactiveCard"@,
        "audio"@ != "reply"@,
        "video"@ != "markdown"@,
        "video"@ != "actionCard"@,
        "video"@ != "interactiveCard"@,
        "video"@ != "reply"@,
        "markdown"@ != "actionCard"@,
        "markdown"@ != "interactiveCard"@,
        "markdown"@ != "reply"@,
        "actionCard"@ != "interactiveCard"@,
        "actionCard"@ != "reply"@,
        "interactiveCard"@ != "reply"@,
{
    reveal_strlit("text");
    reveal_strlit("richText");
    reveal_strlit("picture");
    reveal_strlit("file");
    reveal_strlit("audio");
    reveal_strlit("video");
    reveal_strlit("markdown");
    reveal_strlit("actionCard");
    reveal_strlit("interactiveCard");
    reveal_strlit("reply");
    assert("text"@.len() != "richText"@.len());
    assert("text"@.len() != "picture"@.len());
    assert("text"@[0] != "file"@[0]);
    assert("text"@.len() != "audio"@.len());
    assert("text"@.len() != "video"@.len());
    assert("text"@.len() != "markdown"@.len());
    assert("text"@.len() != "actionCard"@.len());
    assert("text"@.len() != "interactiveCard"@.len());
    assert("text"@.len() != "reply"@.len());
    assert("richText"@.len() != "picture"@.len());
    assert("richText"@.len() != "file"@.len());
    assert("richText"@.len() != "audio"@.len());
    assert("richText"@.len() != "video"@.len());
    assert("richText"@[0] != "markdown"@[0]);
    assert("richText"@.len() != "actionCard"@.len());
    assert("richText"@.len() != "interactiveCard"@.len());
    assert("richText"@.len() != "reply"@.len());
    assert("picture"@.len() != "file"@.len());
    assert("picture"@.len() != "audio"@.len());
    assert("picture"@.len() != "video"@.len());
    assert("picture"@.len() != "markdown"@.len());
    assert("picture"@.len() != "actionCard"@.len());
    assert("picture"@.len() != "interactiveCard"@.len());
    assert("picture"@.len() != "reply"@.len());
    assert("file"@.len() != "audio"@.len());
    assert("file"@.len() != "video"@.len());
    assert("file"@.len() != "markdown"@.len());
    assert("file"@.len() != "actionCard"@.len());
    assert("file"@.len() != "interactiveCard"@.len());
    assert("file"@.len() != "reply"@.len());
    assert("audio"@[0] != "video"@[0]);
    assert("audio"@.len() != "markdown"@.len());
    assert("audio"@.len() != "actionCard"@.len());
    assert("audio"@.len() != "interactiveCard"@.len());
    assert("audio"@[0] != "reply"@[0]);
    assert("video"@.len() != "markdown"@.len());
    assert("video"@.len() != "actionCard"@.len());
    assert("video"@.len() != "interactiveCard"@.len());
    assert("video"@[0] != "reply"@[0]);
    assert("markdown"@.len() != "actionCard"@.len());
    assert("markdown"@.len() != "interactiveCard"@.len());
    assert("markdown"@.len() != "reply"@.len());
    assert("actionCard"@.len() != "interactiveCard"@.len());
    assert("actionCard"@.len() != "reply"@.len());
    assert("interactiveCard"@.len() != "reply"@.len());
}

/// A member that is missing or a text.
pub open spec fn text_or_none(v: JsonView, key: Seq<char>) -> bool {
    v.get(key) is None || v.get(key)->Some_0 is Text
}

/// A member that is missing, true or false.
pub open spec fn bool_or_none(v: JsonView, key: Seq<char>) -> bool {
    v.get(key) is None || v.get(key)->Some_0 is Bool
}

/// A member that is missing or an integer.
pub open spec fn integer_or_none(v: JsonView, key: Seq<char>) -> bool {
    v.get(key) is None || v.get(key)->Some_0 is Integer
}

/// A payload without mentioned users is taken exactly where each of its members is
/// missing or of its type.
pub proof fn payload_is_taken_by_its_types(v: JsonView)
    requires
        v is Object,
        v.get("atUsers"@) is None,
        v.get("text"@) is None || v.get("text"@)->Some_0 is Object,
    ensures
        incoming(Ok(v)) is Ok <==> {
            &&& text_or_none(v, "conversationId"@)
            &&& text_or_none(v, "msgId"@)
            &&& text_or_none(v, "senderNick"@)
            &&& bool_or_none(v, "isAdmin"@)
            &&& text_or_none(v, "senderStaffId"@)
            &&& integer_or_none(v, "sessionWebhookExpiredTime"@)
            &&& integer_or_none(v, "createAt"@)
            &&& text_or_none(v, "senderCorpId"@)
            &&& text_or_none(v, "conversationType"@)
            &&& text_or_none(v, "senderId"@)
            &&& text_or_none(v, "conversationTitle"@)
            &&& bool_or_none(v, "isInAtList"@)
            &&& text_or_none(v, "sessionWebhook"@)
            &&& v.get("text"@) is Some ==> text_or_none(v.get("text"@)->Some_0, "content"@)
            &&& text_or_none(v, "msgtype"@)
        },
{
}

/// The text of a member, or the empty text.
pub open spec fn word_at(v: JsonView, key: Seq<char>, s: Seq<char>) -> bool {
    &&& v.get(key) matches Some(JsonView::Text(t)) ==> s == t
    &&& v.get(key) is None ==> s.len() == 0
}

/// A message says of its conversation, its sender, its session and itself what the
/// members of the payload with their names say.
pub proof fn message_says_what_the_payload_says(v: JsonView)
    requires
        v is Object,
        incoming(Ok(v)) is Ok,
    ensures
        ({
            let m = incoming(Ok(v))->Ok_0;
            &&& word_at(v, "conversationId"@, m.conversation_id)
            &&& word_at(v, "conversationTitle"@, m.conversation_title)
            &&& word_at(v, "senderId"@, m.sender_id)
            &&& word_at(v, "senderStaffId"@, m.sender_staff_id)
            &&& word_at(v, "senderNick"@, m.sender_nick)
            &&& word_at(v, "senderCorpId"@, m.sender_corp_id)
            &&& word_at(v, "msgtype"@, m.msg_type)
            &&& word_at(v, "msgId"@, m.msg_id)
            &&& word_at(v, "sessionWebhook"@, m.session_webhook)
            &&& m.is_admin == (v.get("isAdmin"@) == Some(JsonView::Bool(true)))
            &&& m.is_in_at_list == (v.get("isInAtList"@) == Some(JsonView::Bool(true)))
            &&& v.get("createAt"@) == Some(JsonView::Integer(m.create_at)) || v.get(
                "createAt"@,
            ) is None && m.create_at == 0
            &&& v.get("sessionWebhookExpiredTime"@) == Some(
                JsonView::Integer(m.webhook_expired_at),
            ) || v.get("sessionWebhookExpiredTime"@) is None && m.webhook_expired_at == 0
            &&& m.conversation_type == (if v.get("conversationType"@) == Some(
                JsonView::Text("1"@),
            ) {
                "dm"@
            } else {
                "group"@
            })
            &&& m.content == (match v.get("content"@) {
                Some(c) => c,
                None => JsonView::Null,
            })
            &&& m.raw == v
            &&& m.batched_sources.len() == 0
        }),
{
    reveal_strlit("1");
    let d = callback(v).unwrap();
    let one = JsonView::Text("1"@);
    match v.get("conversationType"@) {
        Some(JsonView::Text(t)) => {
            assert(d.conversation_type == t);
            assert(t == "1"@ <==> JsonView::Text(t) == one);
        },
        _ => {
            assert(d.conversation_type.len() == 0);
        },
    }
    assert(d.conversation_type == "1"@ <==> v.get("conversationType"@) == Some(one));
}

/// What a user of the payload is called stands in the list of users, and the
/// message mentions the user; everybody is mentioned where a user is called so.
pub proof fn users_of_the_payload_are_read(
    v: JsonView,
    items: Seq<JsonView>,
    i: int,
    staff: Seq<char>,
    dingtalk: Seq<char>,
)
    requires
        v is Object,
        incoming(Ok(v)) is Ok,
        v.get("atUsers"@) == Some(JsonView::Array(items)),
        0 <= i < items.len(),
        items[i] is Object,
        items[i].get("staffId"@) == Some(JsonView::Text(staff)),
        items[i].get("dingtalkId"@) == Some(JsonView::Text(dingtalk)),
    ensures
        ({
            let m = incoming(Ok(v))->Ok_0;
            let n = m.mentions.len() - items.len();
            &&& m.at_users.len() == items.len()
            &&& m.at_users[i].staff_id == staff
            &&& m.at_users[i].dingtalk_id == dingtalk
            &&& n >= 0
            &&& m.mentions[n + i].user_id == staff
            &&& m.mentions[n + i].name == staff
            &&& staff == "all"@ || dingtalk == "all"@ ==> m.mention_all
        }),
{
    lemma_at_user_at(items, i);
    let d = callback(v).unwrap();
    assert(d.at_users[i] == at_user(items[i]).unwrap());
    if staff == "all"@ || dingtalk == "all"@ {
        assert(is_everybody(d.at_users[i]));
    }
}

/// Nobody but a user who is called so stands for everybody.
pub proof fn everybody_is_not_mentioned_by_others(d: CallbackView, raw: JsonView)
    requires
        forall|i: int|
            0 <= i < d.at_users.len() ==> (#[trigger] d.at_users[i]).staff_id != "all"@
                && d.at_users[i].dingtalk_id != "all"@,
    ensures
        !message_of(d, raw).mention_all,
{
    assert forall|i: int| 0 <= i < d.at_users.len() implies !#[trigger] is_everybody(
        d.at_users[i],
    ) by {}
}

proof fn lemma_at_user_at(items: Seq<JsonView>, i: int)
    requires
        at_user_list(items) is Some,
        0 <= i < items.len(),
    ensures
        at_user_list(items).unwrap().len() == items.len(),
        at_user(items[i]) == Some(at_user_list(items).unwrap()[i]),
    decreases items.len(),
{
    if i < items.len() - 1 {
        lemma_at_user_at(items.drop_last(), i);
    } else if items.len() > 1 {
        lemma_at_user_at(items.drop_last(), 0);
    } else {
        assert(at_user_list(items.drop_last()) == Some(Seq::<AtUserView>::empty()));
    }
}

/// A text message says the text inside its own member, without space at its ends;
/// in a group without the mention at its front.
pub proof fn text_message_says_its_text(
    v: JsonView,
    t: JsonView,
    before: Seq<char>,
    said: Seq<char>,
    behind: Seq<char>,
)
    requires
        v is Object,
        incoming(Ok(v)) is Ok,
        v.get("msgtype"@) is None || v.get("msgtype"@) == Some(JsonView::Text("text"@)),
        v.get("text"@) == Some(t),
        t is Object,
        t.get("content"@) == Some(JsonView::Text(before + said + behind)),
        forall|i: int| 0 <= i < before.len() ==> #[trigger] before[i] == ' ' || before[i] == '\n',
        forall|i: int| 0 <= i < behind.len() ==> #[trigger] behind[i] == ' ' || behind[i] == '\n',
        said.len() > 0,
        '!' <= said[0] <= '~',
        '!' <= said.last() <= '~',
    ensures
        v.get("conversationType"@) == Some(JsonView::Text("1"@)) || said[0] != '@' ==> incoming(
            Ok(v),
        )->Ok_0.text == said,
{
    reveal_strlit("1");
    reveal_strlit("dm");
    reveal_strlit("group");
    assert(CONVERSATION_TYPE_DM@.len() != CONVERSATION_TYPE_GROUP@.len());
    assert forall|i: int| 0 <= i < before.len() implies #[trigger] text::in_class(
        before[i],
        CharClass::Whitespace,
    ) by {
        assert(before[i] == ' ' || before[i] == '\n');
    }
    assert forall|i: int| 0 <= i < behind.len() implies #[trigger] text::in_class(
        behind[i],
        CharClass::Whitespace,
    ) by {
        assert(behind[i] == ' ' || behind[i] == '\n');
    }
    text::visible_characters_are_no_space(said[0]);
    text::visible_characters_are_no_space(said.last());
    text::trimming_keeps_the_middle(before, said, behind, CharClass::Whitespace);
}

/// In a group, what is said behind the mention of the robot is the text.
pub proof fn mention_of_the_robot_is_no_text(
    v: JsonView,
    t: JsonView,
    name: Seq<char>,
    said: Seq<char>,
)
    requires
        v is Object,
        incoming(Ok(v)) is Ok,
        v.get("msgtype"@) == Some(JsonView::Text("text"@)),
        v.get("conversationType"@) == Some(JsonView::Text("2"@)),
        v.get("text"@) == Some(t),
        t is Object,
        t.get("content"@) == Some(JsonView::Text(seq!['@'] + name + seq![' '] + said)),
        !name.contains(' '),
        said.len() > 0,
        '!' <= said[0] <= '~',
        '!' <= said.last() <= '~',
    ensures
        incoming(Ok(v))->Ok_0.text == said,
{
    reveal_strlit("1");
    reveal_strlit("2");
    assert("1"@[0] != "2"@[0]);
    let none = Seq::<char>::empty();
    let whole = seq!['@'] + name + seq![' '] + said;
    text::visible_characters_are_no_space('@');
    text::visible_characters_are_no_space(said[0]);
    text::visible_characters_are_no_space(said.last());
    text::trimming_keeps_the_middle(none, whole, none, CharClass::Whitespace);
    assert(none + whole + none =~= whole);
    text::trimming_keeps_the_middle(none, said, none, CharClass::Whitespace);
    assert(none + said + none =~= said);
    front_mention_is_cut(name, said);
}

/// The medium of a message: one that has a download code is the only resource of
/// the message, and none comes of one without.
pub open spec fn only_medium(
    rs: Seq<ResourceView>,
    kind: Seq<char>,
    code: Seq<char>,
    file_name: Seq<char>,
    said: Seq<char>,
) -> bool {
    if code.len() == 0 {
        rs.len() == 0
    } else {
        &&& rs.len() == 1
        &&& rs[0].kind == kind
        &&& rs[0].download_code == code
        &&& rs[0].file_name == file_name
        &&& rs[0].recognition == said
    }
}

/// A picture is a resource by its download code.
pub proof fn picture_can_be_downloaded(v: JsonView, c: JsonView, code: Seq<char>)
    requires
        v is Object,
        incoming(Ok(v)) is Ok,
        v.get("msgtype"@) == Some(JsonView::Text("picture"@)),
        v.get("content"@) == Some(c),
        c is Object,
        c.get("downloadCode"@) == Some(JsonView::Text(code)) || c.get("downloadCode"@) is None
            && code.len() == 0,
    ensures
        ({
            let m = incoming(Ok(v))->Ok_0;
            &&& only_medium(m.resources, "image"@, code, Seq::empty(), Seq::empty())
            &&& m.text == "[图片]"@
        }),
{
    lemma_types_differ();
    reveal_strlit("[图片]");
    reveal_strlit("picture");
}

/// A file is a resource by its download code and its name, and is shown by its
/// name.
pub proof fn file_can_be_downloaded(
    v: JsonView,
    c: JsonView,
    code: Seq<char>,
    name: Seq<char>,
)
    requires
        v is Object,
        incoming(Ok(v)) is Ok,
        v.get("msgtype"@) == Some(JsonView::Text("file"@)),
        v.get("content"@) == Some(c),
        c is Object,
        c.get("downloadCode"@) == Some(JsonView::Text(code)) || c.get("downloadCode"@) is None
            && code.len() == 0,
        c.get("fileName"@) == Some(JsonView::Text(name)) || c.get("fileName"@) is None
            && name.len() == 0,
    ensures
        ({
            let m = incoming(Ok(v))->Ok_0;
            &&& only_medium(m.resources, "file"@, code, name, Seq::empty())
            &&& m.text == "[文件: "@ + (if name.len() > 0 {
                name
            } else {
                "文件"@
            }) + "]"@
        }),
{
    lemma_types_differ();
    reveal_strlit("[文件: ");
    reveal_strlit("file");
    assert(code.len() == 0 ==> c.text_at("downloadCode"@) =~= code);
    assert(name.len() == 0 ==> c.text_at("fileName"@) =~= name);
}

/// A sound is a resource by its download code, its name and what was said, and is
/// shown by what was said.
pub proof fn sound_can_be_downloaded(
    v: JsonView,
    c: JsonView,
    code: Seq<char>,
    name: Seq<char>,
    said: Seq<char>,
)
    requires
        v is Object,
        incoming(Ok(v)) is Ok,
        v.get("msgtype"@) == Some(JsonView::Text("audio"@)),
        v.get("conversationType"@) == Some(JsonView::Text("1"@)),
        v.get("content"@) == Some(c),
        c is Object,
        c.get("downloadCode"@) == Some(JsonView::Text(code)) || c.get("downloadCode"@) is None
            && code.len() == 0,
        c.get("fileName"@) == Some(JsonView::Text(name)) || c.get("fileName"@) is None
            && name.len() == 0,
        c.get("recognition"@) == Some(JsonView::Text(said)) || c.get("recognition"@) is None
            && said.len() == 0,
    ensures
        ({
            let m = incoming(Ok(v))->Ok_0;
            &&& only_medium(m.resources, "audio"@, code, name, said)
            &&& m.text == (if said.len() > 0 {
                said
            } else {
                "[语音消息]"@
            })
        }),
{
    lemma_types_differ();
    reveal_strlit("audio");
    reveal_strlit("1");
    reveal_strlit("dm");
    reveal_strlit("group");
    assert(CONVERSATION_TYPE_DM@.len() != CONVERSATION_TYPE_GROUP@.len());
    assert(code.len() == 0 ==> c.text_at("downloadCode"@) =~= code);
    assert(name.len() == 0 ==> c.text_at("fileName"@) =~= name);
    assert(said.len() == 0 ==> c.text_at("recognition"@) =~= said);
}

/// A video is a resource by its download code and its name.
pub proof fn video_can_be_downloaded(
    v: JsonView,
    c: JsonView,
    code: Seq<char>,
    name: Seq<char>,
)
    requires
        v is Object,
        incoming(Ok(v)) is Ok,
        v.get("msgtype"@) == Some(JsonView::Text("video"@)),
        v.get("content"@) == Some(c),
        c is Object,
        c.get("downloadCode"@) == Some(JsonView::Text(code)) || c.get("downloadCode"@) is None
            && code.len() == 0,
        c.get("fileName"@) == Some(JsonView::Text(name)) || c.get("fileName"@) is None
            && name.len() == 0,
    ensures
        ({
            let m = incoming(Ok(v))->Ok_0;
            &&& only_medium(m.resources, "video"@, code, name, Seq::empty())
            &&& m.text == "[视频]"@
        }),
{
    lemma_types_differ();
    reveal_strlit("video");
    reveal_strlit("[视频]");
    assert(code.len() == 0 ==> c.text_at("downloadCode"@) =~= code);
    assert(name.len() == 0 ==> c.text_at("fileName"@) =~= name);
}

/// Messages of words hold their words and nothing else: markdown in one member,
/// cards by their link, and what is of no known type in another member. Content
/// that is no object holds nothing.
pub proof fn messages_of_words_hold_their_words(kind: Seq<char>, c: JsonView, said: Seq<char>)
    requires
        c is Object,
    ensures
        c.get("text"@) == Some(JsonView::Text(said)) ==> content_of("markdown"@, c) == words(said),
        c.get("biz_custom_action_url"@) == Some(JsonView::Text(said)) && said.len() > 0
            ==> content_of("interactiveCard"@, c) == words("收到交互式卡片链接："@ + said),
        c.get("biz_custom_action_url"@) is None ==> content_of("interactiveCard"@, c) == words(
            "[interactiveCard消息]"@,
        ),
        c.get("content"@) == Some(JsonView::Text(said)) && kind != "text"@ && kind != "richText"@
            && kind != "picture"@ && kind != "file"@ && kind != "audio"@ && kind != "video"@
            && kind != "markdown"@ && kind != "actionCard"@ && kind != "interactiveCard"@ && kind
            != "reply"@ ==> content_of(kind, c) == words(said),
        content_of(kind, JsonView::Null) == words(Seq::empty()),
        content_of(kind, JsonView::Text(said)) == words(Seq::empty()),
{
    lemma_types_differ();
}

/// A card with a title, a body and links shows the title, the body and the links,
/// each set apart.
pub proof fn card_shows_its_title_its_body_and_its_links(
    c: JsonView,
    title: Seq<char>,
    body: Seq<char>,
    a: JsonView,
    b: JsonView,
    first: Seq<char>,
    second: Seq<char>,
)
    requires
        c is Object,
        c.get("title"@) == Some(JsonView::Text(title)),
        c.get("text"@) == Some(JsonView::Text(body)),
        title.len() > 0,
        body.len() > 0,
        a.get("actionUrl"@) == Some(JsonView::Text(first)),
        b.get("actionUrl"@) == Some(JsonView::Text(second)),
        first.len() > 0,
        second.len() > 0,
    ensures
        c.get("actionUrlItemList"@) is None ==> content_of("actionCard"@, c) == words(
            title + "\n\n"@ + body,
        ),
        c.get("actionUrlItemList"@) == Some(JsonView::Array(seq![a])) ==> content_of(
            "actionCard"@,
            c,
        ) == words(title + "\n\n"@ + body + "\n\n操作链接："@ + first),
        c.get("actionUrlItemList"@) == Some(JsonView::Array(seq![a, b])) ==> content_of(
            "actionCard"@,
            c,
        ) == words(
            title + "\n\n"@ + body + "\n\n操作链接：\n- "@ + (first + "\n- "@ + second),
        ),
{
    lemma_types_differ();
    let none = Seq::<JsonView>::empty();
    assert(nonempty(title, body) =~= seq![title, body]);
    assert(seq![title, body].drop_last() =~= seq![title]);
    assert(text::join(seq![title], "\n\n"@) == title);
    assert(text::join(seq![title, body], "\n\n"@) == title + "\n\n"@ + body);
    assert(action_links(none) =~= Seq::<Seq<char>>::empty());
    assert(seq![a].drop_last() =~= none);
    assert(seq![a, b].drop_last() =~= seq![a]);
    assert(action_links(seq![a]) =~= seq![first]);
    assert(action_links(seq![a, b]) =~= seq![first, second]);
    assert(seq![first, second].drop_last() =~= seq![first]);
    assert(text::join(seq![first], "\n- "@) == first);
    assert(text::join(seq![first, second], "\n- "@) == first + "\n- "@ + second);
}

/// A reply says its own words and then, on a line of its own, the quoted ones.
pub proof fn reply_quotes_what_it_answers(
    c: JsonView,
    q: JsonView,
    quoted_content: JsonView,
    own: Seq<char>,
    said: Seq<char>,
)
    requires
        c is Object,
        c.get("text"@) == Some(JsonView::Text(own)),
        q is Object,
        q.get("msgType"@) == Some(JsonView::Text("text"@)),
        q.get("content"@) == Some(quoted_content),
        quoted_content is Object,
        quoted_content.get("text"@) == Some(JsonView::Text(said)),
        own.len() > 0,
        said.len() > 0,
    ensures
        c.get("repliedMsg"@) is None ==> content_of("reply"@, c) == words(own),
        c.get("repliedMsg"@) == Some(q) ==> content_of("reply"@, c) == words(
            own + seq!['\n'] + ("[引用] "@ + said),
        ),
{
    lemma_types_differ();
    let none = Seq::<char>::empty();
    reveal_strlit("[引用] ");
    text::run_ends_before_others(none, CharClass::Quote, 0);
    assert(text::trim(none, CharClass::Quote) =~= none);
    assert(own.push('\n') + ("[引用] "@ + said) =~= own + seq!['\n'] + ("[引用] "@ + said));
}

/// What a quotation shows: the words of a text, that it is a picture, or the name
/// of a file. Words that are no JSON are shown as they are.
pub proof fn quotation_shows_its_words(raw: Seq<char>, v: JsonView, said: Seq<char>, e: Seq<char>)
    requires
        v is Object,
    ensures
        v.get("text"@) == Some(JsonView::Text(said)) ==> quoted_words("text"@, raw, Ok(v))
            == "[引用] "@ + said,
        quoted_words("picture"@, raw, Ok(v)) == "[引用] [图片]"@,
        v.get("fileName"@) == Some(JsonView::Text(said)) ==> quoted_words("file"@, raw, Ok(v))
            == "[引用] [文件: "@ + said + "]"@,
        quoted_words("audio"@, raw, Ok(v)) == "[引用] "@ + "audio"@ + "消息"@,
        quoted_words("text"@, raw, Err(e)) == "[引用] "@ + raw,
{
    lemma_types_differ();
}

/// The segments of a rich text are read one behind the other: words are added to
/// the text, users and mobile numbers to the mentions, and pictures and files to
/// the resources, unless their download code is there.
pub proof fn segment_is_added_behind(
    c: JsonView,
    longer: JsonView,
    items: Seq<JsonView>,
    item: JsonView,
    s: Seq<char>,
    name: Seq<char>,
    user: JsonView,
    mobile: JsonView,
)
    requires
        c is Object,
        longer is Object,
        c.get("richText"@) == Some(JsonView::Array(items)),
        longer.get("richText"@) == Some(JsonView::Array(items.push(item))),
        item is Object,
        s.len() > 0,
    ensures
        ({
            let a = content_of("richText"@, c);
            let b = content_of("richText"@, longer);
            let kind = item.get("type"@);
            let there = exists|i: int|
                0 <= i < a.resources.len() && (#[trigger] a.resources[i]).download_code == s;
            &&& items.len() == 0 ==> a == words(Seq::empty())
            &&& kind == Some(JsonView::Text("text"@)) && item.get("text"@) == Some(
                JsonView::Text(s),
            ) ==> b == (ContentView { text: a.text + s, ..a })
            &&& kind == Some(JsonView::Text("picture"@)) && item.get("picture"@) == Some(
                JsonView::Text(s),
            ) && !there ==> b == (ContentView {
                resources: a.resources.push(
                    ResourceView {
                        kind: "image"@,
                        download_code: s,
                        file_name: Seq::empty(),
                        recognition: Seq::empty(),
                    },
                ),
                ..a
            })
            &&& kind == Some(JsonView::Text("file"@)) && item.get("downloadCode"@) == Some(
                JsonView::Text(s),
            ) && item.get("fileName"@) == Some(JsonView::Text(name)) && !there ==> b == (
            ContentView {
                resources: a.resources.push(
                    ResourceView {
                        kind: "file"@,
                        download_code: s,
                        file_name: name,
                        recognition: Seq::empty(),
                    },
                ),
                ..a
            })
            &&& kind == Some(JsonView::Text("at"@)) && item.get("atUserIds"@) == Some(
                JsonView::Array(seq![user]),
            ) && item.get("atMobiles"@) == Some(JsonView::Array(seq![mobile])) ==> {
                let n = a.mentions.len() as int;
                let first = text::trim(json::json_text(user), CharClass::Quote);
                let second = text::trim(json::json_text(mobile), CharClass::Quote);
                &&& b.text == a.text
                &&& b.resources == a.resources
                &&& b.mentions.len() == n + 2
                &&& b.mentions.take(n) == a.mentions
                &&& b.mentions[n].user_id == first
                &&& b.mentions[n].name.len() == 0
                &&& b.mentions[n + 1].user_id == second
                &&& b.mentions[n + 1].name == second
            }
        }),
{
    lemma_types_differ();
    reveal_strlit("text");
    reveal_strlit("picture");
    reveal_strlit("file");
    reveal_strlit("at");
    assert("text"@.len() != "picture"@.len());
    assert("text"@[0] != "file"@[0]);
    assert("text"@.len() != "at"@.len());
    assert("picture"@.len() != "file"@.len());
    assert("picture"@.len() != "at"@.len());
    assert("file"@.len() != "at"@.len());
    let a = content_of("richText"@, c);
    let b = content_of("richText"@, longer);
    let all = items.push(item);
    assert(all.drop_last() =~= items);
    assert(items.len() == 0 ==> items =~= Seq::<JsonView>::empty());
    if segment_kind(item) != "at"@ {
        assert(b.mentions =~= a.mentions);
    } else {
        assert(item.items_at("atUserIds"@) == seq![user] && item.items_at("atMobiles"@) == seq![
            mobile,
        ] ==> b.mentions.take(a.mentions.len() as int) =~= a.mentions);
    }
}

/// A payload can be a list of its fields in their order: each has its place.
pub proof fn payload_can_be_a_list(p: CallbackView, words: JsonView)
    requires
        p.at_users.len() == 0,
        words is Object,
        words.get("content"@) == Some(JsonView::Text(p.text)),
    ensures
        callback(
            JsonView::Array(
                seq![
                    JsonView::Text(p.conversation_id),
                    JsonView::Array(Seq::empty()),
                    JsonView::Text(p.msg_id),
                    JsonView::Text(p.sender_nick),
                    JsonView::Bool(p.is_admin),
                    JsonView::Text(p.sender_staff_id),
                    JsonView::Integer(p.session_webhook_expired_time),
                    JsonView::Integer(p.create_at),
                    JsonView::Text(p.sender_corp_id),
                    JsonView::Text(p.conversation_type),
                    JsonView::Text(p.sender_id),
                    JsonView::Text(p.conversation_title),
                    JsonView::Bool(p.is_in_at_list),
                    JsonView::Text(p.session_webhook),
                    words,
                    JsonView::Text(p.msg_type),
                    p.content,
                ],
            ),
        ) == Some(p),
{
    assert(at_user_list(Seq::empty()) == Some(Seq::<AtUserView>::empty()));
    assert(p.at_users =~= Seq::<AtUserView>::empty());
}

/// A user can be a list of both keys, and the text of a text message a list of that
/// text; longer lists are neither.
pub proof fn users_and_texts_can_be_lists(a: Seq<char>, b: Seq<char>, more: JsonView, place: nat)
    ensures
        at_user(JsonView::Array(seq![JsonView::Text(a), JsonView::Text(b)])) == Some(
            AtUserView { dingtalk_id: a, staff_id: b },
        ),
        at_user(JsonView::Array(seq![JsonView::Text(a), JsonView::Text(b), more])) is None,
        inner_text_slot(
            JsonView::Array(seq![JsonView::Array(seq![JsonView::Text(a)])]),
            b,
            0,
        ) == Some(a),
        inner_text_slot(
            JsonView::Array(seq![JsonView::Array(seq![JsonView::Text(a), more])]),
            b,
            0,
        ) is None,
{
}

/// A card without a title is shown by its body, one without a body by its title, and
/// one without either by a word.
pub proof fn card_shows_what_it_has(m: JsonView, title: Seq<char>, body: Seq<char>)
    requires
        m is Object,
        m.get("title"@) == Some(JsonView::Text(title)),
        m.get("text"@) == Some(JsonView::Text(body)),
        m.get("actionUrlItemList"@) is None,
    ensures
        title.len() == 0 && body.len() > 0 ==> action_card_text(m) == body,
        title.len() > 0 && body.len() == 0 ==> action_card_text(m) == title,
        title.len() == 0 && body.len() == 0 ==> action_card_text(m) == "[actionCard消息]"@,
        title.len() > 0 && body.len() > 0 ==> action_card_text(m) == title + "\n\n"@ + body,
{
    let none = Seq::<Seq<char>>::empty();
    assert(action_links(m.items_at("actionUrlItemList"@)) =~= none);
    assert(seq![title] + none =~= seq![title]);
    assert(none + seq![body] =~= seq![body]);
    assert(none + none =~= none);
    assert(seq![title] + seq![body] =~= seq![title, body]);
    assert(seq![title, body].drop_last() =~= seq![title]);
    assert(text::join(seq![title], "\n\n"@) == title);
    assert(text::join(seq![body], "\n\n"@) == body);
}

/// A list is no payload where one of its fields is of another type, or where it has
/// too many.
pub proof fn list_with_a_wrong_field_is_no_payload(items: Seq<JsonView>, i: int)
    ensures
        0 <= i < 16 && i < items.len() && items[i] == JsonView::Null ==> callback(
            JsonView::Array(items),
        ) is None,
        items.len() > 17 ==> callback(JsonView::Array(items)) is None,
{
}

/// What is no JSON or no payload is told as that.
pub proof fn what_is_no_payload_is_told(e: Seq<char>, v: JsonView)
    ensures
        incoming(Err(e)) == Err::<MessageView, ErrorView>(ErrorView::Json(e)),
        callback(v) is None ==> incoming(Ok(v)) == Err::<MessageView, ErrorView>(
            ErrorView::Json("payload field of an unexpected type"@),
        ),
        callback(v) matches Some(d) ==> incoming(Ok(v)) == Ok::<MessageView, ErrorView>(
            message_of(d, v),
        ),
{
}

} // verus!
