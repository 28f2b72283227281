//! What is written on the connection.

use crate::json;
use crate::json::{Json, JsonView};
use crate::keyed;
use crate::keyed::KeyedMap;
use crate::record;
use crate::record::{is_record, read_integer, read_text, slot_of};
use crate::text;
use crate::types;
use vstd::prelude::*;

verus! {

pub const SUB_CALLBACK: &'static str = "CALLBACK";

pub const SUB_SYSTEM: &'static str = "SYSTEM";

/// Something that the channel wants to be told.
#[derive(Debug)]
pub struct Subscription {
    pub kind: String,
    pub topic: String,
}

pub struct SubscriptionView {
    pub kind: Seq<char>,
    pub topic: Seq<char>,
}

impl View for Subscription {
    type V = SubscriptionView;

    open spec fn view(&self) -> SubscriptionView {
        SubscriptionView { kind: self.kind@, topic: self.topic@ }
    }
}

impl SubscriptionView {
    pub open spec fn document(self) -> JsonView {
        JsonView::object().with_text("type"@, self.kind).with_text("topic"@, self.topic)
    }
}

impl Subscription {
    pub fn new(kind: &str, topic: &str) -> (r: Subscription)
        ensures
            r@ == (SubscriptionView { kind: kind@, topic: topic@ }),
    {
        Subscription { kind: text::owned(kind), topic: text::owned(topic) }
    }

    pub fn to_json(&self) -> (r: Json)
        ensures
            r@ == self@.document(),
    {
        Json::object().with_text("type", self.kind.as_str()).with_text("topic", self.topic.as_str())
    }
}

/// The request for a connection.
#[derive(Debug)]
pub struct OpenConnectionRequest {
    pub client_id: String,
    pub client_secret: String,
    pub subscriptions: Vec<Subscription>,
    pub ua: String,
    /// Left out where it is not known.
    pub local_ip: String,
}

pub struct OpenRequestView {
    pub client_id: Seq<char>,
    pub client_secret: Seq<char>,
    pub subscriptions: Seq<SubscriptionView>,
    pub ua: Seq<char>,
    pub local_ip: Seq<char>,
}

impl View for OpenConnectionRequest {
    type V = OpenRequestView;

    open spec fn view(&self) -> OpenRequestView {
        OpenRequestView {
            client_id: self.client_id@,
            client_secret: self.client_secret@,
            subscriptions: types::views(self.subscriptions@),
            ua: self.ua@,
            local_ip: self.local_ip@,
        }
    }
}

impl OpenRequestView {
    pub open spec fn document(self) -> JsonView {
        let all = JsonView::object().with_text("clientId"@, self.client_id).with_text(
            "clientSecret"@,
            self.client_secret,
        ).with(
            "subscriptions"@,
            JsonView::Array(
                Seq::new(
                    self.subscriptions.len(),
                    |i: int| self.subscriptions[i].document(),
                ),
            ),
        ).with_text("ua"@, self.ua);
        if self.local_ip.len() == 0 {
            all
        } else {
            all.with_text("localIp"@, self.local_ip)
        }
    }
}

impl OpenConnectionRequest {
    pub fn to_json(&self) -> (r: Json)
        ensures
            r@ == self@.document(),
    {
        let mut subs: Vec<Json> = Vec::new();
        let ghost wanted = Seq::new(
            self@.subscriptions.len(),
            |i: int| self@.subscriptions[i].document(),
        );
        let mut i: usize = 0;
        while i < self.subscriptions.len()
            invariant
                i <= self.subscriptions@.len(),
                wanted == Seq::new(
                    self@.subscriptions.len(),
                    |i: int| self@.subscriptions[i].document(),
                ),
                json::views(subs@) =~= wanted.take(i as int),
            decreases self.subscriptions@.len() - i,
        {
            let ghost before = subs@;
            let s = self.subscriptions[i].to_json();
            subs.push(s);
            proof {
                assert(json::views(subs@) =~= json::views(before).push(s@));
                assert(wanted.take(i + 1) =~= wanted.take(i as int).push(wanted[i as int]));
            }
            i += 1;
        }
        assert(wanted.take(i as int) =~= wanted);
        let all = Json::object().with_text("clientId", self.client_id.as_str()).with_text(
            "clientSecret",
            self.client_secret.as_str(),
        ).with("subscriptions", Json::array(subs)).with_text("ua", self.ua.as_str());
        if self.local_ip.as_str().is_empty() {
            all
        } else {
            all.with_text("localIp", self.local_ip.as_str())
        }
    }
}

/// The answer to the request for a connection.
#[derive(Debug)]
pub struct OpenConnectionResponse {
    pub endpoint: String,
    pub ticket: String,
}

pub struct OpenResponseView {
    pub endpoint: Seq<char>,
    pub ticket: Seq<char>,
}

impl View for OpenConnectionResponse {
    type V = OpenResponseView;

    open spec fn view(&self) -> OpenResponseView {
        OpenResponseView { endpoint: self.endpoint@, ticket: self.ticket@ }
    }
}

/// The answer in a document.
pub open spec fn open_response(v: JsonView) -> Option<OpenResponseView> {
    match (record::text_slot(v, "endpoint"@, 0), record::text_slot(v, "ticket"@, 1)) {
        (Some(endpoint), Some(ticket)) => if record::record(v, 2) {
            Some(OpenResponseView { endpoint, ticket })
        } else {
            None
        },
        _ => None,
    }
}

/// The answer in a document.
pub fn read_open_response(v: &Json) -> (r: Option<OpenConnectionResponse>)
    ensures
        match r {
            Some(o) => open_response(v@) == Some(o@),
            None => open_response(v@) is None,
        },
{
    if !is_record(v, 2) {
        return None;
    }
    match (read_text(v, "endpoint", 0), read_text(v, "ticket", 1)) {
        (Some(endpoint), Some(ticket)) => Some(OpenConnectionResponse { endpoint, ticket }),
        _ => None,
    }
}

/// Something that the service tells.
#[derive(Debug, Default)]
pub struct Frame {
    pub spec_version: String,
    pub kind: String,
    pub time: i64,
    pub headers: KeyedMap<String>,
    pub data: String,
}

pub struct FrameView {
    pub spec_version: Seq<char>,
    pub kind: Seq<char>,
    pub time: i64,
    pub headers: Map<Seq<char>, Seq<char>>,
    pub data: Seq<char>,
}

impl View for Frame {
    type V = FrameView;

    open spec fn view(&self) -> FrameView {
        FrameView {
            spec_version: self.spec_version@,
            kind: self.kind@,
            time: self.time,
            headers: keyed::seen(self.headers@),
            data: self.data@,
        }
    }
}

impl Clone for Frame {
    fn clone(&self) -> (r: Frame)
        ensures
            r@ == self@,
    {
        let mut headers: KeyedMap<String> = KeyedMap::new();
        let n: usize = self.headers.len();
        let ghost list = self.headers.list();
        let mut i: usize = 0;
        proof {
            assert(list.take(0) =~= Seq::empty());
            assert(keyed::seen(headers@) =~= keyed::seen(keyed::map_of(list.take(0))));
        }
        while i < n
            invariant
                i <= n,
                n == list.len(),
                list == self.headers.list(),
                keyed::seen(headers@) == keyed::seen(keyed::map_of(list.take(i as int))),
            decreases n - i,
        {
            let (key, value) = self.headers.entry(i);
            let copy = value.clone();
            let ghost before = headers@;
            headers.insert(key.clone(), copy);
            proof {
                assert(list.take(i + 1).drop_last() =~= list.take(i as int));
                assert(list.take(i + 1).last() == list[i as int]);
                keyed::seen_insert(before, key@, copy);
                keyed::seen_insert(keyed::map_of(list.take(i as int)), key@, *value);
            }
            i += 1;
        }
        proof {
            assert(list.take(n as int) =~= list);
            self.headers.lemma_list();
        }
        Frame {
            spec_version: self.spec_version.clone(),
            kind: self.kind.clone(),
            time: self.time,
            headers,
            data: self.data.clone(),
        }
    }
}

impl FrameView {
    /// A header, empty where there is none.
    pub open spec fn header(self, name: Seq<char>) -> Seq<char> {
        if self.headers.contains_key(name) {
            self.headers[name]
        } else {
            Seq::empty()
        }
    }

    pub open spec fn topic(self) -> Seq<char> {
        self.header("topic"@)
    }

    pub open spec fn message_id(self) -> Seq<char> {
        self.header("messageId"@)
    }
}

impl Frame {
    fn header(&self, name: &str) -> (r: &str)
        ensures
            r@ == self@.header(name@),
    {
        match self.headers.get(name) {
            Some(s) => s.as_str(),
            None => {
                proof {
                    reveal_strlit("");
                    assert(""@ =~= Seq::<char>::empty());
                }
                ""
            },
        }
    }

    /// What the frame is about.
    pub fn topic(&self) -> (r: &str)
        ensures
            r@ == self@.topic(),
    {
        self.header("topic")
    }

    /// The delivery that the frame is.
    pub fn message_id(&self) -> (r: &str)
        ensures
            r@ == self@.message_id(),
    {
        self.header("messageId")
    }
}

/// The headers in the members of an object; all of them have to be texts.
pub open spec fn headers_of(s: Seq<(Seq<char>, JsonView)>) -> Option<Map<Seq<char>, Seq<char>>>
    decreases s.len(),
{
    if s.len() == 0 {
        Some(Map::empty())
    } else {
        match (headers_of(s.drop_last()), s.last().1) {
            (Some(m), JsonView::Text(t)) => Some(m.insert(s.last().0, t)),
            _ => None,
        }
    }
}

pub open spec fn headers_slot(v: JsonView, key: Seq<char>, place: nat) -> Option<
    Map<Seq<char>, Seq<char>>,
> {
    match record::slot(v, key, place) {
        None => Some(Map::empty()),
        Some(JsonView::Object(s)) => headers_of(s),
        Some(_) => None,
    }
}

/// The frame in a document. A field that is missing has its default value; one
/// of another type makes the whole document no frame.
pub open spec fn frame_of(v: JsonView) -> Option<FrameView> {
    if record::record(v, 5) && record::text_slot(v, "specVersion"@, 0) is Some && record::text_slot(
        v,
        "type"@,
        1,
    ) is Some && record::integer_slot(v, "time"@, 2) is Some && headers_slot(v, "headers"@, 3) is Some
        && record::text_slot(v, "data"@, 4) is Some {
        Some(
            FrameView {
                spec_version: record::text_slot(v, "specVersion"@, 0).unwrap(),
                kind: record::text_slot(v, "type"@, 1).unwrap(),
                time: record::integer_slot(v, "time"@, 2).unwrap(),
                headers: headers_slot(v, "headers"@, 3).unwrap(),
                data: record::text_slot(v, "data"@, 4).unwrap(),
            },
        )
    } else {
        None
    }
}

/// One header that is no text makes all of them none.
proof fn lemma_headers_none(s: Seq<(Seq<char>, JsonView)>, i: int)
    requires
        0 <= i < s.len(),
        !(s[i].1 is Text),
    ensures
        headers_of(s) is None,
    decreases s.len(),
{
    if i < s.len() - 1 {
        lemma_headers_none(s.drop_last(), i);
    }
}

fn read_headers(v: &Json, key: &str, place: usize) -> (r: Option<KeyedMap<String>>)
    ensures
        match r {
            Some(h) => headers_slot(v@, key@, place as nat) == Some(keyed::seen(h@)),
            None => headers_slot(v@, key@, place as nat) is None,
        },
{
    match slot_of(v, key, place) {
        None => {
            let h: KeyedMap<String> = KeyedMap::new();
            assert(keyed::seen(h@) =~= Map::empty());
            Some(h)
        },
        Some(Json::Object(items)) => {
            proof {
                json::object_view(*items);
            }
            let ghost all = json::members(items@);
            let mut h: KeyedMap<String> = KeyedMap::new();
            let mut i: usize = 0;
            proof {
                assert(all.take(0) =~= Seq::empty());
                assert(keyed::seen(h@) =~= Map::empty());
            }
            while i < items.len()
                invariant
                    i <= items@.len(),
                    all == json::members(items@),
                    record::slot(v@, key@, place as nat) == Some(JsonView::Object(all)),
                    headers_of(all.take(i as int)) == Some(keyed::seen(h@)),
                decreases items@.len() - i,
            {
                match &items[i].1 {
                    Json::Text(t) => {
                        let ghost before = h@;
                        let value = t.clone();
                        h.insert(items[i].0.clone(), value);
                        proof {
                            assert(all.take(i + 1).drop_last() =~= all.take(i as int));
                            assert(all.take(i + 1).last() == all[i as int]);
                            keyed::seen_insert(before, items@[i as int].0@, value);
                        }
                    },
                    _ => {
                        proof {
                            lemma_headers_none(all, i as int);
                        }
                        return None;
                    },
                }
                i += 1;
            }
            assert(all.take(i as int) =~= all);
            Some(h)
        },
        Some(_) => None,
    }
}

/// The frame in a document.
pub fn read_frame(v: &Json) -> (r: Option<Frame>)
    ensures
        match r {
            Some(f) => frame_of(v@) == Some(f@),
            None => frame_of(v@) is None,
        },
{
    if !is_record(v, 5) {
        return None;
    }
    let f = Frame {
        spec_version: match read_text(v, "specVersion", 0) {
            Some(x) => x,
            None => return None,
        },
        kind: match read_text(v, "type", 1) {
            Some(x) => x,
            None => return None,
        },
        time: match read_integer(v, "time", 2) {
            Some(x) => x,
            None => return None,
        },
        headers: match read_headers(v, "headers", 3) {
            Some(x) => x,
            None => return None,
        },
        data: match read_text(v, "data", 4) {
            Some(x) => x,
            None => return None,
        },
    };
    Some(f)
}

/// The answer to a frame; without it the frame comes again.
#[derive(Debug)]
pub struct FrameAck {
    pub code: i32,
    pub headers: KeyedMap<String>,
    pub message: String,
    pub data: String,
}

pub struct AckView {
    pub code: i32,
    /// The headers in their order.
    pub headers: Seq<(Seq<char>, Seq<char>)>,
    pub message: Seq<char>,
    pub data: Seq<char>,
}

/// The entries of a list of headers.
pub open spec fn entries(list: Seq<(String, String)>) -> Seq<(Seq<char>, Seq<char>)> {
    Seq::new(list.len(), |i: int| (list[i].0@, list[i].1@))
}

impl View for FrameAck {
    type V = AckView;

    open spec fn view(&self) -> AckView {
        AckView {
            code: self.code,
            headers: entries(self.headers.list()),
            message: self.message@,
            data: self.data@,
        }
    }
}

impl AckView {
    /// The document of the answer.
    pub open spec fn document(self) -> JsonView {
        JsonView::object().with("code"@, JsonView::Integer(self.code as i64)).with(
            "headers"@,
            JsonView::Object(
                Seq::new(
                    self.headers.len(),
                    |i: int| (self.headers[i].0, JsonView::Text(self.headers[i].1)),
                ),
            ),
        ).with_text("message"@, self.message).with_text("data"@, self.data)
    }
}

/// The answer that a frame was taken.
pub open spec fn taken(message_id: Seq<char>, data: Seq<char>) -> AckView {
    AckView {
        code: 200,
        headers: seq![("contentType"@, "application/json"@), ("messageId"@, message_id)],
        message: "ok"@,
        data,
    }
}

/// What stands in an answer where nothing else is said.
pub open spec fn default_data(data: Seq<char>) -> Seq<char> {
    if data.len() == 0 {
        "{\"success\":true}"@
    } else {
        data
    }
}

fn taken_ack(message_id: &str, data: String) -> (r: FrameAck)
    ensures
        r@ == taken(message_id@, data@),
        r.headers@.contains_key("messageId"@) && r.headers@["messageId"@]@ == message_id@,
{
    let mut headers: KeyedMap<String> = KeyedMap::new();
    proof {
        reveal_strlit("messageId");
        reveal_strlit("contentType");
        assert("messageId"@.len() != "contentType"@.len());
    }
    headers.insert(text::owned("contentType"), text::owned("application/json"));
    headers.insert(text::owned("messageId"), text::owned(message_id));
    let r = FrameAck { code: 200, headers, message: text::owned("ok"), data };
    assert(entries(r.headers.list()) =~= taken(message_id@, data@).headers);
    r
}

/// The answer that a frame was taken, with some data or a plain success.
pub fn success_ack(message_id: &str, data: &str) -> (r: FrameAck)
    ensures
        r@ == taken(message_id@, default_data(data@)),
        r.headers@.contains_key("messageId"@) && r.headers@["messageId"@]@ == message_id@,
{
    let data = if data.is_empty() {
        text::owned("{\"success\":true}")
    } else {
        text::owned(data)
    };
    taken_ack(message_id, data)
}

/// The answer that a frame was taken, with its own data.
pub fn echo_ack(message_id: &str, data: &str) -> (r: FrameAck)
    ensures
        r@ == taken(message_id@, data@),
{
    taken_ack(message_id, text::owned(data))
}

impl FrameAck {
    /// The document of the answer.
    pub fn to_json(&self) -> (r: Json)
        ensures
            r@ == self@.document(),
    {
        let mut items: Vec<(String, Json)> = Vec::new();
        let n: usize = self.headers.len();
        let ghost wanted = Seq::new(
            self@.headers.len(),
            |i: int| (self@.headers[i].0, JsonView::Text(self@.headers[i].1)),
        );
        let mut i: usize = 0;
        while i < n
            invariant
                i <= n,
                n == self.headers.list().len(),
                wanted == Seq::new(
                    self@.headers.len(),
                    |i: int| (self@.headers[i].0, JsonView::Text(self@.headers[i].1)),
                ),
                json::members(items@) =~= wanted.take(i as int),
            decreases n - i,
        {
            let (key, value) = self.headers.entry(i);
            let ghost before = items@;
            let doc = Json::string(value.as_str());
            items.push((key.clone(), doc));
            proof {
                assert(json::members(items@) =~= json::members(before).push((key@, doc@)));
                assert(wanted.take(i + 1) =~= wanted.take(i as int).push(wanted[i as int]));
            }
            i += 1;
        }
        proof {
            assert(wanted.take(i as int) =~= wanted);
            json::object_view(items);
        }
        Json::object().with("code", Json::Integer(self.code as i64)).with(
            "headers",
            Json::Object(items),
        ).with_text("message", self.message.as_str()).with_text("data", self.data.as_str())
    }
}

/// An answer names the delivery that it is for.
pub proof fn ack_names_the_delivery(message_id: Seq<char>, data: Seq<char>)
    ensures
        taken(message_id, data).headers.contains(("messageId"@, message_id)),
        taken(message_id, data).document().get("headers"@) matches Some(h) && h.get("messageId"@)
            == Some(JsonView::Text(message_id)),
{
    reveal_strlit("headers");
    reveal_strlit("message");
    reveal_strlit("data");
    let ack = taken(message_id, data);
    assert(ack.headers[1] == ("messageId"@, message_id));
    let items = Seq::new(
        ack.headers.len(),
        |i: int| (ack.headers[i].0, JsonView::Text(ack.headers[i].1)),
    );
    assert(items.last() == ("messageId"@, JsonView::Text(message_id)));
    let h = JsonView::Object(items);
    let a = JsonView::object().with("code"@, JsonView::Integer(200));
    let b = a.with("headers"@, h);
    json::with_then_get(a, "headers"@, h, "headers"@);
    let c = b.with_text("message"@, "ok"@);
    assert("message"@.len() == 7 && "headers"@.len() == 7 && "message"@[0] == 'm' && "headers"@[0]
        == 'h');
    json::with_then_get(b, "message"@, JsonView::Text("ok"@), "headers"@);
    assert("data"@.len() == 4);
    json::with_then_get(c, "data"@, JsonView::Text(data), "headers"@);
}

/// The answer to a frame says that it was taken, in words and as a number, and what
/// it has to say.
pub proof fn answer_says_that_the_frame_was_taken(message_id: Seq<char>, data: Seq<char>)
    ensures
        ({
            let b = taken(message_id, data).document();
            &&& b.get("code"@) == Some(JsonView::Integer(200))
            &&& b.get("headers"@) == Some(
                JsonView::Object(seq![("contentType"@, JsonView::Text("application/json"@)), ("messageId"@, JsonView::Text(message_id))]),
            )
            &&& b.get("message"@) == Some(JsonView::Text("ok"@))
            &&& b.get("data"@) == Some(JsonView::Text(data))
        }),
        default_data(Seq::empty()) == "{\"success\":true}"@,
        data.len() > 0 ==> default_data(data) == data,
{
    let b = taken(message_id, data).document();
    let s = seq![
        ("code"@, JsonView::Integer(200)),
        (
            "headers"@,
            JsonView::Object(seq![("contentType"@, JsonView::Text("application/json"@)), ("messageId"@, JsonView::Text(message_id))]),
        ),
        ("message"@, JsonView::Text("ok"@)),
        ("data"@, JsonView::Text(data)),
    ];
    reveal_strlit("code");
    reveal_strlit("headers");
    reveal_strlit("message");
    reveal_strlit("data");
    assert("code"@.len() != "headers"@.len());
    assert("code"@.len() != "message"@.len());
    assert("code"@[0] != "data"@[0]);
    assert("headers"@[0] != "message"@[0]);
    assert("headers"@.len() != "data"@.len());
    assert("message"@.len() != "data"@.len());
    assert(b->Object_0[1].1->Object_0 =~= s[1].1->Object_0);
    assert(b->Object_0 =~= s);
    json::member_is_found(s, 0, "code"@);
    json::member_is_found(s, 1, "headers"@);
    json::member_is_found(s, 2, "message"@);
    json::member_is_found(s, 3, "data"@);
}

/// A frame says what the members of the document with their names say.
pub proof fn frame_says_what_the_document_says(
    v: JsonView,
    h: Seq<(Seq<char>, JsonView)>,
    i: int,
    value: Seq<char>,
)
    requires
        v is Object,
        frame_of(v) is Some,
        v.get("headers"@) == Some(JsonView::Object(h)),
        0 <= i < h.len(),
        h[i].1 == JsonView::Text(value),
        forall|k: int| i < k < h.len() ==> (#[trigger] h[k]).0 != h[i].0,
    ensures
        ({
            let f = frame_of(v).unwrap();
            &&& v.get("type"@) matches Some(x) ==> x == JsonView::Text(f.kind)
            &&& v.get("type"@) is None ==> f.kind.len() == 0
            &&& v.get("data"@) matches Some(x) ==> x == JsonView::Text(f.data)
            &&& v.get("data"@) is None ==> f.data.len() == 0
            &&& v.get("specVersion"@) matches Some(x) ==> x == JsonView::Text(f.spec_version)
            &&& v.get("time"@) matches Some(x) ==> x == JsonView::Integer(f.time)
            &&& f.header(h[i].0) == value
            &&& h[i].0 == "topic"@ ==> f.topic() == value
            &&& h[i].0 == "messageId"@ ==> f.message_id() == value
        }),
{
    lemma_header_at(h, i, value);
}

proof fn lemma_header_at(h: Seq<(Seq<char>, JsonView)>, i: int, value: Seq<char>)
    requires
        headers_of(h) is Some,
        0 <= i < h.len(),
        h[i].1 == JsonView::Text(value),
        forall|k: int| i < k < h.len() ==> (#[trigger] h[k]).0 != h[i].0,
    ensures
        headers_of(h).unwrap().contains_key(h[i].0),
        headers_of(h).unwrap()[h[i].0] == value,
    decreases h.len(),
{
    if i < h.len() - 1 {
        let t = h.drop_last();
        assert(h[h.len() - 1].0 != h[i].0);
        assert forall|k: int| i < k < t.len() implies (#[trigger] t[k]).0 != t[i].0 by {
            assert(h[k].0 != h[i].0);
        }
        lemma_header_at(t, i, value);
    }
}

/// A document is a frame exactly where each of its members is missing or of its
/// type.
pub proof fn document_is_a_frame_by_its_types(v: JsonView)
    requires
        v is Object,
        v.get("headers"@) is None,
    ensures
        frame_of(v) is Some <==> {
            &&& v.get("specVersion"@) is None || v.get("specVersion"@)->Some_0 is Text
            &&& v.get("type"@) is None || v.get("type"@)->Some_0 is Text
            &&& v.get("time"@) is None || v.get("time"@)->Some_0 is Integer
            &&& v.get("data"@) is None || v.get("data"@)->Some_0 is Text
        },
{
}

/// The request for a connection says who asks, what is wanted and from where.
pub proof fn request_says_who_asks(q: OpenRequestView, i: int)
    requires
        0 <= i < q.subscriptions.len(),
    ensures
        ({
            let b = q.document();
            let subs = b.items_at("subscriptions"@);
            &&& b.get("clientId"@) == Some(JsonView::Text(q.client_id))
            &&& b.get("clientSecret"@) == Some(JsonView::Text(q.client_secret))
            &&& b.get("ua"@) == Some(JsonView::Text(q.ua))
            &&& b.get("localIp"@) == (if q.local_ip.len() > 0 {
                Some(JsonView::Text(q.local_ip))
            } else {
                None
            })
            &&& subs.len() == q.subscriptions.len()
            &&& subs[i].get("type"@) == Some(JsonView::Text(q.subscriptions[i].kind))
            &&& subs[i].get("topic"@) == Some(JsonView::Text(q.subscriptions[i].topic))
        }),
{
    reveal_strlit("clientId");
    reveal_strlit("clientSecret");
    reveal_strlit("subscriptions");
    reveal_strlit("ua");
    reveal_strlit("localIp");
    assert("clientId"@.len() != "clientSecret"@.len());
    assert("clientId"@.len() != "subscriptions"@.len());
    assert("clientId"@.len() != "ua"@.len());
    assert("clientId"@.len() != "localIp"@.len());
    assert("clientSecret"@.len() != "subscriptions"@.len());
    assert("clientSecret"@.len() != "ua"@.len());
    assert("clientSecret"@.len() != "localIp"@.len());
    assert("subscriptions"@.len() != "ua"@.len());
    assert("subscriptions"@.len() != "localIp"@.len());
    assert("ua"@.len() != "localIp"@.len());
    reveal_strlit("type");
    reveal_strlit("topic");
    assert("type"@.len() != "topic"@.len());
    let subs = Seq::new(q.subscriptions.len(), |i: int| q.subscriptions[i].document());
    let head = seq![
        ("clientId"@, JsonView::Text(q.client_id)),
        ("clientSecret"@, JsonView::Text(q.client_secret)),
        ("subscriptions"@, JsonView::Array(subs)),
        ("ua"@, JsonView::Text(q.ua)),
    ];
    let last: Seq<(Seq<char>, JsonView)> = if q.local_ip.len() > 0 {
        seq![("localIp"@, JsonView::Text(q.local_ip))]
    } else {
        Seq::empty()
    };
    let s = head + last;
    assert(q.document()->Object_0 =~= s);
    json::member_is_found(s, 0, "clientId"@);
    json::member_is_found(s, 1, "clientSecret"@);
    json::member_is_found(s, 2, "subscriptions"@);
    json::member_is_found(s, 3, "ua"@);
    if q.local_ip.len() > 0 {
        json::member_is_found(s, 4, "localIp"@);
    } else {
        json::member_is_missing(s, "localIp"@);
    }
    let one = seq![
        ("type"@, JsonView::Text(q.subscriptions[i].kind)),
        ("topic"@, JsonView::Text(q.subscriptions[i].topic)),
    ];
    assert(q.subscriptions[i].document()->Object_0 =~= one);
    json::member_is_found(one, 0, "type"@);
    json::member_is_found(one, 1, "topic"@);
}

/// A frame and the answer to a request for a connection can be lists of their fields
/// in their order.
pub proof fn frames_can_be_lists(f: FrameView, headers: Seq<(Seq<char>, JsonView)>, o: OpenResponseView)
    requires
        headers_of(headers) == Some(f.headers),
    ensures
        frame_of(
            JsonView::Array(
                seq![
                    JsonView::Text(f.spec_version),
                    JsonView::Text(f.kind),
                    JsonView::Integer(f.time),
                    JsonView::Object(headers),
                    JsonView::Text(f.data),
                ],
            ),
        ) == Some(f),
        open_response(
            JsonView::Array(seq![JsonView::Text(o.endpoint), JsonView::Text(o.ticket)]),
        ) == Some(o),
{
}

/// A header is found by its name, the last one where a name stands twice; headers of
/// which one is no text are none.
pub proof fn headers_are_found_by_name(
    s: Seq<(Seq<char>, JsonView)>,
    name: Seq<char>,
    value: Seq<char>,
    v: JsonView,
)
    ensures
        headers_of(s) matches Some(m) ==> headers_of(s.push((name, JsonView::Text(value)))) == Some(
            m.insert(name, value),
        ),
        headers_of(s) is None ==> headers_of(s.push((name, v))) is None,
        !(v is Text) ==> headers_of(s.push((name, v))) is None,
        headers_of(Seq::empty()) == Some(Map::<Seq<char>, Seq<char>>::empty()),
{
    assert(s.push((name, JsonView::Text(value))).drop_last() =~= s);
    assert(s.push((name, v)).drop_last() =~= s);
}

} // verus!
