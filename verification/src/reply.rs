//! Answers to a message.

use crate::error;
use crate::error::{classify_error, is_reply_target_gone, ApiError, ApiErrorView, Error, ErrorView};
use crate::json;
use crate::json::{Json, JsonView};
use crate::keyed::KeyedMap;
use crate::outbound::markdown;
use crate::outbound::splitter;
use crate::outbound::splitter::chunk_text;
use crate::text;
use crate::text::CharClass;
use crate::time;
use crate::time::{now_millis, Clock, Duration};
use crate::types;
use crate::types::{IncomingMessage, MessageView};
use vstd::prelude::*;

verus! {

// ── titles ──

/// The first of the lines that says something, without the marks before it and
/// cut behind twenty characters; a plain word where none does.
pub open spec fn title_of_lines(lines: Seq<Seq<char>>) -> Seq<char>
    decreases lines.len(),
{
    if lines.len() == 0 {
        "Message"@
    } else {
        let t = text::trim_start(lines[0], CharClass::TitleMark);
        if t.len() == 0 {
            title_of_lines(lines.skip(1))
        } else if t.len() > 20 {
            t.take(20)
        } else {
            t
        }
    }
}

/// The title of a text.
pub open spec fn title_of(s: Seq<char>) -> Seq<char> {
    title_of_lines(text::split_on(s, '\n'))
}

/// The title of a text: its first line that says something.
pub fn first_line_title(s: &str) -> (r: String)
    ensures
        r@ == title_of(s@),
{
    let v = text::chars_of(s);
    let lines = text::split_at_char(&v, '\n');
    let ghost all = text::rows(lines@);
    let mut i: usize = 0;
    assert(all.skip(0) =~= all);
    while i < lines.len()
        invariant
            i <= lines@.len(),
            all == text::rows(lines@),
            all == text::split_on(s@, '\n'),
            title_of_lines(all) == title_of_lines(all.skip(i as int)),
        decreases lines@.len() - i,
    {
        let t = text::trimmed_start(&lines[i], CharClass::TitleMark);
        proof {
            assert(all.skip(i as int)[0] == lines@[i as int]@);
            assert(all.skip(i as int).skip(1) =~= all.skip(i + 1));
        }
        if t.len() > 0 {
            if t.len() > 20 {
                let cut = text::slice_of(&t, 0, 20);
                assert(cut@ =~= t@.take(20));
                return text::string_of(&cut);
            }
            return text::string_of(&t);
        }
        i += 1;
    }
    text::owned("Message")
}

/// A title has twenty characters at most.
pub proof fn titles_are_short(lines: Seq<Seq<char>>)
    ensures
        0 < title_of_lines(lines).len() <= 20,
    decreases lines.len(),
{
    reveal_strlit("Message");
    if lines.len() > 0 {
        titles_are_short(lines.skip(1));
    }
}

/// The first text that is not empty, or the empty one.
pub open spec fn first_nonempty(a: Seq<char>, b: Seq<char>) -> Seq<char> {
    if a.len() > 0 {
        a
    } else {
        b
    }
}

/// The first text that is not empty, or the empty one.
pub fn first_non_empty(a: &str, b: &str) -> (r: String)
    ensures
        r@ == first_nonempty(a@, b@),
{
    if !a.is_empty() {
        text::owned(a)
    } else {
        text::owned(b)
    }
}

// ── the way of an answer ──

/// What becomes of an answer.
#[derive(Debug)]
pub enum ReplyPlan {
    /// It cannot be sent.
    Refuse(Error),
    /// The robot sends it of its own accord.
    Proactive(Json),
    /// It is sent to the session in these pieces, one behind the other.
    Deliver(Vec<Json>),
}

pub enum PlanView {
    Refuse(ErrorView),
    Proactive(JsonView),
    Deliver(Seq<JsonView>),
}

impl View for ReplyPlan {
    type V = PlanView;

    open spec fn view(&self) -> PlanView {
        match self {
            ReplyPlan::Refuse(e) => PlanView::Refuse(e@),
            ReplyPlan::Proactive(p) => PlanView::Proactive(p@),
            ReplyPlan::Deliver(ps) => PlanView::Deliver(json::views(ps@)),
        }
    }
}

/// The pieces of a text, each in a message of its own.
pub open spec fn content_pieces(chunks: Seq<Seq<char>>) -> Seq<JsonView> {
    Seq::new(
        chunks.len(),
        |i: int| JsonView::object().with_text("content"@, chunks[i]),
    )
}

/// The pieces of a markdown text, each in a message with the title.
pub open spec fn text_pieces(title: Seq<char>, chunks: Seq<Seq<char>>) -> Seq<JsonView> {
    Seq::new(
        chunks.len(),
        |i: int| JsonView::object().with_text("title"@, title).with_text("text"@, chunks[i]),
    )
}

/// A message in pieces: a text that is too long is cut.
pub open spec fn pieces(param: JsonView, limit: nat) -> Seq<JsonView> {
    if limit == 0 {
        seq![param]
    } else {
        match (param.get("content"@), param.get("text"@)) {
            (Some(JsonView::Text(s)), _) => content_pieces(splitter::text_chunks(s, limit)),
            (_, Some(JsonView::Text(s))) => text_pieces(
                param.text_at("title"@),
                splitter::text_chunks(s, limit),
            ),
            _ => seq![param],
        }
    }
}

/// What becomes of an answer at some time. Where the way to the session is
/// closed, the robot sends it of its own accord, if it can.
pub open spec fn plan(
    m: MessageView,
    param: JsonView,
    can_send: bool,
    limit: nat,
    now_ms: i64,
) -> PlanView {
    let missing = m.session_webhook.len() == 0;
    if missing && !can_send {
        PlanView::Refuse(ErrorView::Channel("reply: sessionWebhook missing"@))
    } else if (missing || types::past_end(m.webhook_expired_at, now_ms)) && can_send {
        PlanView::Proactive(param)
    } else {
        PlanView::Deliver(pieces(param, limit))
    }
}

fn cut_param(param: Json, limit: usize) -> (r: Vec<Json>)
    ensures
        json::views(r@) == pieces(param@, limit as nat),
{
    let mut out: Vec<Json> = Vec::new();
    if limit > 0 {
        if let Some(Json::Text(s)) = param.get("content") {
            let chunks = chunk_text(s.as_str(), limit);
            let ghost all = content_pieces(text::texts(chunks@));
            let mut i: usize = 0;
            while i < chunks.len()
                invariant
                    i <= chunks@.len(),
                    all == content_pieces(text::texts(chunks@)),
                    json::views(out@) =~= all.take(i as int),
                decreases chunks@.len() - i,
            {
                let ghost before = out@;
                let p = Json::object().with_text("content", chunks[i].as_str());
                out.push(p);
                proof {
                    assert(json::views(out@) =~= json::views(before).push(p@));
                    assert(all.take(i + 1) =~= all.take(i as int).push(all[i as int]));
                }
                i += 1;
            }
            assert(all.take(i as int) =~= all);
            return out;
        }
        if let Some(Json::Text(s)) = param.get("text") {
            let title = param.text_at("title");
            let chunks = chunk_text(s.as_str(), limit);
            let ghost all = text_pieces(title@, text::texts(chunks@));
            let mut i: usize = 0;
            while i < chunks.len()
                invariant
                    i <= chunks@.len(),
                    all == text_pieces(title@, text::texts(chunks@)),
                    json::views(out@) =~= all.take(i as int),
                decreases chunks@.len() - i,
            {
                let ghost before = out@;
                let p = Json::object().with_text("title", title).with_text(
                    "text",
                    chunks[i].as_str(),
                );
                out.push(p);
                proof {
                    assert(json::views(out@) =~= json::views(before).push(p@));
                    assert(all.take(i + 1) =~= all.take(i as int).push(all[i as int]));
                }
                i += 1;
            }
            assert(all.take(i as int) =~= all);
            return out;
        }
    }
    let ghost whole = param@;
    out.push(param);
    assert(json::views(out@) =~= seq![whole]);
    out
}

/// What becomes of an answer at the given time.
pub fn plan_reply_at(
    msg: &IncomingMessage,
    param: Json,
    can_send: bool,
    limit: usize,
    now_ms: i64,
) -> (r: ReplyPlan)
    ensures
        r@ == plan(msg@, param@, can_send, limit as nat, now_ms),
{
    let missing = msg.session_webhook.as_str().is_empty();
    if missing && !can_send {
        return ReplyPlan::Refuse(Error::channel("reply: sessionWebhook missing"));
    }
    if (missing || msg.webhook_expired_at_time(now_ms)) && can_send {
        return ReplyPlan::Proactive(param);
    }
    ReplyPlan::Deliver(cut_param(param, limit))
}

/// What becomes of an answer. What the clock says decides only where the way to
/// the session has an end.
pub fn plan_reply(msg: &IncomingMessage, param: Json, can_send: bool, limit: usize) -> (r:
    ReplyPlan)
    ensures
        exists|now_ms: i64| r@ == #[trigger] plan(msg@, param@, can_send, limit as nat, now_ms),
        msg.webhook_expired_at <= 0 ==> r@ == plan(msg@, param@, can_send, limit as nat, 0),
{
    plan_reply_at(msg, param, can_send, limit, now_millis())
}

/// The pieces of a long text without code say together what the text says:
/// nothing is cut away, and none is longer than the limit. Each piece stands in a
/// message of its own, in order.
pub proof fn pieces_keep_the_text(content: Seq<char>, limit: nat)
    requires
        limit > 0,
    ensures
        pieces(JsonView::object().with_text("content"@, content), limit) == content_pieces(
            splitter::text_chunks(content, limit),
        ),
        !text::occurs(content, markdown::fence_mark()) ==> text::concat(
            splitter::text_chunks(content, limit),
        ) == content,
        !text::occurs(content, markdown::fence_mark()) ==> forall|i: int|
            0 <= i < splitter::text_chunks(content, limit).len() ==> (
            #[trigger] splitter::text_chunks(content, limit)[i]).len() <= limit,
{
    json::with_then_get(JsonView::object(), "content"@, JsonView::Text(content), "content"@);
    splitter::plain_pieces_keep_the_text(content, limit);
    let one = seq![content];
    assert(one.drop_last() =~= Seq::<Seq<char>>::empty());
    assert(text::concat(one.drop_last()) =~= Seq::<char>::empty());
    assert(text::concat(one) =~= content);
}

// ── one attempt ──

/// What an answer is sent to the session with, when its words are given.
pub open spec fn webhook_document(msg_key: Seq<char>, param_text: Seq<char>) -> JsonView {
    JsonView::object().with_text("msgKey"@, msg_key).with_text("msgParam"@, param_text)
}

/// What an answer is sent to the session with.
pub fn webhook_body(msg_key: &str, param: &Json) -> (r: Json)
    ensures
        r@ == webhook_document(msg_key@, json::json_text(param@)),
{
    let words = json::to_text(param);
    Json::object().with_text("msgKey", msg_key).with_text("msgParam", words.as_str())
}

/// What the answer of the session is taken as.
pub open spec fn webhook_outcome(status: u16, raw: Seq<char>) -> Option<ErrorView> {
    if status >= 400 {
        Some(
            ErrorView::Api(
                ApiErrorView { status, code: Seq::empty(), msg: Seq::empty(), body: raw },
            ),
        )
    } else {
        None
    }
}

/// What the answer of the session is taken as.
pub fn accept_webhook_answer(status: u16, raw: &str) -> (r: Result<(), Error>)
    ensures
        match r {
            Ok(()) => webhook_outcome(status, raw@) is None,
            Err(e) => webhook_outcome(status, raw@) == Some(e@),
        },
{
    if status >= 400 {
        return Err(
            Error::Api(
                ApiError {
                    status,
                    code: String::new(),
                    msg: String::new(),
                    body: text::owned(raw),
                },
            ),
        );
    }
    Ok(())
}

/// Whether the robot sends an answer of its own accord behind an error: where
/// it can, and the session is gone.
pub fn falls_back(err: &Error, can_send: bool) -> (r: bool)
    ensures
        r == (can_send && error::target_gone(error::classified_view(err@))),
{
    if !can_send {
        return false;
    }
    let classified = classify_error(err);
    is_reply_target_gone(&classified)
}

/// A session that is not found is gone.
pub proof fn missing_session_is_gone(e: ApiErrorView)
    requires
        e.status == 404,
    ensures
        error::target_gone(error::classified_view(ErrorView::Api(e))),
{
}

/// An answer once a hook gave another one in its place, which was read as JSON
/// with the given outcome: only an object replaces it.
pub open spec fn replacement(param: JsonView, read: Option<Result<JsonView, Seq<char>>>) -> JsonView {
    match read {
        Some(Ok(JsonView::Object(s))) => JsonView::Object(s),
        _ => param,
    }
}

/// An answer once a hook gave another one in its place, which was read as JSON
/// with the given outcome.
pub fn replace_read(param: Json, read: Option<Result<Json, String>>) -> (r: Json)
    ensures
        r@ == replacement(
            param@,
            match read {
                Some(x) => Some(json::outcome(x)),
                None => None,
            },
        ),
{
    match read {
        Some(Ok(Json::Object(items))) => Json::Object(items),
        _ => param,
    }
}

/// An answer once a hook gave another one in its place, or none.
pub fn replace_param(param: Json, given: Option<&str>) -> (r: Json)
    ensures
        r@ == replacement(
            param@,
            match given {
                Some(s) => Some(json::parsed_json(vstd::utf8::encode_utf8(s@))),
                None => None,
            },
        ),
{
    match given {
        Some(s) => replace_read(param, Some(json::parse(s.as_bytes()))),
        None => param,
    }
}

// ── errors that are told once ──

/// Whether an error may be told to a conversation at some time.
pub open spec fn may_tell(
    last: Map<Seq<char>, Duration>,
    key: Seq<char>,
    cooldown: Duration,
    now: Duration,
) -> bool {
    cooldown.nanos == 0 || !last.contains_key(key) || time::difference(now, last[key])
        >= cooldown.nanos
}

/// When errors were told last, once one may be told or not.
pub open spec fn after_telling(
    last: Map<Seq<char>, Duration>,
    key: Seq<char>,
    cooldown: Duration,
    now: Duration,
) -> Map<Seq<char>, Duration> {
    if cooldown.nanos == 0 || !may_tell(last, key, cooldown, now) {
        last
    } else if last.dom().len() > 4096 {
        Map::<Seq<char>, Duration>::empty().insert(key, now)
    } else {
        last.insert(key, now)
    }
}

/// Remembers when an error was told to a conversation.
pub struct ErrorCooldown {
    last: KeyedMap<Duration>,
    clock: Clock,
}

impl ErrorCooldown {
    /// When an error was told last, by conversation.
    pub closed spec fn told(&self) -> Map<Seq<char>, Duration> {
        self.last@
    }

    pub closed spec fn wf(&self) -> bool {
        self.last.wf()
    }

    pub fn new() -> (r: ErrorCooldown)
        ensures
            r.wf(),
            r.told() == Map::<Seq<char>, Duration>::empty(),
    {
        ErrorCooldown { last: KeyedMap::new(), clock: Clock::start() }
    }

    /// Whether an error may be told to a conversation at the given time; if so,
    /// it is noted.
    pub fn pass_at(&mut self, key: &str, cooldown: Duration, now: Duration) -> (r: bool)
        requires
            old(self).wf(),
        ensures
            final(self).wf(),
            r == may_tell(old(self).told(), key@, cooldown, now),
            final(self).told() == after_telling(old(self).told(), key@, cooldown, now),
    {
        if cooldown.is_zero() {
            return true;
        }
        if let Some(t) = self.last.get(key) {
            if now.minus(*t).nanos < cooldown.nanos {
                return false;
            }
        }
        if self.last.len() > 4096 {
            self.last.clear();
        }
        self.last.insert(text::owned(key), now);
        true
    }

    /// Whether an error may be told to a conversation; if so, it is noted. What
    /// the clock says decides where one was told before.
    pub fn error_cooldown_pass(&mut self, key: &str, cooldown: Duration) -> (r: bool)
        requires
            old(self).wf(),
        ensures
            final(self).wf(),
            cooldown.nanos == 0 || !old(self).told().contains_key(key@) ==> r,
            exists|now: Duration|
                {
                    &&& r == may_tell(old(self).told(), key@, cooldown, now)
                    &&& final(self).told() == #[trigger] after_telling(
                        old(self).told(),
                        key@,
                        cooldown,
                        now,
                    )
                },
    {
        let now = self.clock.now();
        self.pass_at(key, cooldown, now)
    }
}

/// Once an error was told, it is not told to that conversation again until the
/// time is over; other conversations are told.
pub proof fn error_is_told_once(
    last: Map<Seq<char>, Duration>,
    key: Seq<char>,
    cooldown: Duration,
    now: Duration,
    then: Duration,
    other: Seq<char>,
)
    requires
        cooldown.nanos > 0,
        may_tell(last, key, cooldown, now),
    ensures
        may_tell(after_telling(last, key, cooldown, now), key, cooldown, then)
            <==> time::difference(then, now) >= cooldown.nanos,
        other != key && may_tell(last, other, cooldown, then) ==> may_tell(
            after_telling(last, key, cooldown, now),
            other,
            cooldown,
            then,
        ),
{
}

/// An answer to a session that is gone or past its end is sent by the robot of
/// its own accord, whole; every other one goes to the session.
pub proof fn closed_session_is_answered_otherwise(
    m: MessageView,
    param: JsonView,
    limit: nat,
    now_ms: i64,
)
    ensures
        plan(m, param, true, limit, now_ms) == (if m.session_webhook.len() == 0
            || types::past_end(m.webhook_expired_at, now_ms) {
            PlanView::Proactive(param)
        } else {
            PlanView::Deliver(pieces(param, limit))
        }),
{
}

/// The title of a text is its first line that says something, without the marks
/// before it and cut behind twenty characters.
pub proof fn title_is_the_first_line(marks: Seq<char>, said: Seq<char>, rest: Seq<char>)
    requires
        forall|i: int|
            0 <= i < marks.len() ==> #[trigger] marks[i] == '#' || marks[i] == ' ' || marks[i]
                == '*' || marks[i] == '-' || marks[i] == '>',
        said.len() > 0,
        'a' <= said[0] <= 'z' || 'A' <= said[0] <= 'Z',
        !said.contains('\n'),
    ensures
        said.len() <= 20 ==> title_of(marks + said + seq!['\n'] + rest) == said,
        said.len() > 20 ==> title_of(marks + said + seq!['\n'] + rest) == said.take(20),
{
    let line = marks + said;
    let s = marks + said + seq!['\n'] + rest;
    let n = marks.len() as int;
    assert forall|i: int| 0 <= i < n implies #[trigger] text::in_class(
        line[i],
        CharClass::TitleMark,
    ) by {
        assert(line[i] == marks[i]);
    }
    assert(line[n] == said[0]);
    text::run_ends_before_others(line, CharClass::TitleMark, n);
    assert(line.skip(n) =~= said);
    assert forall|i: int| 0 <= i < line.len() implies line[i] != '\n' by {
        if i < n {
            assert(line[i] == marks[i]);
        } else {
            assert(said.contains(said[i - n]));
        }
    }
    text::first_piece_ends_at_the_separator(line, rest, '\n');
    assert(s =~= line + seq!['\n'] + rest);
}

/// An answer goes to the session that is open, in one piece where it fits.
pub proof fn short_answer_goes_to_the_open_session(
    m: MessageView,
    content: Seq<char>,
    title: Seq<char>,
    can_send: bool,
    limit: nat,
    now_ms: i64,
)
    requires
        m.session_webhook.len() > 0,
        m.webhook_expired_at <= 0 || now_ms <= m.webhook_expired_at,
        limit == 0 || content.len() <= limit,
    ensures
        ({
            let p = JsonView::object().with_text("content"@, content);
            plan(m, p, can_send, limit, now_ms) == PlanView::Deliver(seq![p])
        }),
        ({
            let p = JsonView::object().with_text("title"@, title).with_text("text"@, content);
            plan(m, p, can_send, limit, now_ms) == PlanView::Deliver(seq![p])
        }),
{
    reveal_strlit("content");
    reveal_strlit("title");
    reveal_strlit("text");
    assert("content"@.len() != "title"@.len());
    assert("content"@.len() != "text"@.len());
    assert("title"@.len() != "text"@.len());
    let one = seq![("content"@, JsonView::Text(content))];
    let two = seq![("title"@, JsonView::Text(title)), ("text"@, JsonView::Text(content))];
    let p = JsonView::object().with_text("content"@, content);
    let q = JsonView::object().with_text("title"@, title).with_text("text"@, content);
    assert(p->Object_0 =~= one);
    assert(q->Object_0 =~= two);
    json::member_is_found(one, 0, "content"@);
    json::member_is_missing(two, "content"@);
    json::member_is_found(two, 0, "title"@);
    json::member_is_found(two, 1, "text"@);
    assert(splitter::text_chunks(content, limit) =~= seq![content]);
    assert(pieces(p, limit) =~= seq![p]);
    assert(pieces(q, limit) =~= seq![q]);
}

/// A long answer goes to the open session in the chunks of its text, each in a
/// message of its own, in order; those of a markdown text all have its title.
pub proof fn long_answer_goes_in_its_chunks(
    m: MessageView,
    content: Seq<char>,
    title: Seq<char>,
    can_send: bool,
    limit: nat,
    now_ms: i64,
    i: int,
)
    requires
        m.session_webhook.len() > 0,
        m.webhook_expired_at <= 0 || now_ms <= m.webhook_expired_at,
        limit > 0,
        0 <= i < splitter::text_chunks(content, limit).len(),
    ensures
        ({
            let chunks = splitter::text_chunks(content, limit);
            let a = plan(
                m,
                JsonView::object().with_text("content"@, content),
                can_send,
                limit,
                now_ms,
            );
            let b = plan(
                m,
                JsonView::object().with_text("title"@, title).with_text("text"@, content),
                can_send,
                limit,
                now_ms,
            );
            &&& a is Deliver && a->Deliver_0.len() == chunks.len()
            &&& a->Deliver_0[i].get("content"@) == Some(JsonView::Text(chunks[i]))
            &&& b is Deliver && b->Deliver_0.len() == chunks.len()
            &&& b->Deliver_0[i].get("text"@) == Some(JsonView::Text(chunks[i]))
            &&& b->Deliver_0[i].get("title"@) == Some(JsonView::Text(title))
        }),
{
    reveal_strlit("content");
    reveal_strlit("title");
    reveal_strlit("text");
    assert("content"@.len() != "title"@.len());
    assert("content"@.len() != "text"@.len());
    assert("title"@.len() != "text"@.len());
    let chunks = splitter::text_chunks(content, limit);
    let one = seq![("content"@, JsonView::Text(content))];
    let two = seq![("title"@, JsonView::Text(title)), ("text"@, JsonView::Text(content))];
    assert(JsonView::object().with_text("content"@, content)->Object_0 =~= one);
    assert(JsonView::object().with_text("title"@, title).with_text("text"@, content)->Object_0
        =~= two);
    json::member_is_found(one, 0, "content"@);
    json::member_is_missing(two, "content"@);
    json::member_is_found(two, 0, "title"@);
    json::member_is_found(two, 1, "text"@);
    let c = seq![("content"@, JsonView::Text(chunks[i]))];
    let d = seq![("title"@, JsonView::Text(title)), ("text"@, JsonView::Text(chunks[i]))];
    assert(content_pieces(chunks)[i]->Object_0 =~= c);
    assert(text_pieces(title, chunks)[i]->Object_0 =~= d);
    json::member_is_found(c, 0, "content"@);
    json::member_is_found(d, 0, "title"@);
    json::member_is_found(d, 1, "text"@);
}

/// Without a session an answer is sent by the robot of its own accord, or refused
/// where it cannot; so it is once the session is past its end.
pub proof fn answer_without_a_session(m: MessageView, param: JsonView, limit: nat, now_ms: i64)
    ensures
        m.session_webhook.len() == 0 ==> plan(m, param, true, limit, now_ms)
            == PlanView::Proactive(param),
        m.session_webhook.len() == 0 ==> plan(m, param, false, limit, now_ms) == PlanView::Refuse(
            ErrorView::Channel("reply: sessionWebhook missing"@),
        ),
        0 < m.webhook_expired_at < now_ms ==> plan(m, param, true, limit, now_ms)
            == PlanView::Proactive(param),
{
}

/// The session is sent the template and what fills it.
pub proof fn session_is_sent_the_message(msg_key: Seq<char>, param_text: Seq<char>)
    ensures
        webhook_document(msg_key, param_text).get("msgKey"@) == Some(JsonView::Text(msg_key)),
        webhook_document(msg_key, param_text).get("msgParam"@) == Some(
            JsonView::Text(param_text),
        ),
{
    reveal_strlit("msgKey");
    reveal_strlit("msgParam");
    assert("msgKey"@.len() != "msgParam"@.len());
    let s = seq![("msgKey"@, JsonView::Text(msg_key)), ("msgParam"@, JsonView::Text(param_text))];
    assert(webhook_document(msg_key, param_text)->Object_0 =~= s);
    json::member_is_found(s, 0, "msgKey"@);
    json::member_is_found(s, 1, "msgParam"@);
}

/// An answer of the session is an error from 400 on.
pub proof fn session_refuses_from_400_on(status: u16, raw: Seq<char>)
    ensures
        webhook_outcome(status, raw) is Some <==> status >= 400,
        webhook_outcome(status, raw) matches Some(e) ==> e matches ErrorView::Api(a) && a.status
            == status && a.body == raw,
{
}

/// Only an object takes the place of an answer.
pub proof fn only_an_object_replaces_an_answer(
    param: JsonView,
    s: Seq<(Seq<char>, JsonView)>,
    words: Seq<char>,
)
    ensures
        replacement(param, Some(Ok(JsonView::Object(s)))) == JsonView::Object(s),
        replacement(param, Some(Ok(JsonView::Text(words)))) == param,
        replacement(param, Some(Err(words))) == param,
        replacement(param, None) == param,
{
}

/// The first error in a conversation is told, and every one is where there is no
/// time to wait.
pub proof fn first_error_is_told(
    last: Map<Seq<char>, Duration>,
    key: Seq<char>,
    cooldown: Duration,
    now: Duration,
)
    ensures
        !last.contains_key(key) ==> may_tell(last, key, cooldown, now),
        cooldown.nanos == 0 ==> may_tell(last, key, cooldown, now),
        last.contains_key(key) && last[key].nanos <= now.nanos && cooldown.nanos > 0 ==> (may_tell(
            last,
            key,
            cooldown,
            now,
        ) <==> now.nanos - last[key].nanos >= cooldown.nanos),
{
}

/// An error that is told is remembered with its time; where more than 4096
/// conversations are remembered, all others are forgotten. One that is not told
/// changes nothing.
pub proof fn told_errors_are_remembered(
    last: Map<Seq<char>, Duration>,
    key: Seq<char>,
    cooldown: Duration,
    now: Duration,
    other: Seq<char>,
)
    requires
        cooldown.nanos > 0,
        other != key,
    ensures
        ({
            let after = after_telling(last, key, cooldown, now);
            let told = may_tell(last, key, cooldown, now);
            &&& told ==> after.contains_key(key) && after[key] == now
            &&& told && last.dom().len() <= 4096 ==> after.contains_key(other)
                == last.contains_key(other) && (last.contains_key(other) ==> after[other]
                == last[other])
            &&& told && last.dom().len() > 4096 ==> !after.contains_key(other)
            &&& !told ==> after == last
        }),
{
}

} // verus!
