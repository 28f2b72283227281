//! The connection that the channel opens.

use crate::chance::below;
use crate::config::{TOPIC_BOT_MESSAGE, TOPIC_CARD_INSTANCE_CB, USER_AGENT};
use crate::error::{Error, ErrorView};
use crate::frame;
use crate::frame::{
    echo_ack, read_frame, read_open_response, success_ack, Frame, FrameView, OpenConnectionRequest,
    OpenRequestView, OpenResponseView, Subscription, SubscriptionView, SUB_CALLBACK, SUB_SYSTEM,
};
use crate::json;
use crate::json::{Json, JsonView};
use crate::text;
use crate::time;
use crate::time::Duration;
use crate::types;
use crate::url;
use vstd::prelude::*;

verus! {

// ── opening ──

/// What the channel wants to be told: signs of life, the end of the connection,
/// messages, and actions on cards where somebody handles them.
pub open spec fn wanted(card_topic: bool) -> Seq<SubscriptionView> {
    let common = seq![
        SubscriptionView { kind: SUB_SYSTEM@, topic: "ping"@ },
        SubscriptionView { kind: SUB_SYSTEM@, topic: "disconnect"@ },
        SubscriptionView { kind: SUB_CALLBACK@, topic: TOPIC_BOT_MESSAGE@ },
    ];
    if card_topic {
        common.push(SubscriptionView { kind: SUB_CALLBACK@, topic: TOPIC_CARD_INSTANCE_CB@ })
    } else {
        common
    }
}

/// The request for a connection.
pub fn open_request(client_id: &str, client_secret: &str, card_topic: bool, local_ip: &str) -> (r:
    OpenConnectionRequest)
    ensures
        r@ == (OpenRequestView {
            client_id: client_id@,
            client_secret: client_secret@,
            subscriptions: wanted(card_topic),
            ua: USER_AGENT@,
            local_ip: local_ip@,
        }),
{
    let mut subs: Vec<Subscription> = Vec::new();
    subs.push(Subscription::new(SUB_SYSTEM, "ping"));
    subs.push(Subscription::new(SUB_SYSTEM, "disconnect"));
    subs.push(Subscription::new(SUB_CALLBACK, TOPIC_BOT_MESSAGE));
    if card_topic {
        subs.push(Subscription::new(SUB_CALLBACK, TOPIC_CARD_INSTANCE_CB));
    }
    assert(types::views(subs@) =~= wanted(card_topic));
    OpenConnectionRequest {
        client_id: text::owned(client_id),
        client_secret: text::owned(client_secret),
        subscriptions: subs,
        ua: text::owned(USER_AGENT),
        local_ip: text::owned(local_ip),
    }
}

/// Where a connection is asked for.
pub open spec fn open_address(api_base: Seq<char>) -> Seq<char> {
    api_base + "/v1.0/gateway/connections/open"@
}

/// Where a connection is asked for.
pub fn open_url(api_base: &str) -> (r: String)
    ensures
        r@ == api_base@ + "/v1.0/gateway/connections/open"@,
        r@ == open_address(api_base@),
{
    text::cat(api_base, "/v1.0/gateway/connections/open")
}

/// What comes of the answer to the request for a connection, when its body was
/// read as JSON with the given outcome.
pub open spec fn opened(
    status: u16,
    raw: Seq<char>,
    read: Result<JsonView, Seq<char>>,
) -> Result<OpenResponseView, ErrorView> {
    if status != 200 {
        Err(
            ErrorView::Channel(
                "gateway open: http "@ + text::decimal(status as nat) + ": "@ + raw,
            ),
        )
    } else {
        match read {
            Err(e) => Err(ErrorView::Json(e)),
            Ok(v) => match frame::open_response(v) {
                None => Err(ErrorView::Json("gateway answer of an unexpected type"@)),
                Some(o) => if o.endpoint.len() == 0 || o.ticket.len() == 0 {
                    Err(ErrorView::Channel("gateway open: empty endpoint/ticket"@))
                } else {
                    Ok(o)
                },
            },
        }
    }
}

pub open spec fn opened_view(r: Result<(String, String), Error>) -> Result<
    OpenResponseView,
    ErrorView,
> {
    match r {
        Ok((endpoint, ticket)) => Ok(OpenResponseView { endpoint: endpoint@, ticket: ticket@ }),
        Err(e) => Err(e@),
    }
}

/// The endpoint and the ticket in the answer to the request for a connection,
/// when its body was read as JSON with the given outcome.
pub fn read_opened(status: u16, raw: &str, read: Result<Json, String>) -> (r: Result<
    (String, String),
    Error,
>)
    ensures
        opened_view(r) == opened(status, raw@, json::outcome(read)),
{
    if status != 200 {
        let mut message = text::owned("gateway open: http ");
        message.append(text::decimal_text(status as u64).as_str());
        message.append(": ");
        message.append(raw);
        return Err(Error::channel(message.as_str()));
    }
    match read {
        Err(e) => Err(Error::Json(e)),
        Ok(v) => match read_open_response(&v) {
            None => Err(Error::Json(text::owned("gateway answer of an unexpected type"))),
            Some(o) => {
                if o.endpoint.as_str().is_empty() || o.ticket.as_str().is_empty() {
                    Err(Error::channel("gateway open: empty endpoint/ticket"))
                } else {
                    Ok((o.endpoint, o.ticket))
                }
            },
        },
    }
}

/// The endpoint and the ticket in the answer to the request for a connection.
pub fn accept_opened(status: u16, raw: &str) -> (r: Result<(String, String), Error>)
    ensures
        opened_view(r) == opened(
            status,
            raw@,
            json::parsed_json(vstd::utf8::encode_utf8(raw@)),
        ),
{
    read_opened(status, raw, json::parse(raw.as_bytes()))
}

/// The address of the connection.
pub open spec fn connection_address(endpoint: Seq<char>, ticket: Seq<char>) -> Seq<char> {
    endpoint + "?ticket="@ + url::percent_encoded(ticket)
}

/// The address of the connection. The ticket is written as addresses need it.
pub fn connection_url(endpoint: &str, ticket: &str) -> (r: String)
    ensures
        r@ == endpoint@ + "?ticket="@ + url::percent_encoded(ticket@),
        r@ == connection_address(endpoint@, ticket@),
{
    let mut s = text::owned(endpoint);
    s.append("?ticket=");
    s.append(url::percent_encode(ticket).as_str());
    s
}

// ── frames ──

/// What is done with a frame.
pub struct HandlingView {
    /// The answer that is sent at once.
    pub ack: Option<Seq<char>>,
    /// The connection is to be closed and opened again.
    pub disconnect: bool,
    /// The frame that is handled behind the answer.
    pub frame: Option<FrameView>,
}

/// What is done with a frame.
#[derive(Debug)]
pub struct FrameHandle {
    pub ack: Option<String>,
    pub disconnect: bool,
    pub frame: Option<Frame>,
}

impl View for FrameHandle {
    type V = HandlingView;

    open spec fn view(&self) -> HandlingView {
        HandlingView {
            ack: match self.ack {
                Some(s) => Some(s@),
                None => None,
            },
            disconnect: self.disconnect,
            frame: match self.frame {
                Some(f) => Some(f@),
                None => None,
            },
        }
    }
}

/// What is not a frame is not answered.
pub open spec fn ignored() -> HandlingView {
    HandlingView { ack: None, disconnect: false, frame: None }
}

/// What is done with a frame: a sign of life is given back with its data, the
/// end of the connection is answered and followed, and all else is answered at
/// once and handled behind the answer.
pub open spec fn handling_of(f: FrameView) -> HandlingView {
    let plain = frame::taken(f.message_id(), frame::default_data(Seq::empty())).document();
    if f.kind == SUB_SYSTEM@ && f.topic() == "ping"@ {
        HandlingView {
            ack: Some(json::json_text(frame::taken(f.message_id(), f.data).document())),
            disconnect: false,
            frame: None,
        }
    } else if f.kind == SUB_SYSTEM@ && f.topic() == "disconnect"@ {
        HandlingView { ack: Some(json::json_text(plain)), disconnect: true, frame: None }
    } else {
        HandlingView { ack: Some(json::json_text(plain)), disconnect: false, frame: Some(f) }
    }
}

/// What is done with a text that was read as JSON with the given outcome.
pub open spec fn handling(read: Result<JsonView, Seq<char>>) -> HandlingView {
    match read {
        Err(_) => ignored(),
        Ok(v) => match frame::frame_of(v) {
            None => ignored(),
            Some(f) => handling_of(f),
        },
    }
}

/// What is done with a text that was read as JSON with the given outcome.
pub fn handle_read_frame(read: Result<Json, String>) -> (r: FrameHandle)
    ensures
        r@ == handling(json::outcome(read)),
{
    let f = match read {
        Err(_) => return FrameHandle { ack: None, disconnect: false, frame: None },
        Ok(v) => match read_frame(&v) {
            None => return FrameHandle { ack: None, disconnect: false, frame: None },
            Some(f) => f,
        },
    };
    proof {
        reveal_strlit("");
        assert(""@ =~= Seq::<char>::empty());
    }
    let system = text::same(f.kind.as_str(), SUB_SYSTEM);
    if system && text::same(f.topic(), "ping") {
        let ack = echo_ack(f.message_id(), f.data.as_str()).to_json();
        return FrameHandle { ack: Some(json::to_text(&ack)), disconnect: false, frame: None };
    }
    let ack = success_ack(f.message_id(), "").to_json();
    let words = json::to_text(&ack);
    if system && text::same(f.topic(), "disconnect") {
        return FrameHandle { ack: Some(words), disconnect: true, frame: None };
    }
    FrameHandle { ack: Some(words), disconnect: false, frame: Some(f) }
}

/// What is done with a text that came over the connection.
pub fn handle_frame(raw: &str) -> (r: FrameHandle)
    ensures
        r@ == handling(json::parsed_json(vstd::utf8::encode_utf8(raw@))),
{
    handle_read_frame(json::parse(raw.as_bytes()))
}

/// Every frame is answered.
pub proof fn every_frame_is_answered(f: FrameView)
    ensures
        handling_of(f).ack is Some,
{
}

/// A frame is handled exactly where it is no sign of life and not the end of
/// the connection; only the latter closes it.
pub proof fn business_frames_are_handled(f: FrameView)
    ensures
        handling_of(f).frame is Some <==> !(f.kind == SUB_SYSTEM@ && (f.topic() == "ping"@
            || f.topic() == "disconnect"@)),
        handling_of(f).frame is Some ==> handling_of(f).frame == Some(f)
            && !handling_of(f).disconnect,
{
}

// ── reading ──

/// Something that happens on the connection.
#[derive(Debug)]
pub enum LinkEvent {
    /// The channel was closed.
    Stopped,
    /// Nothing came for as long as the connection waits.
    Silent,
    /// The connection ended.
    Ended,
    /// The connection failed.
    Failed(Error),
    /// A text came.
    Text(String),
    /// The other side gave a sign of life.
    Pong,
    /// The other side closed the connection.
    Close,
    /// Anything else.
    Other,
}

/// What is sent over the connection.
#[derive(Debug)]
pub enum Outgoing {
    Text(String),
    /// Asks for a sign of life.
    Ping,
}

/// What is to be done behind an event.
#[derive(Debug)]
pub struct LinkStep {
    pub send: Option<Outgoing>,
    pub frame: Option<Frame>,
    /// The connection is over, with this outcome.
    pub end: Option<Result<(), Error>>,
}

/// What is sent over the connection.
pub enum OutgoingView {
    Text(Seq<char>),
    Ping,
}

/// What is to be done behind an event.
pub struct StepView {
    pub send: Option<OutgoingView>,
    pub frame: Option<FrameView>,
    pub end: Option<Result<(), ErrorView>>,
}

impl View for LinkStep {
    type V = StepView;

    open spec fn view(&self) -> StepView {
        StepView {
            send: match self.send {
                Some(Outgoing::Text(s)) => Some(OutgoingView::Text(s@)),
                Some(Outgoing::Ping) => Some(OutgoingView::Ping),
                None => None,
            },
            frame: match self.frame {
                Some(f) => Some(f@),
                None => None,
            },
            end: match self.end {
                Some(Ok(())) => Some(Ok(())),
                Some(Err(e)) => Some(Err(e@)),
                None => None,
            },
        }
    }
}

/// Nothing is to be done.
pub open spec fn go_on() -> StepView {
    StepView { send: None, frame: None, end: None }
}

/// The connection is over with an error.
pub open spec fn over(message: Seq<char>) -> StepView {
    StepView { send: None, frame: None, end: Some(Err(ErrorView::Channel(message))) }
}

/// What is to be done behind a text with some handling.
pub open spec fn text_step(h: HandlingView) -> StepView {
    StepView {
        send: match h.ack {
            Some(s) => Some(OutgoingView::Text(s)),
            None => None,
        },
        frame: h.frame,
        end: if h.disconnect {
            Some(Err(ErrorView::Channel("server requested disconnect"@)))
        } else {
            None
        },
    }
}

/// What is to be done behind an event, where a sign of life is waited for or
/// not.
pub open spec fn link_step(awaiting: bool, e: LinkEvent) -> StepView {
    match e {
        LinkEvent::Stopped => StepView { send: None, frame: None, end: Some(Ok(())) },
        LinkEvent::Silent => if awaiting {
            over("pong timeout"@)
        } else {
            StepView { send: Some(OutgoingView::Ping), frame: None, end: None }
        },
        LinkEvent::Ended => over("connection closed"@),
        LinkEvent::Failed(err) => StepView { send: None, frame: None, end: Some(Err(err@)) },
        LinkEvent::Text(raw) => text_step(
            handling(json::parsed_json(vstd::utf8::encode_utf8(raw@))),
        ),
        LinkEvent::Pong => go_on(),
        LinkEvent::Close => over("connection closed by server"@),
        LinkEvent::Other => go_on(),
    }
}

/// An open connection: it waits for something to come, and where nothing does
/// for some time, for a sign of life.
#[derive(Debug, Clone, Copy, PartialEq, Eq, Structural)]
pub struct Link {
    idle: Duration,
    /// The end of the wait for a sign of life.
    awaiting: Option<Duration>,
}

/// The end of the wait for a sign of life behind an event at some time: it begins
/// where nothing came, and ends with a sign of life.
pub open spec fn deadline_after(
    deadline: Option<Duration>,
    e: LinkEvent,
    now: Duration,
) -> Option<Duration> {
    match e {
        LinkEvent::Silent => if deadline is None {
            Some(Duration { nanos: time::sum(now, Duration { nanos: 5_000_000_000 }) as u128 })
        } else {
            deadline
        },
        LinkEvent::Pong => None,
        _ => deadline,
    }
}

/// How long to wait for the next event at some time.
pub open spec fn wait_for(deadline: Option<Duration>, patience: Duration, now: Duration) -> nat {
    match deadline {
        Some(end) => time::difference(end, now),
        None => patience.nanos as nat,
    }
}

impl Link {
    /// How long nothing may come before a sign of life is asked for.
    pub closed spec fn patience(&self) -> Duration {
        self.idle
    }

    /// The end of the wait for a sign of life, where one was asked for.
    pub closed spec fn deadline(&self) -> Option<Duration> {
        self.awaiting
    }

    pub fn new(idle: Duration) -> (r: Link)
        ensures
            r.patience() == idle,
            r.deadline() is None,
    {
        Link { idle, awaiting: None }
    }

    /// How long to wait for the next event at some time.
    pub fn timeout(&self, now: Duration) -> (r: Duration)
        ensures
            r.nanos == (match self.deadline() {
                Some(end) => time::difference(end, now),
                None => self.patience().nanos as nat,
            }),
            r.nanos == wait_for(self.deadline(), self.patience(), now),
    {
        match self.awaiting {
            Some(end) => end.minus(now),
            None => self.idle,
        }
    }

    /// What is to be done behind an event at some time.
    pub fn step(&mut self, event: LinkEvent, now: Duration) -> (r: LinkStep)
        ensures
            r@ == link_step(old(self).deadline() is Some, event),
            final(self).patience() == old(self).patience(),
            final(self).deadline() == (match event {
                LinkEvent::Silent => if old(self).deadline() is None {
                    Some(
                        Duration {
                            nanos: time::sum(now, Duration { nanos: 5_000_000_000 }) as u128,
                        },
                    )
                } else {
                    old(self).deadline()
                },
                LinkEvent::Pong => None,
                _ => old(self).deadline(),
            }),
            final(self).deadline() == deadline_after(old(self).deadline(), event, now),
    {
        match event {
            LinkEvent::Stopped => LinkStep { send: None, frame: None, end: Some(Ok(())) },
            LinkEvent::Silent => {
                if self.awaiting.is_some() {
                    LinkStep {
                        send: None,
                        frame: None,
                        end: Some(Err(Error::channel("pong timeout"))),
                    }
                } else {
                    self.awaiting = Some(now.plus(Duration::from_secs(5)));
                    LinkStep { send: Some(Outgoing::Ping), frame: None, end: None }
                }
            },
            LinkEvent::Ended => LinkStep {
                send: None,
                frame: None,
                end: Some(Err(Error::channel("connection closed"))),
            },
            LinkEvent::Failed(err) => LinkStep { send: None, frame: None, end: Some(Err(err)) },
            LinkEvent::Text(raw) => {
                let h = handle_frame(raw.as_str());
                LinkStep {
                    send: match h.ack {
                        Some(s) => Some(Outgoing::Text(s)),
                        None => None,
                    },
                    frame: h.frame,
                    end: if h.disconnect {
                        Some(Err(Error::channel("server requested disconnect")))
                    } else {
                        None
                    },
                }
            },
            LinkEvent::Pong => {
                self.awaiting = None;
                LinkStep { send: None, frame: None, end: None }
            },
            LinkEvent::Close => LinkStep {
                send: None,
                frame: None,
                end: Some(Err(Error::channel("connection closed by server"))),
            },
            LinkEvent::Other => LinkStep { send: None, frame: None, end: None },
        }
    }
}

// ── opening again ──

/// The wait before the connection is opened again, in milliseconds: a second,
/// twice as long with every attempt, half a minute at most.
pub open spec fn pause_ms(attempt: nat) -> nat {
    if attempt == 0 {
        1_000
    } else if attempt == 1 {
        2_000
    } else if attempt == 2 {
        4_000
    } else if attempt == 3 {
        8_000
    } else if attempt == 4 {
        16_000
    } else {
        30_000
    }
}

/// The wait before an attempt, with some milliseconds more.
pub fn backoff_with(attempt: u32, jitter: u64) -> (r: Duration)
    requires
        jitter < 1000,
    ensures
        r.nanos == (pause_ms(attempt as nat) + jitter) * 1_000_000,
{
    let ms: u64 = if attempt == 0 {
        1_000
    } else if attempt == 1 {
        2_000
    } else if attempt == 2 {
        4_000
    } else if attempt == 3 {
        8_000
    } else if attempt == 4 {
        16_000
    } else {
        30_000
    };
    Duration::from_millis(ms + jitter)
}

/// The wait before an attempt. Chance adds less than a second.
pub fn backoff_delay(attempt: u32) -> (r: Duration)
    ensures
        pause_ms(attempt as nat) * 1_000_000 <= r.nanos < (pause_ms(attempt as nat) + 1000)
            * 1_000_000,
{
    let jitter: u64 = below(1000) as u64;
    backoff_with(attempt, jitter)
}

/// The wait doubles from a second up to half a minute.
pub proof fn pauses_double_up_to_the_limit(attempt: nat)
    ensures
        1_000 <= pause_ms(attempt) <= 30_000,
        pause_ms(attempt) <= pause_ms(attempt + 1),
        pause_ms(attempt + 1) == (if 2 * pause_ms(attempt) < 30_000 {
            2 * pause_ms(attempt)
        } else {
            30_000
        }),
{
}

/// What is to be done when a connection is over.
#[derive(Debug)]
pub enum RunStep {
    /// Return with this outcome.
    Return(Result<(), Error>),
    /// Wait as before this attempt and open the connection again.
    Reconnect { attempt: u32 },
}

/// How often the connection was opened in vain.
#[derive(Debug, Clone, Copy, PartialEq, Eq, Structural)]
pub struct RunLoop {
    attempt: u32,
    first_connect: bool,
}

/// What is to be done when a connection is over.
pub enum RunStepView {
    Return(Result<(), ErrorView>),
    Reconnect { attempt: u32 },
}

impl View for RunStep {
    type V = RunStepView;

    open spec fn view(&self) -> RunStepView {
        match self {
            RunStep::Return(Ok(())) => RunStepView::Return(Ok(())),
            RunStep::Return(Err(e)) => RunStepView::Return(Err(e@)),
            RunStep::Reconnect { attempt } => RunStepView::Reconnect { attempt: *attempt },
        }
    }
}

/// What is to be done when a connection is over, or was not made, behind so many
/// attempts.
pub open spec fn round_end(
    attempts: u32,
    connected: bool,
    stopped: bool,
    auto_reconnect: bool,
    err: Option<ErrorView>,
) -> RunStepView {
    if stopped {
        RunStepView::Return(Ok(()))
    } else if !auto_reconnect {
        RunStepView::Return(
            Err(
                match err {
                    Some(e) => e,
                    None => ErrorView::Channel("stream closed"@),
                },
            ),
        )
    } else {
        RunStepView::Reconnect {
            attempt: if connected {
                0
            } else {
                attempts
            },
        }
    }
}

impl RunLoop {
    /// The attempts since the last connection.
    pub closed spec fn attempts(&self) -> u32 {
        self.attempt
    }

    /// Whether no connection was tried yet.
    pub closed spec fn is_first(&self) -> bool {
        self.first_connect
    }

    pub fn new() -> (r: RunLoop)
        ensures
            r.attempts() == 0,
            r.is_first(),
    {
        RunLoop { attempt: 0, first_connect: true }
    }

    /// Whether no connection was tried yet.
    pub fn first(&self) -> (r: bool)
        ensures
            r == self.is_first(),
    {
        self.first_connect
    }

    /// What is to be done when a connection is over, or was not made. A
    /// connection that was made sets the attempts back.
    pub fn after_round(
        &mut self,
        connected: bool,
        stopped: bool,
        auto_reconnect: bool,
        err: Option<Error>,
    ) -> (r: RunStep)
        ensures
            !final(self).is_first(),
            ({
                let attempt = if connected {
                    0
                } else {
                    old(self).attempts()
                };
                if stopped {
                    r matches RunStep::Return(Ok(()))
                } else if !auto_reconnect {
                    r matches RunStep::Return(Err(e)) && e@ == (match err {
                        Some(x) => x@,
                        None => ErrorView::Channel("stream closed"@),
                    })
                } else {
                    &&& r == (RunStep::Reconnect { attempt })
                    &&& final(self).attempts() == (if attempt == u32::MAX {
                        u32::MAX
                    } else {
                        (attempt + 1) as u32
                    })
                }
            }),
            r@ == round_end(
                old(self).attempts(),
                connected,
                stopped,
                auto_reconnect,
                match err {
                    Some(e) => Some(e@),
                    None => None,
                },
            ),
    {
        if connected {
            self.attempt = 0;
        }
        self.first_connect = false;
        if stopped {
            return RunStep::Return(Ok(()));
        }
        if !auto_reconnect {
            return RunStep::Return(
                Err(
                    match err {
                        Some(e) => e,
                        None => Error::channel("stream closed"),
                    },
                ),
            );
        }
        let attempt = self.attempt;
        if self.attempt < u32::MAX {
            self.attempt = self.attempt + 1;
        }
        RunStep::Reconnect { attempt }
    }
}

// ── laws ──

/// The channel wants signs of life, the end of the connection and messages, and
/// actions on cards exactly where somebody handles them.
pub proof fn channel_is_told_what_it_handles(card_topic: bool)
    ensures
        ({
            let w = wanted(card_topic);
            &&& w.len() == (if card_topic {
                4int
            } else {
                3int
            })
            &&& w[0].kind == "SYSTEM"@ && w[0].topic == "ping"@
            &&& w[1].kind == "SYSTEM"@ && w[1].topic == "disconnect"@
            &&& w[2].kind == "CALLBACK"@ && w[2].topic == "/v1.0/im/bot/messages/get"@
            &&& card_topic ==> w[3].kind == "CALLBACK"@ && w[3].topic
                == "/v1.0/card/instances/callback"@
        }),
{
}

/// A connection is offered where the service answers well and names where it is
/// and a ticket; no other answer is taken as one.
pub proof fn connection_needs_a_place_and_a_ticket(
    status: u16,
    raw: Seq<char>,
    v: JsonView,
    endpoint: Seq<char>,
    ticket: Seq<char>,
)
    requires
        v is Object,
        v.get("endpoint"@) == Some(JsonView::Text(endpoint)),
        v.get("ticket"@) == Some(JsonView::Text(ticket)),
    ensures
        opened(status, raw, Ok(v)) is Ok <==> status == 200 && endpoint.len() > 0 && ticket.len()
            > 0,
        opened(status, raw, Ok(v)) matches Ok(o) ==> o.endpoint == endpoint && o.ticket == ticket,
{
}

proof fn lemma_words_of_the_connection()
    ensures
        "ping"@ != "disconnect"@,
        "SYSTEM"@ != "CALLBACK"@,
{
    reveal_strlit("ping");
    reveal_strlit("disconnect");
    reveal_strlit("SYSTEM");
    reveal_strlit("CALLBACK");
    assert("ping"@.len() != "disconnect"@.len());
    assert("SYSTEM"@.len() != "CALLBACK"@.len());
}

/// A sign of life is answered with what came with it and its delivery, and nothing
/// else is done.
pub proof fn sign_of_life_is_given_back(f: FrameView)
    requires
        f.kind == "SYSTEM"@,
        f.headers.contains_key("topic"@),
        f.headers["topic"@] == "ping"@,
        f.headers.contains_key("messageId"@),
    ensures
        handling_of(f).ack == Some(
            json::json_text(frame::taken(f.headers["messageId"@], f.data).document()),
        ),
        !handling_of(f).disconnect,
        handling_of(f).frame is None,
{
}

/// The end of the connection is answered with a success and its delivery, and the
/// connection is opened again.
pub proof fn end_of_the_connection_is_followed(f: FrameView)
    requires
        f.kind == "SYSTEM"@,
        f.headers.contains_key("topic"@),
        f.headers["topic"@] == "disconnect"@,
        f.headers.contains_key("messageId"@),
    ensures
        handling_of(f).ack == Some(
            json::json_text(
                frame::taken(f.headers["messageId"@], "{\"success\":true}"@).document(),
            ),
        ),
        handling_of(f).disconnect,
        handling_of(f).frame is None,
{
    lemma_words_of_the_connection();
}

/// A message or an action is answered with a success and its delivery, and is
/// handed on whole.
pub proof fn message_is_answered_and_handed_on(f: FrameView)
    requires
        f.kind == "CALLBACK"@,
        f.headers.contains_key("messageId"@),
    ensures
        handling_of(f).ack == Some(
            json::json_text(
                frame::taken(f.headers["messageId"@], "{\"success\":true}"@).document(),
            ),
        ),
        !handling_of(f).disconnect,
        handling_of(f).frame == Some(f),
{
    lemma_words_of_the_connection();
}

/// What is no frame is neither answered nor handed on, and does not end the
/// connection.
pub proof fn noise_is_ignored(e: Seq<char>, words: Seq<char>)
    ensures
        handling(Err(e)) == (HandlingView { ack: None, disconnect: false, frame: None }),
        handling(Ok(JsonView::Text(words))) == (HandlingView {
            ack: None,
            disconnect: false,
            frame: None,
        }),
{
}

/// What happens on a connection: silence asks for a sign of life and, where one is
/// waited for, ends it with an error; so do a failure, the end and a close of the
/// other side, while closing the channel ends it well. A sign of life and anything
/// else leave it open.
pub proof fn events_of_a_connection(awaiting: bool, err: Error)
    ensures
        link_step(awaiting, LinkEvent::Stopped).end == Some(Ok::<(), ErrorView>(())),
        link_step(false, LinkEvent::Silent).end is None,
        link_step(false, LinkEvent::Silent).send == Some(OutgoingView::Ping),
        link_step(true, LinkEvent::Silent).end == Some(
            Err::<(), ErrorView>(ErrorView::Channel("pong timeout"@)),
        ),
        link_step(true, LinkEvent::Silent).send is None,
        link_step(awaiting, LinkEvent::Ended).end == Some(
            Err::<(), ErrorView>(ErrorView::Channel("connection closed"@)),
        ),
        link_step(awaiting, LinkEvent::Close).end == Some(
            Err::<(), ErrorView>(ErrorView::Channel("connection closed by server"@)),
        ),
        link_step(awaiting, LinkEvent::Failed(err)).end == Some(Err::<(), ErrorView>(err@)),
        link_step(awaiting, LinkEvent::Pong).end is None,
        link_step(awaiting, LinkEvent::Other).end is None,
        link_step(awaiting, LinkEvent::Pong).send is None,
        link_step(awaiting, LinkEvent::Other).send is None,
{
}

/// What is done with a text is done on the connection: its answer is sent, its
/// frame handed on, and the end that the other side asks for ends it.
pub proof fn text_is_answered_on_the_connection(h: HandlingView, answer: Seq<char>)
    ensures
        h.ack == Some(answer) ==> text_step(h).send == Some(OutgoingView::Text(answer)),
        h.ack is None ==> text_step(h).send is None,
        text_step(h).frame == h.frame,
        text_step(h).end is Some <==> h.disconnect,
        h.disconnect ==> text_step(h).end == Some(
            Err::<(), ErrorView>(ErrorView::Channel("server requested disconnect"@)),
        ),
{
}

/// The first pause is a second.
pub proof fn first_pause_is_a_second()
    ensures
        pause_ms(0) == 1_000,
{
}

/// A sign of life is waited for five seconds from the silence on; one that comes
/// ends the wait, and nothing else does.
pub proof fn sign_of_life_is_waited_for(
    e: LinkEvent,
    patience: Duration,
    now: Duration,
    then: Duration,
)
    requires
        now.nanos <= then.nanos <= u64::MAX,
    ensures
        ({
            let end = deadline_after(None, LinkEvent::Silent, now);
            &&& wait_for(None, patience, now) == patience.nanos
            &&& wait_for(end, patience, now) == 5_000_000_000
            &&& then.nanos - now.nanos <= 5_000_000_000 ==> wait_for(end, patience, then)
                == 5_000_000_000 - (then.nanos - now.nanos)
            &&& then.nanos - now.nanos >= 5_000_000_000 ==> wait_for(end, patience, then) == 0
            &&& deadline_after(end, LinkEvent::Pong, then) is None
            &&& !(e is Pong) ==> deadline_after(end, e, then) == end
            &&& !(e is Silent) ==> deadline_after(None, e, then) is None
        }),
{
}

/// A channel that was stopped ends well; one that does not open its connection
/// again ends with the error, and another opens it again, from the first attempt on
/// where there was a connection.
pub proof fn end_of_a_round(attempts: u32, connected: bool, auto: bool, err: Option<ErrorView>)
    ensures
        round_end(attempts, connected, true, auto, err) == RunStepView::Return(Ok(())),
        err matches Some(e) ==> round_end(attempts, connected, false, false, err)
            == RunStepView::Return(Err(e)),
        round_end(attempts, connected, false, false, None) == RunStepView::Return(
            Err(ErrorView::Channel("stream closed"@)),
        ),
        round_end(attempts, true, false, true, err) == (RunStepView::Reconnect { attempt: 0 }),
        round_end(attempts, false, false, true, err) == (RunStepView::Reconnect {
            attempt: attempts,
        }),
{
}

/// A connection is asked for below the address of the service, and opened where the
/// service says, with its ticket.
pub proof fn places_of_the_connection(base: Seq<char>, ticket: Seq<char>)
    ensures
        open_address(base).take(base.len() as int) == base,
        open_address(base).skip(base.len() as int) == "/v1.0/gateway/connections/open"@,
        connection_address(base, ticket).take(base.len() as int) == base,
        connection_address(base, ticket).skip(base.len() as int) == "?ticket="@
            + url::percent_encoded(ticket),
{
    assert(open_address(base).take(base.len() as int) =~= base);
    assert(open_address(base).skip(base.len() as int) =~= "/v1.0/gateway/connections/open"@);
    assert(connection_address(base, ticket).take(base.len() as int) =~= base);
    assert(connection_address(base, ticket).skip(base.len() as int) =~= "?ticket="@
        + url::percent_encoded(ticket));
}

} // verus!
