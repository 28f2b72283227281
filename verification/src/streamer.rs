//! A card while it is written to.
//!
//! What is written is gathered and sent as frames, not more often than the
//! throttle allows; nothing that is written is dropped. Behind a long silence
//! the first frame waits a little, so that it says something. A card that
//! nobody finishes is finished after a while.

use crate::card;
use crate::card::{
    overflow_remainder, CARD_FRAME_GAP_MS, FLOW_FAILED, FLOW_FINISHED, FLOW_INPUTING,
    LONG_GAP_BATCH_WAIT_MS, LONG_GAP_THRESHOLD_MS,
};
use crate::error::{Error, ErrorView};
use crate::outbound::markdown;
use crate::outbound::normalize_for_card;
use crate::text;
use crate::text::CharClass;
use crate::time;
use crate::time::Duration;
use vstd::prelude::*;

verus! {

/// Something that is done to a card.
#[derive(Debug)]
pub enum CardOp {
    /// Let this time pass.
    Wait(Duration),
    /// Set the state of the card and what it says.
    Status { flow: &'static str, content: String },
    /// Send a frame.
    Frame { content: String, last: bool },
    /// Send a text to the session in place of the card.
    Fallback(String),
}

pub enum OpView {
    Wait(nat),
    Status { flow: Seq<char>, content: Seq<char> },
    Frame { content: Seq<char>, last: bool },
    Fallback(Seq<char>),
}

impl View for CardOp {
    type V = OpView;

    open spec fn view(&self) -> OpView {
        match self {
            CardOp::Wait(d) => OpView::Wait(d.nanos as nat),
            CardOp::Status { flow, content } => OpView::Status { flow: flow@, content: content@ },
            CardOp::Frame { content, last } => OpView::Frame { content: content@, last: *last },
            CardOp::Fallback(s) => OpView::Fallback(s@),
        }
    }
}

/// What the operations do, in their order.
pub open spec fn ops(v: Seq<CardOp>) -> Seq<OpView> {
    Seq::new(v.len(), |i: int| v[i]@)
}

/// Everything that decides what is done to a card.
pub struct StreamerView {
    /// What was written.
    pub accumulated: Seq<char>,
    pub last_update: Duration,
    /// Nothing is written any more.
    pub closed: bool,
    /// A frame is on its way.
    pub has_pending: bool,
    pub frame_count: nat,
    pub last_frame_at: Duration,
    pub aborted: bool,
    pub last_activity: Duration,
    /// There is a card.
    pub delivered: bool,
    /// The card knows that it is written to.
    pub inputing_started: bool,
    /// The shortest time between two frames.
    pub throttle: Duration,
    /// After this time a card is finished that nobody finishes.
    pub watchdog: Duration,
}

/// What is to be done when something was written.
#[derive(Debug)]
pub enum AppendStep {
    /// Nothing.
    Keep,
    /// Send a frame with this text.
    Update(String),
    /// Send a frame after this time.
    Schedule(Duration),
}

pub enum AppendView {
    Keep,
    Update(Seq<char>),
    Schedule(nat),
}

impl View for AppendStep {
    type V = AppendView;

    open spec fn view(&self) -> AppendView {
        match self {
            AppendStep::Keep => AppendView::Keep,
            AppendStep::Update(s) => AppendView::Update(s@),
            AppendStep::Schedule(d) => AppendView::Schedule(d.nanos as nat),
        }
    }
}

/// What is to be done when something was written at some time.
pub open spec fn append_step(s: StreamerView, now: Duration) -> AppendView {
    let elapsed = time::difference(now, s.last_update);
    if !s.delivered {
        AppendView::Keep
    } else if elapsed >= s.throttle.nanos && elapsed > 2_000_000_000 {
        if s.has_pending {
            AppendView::Keep
        } else {
            AppendView::Schedule(300_000_000)
        }
    } else if elapsed >= s.throttle.nanos {
        AppendView::Update(s.accumulated)
    } else if s.has_pending {
        AppendView::Keep
    } else {
        AppendView::Schedule((s.throttle.nanos - elapsed) as nat)
    }
}

/// The state once something was written at some time.
pub open spec fn after_append(s: StreamerView, delta: Seq<char>, now: Duration) -> StreamerView {
    let more = StreamerView { accumulated: s.accumulated + delta, ..s };
    match append_step(more, now) {
        AppendView::Keep => more,
        AppendView::Update(_) => StreamerView { last_update: now, ..more },
        AppendView::Schedule(_) => StreamerView { has_pending: true, ..more },
    }
}

/// How long to wait before a frame: before the first one and the last one some
/// time has to pass since the one before.
pub open spec fn gap(s: StreamerView, last: bool, now: Duration) -> nat {
    let elapsed = time::difference(now, s.last_frame_at);
    if (s.frame_count == 0 || last) && elapsed < 500_000_000 {
        (500_000_000 - elapsed) as nat
    } else {
        0
    }
}

/// What a frame takes: the wait before it, the word that the card is written
/// to, where it does not know, and the frame itself.
pub open spec fn update_ops(
    s: StreamerView,
    content: Seq<char>,
    last: bool,
    now: Duration,
) -> Seq<OpView> {
    let wait = if gap(s, last, now) > 0 {
        seq![OpView::Wait(gap(s, last, now))]
    } else {
        Seq::empty()
    };
    let word = if s.inputing_started {
        Seq::empty()
    } else {
        seq![
            OpView::Status {
                flow: FLOW_INPUTING@,
                content: markdown::card_text(card::capped(content)),
            },
        ]
    };
    wait + word + seq![OpView::Frame { content: card::capped(content), last }]
}

/// A frame and a state at the end of a card.
pub open spec fn closing_ops(content: Seq<char>, flow: Seq<char>) -> Seq<OpView> {
    seq![
        OpView::Frame { content, last: true },
        OpView::Status { flow, content: markdown::card_text(content) },
    ]
}

/// What the end of a card by an error takes.
pub open spec fn fail_ops(s: StreamerView, err_text: Seq<char>) -> Seq<OpView> {
    let word = if s.inputing_started {
        Seq::empty()
    } else {
        seq![OpView::Status { flow: FLOW_INPUTING@, content: Seq::empty() }]
    };
    let card = if s.delivered {
        word + closing_ops(err_text, FLOW_FAILED@)
    } else {
        Seq::empty()
    };
    card.push(OpView::Fallback(err_text))
}

/// The card once what was put off is due.
pub open spec fn after_flush(s: StreamerView, now: Duration) -> StreamerView {
    StreamerView {
        has_pending: false,
        last_update: if !s.closed && s.delivered {
            now
        } else {
            s.last_update
        },
        ..s
    }
}

/// The card once a frame was sent.
pub open spec fn after_frame(s: StreamerView, now: Duration) -> StreamerView {
    StreamerView {
        frame_count: if s.frame_count == u64::MAX {
            s.frame_count
        } else {
            s.frame_count + 1
        },
        last_frame_at: now,
        last_activity: now,
        ..s
    }
}

/// What the end of a card shows: a text that is given, or what was written.
pub open spec fn shown_at_the_end(s: StreamerView, given: Seq<char>) -> Seq<char> {
    if given.len() > 0 {
        given
    } else {
        s.accumulated
    }
}

/// What giving a card up takes.
pub open spec fn abort_ops(s: StreamerView) -> Seq<OpView> {
    if s.closed || !s.delivered {
        Seq::empty()
    } else {
        closing_ops(s.accumulated, FLOW_FAILED@)
    }
}

/// What a card takes that nobody finishes.
pub open spec fn watch_ops(s: StreamerView, now: Duration) -> Seq<OpView> {
    if s.watchdog.nanos > 0 && !s.closed && s.delivered && time::difference(now, s.last_activity)
        > s.watchdog.nanos {
        closing_ops(s.accumulated, FLOW_FINISHED@)
    } else {
        Seq::empty()
    }
}

/// A card while it is written to.
#[derive(Debug)]
pub struct CardStreamer {
    accumulated: String,
    last_update: Duration,
    closed: bool,
    has_pending: bool,
    frame_count: u64,
    last_frame_at: Duration,
    aborted: bool,
    last_activity: Duration,
    delivered: bool,
    inputing_started: bool,
    throttle: Duration,
    watchdog: Duration,
}

impl View for CardStreamer {
    type V = StreamerView;

    closed spec fn view(&self) -> StreamerView {
        StreamerView {
            accumulated: self.accumulated@,
            last_update: self.last_update,
            closed: self.closed,
            has_pending: self.has_pending,
            frame_count: self.frame_count as nat,
            last_frame_at: self.last_frame_at,
            aborted: self.aborted,
            last_activity: self.last_activity,
            delivered: self.delivered,
            inputing_started: self.inputing_started,
            throttle: self.throttle,
            watchdog: self.watchdog,
        }
    }
}

/// What the end of a card takes.
#[derive(Debug)]
pub enum FinishPlan {
    /// It was at its end already.
    Done,
    /// There is no card: this text goes to the session.
    Fallback(String),
    /// The card is finished with the script.
    Script(Finishing),
}

impl CardStreamer {
    /// A card that was delivered or not, at some time.
    pub fn new(delivered: bool, throttle: Duration, watchdog: Duration, now: Duration) -> (r:
        CardStreamer)
        ensures
            r@ == (StreamerView {
                accumulated: Seq::empty(),
                last_update: now,
                closed: false,
                has_pending: false,
                frame_count: 0,
                last_frame_at: now,
                aborted: false,
                last_activity: now,
                delivered,
                inputing_started: false,
                throttle,
                watchdog,
            }),
    {
        CardStreamer {
            accumulated: String::new(),
            last_update: now,
            closed: false,
            has_pending: false,
            frame_count: 0,
            last_frame_at: now,
            aborted: false,
            last_activity: now,
            delivered,
            inputing_started: false,
            throttle,
            watchdog,
        }
    }

    /// Whether there is a card; else what is written goes to the session at the
    /// end.
    pub fn card_delivered(&self) -> (r: bool)
        ensures
            r == self@.delivered,
    {
        self.delivered
    }

    /// Whether nothing is written any more.
    pub fn is_closed(&self) -> (r: bool)
        ensures
            r == self@.closed,
    {
        self.closed
    }

    /// Writes something at the given time.
    pub fn append(&mut self, delta: &str, now: Duration) -> (r: Result<AppendStep, Error>)
        ensures
            match r {
                Err(e) => {
                    &&& old(self)@.closed
                    &&& e@ == ErrorView::Channel("streamer already closed"@)
                    &&& final(self)@ == old(self)@
                },
                Ok(step) => {
                    &&& !old(self)@.closed
                    &&& step@ == append_step(
                        StreamerView {
                            accumulated: old(self)@.accumulated + delta@,
                            ..old(self)@
                        },
                        now,
                    )
                    &&& final(self)@ == after_append(old(self)@, delta@, now)
                },
            },
    {
        if self.closed {
            return Err(Error::channel("streamer already closed"));
        }
        self.accumulated.append(delta);
        if !self.delivered {
            return Ok(AppendStep::Keep);
        }
        let elapsed = now.minus(self.last_update);
        let long_gap = Duration::from_millis(LONG_GAP_THRESHOLD_MS);
        if elapsed.nanos >= self.throttle.nanos && elapsed.nanos > long_gap.nanos {
            if self.has_pending {
                return Ok(AppendStep::Keep);
            }
            self.has_pending = true;
            return Ok(AppendStep::Schedule(Duration::from_millis(LONG_GAP_BATCH_WAIT_MS)));
        }
        if elapsed.nanos >= self.throttle.nanos {
            self.last_update = now;
            return Ok(AppendStep::Update(self.accumulated.clone()));
        }
        if self.has_pending {
            return Ok(AppendStep::Keep);
        }
        self.has_pending = true;
        Ok(AppendStep::Schedule(Duration { nanos: self.throttle.nanos - elapsed.nanos }))
    }

    /// The text of the frame that was on its way, at the given time; none where
    /// the card is at its end.
    pub fn flush_due(&mut self, now: Duration) -> (r: Option<String>)
        ensures
            r is Some <==> !old(self)@.closed && old(self)@.delivered,
            r matches Some(s) ==> s@ == old(self)@.accumulated,
            final(self)@ == (StreamerView {
                has_pending: false,
                last_update: if r is Some {
                    now
                } else {
                    old(self)@.last_update
                },
                ..old(self)@
            }),
            final(self)@ == after_flush(old(self)@, now),
    {
        self.has_pending = false;
        if self.closed || !self.delivered {
            return None;
        }
        self.last_update = now;
        Some(self.accumulated.clone())
    }

    /// What a frame with a text takes at the given time.
    pub fn update(&self, content: &str, last: bool, now: Duration) -> (r: Result<
        Vec<CardOp>,
        Error,
    >)
        ensures
            match r {
                Ok(v) => self@.delivered && ops(v@) == update_ops(self@, content@, last, now),
                Err(e) => !self@.delivered && e@ == ErrorView::Channel("card unavailable"@),
            },
    {
        if !self.delivered {
            return Err(Error::channel("card unavailable"));
        }
        let mut out: Vec<CardOp> = Vec::new();
        let elapsed = now.minus(self.last_frame_at);
        let pause = Duration::from_millis(CARD_FRAME_GAP_MS);
        if (self.frame_count == 0 || last) && elapsed.nanos < pause.nanos {
            out.push(CardOp::Wait(Duration { nanos: pause.nanos - elapsed.nanos }));
        }
        let cut = card::cap_content(content);
        if !self.inputing_started {
            out.push(
                CardOp::Status { flow: FLOW_INPUTING, content: normalize_for_card(cut.as_str()) },
            );
        }
        out.push(CardOp::Frame { content: cut, last });
        assert(ops(out@) =~= update_ops(self@, content@, last, now));
        Ok(out)
    }

    /// Notes that the card knows that it is written to.
    pub fn note_inputing(&mut self)
        ensures
            final(self)@ == (StreamerView { inputing_started: true, ..old(self)@ }),
    {
        self.inputing_started = true;
    }

    /// Notes at the given time that a frame is sent.
    pub fn note_frame(&mut self, now: Duration)
        ensures
            final(self)@ == (StreamerView {
                frame_count: if old(self)@.frame_count == u64::MAX {
                    old(self)@.frame_count
                } else {
                    old(self)@.frame_count + 1
                },
                last_frame_at: now,
                last_activity: now,
                ..old(self)@
            }),
            final(self)@ == after_frame(old(self)@, now),
    {
        if self.frame_count < u64::MAX {
            self.frame_count = self.frame_count + 1;
        }
        self.last_frame_at = now;
        self.last_activity = now;
    }

    /// Closes the card. A text that is given takes the place of what was
    /// written.
    pub fn finish(&mut self, text: &str) -> (r: FinishPlan)
        ensures
            ({
                let content = if text@.len() > 0 {
                    text@
                } else {
                    old(self)@.accumulated
                };
                if old(self)@.closed {
                    &&& r is Done
                    &&& final(self)@ == old(self)@
                } else {
                    &&& final(self)@ == (StreamerView {
                        closed: true,
                        accumulated: content,
                        ..old(self)@
                    })
                    &&& if old(self)@.delivered {
                        r matches FinishPlan::Script(f) && f@ == (FinishingView {
                            content,
                            phase: if old(self)@.frame_count == 0 && content.len() > 0 {
                                FinishPhase::FirstFrame
                            } else {
                                FinishPhase::LastFrame
                            },
                            error: None,
                        })
                    } else {
                        r matches FinishPlan::Fallback(s) && s@ == content
                    }
                }
            }),
            r matches FinishPlan::Script(f) ==> f@ == finishing_of(old(self)@, text@),
            r matches FinishPlan::Fallback(s) ==> s@ == shown_at_the_end(old(self)@, text@),
    {
        if self.closed {
            return FinishPlan::Done;
        }
        self.closed = true;
        if !text.is_empty() {
            self.accumulated = text::owned(text);
        }
        if !self.delivered {
            return FinishPlan::Fallback(self.accumulated.clone());
        }
        let first = self.frame_count == 0 && !self.accumulated.as_str().is_empty();
        FinishPlan::Script(
            Finishing {
                content: self.accumulated.clone(),
                phase: if first {
                    FinishPhase::FirstFrame
                } else {
                    FinishPhase::LastFrame
                },
                error: None,
            },
        )
    }

    /// Closes the card as given up. The outcome is that of the last operation.
    pub fn abort(&mut self) -> (r: Vec<CardOp>)
        ensures
            final(self)@ == (StreamerView { closed: true, aborted: true, ..old(self)@ }),
            ops(r@) == (if old(self)@.closed || !old(self)@.delivered {
                Seq::empty()
            } else {
                closing_ops(old(self)@.accumulated, FLOW_FAILED@)
            }),
            ops(r@) == abort_ops(old(self)@),
    {
        let already = self.closed;
        self.closed = true;
        self.aborted = true;
        let mut out: Vec<CardOp> = Vec::new();
        if already || !self.delivered {
            assert(ops(out@) =~= Seq::empty());
            return out;
        }
        self.push_closing(&mut out, FLOW_FAILED);
        assert(ops(out@) =~= closing_ops(self@.accumulated, FLOW_FAILED@));
        out
    }

    /// Adds a frame and a state at the end of a card with what was written.
    fn push_closing(&self, out: &mut Vec<CardOp>, flow: &'static str)
        ensures
            ops(final(out)@) == ops(old(out)@) + closing_ops(self@.accumulated, flow@),
    {
        let ghost before = out@;
        out.push(CardOp::Frame { content: self.accumulated.clone(), last: true });
        out.push(
            CardOp::Status { flow, content: normalize_for_card(self.accumulated.as_str()) },
        );
        assert(ops(out@) =~= ops(before) + closing_ops(self@.accumulated, flow@));
    }

    /// Closes the card with an error. The operations are tried one behind the
    /// other whatever their outcome; the outcome is that of the last one.
    pub fn fail(&mut self, err_text: &str) -> (r: Vec<CardOp>)
        ensures
            ops(r@) == (if old(self)@.closed {
                Seq::empty()
            } else {
                fail_ops(old(self)@, err_text@)
            }),
            final(self)@ == (if old(self)@.closed {
                old(self)@
            } else {
                StreamerView {
                    closed: true,
                    inputing_started: old(self)@.inputing_started || old(self)@.delivered,
                    ..old(self)@
                }
            }),
    {
        let mut out: Vec<CardOp> = Vec::new();
        if self.closed {
            assert(ops(out@) =~= Seq::empty());
            return out;
        }
        self.closed = true;
        if self.delivered {
            if !self.inputing_started {
                out.push(CardOp::Status { flow: FLOW_INPUTING, content: String::new() });
            }
            out.push(CardOp::Frame { content: text::owned(err_text), last: true });
            out.push(CardOp::Status { flow: FLOW_FAILED, content: normalize_for_card(err_text) });
            self.inputing_started = true;
        }
        out.push(CardOp::Fallback(text::owned(err_text)));
        assert(ops(out@) =~= fail_ops(old(self)@, err_text@));
        out
    }

    /// Whether a card that nobody finishes is to be watched.
    pub fn is_watched(&self) -> (r: bool)
        ensures
            r == (self@.watchdog.nanos > 0),
    {
        !self.watchdog.is_zero()
    }

    /// Closes the card at the given time, if nobody wrote for too long. The
    /// operations are tried whatever their outcome.
    pub fn watch(&mut self, now: Duration) -> (r: Vec<CardOp>)
        ensures
            ({
                let due = old(self)@.watchdog.nanos > 0 && !old(self)@.closed
                    && old(self)@.delivered && time::difference(now, old(self)@.last_activity)
                    > old(self)@.watchdog.nanos;
                &&& ops(r@) == (if due {
                    closing_ops(old(self)@.accumulated, FLOW_FINISHED@)
                } else {
                    Seq::empty()
                })
                &&& final(self)@ == (StreamerView {
                    closed: old(self)@.closed || due,
                    ..old(self)@
                })
            }),
            ops(r@) == watch_ops(old(self)@, now),
    {
        let mut out: Vec<CardOp> = Vec::new();
        if self.watchdog.is_zero() || self.closed || !self.delivered || now.minus(
            self.last_activity,
        ).nanos <= self.watchdog.nanos {
            assert(ops(out@) =~= Seq::empty());
            return out;
        }
        self.closed = true;
        self.push_closing(&mut out, FLOW_FINISHED);
        assert(ops(out@) =~= closing_ops(self@.accumulated, FLOW_FINISHED@));
        out
    }
}

/// Whether a text is worth sending in place of a card.
pub fn fallback_wanted(s: &str) -> (r: bool)
    ensures
        r == (text::trim(s@, CharClass::Whitespace).len() > 0),
{
    let v = text::chars_of(s);
    text::trimmed(&v, CharClass::Whitespace).len() > 0
}

// ── the end of a card ──

/// What the end of a card waits for.
#[derive(Debug, Clone, Copy, PartialEq, Eq, Structural)]
pub enum FinishPhase {
    /// A frame, as there was none.
    FirstFrame,
    /// The last frame.
    LastFrame,
    /// The text in place of the card, as the last frame failed.
    LostFrame,
    /// The state of the card.
    Status,
    /// The text in place of the card, as its state could not be set.
    LostStatus,
    /// What the last frame did not hold.
    Rest,
    /// Nothing more.
    Over,
}

/// The end of a card, step by step.
#[derive(Debug)]
pub struct Finishing {
    content: String,
    phase: FinishPhase,
    error: Option<Error>,
}

pub struct FinishingView {
    pub content: Seq<char>,
    pub phase: FinishPhase,
    pub error: Option<ErrorView>,
}

impl View for Finishing {
    type V = FinishingView;

    closed spec fn view(&self) -> FinishingView {
        FinishingView {
            content: self.content@,
            phase: self.phase,
            error: match self.error {
                Some(e) => Some(e@),
                None => None,
            },
        }
    }
}

/// What is to be done next.
#[derive(Debug)]
pub enum FinishStep {
    /// Send a frame with this text, the last one or not.
    Update { content: String, last: bool },
    /// Say that the card is finished.
    Status { content: String },
    /// Send the text in place of the card.
    Fallback(String),
    /// Send what the last frame did not hold.
    Rest(String),
    /// Return with this outcome.
    Return(Result<(), Error>),
}

pub enum FinishStepView {
    Update { content: Seq<char>, last: bool },
    Status { content: Seq<char> },
    Fallback(Seq<char>),
    Rest(Seq<char>),
    Return(Result<(), ErrorView>),
}

impl View for FinishStep {
    type V = FinishStepView;

    open spec fn view(&self) -> FinishStepView {
        match self {
            FinishStep::Update { content, last } => FinishStepView::Update {
                content: content@,
                last: *last,
            },
            FinishStep::Status { content } => FinishStepView::Status { content: content@ },
            FinishStep::Fallback(s) => FinishStepView::Fallback(s@),
            FinishStep::Rest(s) => FinishStepView::Rest(s@),
            FinishStep::Return(Ok(())) => FinishStepView::Return(Ok(())),
            FinishStep::Return(Err(e)) => FinishStepView::Return(Err(e@)),
        }
    }
}

/// The script by which a card is finished: where no frame was sent and there is
/// something to show, a first frame comes before the last one.
pub open spec fn finishing_of(s: StreamerView, given: Seq<char>) -> FinishingView {
    FinishingView {
        content: shown_at_the_end(s, given),
        phase: if s.frame_count == 0 && shown_at_the_end(s, given).len() > 0 {
            FinishPhase::FirstFrame
        } else {
            FinishPhase::LastFrame
        },
        error: None,
    }
}

/// The outcome that the end of a card has.
pub open spec fn outcome_of(error: Option<ErrorView>) -> Result<(), ErrorView> {
    match error {
        Some(e) => Err(e),
        None => Ok(()),
    }
}

/// The first step of the end of a card.
pub open spec fn first_step(f: FinishingView) -> FinishStepView {
    FinishStepView::Update { content: f.content, last: f.phase != FinishPhase::FirstFrame }
}

/// Behind the state of a card: what the last frame did not hold, or the end.
pub open spec fn closing_step(f: FinishingView) -> FinishStepView {
    match card::overflow(f.content) {
        Some(rest) => FinishStepView::Rest(rest),
        None => FinishStepView::Return(outcome_of(f.error)),
    }
}

/// The step behind an outcome: a frame that fails is the end where it is the
/// first one, and else the text goes to the session; a state that cannot be set
/// sends the text to the session too.
pub open spec fn next_step(f: FinishingView, outcome: Result<(), ErrorView>) -> FinishStepView {
    match f.phase {
        FinishPhase::FirstFrame => match outcome {
            Err(e) => FinishStepView::Return(Err(e)),
            Ok(_) => FinishStepView::Update { content: f.content, last: true },
        },
        FinishPhase::LastFrame => match outcome {
            Err(_) => FinishStepView::Fallback(f.content),
            Ok(_) => FinishStepView::Status { content: markdown::card_text(f.content) },
        },
        FinishPhase::LostFrame => FinishStepView::Return(outcome_of(f.error)),
        FinishPhase::Status => match outcome {
            Err(_) => FinishStepView::Fallback(f.content),
            Ok(_) => closing_step(f),
        },
        FinishPhase::LostStatus => closing_step(f),
        FinishPhase::Rest => FinishStepView::Return(outcome_of(f.error)),
        FinishPhase::Over => FinishStepView::Return(outcome_of(f.error)),
    }
}

/// The state behind an outcome.
pub open spec fn after_step(f: FinishingView, outcome: Result<(), ErrorView>) -> FinishingView {
    let closing = if card::overflow(f.content) is Some {
        FinishPhase::Rest
    } else {
        FinishPhase::Over
    };
    match f.phase {
        FinishPhase::FirstFrame => match outcome {
            Err(_) => FinishingView { phase: FinishPhase::Over, ..f },
            Ok(_) => FinishingView { phase: FinishPhase::LastFrame, ..f },
        },
        FinishPhase::LastFrame => match outcome {
            Err(e) => FinishingView { phase: FinishPhase::LostFrame, error: Some(e), ..f },
            Ok(_) => FinishingView { phase: FinishPhase::Status, ..f },
        },
        FinishPhase::LostFrame => FinishingView { phase: FinishPhase::Over, ..f },
        FinishPhase::Status => match outcome {
            Err(e) => FinishingView { phase: FinishPhase::LostStatus, error: Some(e), ..f },
            Ok(_) => FinishingView { phase: closing, ..f },
        },
        FinishPhase::LostStatus => FinishingView { phase: closing, ..f },
        FinishPhase::Rest => FinishingView { phase: FinishPhase::Over, ..f },
        FinishPhase::Over => f,
    }
}

pub open spec fn unit_result(r: Result<(), Error>) -> Result<(), ErrorView> {
    match r {
        Ok(()) => Ok(()),
        Err(e) => Err(e@),
    }
}

impl Finishing {
    /// The first step.
    pub fn start(&self) -> (r: FinishStep)
        ensures
            r@ == first_step(self@),
    {
        let first = match self.phase {
            FinishPhase::FirstFrame => true,
            _ => false,
        };
        FinishStep::Update { content: self.content.clone(), last: !first }
    }

    fn take_outcome(&mut self) -> (r: Result<(), Error>)
        ensures
            unit_result(r) == outcome_of(old(self)@.error),
            final(self)@.content == old(self)@.content,
            final(self)@.phase == old(self)@.phase,
            final(self)@.error is None,
    {
        match self.error.take() {
            Some(e) => Err(e),
            None => Ok(()),
        }
    }

    fn closing(&mut self) -> (r: FinishStep)
        ensures
            r@ == closing_step(old(self)@),
            final(self)@.content == old(self)@.content,
            final(self)@.phase == (if card::overflow(old(self)@.content) is Some {
                FinishPhase::Rest
            } else {
                FinishPhase::Over
            }),
            r@ is Rest ==> final(self)@.error == old(self)@.error,
    {
        match overflow_remainder(self.content.as_str()) {
            Some(rest) => {
                self.phase = FinishPhase::Rest;
                FinishStep::Rest(rest)
            },
            None => {
                self.phase = FinishPhase::Over;
                FinishStep::Return(self.take_outcome())
            },
        }
    }

    /// The step behind the outcome of the last one.
    pub fn step(&mut self, outcome: Result<(), Error>) -> (r: FinishStep)
        requires
            old(self)@.phase != FinishPhase::Over,
        ensures
            r@ == next_step(old(self)@, unit_result(outcome)),
            final(self)@.phase == after_step(old(self)@, unit_result(outcome)).phase,
            final(self)@.content == old(self)@.content,
            !(r@ is Return) ==> final(self)@ == after_step(old(self)@, unit_result(outcome)),
    {
        match self.phase {
            FinishPhase::FirstFrame => match outcome {
                Err(e) => {
                    self.phase = FinishPhase::Over;
                    FinishStep::Return(Err(e))
                },
                Ok(()) => {
                    self.phase = FinishPhase::LastFrame;
                    FinishStep::Update { content: self.content.clone(), last: true }
                },
            },
            FinishPhase::LastFrame => match outcome {
                Err(e) => {
                    self.phase = FinishPhase::LostFrame;
                    self.error = Some(e);
                    FinishStep::Fallback(self.content.clone())
                },
                Ok(()) => {
                    self.phase = FinishPhase::Status;
                    FinishStep::Status { content: normalize_for_card(self.content.as_str()) }
                },
            },
            FinishPhase::LostFrame => {
                self.phase = FinishPhase::Over;
                FinishStep::Return(self.take_outcome())
            },
            FinishPhase::Status => match outcome {
                Err(e) => {
                    self.phase = FinishPhase::LostStatus;
                    self.error = Some(e);
                    FinishStep::Fallback(self.content.clone())
                },
                Ok(()) => self.closing(),
            },
            FinishPhase::LostStatus => self.closing(),
            FinishPhase::Rest => {
                self.phase = FinishPhase::Over;
                FinishStep::Return(self.take_outcome())
            },
            FinishPhase::Over => FinishStep::Return(self.take_outcome()),
        }
    }
}

// ── laws ──

/// Writing keeps everything that was written, in order.
pub proof fn nothing_written_is_dropped(s: StreamerView, delta: Seq<char>, now: Duration)
    ensures
        after_append(s, delta, now).accumulated == s.accumulated + delta,
        after_append(s, delta, now).closed == s.closed,
{
}

/// Behind something that was written on a card, a frame goes out at once, or one
/// is on its way.
pub proof fn written_text_gets_a_frame(s: StreamerView, delta: Seq<char>, now: Duration)
    requires
        s.delivered,
    ensures
        append_step(StreamerView { accumulated: s.accumulated + delta, ..s }, now) is Update
            || after_append(s, delta, now).has_pending,
{
}

/// Two frames that writing sends at once are the throttle apart.
pub proof fn frames_are_throttled(
    s: StreamerView,
    first: Seq<char>,
    now: Duration,
    second: Seq<char>,
    then: Duration,
)
    requires
        append_step(StreamerView { accumulated: s.accumulated + first, ..s }, now) is Update,
        append_step(
            StreamerView {
                accumulated: s.accumulated + first + second,
                ..after_append(s, first, now)
            },
            then,
        ) is Update,
    ensures
        time::difference(then, now) >= s.throttle.nanos,
{
}

/// The wait for a frame is never longer than the throttle or the wait behind a
/// silence.
pub proof fn pending_frame_comes_soon(s: StreamerView, now: Duration)
    ensures
        append_step(s, now) matches AppendView::Schedule(d) ==> d <= s.throttle.nanos || d
            == 300_000_000,
{
}

/// How far the end of a card is from being over.
pub open spec fn distance(p: FinishPhase) -> nat {
    match p {
        FinishPhase::FirstFrame => 5,
        FinishPhase::LastFrame => 4,
        FinishPhase::Status => 3,
        FinishPhase::LostStatus => 2,
        FinishPhase::LostFrame => 1,
        FinishPhase::Rest => 1,
        FinishPhase::Over => 0,
    }
}

/// The end of a card comes nearer with every step, whatever the outcomes are,
/// and returns when it is over.
pub proof fn finishing_ends(f: FinishingView, outcome: Result<(), ErrorView>)
    requires
        f.phase != FinishPhase::Over,
    ensures
        distance(after_step(f, outcome).phase) < distance(f.phase),
        next_step(f, outcome) is Return <==> after_step(f, outcome).phase == FinishPhase::Over,
{
}

/// Where the last frame fails, or the state cannot be set, the text goes to the
/// session and the error is returned.
pub proof fn lost_card_falls_back(f: FinishingView, e: ErrorView)
    requires
        f.phase == FinishPhase::LastFrame || f.phase == FinishPhase::Status,
    ensures
        next_step(f, Err(e)) == FinishStepView::Fallback(f.content),
        after_step(f, Err(e)).error == Some(e),
{
}

/// Where nothing fails, the end of a card on which nothing was shown yet is a
/// frame, the last frame, the state, what the last frame did not hold, and no
/// text to the session.
pub proof fn undisturbed_end_of_a_card(content: Seq<char>, any: Result<(), ErrorView>)
    ensures
        ({
            let ok: Result<(), ErrorView> = Ok(());
            let f0 = FinishingView { content, phase: FinishPhase::FirstFrame, error: None };
            let f1 = after_step(f0, ok);
            let f2 = after_step(f1, ok);
            let f3 = after_step(f2, ok);
            &&& first_step(f0) == FinishStepView::Update { content, last: false }
            &&& next_step(f0, ok) == FinishStepView::Update { content, last: true }
            &&& next_step(f1, ok) == FinishStepView::Status {
                content: markdown::card_text(content),
            }
            &&& match card::overflow(content) {
                Some(rest) => next_step(f2, ok) == FinishStepView::Rest(rest) && next_step(f3, any)
                    == FinishStepView::Return(ok),
                None => next_step(f2, ok) == FinishStepView::Return(ok),
            }
        }),
{
}

/// A card is told that it is written to directly before its first frame, and
/// every update ends with its frame.
pub proof fn word_comes_before_the_first_frame(
    s: StreamerView,
    content: Seq<char>,
    last: bool,
    now: Duration,
)
    ensures
        update_ops(s, content, last, now).len() > 0,
        update_ops(s, content, last, now).last() == (OpView::Frame {
            content: card::capped(content),
            last,
        }),
        !s.inputing_started ==> {
            let ops = update_ops(s, content, last, now);
            ops.len() > 1 && (ops[ops.len() - 2] matches OpView::Status { flow, content: shown }
                && flow == FLOW_INPUTING@)
        },
{
}

/// What writing on a card takes: a frame at once where the throttle has passed since
/// the last one, a frame after a while behind a long silence, and else one when the
/// throttle has passed; but none where one is on its way or there is no card.
pub proof fn writing_takes_a_frame_in_time(s: StreamerView, now: Duration)
    requires
        s.last_update.nanos <= now.nanos,
    ensures
        ({
            let passed = now.nanos - s.last_update.nanos;
            let step = append_step(s, now);
            &&& !s.delivered ==> step == AppendView::Keep
            &&& s.delivered && passed >= s.throttle.nanos && passed <= 2_000_000_000 ==> step
                == AppendView::Update(s.accumulated)
            &&& s.delivered && passed >= s.throttle.nanos && passed > 2_000_000_000 ==> step == (
            if s.has_pending {
                AppendView::Keep
            } else {
                AppendView::Schedule(300_000_000)
            })
            &&& s.delivered && passed < s.throttle.nanos ==> step == (if s.has_pending {
                AppendView::Keep
            } else {
                AppendView::Schedule((s.throttle.nanos - passed) as nat)
            })
        }),
{
}

/// Behind writing, the time of the last frame is now where one was sent, and a
/// frame is on its way where one was put off.
pub proof fn writing_notes_its_frame(s: StreamerView, delta: Seq<char>, now: Duration)
    ensures
        ({
            let more = StreamerView { accumulated: s.accumulated + delta, ..s };
            let after = after_append(s, delta, now);
            &&& append_step(more, now) is Update ==> after.last_update == now && after.has_pending
                == s.has_pending
            &&& append_step(more, now) is Schedule ==> after.has_pending && after.last_update
                == s.last_update
            &&& append_step(more, now) is Keep ==> after == more
        }),
{
}

/// A card that is not yet written to is told so with what it will show; the first
/// frame and the last one come half a second behind the one before; every update
/// sends its frame, the last one as the last.
pub proof fn update_of_a_card(
    s: StreamerView,
    content: Seq<char>,
    last: bool,
    now: Duration,
)
    requires
        s.last_frame_at.nanos <= now.nanos,
        content.len() <= 20000,
    ensures
        ({
            let ops = update_ops(s, content, last, now);
            let passed = now.nanos - s.last_frame_at.nanos;
            let early = (s.frame_count == 0 || last) && passed < 500_000_000;
            let told = OpView::Status { flow: "2"@, content: markdown::card_text(content) };
            let frame = OpView::Frame { content, last };
            let wait = OpView::Wait((500_000_000 - passed) as nat);
            &&& early && !s.inputing_started ==> ops == seq![wait, told, frame]
            &&& early && s.inputing_started ==> ops == seq![wait, frame]
            &&& !early && !s.inputing_started ==> ops == seq![told, frame]
            &&& !early && s.inputing_started ==> ops == seq![frame]
        }),
{
    let ops = update_ops(s, content, last, now);
    let frame = OpView::Frame { content, last };
    assert(Seq::<OpView>::empty() + seq![frame] =~= seq![frame]);
}

/// A card that fails shows the error in its last frame, is told that it failed and
/// the error goes to the session; without a card only the latter.
pub proof fn failed_card_shows_the_error(s: StreamerView, err_text: Seq<char>)
    ensures
        ({
            let ops = fail_ops(s, err_text);
            let told = OpView::Status { flow: "2"@, content: Seq::<char>::empty() };
            let frame = OpView::Frame { content: err_text, last: true };
            let failed = OpView::Status { flow: "5"@, content: markdown::card_text(err_text) };
            let word = OpView::Fallback(err_text);
            &&& !s.delivered ==> ops == seq![word]
            &&& s.delivered && s.inputing_started ==> ops == seq![frame, failed, word]
            &&& s.delivered && !s.inputing_started ==> ops == seq![told, frame, failed, word]
        }),
{
    let ops = fail_ops(s, err_text);
    if s.delivered && s.inputing_started {
        assert(ops =~= seq![
            OpView::Frame { content: err_text, last: true },
            OpView::Status { flow: "5"@, content: markdown::card_text(err_text) },
            OpView::Fallback(err_text),
        ]);
    }
}

/// A card that was written to ends with its last frame, its state and its rest; an
/// error on the way is what the end returns, and the text goes to the session once.
pub proof fn end_of_a_card_that_was_written_to(
    content: Seq<char>,
    e: ErrorView,
    any: Result<(), ErrorView>,
)
    requires
        content.len() <= 20000,
    ensures
        ({
            let ok: Result<(), ErrorView> = Ok(());
            let f = FinishingView { content, phase: FinishPhase::LastFrame, error: None };
            let good = after_step(f, ok);
            let lost = after_step(f, Err(e));
            let unset = after_step(good, Err(e));
            &&& first_step(f) == FinishStepView::Update { content, last: true }
            &&& next_step(f, ok) == FinishStepView::Status {
                content: markdown::card_text(content),
            }
            &&& next_step(good, ok) == FinishStepView::Return(ok)
            &&& next_step(f, Err(e)) == FinishStepView::Fallback(content)
            &&& next_step(lost, any) == FinishStepView::Return(Err(e))
            &&& next_step(good, Err(e)) == FinishStepView::Fallback(content)
            &&& next_step(unset, any) == FinishStepView::Return(Err(e))
        }),
{
}

/// Where the very first frame of a card fails, that is returned at once.
pub proof fn failed_first_frame_is_returned(content: Seq<char>, e: ErrorView)
    ensures
        ({
            let f = FinishingView { content, phase: FinishPhase::FirstFrame, error: None };
            &&& next_step(f, Err(e)) == FinishStepView::Return(Err(e))
            &&& after_step(f, Err(e)).phase == FinishPhase::Over
        }),
{
}

/// What the last frame cannot hold is sent behind the state of the card, from the
/// character behind the frame on; then the end is told.
pub proof fn rest_of_a_long_text_is_sent(content: Seq<char>, e: ErrorView)
    requires
        content.len() > 20000,
    ensures
        ({
            let ok: Result<(), ErrorView> = Ok(());
            let f = FinishingView { content, phase: FinishPhase::Status, error: None };
            let lost = after_step(f, Err(e));
            &&& next_step(f, ok) == FinishStepView::Rest(content.skip(20000))
            &&& next_step(after_step(f, ok), ok) == FinishStepView::Return(ok)
            &&& next_step(f, Err(e)) == FinishStepView::Fallback(content)
            &&& next_step(lost, ok) == FinishStepView::Rest(content.skip(20000))
            &&& next_step(after_step(lost, ok), ok) == FinishStepView::Return(Err(e))
        }),
{
}

/// A card that was not written to gets its text in a first frame and in a last one.
pub proof fn card_that_was_not_written_to_gets_two_frames(content: Seq<char>)
    ensures
        ({
            let ok: Result<(), ErrorView> = Ok(());
            let f = FinishingView { content, phase: FinishPhase::FirstFrame, error: None };
            &&& first_step(f) == FinishStepView::Update { content, last: false }
            &&& next_step(f, ok) == FinishStepView::Update { content, last: true }
            &&& after_step(f, ok).phase == FinishPhase::LastFrame
            &&& after_step(f, ok).content == content
            &&& after_step(f, ok).error is None
        }),
{
}

/// What was put off is over when it is due; the time is noted where a frame is sent.
pub proof fn put_off_frame_is_sent_once(s: StreamerView, now: Duration)
    ensures
        !after_flush(s, now).has_pending,
        s.delivered && !s.closed ==> after_flush(s, now).last_update == now,
        !s.delivered || s.closed ==> after_flush(s, now).last_update == s.last_update,
        after_flush(s, now).accumulated == s.accumulated,
{
}

/// A frame is counted, and its time is that of the last frame and of the last sign of
/// work.
pub proof fn frame_is_counted(s: StreamerView, now: Duration)
    ensures
        s.frame_count < u64::MAX ==> after_frame(s, now).frame_count == s.frame_count + 1,
        after_frame(s, now).last_frame_at == now,
        after_frame(s, now).last_activity == now,
        after_frame(s, now).accumulated == s.accumulated,
        after_frame(s, now).has_pending == s.has_pending,
{
}

/// A card ends with the text that is given, and without one with what was written; a
/// card that shows something has a first frame before its last one.
pub proof fn card_ends_with_the_text_that_is_given(s: StreamerView, given: Seq<char>)
    ensures
        given.len() > 0 ==> finishing_of(s, given).content == given,
        given.len() == 0 ==> finishing_of(s, given).content == s.accumulated,
        s.frame_count > 0 ==> finishing_of(s, given).phase == FinishPhase::LastFrame,
        s.frame_count == 0 && given.len() > 0 ==> finishing_of(s, given).phase
            == FinishPhase::FirstFrame,
        s.frame_count == 0 && given.len() == 0 && s.accumulated.len() == 0 ==> finishing_of(
            s,
            given,
        ).phase == FinishPhase::LastFrame,
        finishing_of(s, given).error is None,
{
}

/// A card that is given up shows what was written and that it failed.
pub proof fn card_that_is_given_up_has_failed(s: StreamerView)
    ensures
        s.delivered && !s.closed ==> abort_ops(s) == seq![
            OpView::Frame { content: s.accumulated, last: true },
            OpView::Status { flow: "5"@, content: markdown::card_text(s.accumulated) },
        ],
        !s.delivered || s.closed ==> abort_ops(s).len() == 0,
{
}

/// A card that nobody finishes is finished when its time is over, and not before.
pub proof fn forgotten_card_is_finished(s: StreamerView, now: Duration)
    requires
        s.last_activity.nanos <= now.nanos,
    ensures
        s.watchdog.nanos > 0 && s.delivered && !s.closed && now.nanos - s.last_activity.nanos
            > s.watchdog.nanos ==> watch_ops(s, now) == seq![
            OpView::Frame { content: s.accumulated, last: true },
            OpView::Status { flow: "3"@, content: markdown::card_text(s.accumulated) },
        ],
        now.nanos - s.last_activity.nanos <= s.watchdog.nanos ==> watch_ops(s, now).len() == 0,
        s.watchdog.nanos == 0 || s.closed || !s.delivered ==> watch_ops(s, now).len() == 0,
{
}

/// Behind its state a card is at its end, unless something is left to be sent.
pub proof fn card_is_over_behind_its_state(content: Seq<char>)
    ensures
        ({
            let ok: Result<(), ErrorView> = Ok(());
            let f = FinishingView { content, phase: FinishPhase::Status, error: None };
            &&& content.len() <= 20000 ==> after_step(f, ok).phase == FinishPhase::Over
            &&& content.len() > 20000 ==> after_step(f, ok).phase == FinishPhase::Rest
            &&& after_step(after_step(f, ok), ok).phase == FinishPhase::Over
        }),
{
}

} // verus!
