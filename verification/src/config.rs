//! What a channel is set up with.

use crate::text;
use crate::time::Duration;
use crate::types;
use crate::types::{OutboundConfig, SafetyConfig};
use vstd::prelude::*;

verus! {

pub const DEFAULT_API_BASE: &'static str = "https://api.dingtalk.com";

pub const DEFAULT_OAPI_BASE: &'static str = "https://oapi.dingtalk.com";

pub const DEFAULT_CARD_TEMPLATE_ID: &'static str = "02fcf2f4-5e02-4a85-b672-46d1f715543e.schema";

pub const DEFAULT_STREAM_THROTTLE_MS: u64 = 800;

/// After this time a card that was not finished is finished.
pub const DEFAULT_CARD_WATCHDOG_MS: u64 = 600_000;

/// For this time an error is not told to a conversation a second time.
pub const DEFAULT_ERROR_COOLDOWN_MS: u64 = 60_000;

/// A message that is older is stale.
pub const DEFAULT_STALE_WINDOW_MS: u64 = 1_800_000;

pub const DEFAULT_TEXT_CHUNK_LIMIT: usize = 3500;

/// Twenty requests in a second, in thousandths.
pub const DEFAULT_CARD_QPS_MILLI: u64 = 20_000;

pub const DEFAULT_QPS_BACKOFF_MS: u64 = 2_000;

pub const DEFAULT_KEEP_ALIVE_IDLE_MS: u64 = 120_000;

pub const DEFAULT_PONG_WAIT_MS: u64 = 5_000;

pub const DEFAULT_RECONNECT_BASE_MS: u64 = 1_000;

pub const DEFAULT_RECONNECT_MAX_MS: u64 = 30_000;

pub const DEFAULT_HTTP_TIMESTAMP_TOLERANCE_MS: u64 = 3_600_000;

pub const TOPIC_BOT_MESSAGE: &'static str = "/v1.0/im/bot/messages/get";

pub const TOPIC_CARD_INSTANCE_CB: &'static str = "/v1.0/card/instances/callback";

/// The version of the library.
pub const VERSION: &'static str = "0.1.0";

/// What the library calls itself.
pub const USER_AGENT: &'static str = "dingtalk-channel-sdk-rust/v0.1.0";

/// How messages come in.
#[derive(Debug, Clone, Copy, PartialEq, Eq, Structural)]
pub enum Transport {
    /// Over a connection that the channel opens.
    Stream,
    /// As requests to a server of the user.
    Http,
}

impl Default for Transport {
    fn default() -> (r: Transport)
        ensures
            r == Transport::Stream,
    {
        Transport::Stream
    }
}

/// The transport that a word stands for.
pub open spec fn transport_of(s: Seq<char>) -> Option<Transport> {
    if s == "stream"@ {
        Some(Transport::Stream)
    } else if s == "http"@ {
        Some(Transport::Http)
    } else {
        None
    }
}

/// How many requests for cards may be made in a second, in thousandths: as many as
/// are given, or else twenty.
pub open spec fn card_rate(given: u64) -> u64 {
    if given == 0 {
        DEFAULT_CARD_QPS_MILLI
    } else {
        given
    }
}

impl Transport {
    pub fn parse(s: &str) -> (r: Option<Transport>)
        ensures
            r == (if s@ == "stream"@ {
                Some(Transport::Stream)
            } else if s@ == "http"@ {
                Some(Transport::Http)
            } else {
                None
            }),
            r == transport_of(s@),
    {
        if text::same(s, "stream") {
            Some(Transport::Stream)
        } else if text::same(s, "http") {
            Some(Transport::Http)
        } else {
            None
        }
    }
}

/// What a channel is set up with. Only the two credentials have to be given.
#[derive(Debug)]
pub struct Config {
    pub client_id: String,
    pub client_secret: String,
    /// In place of the public address.
    pub api_base: String,
    /// In place of the public address that media are uploaded to.
    pub oapi_base: String,
    /// In place of the common template of cards.
    pub card_template_id: String,
    /// The shortest time between two updates of a card.
    pub stream_throttle: Duration,
    /// After this time a card that was not finished is finished (zero: never).
    pub card_watchdog: Duration,
    /// For this time an error is not told to a conversation a second time
    /// (zero: it always is).
    pub error_cooldown: Duration,
    /// A message that is older is dropped (zero: none is).
    pub stale_message_window: Duration,
    /// A text with more characters is sent in pieces (zero: none is).
    pub text_chunk_limit: usize,
    /// How many requests for cards may be made in a second, in thousandths.
    pub card_qps_milli: u64,
    /// Open the connection again when it was closed.
    pub auto_reconnect: bool,
    /// After this time of silence the other side is asked for a sign of life.
    pub keep_alive_idle: Duration,
    pub safety: SafetyConfig,
    /// Hosts from which files are fetched wherever they are.
    pub ssrf_allowlist: Vec<String>,
    pub transport: Transport,
    /// How far the time of a signature may be away (zero: as far as it likes).
    pub http_timestamp_tolerance: Duration,
    pub outbound: Option<OutboundConfig>,
}

/// Everything but the credentials is as it is by default.
pub open spec fn has_defaults(c: Config) -> bool {
    &&& c.api_base@ == DEFAULT_API_BASE@
    &&& c.oapi_base@ == DEFAULT_OAPI_BASE@
    &&& c.card_template_id@ == DEFAULT_CARD_TEMPLATE_ID@
    &&& c.stream_throttle.nanos == DEFAULT_STREAM_THROTTLE_MS * 1_000_000
    &&& c.card_watchdog.nanos == DEFAULT_CARD_WATCHDOG_MS * 1_000_000
    &&& c.error_cooldown.nanos == DEFAULT_ERROR_COOLDOWN_MS * 1_000_000
    &&& c.stale_message_window.nanos == DEFAULT_STALE_WINDOW_MS * 1_000_000
    &&& c.text_chunk_limit == DEFAULT_TEXT_CHUNK_LIMIT
    &&& c.card_qps_milli == DEFAULT_CARD_QPS_MILLI
    &&& c.auto_reconnect
    &&& c.keep_alive_idle.nanos == DEFAULT_KEEP_ALIVE_IDLE_MS * 1_000_000
    &&& types::default_safety(c.safety)
    &&& c.ssrf_allowlist@.len() == 0
    &&& c.transport == Transport::Stream
    &&& c.http_timestamp_tolerance.nanos == DEFAULT_HTTP_TIMESTAMP_TOLERANCE_MS * 1_000_000
    &&& c.outbound is None
}

/// Two settings that say the same.
pub open spec fn same_config(a: Config, b: Config) -> bool {
    &&& a.client_id@ == b.client_id@
    &&& a.client_secret@ == b.client_secret@
    &&& a.api_base@ == b.api_base@
    &&& a.oapi_base@ == b.oapi_base@
    &&& a.card_template_id@ == b.card_template_id@
    &&& a.stream_throttle == b.stream_throttle
    &&& a.card_watchdog == b.card_watchdog
    &&& a.error_cooldown == b.error_cooldown
    &&& a.stale_message_window == b.stale_message_window
    &&& a.text_chunk_limit == b.text_chunk_limit
    &&& a.card_qps_milli == b.card_qps_milli
    &&& a.auto_reconnect == b.auto_reconnect
    &&& a.keep_alive_idle == b.keep_alive_idle
    &&& types::same_safety(a.safety, b.safety)
    &&& text::texts(a.ssrf_allowlist@) == text::texts(b.ssrf_allowlist@)
    &&& a.transport == b.transport
    &&& a.http_timestamp_tolerance == b.http_timestamp_tolerance
    &&& match (a.outbound, b.outbound) {
        (Some(x), Some(y)) => x.retry == y.retry && x.footer@ == y.footer@,
        (None, None) => true,
        _ => false,
    }
}

impl Clone for Config {
    fn clone(&self) -> (r: Config)
        ensures
            same_config(r, *self),
    {
        Config {
            client_id: self.client_id.clone(),
            client_secret: self.client_secret.clone(),
            api_base: self.api_base.clone(),
            oapi_base: self.oapi_base.clone(),
            card_template_id: self.card_template_id.clone(),
            stream_throttle: self.stream_throttle,
            card_watchdog: self.card_watchdog,
            error_cooldown: self.error_cooldown,
            stale_message_window: self.stale_message_window,
            text_chunk_limit: self.text_chunk_limit,
            card_qps_milli: self.card_qps_milli,
            auto_reconnect: self.auto_reconnect,
            keep_alive_idle: self.keep_alive_idle,
            safety: self.safety.clone(),
            ssrf_allowlist: text::copy_texts(&self.ssrf_allowlist),
            transport: self.transport,
            http_timestamp_tolerance: self.http_timestamp_tolerance,
            outbound: match &self.outbound {
                Some(o) => Some(o.clone()),
                None => None,
            },
        }
    }
}

impl Default for Config {
    fn default() -> (r: Config)
        ensures
            r.client_id@ == Seq::<char>::empty(),
            r.client_secret@ == Seq::<char>::empty(),
            has_defaults(r),
    {
        Config {
            client_id: String::new(),
            client_secret: String::new(),
            api_base: text::owned(DEFAULT_API_BASE),
            oapi_base: text::owned(DEFAULT_OAPI_BASE),
            card_template_id: text::owned(DEFAULT_CARD_TEMPLATE_ID),
            stream_throttle: Duration::from_millis(DEFAULT_STREAM_THROTTLE_MS),
            card_watchdog: Duration::from_millis(DEFAULT_CARD_WATCHDOG_MS),
            error_cooldown: Duration::from_millis(DEFAULT_ERROR_COOLDOWN_MS),
            stale_message_window: Duration::from_millis(DEFAULT_STALE_WINDOW_MS),
            text_chunk_limit: DEFAULT_TEXT_CHUNK_LIMIT,
            card_qps_milli: DEFAULT_CARD_QPS_MILLI,
            auto_reconnect: true,
            keep_alive_idle: Duration::from_millis(DEFAULT_KEEP_ALIVE_IDLE_MS),
            safety: SafetyConfig::default(),
            ssrf_allowlist: Vec::new(),
            transport: Transport::Stream,
            http_timestamp_tolerance: Duration::from_millis(DEFAULT_HTTP_TIMESTAMP_TOLERANCE_MS),
            outbound: None,
        }
    }
}

/// The window that holds: none where the one of the channel is zero; the one of
/// the channel where it is not the default; else the one of the safety rules,
/// and the default where that is zero.
pub open spec fn stale_window_of(own: Duration, safety: Duration) -> Duration {
    if own.nanos == 0 {
        Duration { nanos: u128::MAX }
    } else if own.nanos != DEFAULT_STALE_WINDOW_MS * 1_000_000 {
        own
    } else if safety.nanos == 0 {
        Duration { nanos: (DEFAULT_STALE_WINDOW_MS * 1_000_000) as u128 }
    } else {
        safety
    }
}

impl Config {
    pub fn new(client_id: &str, client_secret: &str) -> (r: Config)
        ensures
            r.client_id@ == client_id@,
            r.client_secret@ == client_secret@,
            has_defaults(r),
    {
        let mut c = Config::default();
        c.client_id = text::owned(client_id);
        c.client_secret = text::owned(client_secret);
        c
    }

    /// How old a message may be.
    pub fn effective_stale_window(&self) -> (r: Duration)
        ensures
            r == stale_window_of(self.stale_message_window, self.safety.stale_window),
    {
        let default = Duration::from_millis(DEFAULT_STALE_WINDOW_MS);
        if self.stale_message_window.is_zero() {
            Duration { nanos: u128::MAX }
        } else if self.stale_message_window.nanos != default.nanos {
            self.stale_message_window
        } else if self.safety.stale_window.is_zero() {
            default
        } else {
            self.safety.stale_window
        }
    }

    /// The safety rules that hold: those that were given, with the window that
    /// holds.
    pub fn effective_safety(&self) -> (r: SafetyConfig)
        ensures
            types::same_safety(
                r,
                SafetyConfig {
                    stale_window: stale_window_of(
                        self.stale_message_window,
                        self.safety.stale_window,
                    ),
                    ..self.safety
                },
            ),
    {
        let mut rules = self.safety.clone();
        rules.stale_window = self.effective_stale_window();
        rules
    }

    /// How many requests for cards may be made in a second, in thousandths.
    pub fn card_rate_milli(&self) -> (r: u64)
        ensures
            r == (if self.card_qps_milli == 0 {
                DEFAULT_CARD_QPS_MILLI
            } else {
                self.card_qps_milli
            }),
            r > 0,
            r == card_rate(self.card_qps_milli),
    {
        if self.card_qps_milli == 0 {
            DEFAULT_CARD_QPS_MILLI
        } else {
            self.card_qps_milli
        }
    }
}

/// What holds where nothing is said: the addresses of the service, an update of a
/// card every 800 milliseconds at most, ten minutes for a card, a minute between
/// two errors, half an hour for a message, 3500 characters for a piece, twenty
/// requests for cards a second, a sign of life after two minutes and an hour for a
/// signature.
pub proof fn defaults_of_a_channel(c: Config)
    requires
        has_defaults(c),
    ensures
        c.api_base@ == "https://api.dingtalk.com"@,
        c.oapi_base@ == "https://oapi.dingtalk.com"@,
        c.card_template_id@ == "02fcf2f4-5e02-4a85-b672-46d1f715543e.schema"@,
        c.stream_throttle.nanos == 800_000_000,
        c.card_watchdog.nanos == 600_000_000_000,
        c.error_cooldown.nanos == 60_000_000_000,
        c.stale_message_window.nanos == 1_800_000_000_000,
        c.text_chunk_limit == 3500,
        c.card_qps_milli == 20_000,
        c.auto_reconnect,
        c.keep_alive_idle.nanos == 120_000_000_000,
        c.http_timestamp_tolerance.nanos == 3_600_000_000_000,
        c.transport == Transport::Stream,
        c.ssrf_allowlist@.len() == 0,
{
}

/// The window of the channel holds where it is another than half an hour, and none
/// does where it is zero; else that of the safety rules holds, or half an hour.
pub proof fn window_of_the_channel_comes_first(own: Duration, safety: Duration)
    ensures
        own.nanos == 0 ==> stale_window_of(own, safety).nanos == u128::MAX,
        own.nanos != 0 && own.nanos != 1_800_000_000_000 ==> stale_window_of(own, safety) == own,
        own.nanos == 1_800_000_000_000 && safety.nanos != 0 ==> stale_window_of(own, safety)
            == safety,
        own.nanos == 1_800_000_000_000 && safety.nanos == 0 ==> stale_window_of(own, safety).nanos
            == 1_800_000_000_000,
{
}

/// A copy of the settings holds the same settings.
pub proof fn copied_settings_are_the_same(a: Config, b: Config)
    requires
        same_config(a, b),
    ensures
        a.client_id@ == b.client_id@,
        a.client_secret@ == b.client_secret@,
        a.api_base@ == b.api_base@,
        a.oapi_base@ == b.oapi_base@,
        a.card_template_id@ == b.card_template_id@,
        a.stream_throttle == b.stream_throttle,
        a.card_watchdog == b.card_watchdog,
        a.error_cooldown == b.error_cooldown,
        a.stale_message_window == b.stale_message_window,
        a.text_chunk_limit == b.text_chunk_limit,
        a.card_qps_milli == b.card_qps_milli,
        a.auto_reconnect == b.auto_reconnect,
        a.keep_alive_idle == b.keep_alive_idle,
        a.safety.policy@ == b.safety.policy@,
        text::texts(a.ssrf_allowlist@) == text::texts(b.ssrf_allowlist@),
        a.transport == b.transport,
        a.http_timestamp_tolerance == b.http_timestamp_tolerance,
        a.outbound is Some <==> b.outbound is Some,
        a.outbound matches Some(x) ==> b.outbound matches Some(y) && x.retry == y.retry
            && x.footer@ == y.footer@,
{
}

/// Two words stand for transports, and no other word does.
pub proof fn words_for_transports(s: Seq<char>)
    ensures
        transport_of("stream"@) == Some(Transport::Stream),
        transport_of("http"@) == Some(Transport::Http),
        transport_of(s) is Some <==> s == "stream"@ || s == "http"@,
{
    reveal_strlit("stream");
    reveal_strlit("http");
    assert("stream"@.len() != "http"@.len());
}

/// Twenty requests for cards may be made in a second where nothing is said.
pub proof fn rate_of_cards(given: u64)
    ensures
        card_rate(0) == 20_000,
        given > 0 ==> card_rate(given) == given,
{
}

} // verus!
