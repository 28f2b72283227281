//! Conversation access layer for DingTalk robots.
//!
//! The library decides what happens to a message on its way in, what an answer
//! looks like on its way out, and how a card fills while the robot writes. It
//! reads and writes nothing itself: what came in is handed to it, and what is to
//! be sent is handed back.

pub mod bot_identity;
pub mod card;
pub mod chance;
pub mod channel;
pub mod config;
pub mod document;
pub mod emotion;
pub mod error;
pub mod frame;
pub mod http_mode;
pub mod json;
pub mod keyed;
pub mod lifecycle;
pub mod normalize;
pub mod oapi;
pub mod outbound;
pub mod pipeline;
pub mod ratelimit;
pub mod record;
pub mod reply;
pub mod safety;
pub mod send;
pub mod stream;
pub mod streamer;
pub mod text;
pub mod time;
pub mod token;
pub mod types;
pub mod url;

pub use config::{
    Config, Transport, DEFAULT_API_BASE, DEFAULT_CARD_TEMPLATE_ID, DEFAULT_OAPI_BASE, VERSION,
};
pub use error::{ApiError, Error, ErrorCode, Result};
pub use frame::Frame;
pub use lifecycle::LifecycleHooks;
pub use oapi::MediaUploadResult;
pub use send::SendTarget;
pub use types::{
    AtUser, BatchConfig, BatchedMessage, BotIdentity, CardAction, DedupConfig, GroupOverride,
    IncomingMessage, MediaBatchConfig, Mention, OutboundConfig, PolicyConfig, PolicyDecision,
    RejectEvent, RejectReason, Resource, SafetyConfig,
};
