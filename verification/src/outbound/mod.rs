//! What is sent, and how often it is tried.
pub mod markdown;
pub mod retry;
pub mod splitter;

pub use markdown::normalize_for_card;
pub use retry::RetryOptions;
pub use splitter::split_with_code_fences;
