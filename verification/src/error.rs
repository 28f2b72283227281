//! Errors and what they say of a second attempt.

use crate::text;
use vstd::prelude::*;

verus! {

/// What kind of error it is.
#[derive(Debug, Clone, Copy, PartialEq, Eq, Hash, Structural)]
pub enum ErrorCode {
    TargetRevoked,
    PermissionDenied,
    FormatError,
    RateLimited,
    SendTimeout,
    QpsLimited,
    SsrfBlocked,
    Unknown,
}

impl ErrorCode {
    /// The word for a kind.
    pub open spec fn word(self) -> Seq<char> {
        match self {
            ErrorCode::TargetRevoked => "target_revoked"@,
            ErrorCode::PermissionDenied => "permission_denied"@,
            ErrorCode::FormatError => "format_error"@,
            ErrorCode::RateLimited => "rate_limited"@,
            ErrorCode::SendTimeout => "send_timeout"@,
            ErrorCode::QpsLimited => "qps_limited"@,
            ErrorCode::SsrfBlocked => "ssrf_blocked"@,
            ErrorCode::Unknown => "unknown"@,
        }
    }

    pub fn as_str(&self) -> (r: &'static str)
        ensures
            r@ == self.word(),
    {
        match self {
            ErrorCode::TargetRevoked => "target_revoked",
            ErrorCode::PermissionDenied => "permission_denied",
            ErrorCode::FormatError => "format_error",
            ErrorCode::RateLimited => "rate_limited",
            ErrorCode::SendTimeout => "send_timeout",
            ErrorCode::QpsLimited => "qps_limited",
            ErrorCode::SsrfBlocked => "ssrf_blocked",
            ErrorCode::Unknown => "unknown",
        }
    }
}

/// An answer of the service that is an error.
#[derive(Debug)]
pub struct ApiError {
    pub status: u16,
    pub code: String,
    pub msg: String,
    pub body: String,
}

pub struct ApiErrorView {
    pub status: u16,
    pub code: Seq<char>,
    pub msg: Seq<char>,
    pub body: Seq<char>,
}

impl View for ApiError {
    type V = ApiErrorView;

    open spec fn view(&self) -> ApiErrorView {
        ApiErrorView { status: self.status, code: self.code@, msg: self.msg@, body: self.body@ }
    }
}

impl Clone for ApiError {
    fn clone(&self) -> (r: ApiError)
        ensures
            r@ == self@,
    {
        ApiError {
            status: self.status,
            code: self.code.clone(),
            msg: self.msg.clone(),
            body: self.body.clone(),
        }
    }
}

impl ApiErrorView {
    /// Too many requests in a second: the service refuses with a code of its
    /// own.
    pub open spec fn qps_limit(self) -> bool {
        self.status == 403 && text::occurs(self.code, "QpsLimit"@)
    }

    pub open spec fn words(self) -> Seq<char> {
        "dingtalk api error: http="@ + text::decimal(self.status as nat) + " code="@ + self.code
            + " msg="@ + self.msg
    }
}

impl ApiError {
    pub fn is_qps_limit(&self) -> (r: bool)
        ensures
            r == self@.qps_limit(),
    {
        self.status == 403 && text::text_contains(self.code.as_str(), "QpsLimit")
    }

    /// The error in words.
    pub fn text(&self) -> (r: String)
        ensures
            r@ == self@.words(),
    {
        let mut s = text::owned("dingtalk api error: http=");
        s.append(text::decimal_text(self.status as u64).as_str());
        s.append(" code=");
        s.append(self.code.as_str());
        s.append(" msg=");
        s.append(self.msg.as_str());
        s
    }
}

/// An error of the library itself.
#[derive(Debug)]
pub struct ChannelError {
    pub message: String,
}

impl Clone for ChannelError {
    fn clone(&self) -> (r: ChannelError)
        ensures
            r.message@ == self.message@,
    {
        ChannelError { message: self.message.clone() }
    }
}

impl ChannelError {
    pub fn new(message: &str) -> (r: ChannelError)
        ensures
            r.message@ == message@,
    {
        ChannelError { message: text::owned(message) }
    }
}

/// Any error.
#[derive(Debug)]
pub enum Error {
    Channel(ChannelError),
    Api(ApiError),
    /// An error whose kind is known.
    Classified { code: ErrorCode, message: String },
    Http(String),
    Io(String),
    Ws(String),
    Json(String),
    Other(String),
}

pub enum ErrorView {
    Channel(Seq<char>),
    Api(ApiErrorView),
    Classified { code: ErrorCode, message: Seq<char> },
    Http(Seq<char>),
    Io(Seq<char>),
    Ws(Seq<char>),
    Json(Seq<char>),
    Other(Seq<char>),
}

impl View for Error {
    type V = ErrorView;

    open spec fn view(&self) -> ErrorView {
        match self {
            Error::Channel(e) => ErrorView::Channel(e.message@),
            Error::Api(e) => ErrorView::Api(e@),
            Error::Classified { code, message } => ErrorView::Classified {
                code: *code,
                message: message@,
            },
            Error::Http(s) => ErrorView::Http(s@),
            Error::Io(s) => ErrorView::Io(s@),
            Error::Ws(s) => ErrorView::Ws(s@),
            Error::Json(s) => ErrorView::Json(s@),
            Error::Other(s) => ErrorView::Other(s@),
        }
    }
}

pub type Result<T> = std::result::Result<T, Error>;

impl ErrorView {
    /// The error in words.
    pub open spec fn words(self) -> Seq<char> {
        match self {
            ErrorView::Channel(s) => s,
            ErrorView::Api(e) => e.words(),
            ErrorView::Classified { code, message } => "ChannelError(code="@ + code.word() + "): "@
                + message,
            ErrorView::Http(s) => s,
            ErrorView::Io(s) => s,
            ErrorView::Ws(s) => s,
            ErrorView::Json(s) => s,
            ErrorView::Other(s) => s,
        }
    }
}

impl Error {
    pub fn channel(message: &str) -> (r: Error)
        ensures
            r@ == ErrorView::Channel(message@),
    {
        Error::Channel(ChannelError::new(message))
    }

    pub fn classified(code: ErrorCode, message: &str) -> (r: Error)
        ensures
            r@ == (ErrorView::Classified { code, message: message@ }),
    {
        Error::Classified { code, message: text::owned(message) }
    }

    /// The error in words.
    pub fn text(&self) -> (r: String)
        ensures
            r@ == self@.words(),
    {
        match self {
            Error::Channel(e) => e.message.clone(),
            Error::Api(e) => e.text(),
            Error::Classified { code, message } => {
                let mut s = text::owned("ChannelError(code=");
                s.append(code.as_str());
                s.append("): ");
                s.append(message.as_str());
                s
            },
            Error::Http(s) => s.clone(),
            Error::Io(s) => s.clone(),
            Error::Ws(s) => s.clone(),
            Error::Json(s) => s.clone(),
            Error::Other(s) => s.clone(),
        }
    }
}

/// The text in lower case, by the tables of Unicode.
pub uninterp spec fn lower_case(s: Seq<char>) -> Seq<char>;

/// `str::to_lowercase`. The result is a function of the text.
#[verifier::external_body]
pub(crate) fn to_lower_case(s: &str) -> (r: String)
    ensures
        r@ == lower_case(s@),
{
    s.to_lowercase()
}

/// The kind that the words of an error, in lower case, speak of.
pub open spec fn kind_of_words(low: Seq<char>) -> ErrorCode {
    if text::occurs(low, "status 429"@) || text::occurs(low, "too many requests"@) {
        ErrorCode::RateLimited
    } else if text::occurs(low, "status 401"@) || text::occurs(low, "status 403"@) {
        ErrorCode::PermissionDenied
    } else if text::occurs(low, "status 400"@) {
        ErrorCode::FormatError
    } else if text::occurs(low, "status 404"@) {
        ErrorCode::TargetRevoked
    } else if text::occurs(low, "timeout"@) || text::occurs(low, "deadline"@) || text::occurs(
        low,
        "timed out"@,
    ) {
        ErrorCode::SendTimeout
    } else {
        ErrorCode::Unknown
    }
}

/// The kind that the answer of the service shows, whatever its words are.
pub open spec fn kind_of_answer(e: ApiErrorView) -> Option<ErrorCode> {
    if e.qps_limit() {
        Some(ErrorCode::QpsLimited)
    } else if e.status == 403 {
        Some(ErrorCode::PermissionDenied)
    } else if e.status == 400 {
        Some(ErrorCode::FormatError)
    } else if e.status == 404 {
        Some(ErrorCode::TargetRevoked)
    } else if e.status == 429 {
        Some(ErrorCode::RateLimited)
    } else {
        None
    }
}

/// The kind of an error whose words are `low` in lower case.
pub open spec fn kind_of(e: ErrorView, low: Seq<char>) -> ErrorCode {
    match e {
        ErrorView::Classified { code, .. } => code,
        ErrorView::Api(a) => match kind_of_answer(a) {
            Some(code) => code,
            None => kind_of_words(low),
        },
        _ => kind_of_words(low),
    }
}

/// The error with its kind.
pub open spec fn classified_view(e: ErrorView) -> ErrorView {
    ErrorView::Classified { code: kind_of(e, lower_case(e.words())), message: e.words() }
}

/// The kind that the words of an error, in lower case, speak of.
pub fn classify_words(low: &str) -> (r: ErrorCode)
    ensures
        r == kind_of_words(low@),
{
    if text::text_contains(low, "status 429") || text::text_contains(low, "too many requests") {
        ErrorCode::RateLimited
    } else if text::text_contains(low, "status 401") || text::text_contains(low, "status 403") {
        ErrorCode::PermissionDenied
    } else if text::text_contains(low, "status 400") {
        ErrorCode::FormatError
    } else if text::text_contains(low, "status 404") {
        ErrorCode::TargetRevoked
    } else if text::text_contains(low, "timeout") || text::text_contains(low, "deadline")
        || text::text_contains(low, "timed out") {
        ErrorCode::SendTimeout
    } else {
        ErrorCode::Unknown
    }
}

/// The kind of an error whose words are `low` in lower case.
pub fn classify_code(err: &Error, low: &str) -> (r: ErrorCode)
    ensures
        r == kind_of(err@, low@),
{
    match err {
        Error::Classified { code, .. } => *code,
        Error::Api(api) => {
            if api.is_qps_limit() {
                ErrorCode::QpsLimited
            } else if api.status == 403 {
                ErrorCode::PermissionDenied
            } else if api.status == 400 {
                ErrorCode::FormatError
            } else if api.status == 404 {
                ErrorCode::TargetRevoked
            } else if api.status == 429 {
                ErrorCode::RateLimited
            } else {
                classify_words(low)
            }
        },
        _ => classify_words(low),
    }
}

/// The error with its kind: what the answer of the service shows, else what the
/// words speak of.
pub fn classify_error(err: &Error) -> (r: Error)
    ensures
        r@ == classified_view(err@),
{
    let words = err.text();
    let low = to_lower_case(words.as_str());
    let code = classify_code(err, low.as_str());
    Error::Classified { code, message: words }
}

/// Whether a second attempt can succeed.
pub open spec fn retryable(e: ErrorView) -> bool {
    match e {
        ErrorView::Classified { code, .. } => code == ErrorCode::RateLimited || code
            == ErrorCode::QpsLimited || code == ErrorCode::Unknown || code
            == ErrorCode::SendTimeout,
        _ => true,
    }
}

/// Whether a second attempt can succeed: too many requests, time that ran out
/// and what is not known can pass; a wrong format does not.
pub fn is_retryable(err: &Error) -> (r: bool)
    ensures
        r == retryable(err@),
{
    match err {
        Error::Classified { code, .. } => match code {
            ErrorCode::RateLimited | ErrorCode::QpsLimited | ErrorCode::Unknown
            | ErrorCode::SendTimeout => true,
            _ => false,
        },
        _ => true,
    }
}

/// Whether what should have been answered is gone.
pub open spec fn target_gone(e: ErrorView) -> bool {
    e matches ErrorView::Classified { code, .. } && code == ErrorCode::TargetRevoked
}

/// Whether what should have been answered is gone.
pub fn is_reply_target_gone(err: &Error) -> (r: bool)
    ensures
        r == target_gone(err@),
{
    match err {
        Error::Classified { code, .. } => match code {
            ErrorCode::TargetRevoked => true,
            _ => false,
        },
        _ => false,
    }
}

/// An error keeps its kind when it is classified once more.
pub proof fn classifying_twice_keeps_the_kind(e: ErrorView)
    ensures
        classified_view(classified_view(e))->code == classified_view(e)->code,
{
}

/// An error whose target is gone is not tried again.
pub proof fn gone_target_is_not_retried(e: ErrorView)
    ensures
        target_gone(e) ==> !retryable(e),
{
}

/// What the status of an answer shows: too many requests in a second or at all, a
/// request that is not permitted, one of a wrong format, a target that is gone.
pub proof fn status_shows_the_kind(e: ApiErrorView)
    ensures
        ({
            let kind = classified_view(ErrorView::Api(e))->code;
            let often = text::occurs(e.code, "QpsLimit"@);
            &&& e.status == 403 && often ==> kind == ErrorCode::QpsLimited
            &&& e.status == 403 && !often ==> kind == ErrorCode::PermissionDenied
            &&& e.status == 400 ==> kind == ErrorCode::FormatError
            &&& e.status == 404 ==> kind == ErrorCode::TargetRevoked
            &&& e.status == 429 ==> kind == ErrorCode::RateLimited
        }),
        e.status == 403 && text::occurs(e.code, "QpsLimit"@) <==> e.qps_limit(),
{
}

/// What the words of an error speak of, where no status shows it: too many
/// requests, a request that is not permitted or of a wrong format, a target that is
/// gone, or time that ran out; of nothing that is known otherwise.
pub proof fn words_show_the_kind(low: Seq<char>, front: Seq<char>, back: Seq<char>)
    ensures
        kind_of_words(front + "too many requests"@ + back) == ErrorCode::RateLimited,
        kind_of_words(front + "status 429"@ + back) == ErrorCode::RateLimited,
        ({
            let plain = !text::occurs(low, "status 4"@) && !text::occurs(low, "too many"@);
            let late = text::occurs(low, "timeout"@) || text::occurs(low, "deadline"@)
                || text::occurs(low, "timed out"@);
            &&& plain && late ==> kind_of_words(low) == ErrorCode::SendTimeout
            &&& plain && !late ==> kind_of_words(low) == ErrorCode::Unknown
        }),
        !text::occurs(low, "status 42"@) && !text::occurs(low, "too many"@) ==> {
            &&& text::occurs(low, "status 401"@) || text::occurs(low, "status 403"@)
                ==> kind_of_words(low) == ErrorCode::PermissionDenied
            &&& !text::occurs(low, "status 401"@) && !text::occurs(low, "status 403"@)
                && text::occurs(low, "status 400"@) ==> kind_of_words(low)
                == ErrorCode::FormatError
            &&& !text::occurs(low, "status 401"@) && !text::occurs(low, "status 403"@)
                && !text::occurs(low, "status 400"@) && text::occurs(low, "status 404"@)
                ==> kind_of_words(low) == ErrorCode::TargetRevoked
        },
{
    reveal_strlit("too many requests");
    reveal_strlit("too many");
    reveal_strlit("status 4");
    reveal_strlit("status 42");
    reveal_strlit("status 429");
    reveal_strlit("status 401");
    reveal_strlit("status 403");
    reveal_strlit("status 400");
    reveal_strlit("status 404");
    text::middle_occurs(front, "too many requests"@, back);
    text::middle_occurs(front, "status 429"@, back);
    text::beginning_occurs(low, "too many requests"@, "too many"@);
    text::beginning_occurs(low, "status 429"@, "status 42"@);
    text::beginning_occurs(low, "status 429"@, "status 4"@);
    text::beginning_occurs(low, "status 401"@, "status 4"@);
    text::beginning_occurs(low, "status 403"@, "status 4"@);
    text::beginning_occurs(low, "status 400"@, "status 4"@);
    text::beginning_occurs(low, "status 404"@, "status 4"@);
    assert("too many requests"@.take(8) =~= "too many"@);
    assert("status 429"@.take(9) =~= "status 42"@);
    assert("status 429"@.take(8) =~= "status 4"@);
    assert("status 401"@.take(8) =~= "status 4"@);
    assert("status 403"@.take(8) =~= "status 4"@);
    assert("status 400"@.take(8) =~= "status 4"@);
    assert("status 404"@.take(8) =~= "status 4"@);
}

/// Too many requests, time that ran out and what is not known are tried again;
/// what is not permitted, of a wrong format, gone or not public is not. A classified
/// error keeps its words and its kind.
pub proof fn only_passing_errors_are_tried_again(message: Seq<char>, e: ErrorView)
    ensures
        retryable(ErrorView::Classified { code: ErrorCode::RateLimited, message }),
        retryable(ErrorView::Classified { code: ErrorCode::QpsLimited, message }),
        retryable(ErrorView::Classified { code: ErrorCode::SendTimeout, message }),
        retryable(ErrorView::Classified { code: ErrorCode::Unknown, message }),
        !retryable(ErrorView::Classified { code: ErrorCode::PermissionDenied, message }),
        !retryable(ErrorView::Classified { code: ErrorCode::FormatError, message }),
        !retryable(ErrorView::Classified { code: ErrorCode::TargetRevoked, message }),
        !retryable(ErrorView::Classified { code: ErrorCode::SsrfBlocked, message }),
        target_gone(ErrorView::Classified { code: ErrorCode::TargetRevoked, message }),
        !target_gone(ErrorView::Classified { code: ErrorCode::PermissionDenied, message }),
        !target_gone(ErrorView::Classified { code: ErrorCode::Unknown, message }),
        !target_gone(ErrorView::Classified { code: ErrorCode::SendTimeout, message }),
        classified_view(e)->message == e.words(),
        classified_view(ErrorView::Classified { code: ErrorCode::SsrfBlocked, message })->code
            == ErrorCode::SsrfBlocked,
{
}

/// The words for the kinds of errors.
pub proof fn kinds_have_their_words()
    ensures
        ErrorCode::TargetRevoked.word() == "target_revoked"@,
        ErrorCode::PermissionDenied.word() == "permission_denied"@,
        ErrorCode::FormatError.word() == "format_error"@,
        ErrorCode::RateLimited.word() == "rate_limited"@,
        ErrorCode::SendTimeout.word() == "send_timeout"@,
        ErrorCode::QpsLimited.word() == "qps_limited"@,
        ErrorCode::SsrfBlocked.word() == "ssrf_blocked"@,
        ErrorCode::Unknown.word() == "unknown"@,
{
}

/// An error in words: its own, those of the answer with its status, its code and its
/// message, or its kind and its message.
pub proof fn errors_in_words(s: Seq<char>, a: ApiErrorView, code: ErrorCode)
    ensures
        ErrorView::Channel(s).words() == s,
        ErrorView::Http(s).words() == s,
        ErrorView::Io(s).words() == s,
        ErrorView::Ws(s).words() == s,
        ErrorView::Json(s).words() == s,
        ErrorView::Other(s).words() == s,
        ErrorView::Api(a).words() == "dingtalk api error: http="@ + text::decimal(a.status as nat)
            + " code="@ + a.code + " msg="@ + a.msg,
        (ErrorView::Classified { code, message: s }).words() == "ChannelError(code="@ + code.word()
            + "): "@ + s,
{
}

} // verus!
