use dingtalk_channel::error::{
    classify_code, classify_error, classify_words, is_reply_target_gone, is_retryable,
};
use dingtalk_channel::{ApiError, Error, ErrorCode};

fn api(status: u16, code: &str) -> Error {
    Error::Api(ApiError {
        status,
        code: code.into(),
        msg: "".into(),
        body: "".into(),
    })
}

fn code_of(e: &Error) -> ErrorCode {
    match e {
        Error::Classified { code, .. } => *code,
        _ => panic!("not classified"),
    }
}

#[test]
fn classify_api_status() {
    let e = Error::Api(ApiError {
        status: 404,
        code: "x".into(),
        msg: "".into(),
        body: "".into(),
    });
    assert!(is_reply_target_gone(&classify_error(&e)));

    let e = Error::Api(ApiError {
        status: 400,
        code: "x".into(),
        msg: "".into(),
        body: "".into(),
    });
    assert!(!is_retryable(&classify_error(&e)));

    let e = Error::Api(ApiError {
        status: 403,
        code: "QpsLimit exceeded".into(),
        msg: "".into(),
        body: "".into(),
    });
    assert!(is_retryable(&classify_error(&e)));
}

#[test]
fn every_status_has_its_kind() {
    assert_eq!(code_of(&classify_error(&api(403, "QpsLimit"))), ErrorCode::QpsLimited);
    assert_eq!(code_of(&classify_error(&api(403, "no"))), ErrorCode::PermissionDenied);
    assert_eq!(code_of(&classify_error(&api(400, "no"))), ErrorCode::FormatError);
    assert_eq!(code_of(&classify_error(&api(404, "no"))), ErrorCode::TargetRevoked);
    assert_eq!(code_of(&classify_error(&api(429, "no"))), ErrorCode::RateLimited);
    assert_eq!(code_of(&classify_error(&api(500, "no"))), ErrorCode::Unknown);
}

#[test]
fn words_in_any_case_are_read() {
    let e = Error::Other("Too Many Requests".into());
    assert_eq!(code_of(&classify_error(&e)), ErrorCode::RateLimited);
    let e = Error::Http("operation TIMED OUT".into());
    assert_eq!(code_of(&classify_error(&e)), ErrorCode::SendTimeout);
    assert_eq!(classify_words("status 401 from gateway"), ErrorCode::PermissionDenied);
    assert_eq!(classify_words("status 400"), ErrorCode::FormatError);
    assert_eq!(classify_words("status 404"), ErrorCode::TargetRevoked);
    assert_eq!(classify_words("deadline exceeded"), ErrorCode::SendTimeout);
    assert_eq!(classify_words("nothing"), ErrorCode::Unknown);
}

#[test]
fn words_do_not_overrule_the_status() {
    assert_eq!(classify_code(&api(404, ""), "status 429"), ErrorCode::TargetRevoked);
    assert_eq!(classify_code(&api(502, ""), "status 429"), ErrorCode::RateLimited);
}

#[test]
fn classifying_twice_keeps_the_kind_of_an_error() {
    let once = classify_error(&api(404, "x"));
    let twice = classify_error(&once);
    assert_eq!(code_of(&once), code_of(&twice));
    assert_eq!(
        twice.text(),
        "ChannelError(code=target_revoked): ChannelError(code=target_revoked): dingtalk api error: http=404 code=x msg="
    );
}

#[test]
fn errors_in_words() {
    assert_eq!(Error::channel("a").text(), "a");
    assert_eq!(
        Error::classified(ErrorCode::SsrfBlocked, "10.0.0.1").text(),
        "ChannelError(code=ssrf_blocked): 10.0.0.1"
    );
    assert_eq!(
        ApiError {
            status: 500,
            code: "c".into(),
            msg: "m".into(),
            body: "b".into()
        }
        .text(),
        "dingtalk api error: http=500 code=c msg=m"
    );
    for e in [
        Error::Http("w".into()),
        Error::Io("w".into()),
        Error::Ws("w".into()),
        Error::Json("w".into()),
        Error::Other("w".into()),
    ] {
        assert_eq!(e.text(), "w");
    }
}

#[test]
fn unclassified_errors_are_tried_again() {
    assert!(is_retryable(&Error::channel("x")));
    assert!(!is_reply_target_gone(&Error::channel("x")));
    assert!(!is_retryable(&Error::classified(ErrorCode::PermissionDenied, "x")));
    assert!(is_retryable(&Error::classified(ErrorCode::SendTimeout, "x")));
}

#[test]
fn error_codes_in_words() {
    assert_eq!(ErrorCode::TargetRevoked.as_str(), "target_revoked");
    assert_eq!(ErrorCode::PermissionDenied.as_str(), "permission_denied");
    assert_eq!(ErrorCode::FormatError.as_str(), "format_error");
    assert_eq!(ErrorCode::RateLimited.as_str(), "rate_limited");
    assert_eq!(ErrorCode::SendTimeout.as_str(), "send_timeout");
    assert_eq!(ErrorCode::QpsLimited.as_str(), "qps_limited");
    assert_eq!(ErrorCode::SsrfBlocked.as_str(), "ssrf_blocked");
    assert_eq!(ErrorCode::Unknown.as_str(), "unknown");
}
