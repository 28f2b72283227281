use base64::Engine;
use dingtalk_channel::http_mode::{
    accept_http_callback_at, verify_http_sign, verify_http_sign_at, verify_wanted_sign,
};
use dingtalk_channel::time::Duration;
use hmac::{Hmac, Mac};

fn sign(secret: &str, timestamp: &str) -> String {
    let mut mac = Hmac::<sha2::Sha256>::new_from_slice(secret.as_bytes()).unwrap();
    mac.update(format!("{timestamp}\n{secret}").as_bytes());
    base64::engine::general_purpose::STANDARD.encode(mac.finalize().into_bytes())
}

const HOUR: u64 = 3600;

#[test]
fn http_mode_rejects_bad_signature() {
    let err = accept_http_callback_at(
        true,
        "test-client-secret",
        b"{}",
        "1700000000",
        "bad-signature",
        Duration::from_secs(HOUR),
        1_700_000_000_000,
    );
    assert_eq!(err.unwrap_err().text(), "http mode: signature mismatch");
}

#[test]
fn right_signature_is_taken() {
    let s = sign("test-client-secret", "1700000000");
    let ok = accept_http_callback_at(
        true,
        "test-client-secret",
        b"{\"msgId\":\"m-1\",\"text\":{\"content\":\"hello rust\"}}",
        "1700000000",
        &s,
        Duration::from_secs(HOUR),
        1_700_000_000_000,
    )
    .unwrap();
    assert_eq!(ok.text, "hello rust");
    assert_eq!(ok.msg_id, "m-1");
    let millis = sign("k", "1700000000000");
    assert!(verify_http_sign_at(
        "k",
        "1700000000000",
        &millis,
        Duration::from_secs(HOUR),
        1_700_000_000_000
    )
    .is_ok());
    assert!(verify_http_sign("k", "1700000000000", &millis, Duration::from_secs(0)).is_ok());
    assert!(verify_http_sign("k", "1700000000000", &millis, Duration::from_secs(1)).is_err());
}

#[test]
fn refusals_in_their_order() {
    let hour = Duration::from_secs(HOUR);
    let now = 1_700_000_000_000;
    let text = |ts: &str, s: &str| verify_wanted_sign("w", ts, s, hour, now).unwrap_err().text();
    assert_eq!(text("", "w"), "http mode: missing timestamp/sign headers");
    assert_eq!(text("1", ""), "http mode: missing timestamp/sign headers");
    assert_eq!(text("x1", "w"), "http mode: invalid timestamp header");
    assert_eq!(
        text("99999999999999999999", "w"),
        "http mode: invalid timestamp header"
    );
    assert_eq!(text("1600000000", "w"), "http mode: timestamp outside tolerance window");
    assert_eq!(text("1700003601", "w"), "http mode: timestamp outside tolerance window");
    assert_eq!(text("1700003600", "x"), "http mode: signature mismatch");
    assert!(verify_wanted_sign("w", "1700003600", "w", hour, now).is_ok());
    assert!(verify_wanted_sign("w", "-9223372036854775808", "w", Duration::from_secs(0), now).is_ok());
}

#[test]
fn callback_needs_a_handler_and_a_payload() {
    let s = sign("k", "1700000000");
    let call = |handler: bool, body: &[u8]| {
        accept_http_callback_at(
            handler,
            "k",
            body,
            "1700000000",
            &s,
            Duration::from_secs(HOUR),
            1_700_000_000_000,
        )
        .unwrap_err()
        .text()
    };
    assert_eq!(call(false, b"{}"), "OnMessage handler not registered");
    assert!(call(true, b"{").starts_with("http mode: bad bot message payload: "));
    assert_eq!(
        call(true, b"{\"msgId\":1}"),
        "http mode: bad bot message payload: payload field of an unexpected type"
    );
}

#[test]
fn signature_is_compared_to_its_end() {
    let any = Duration::from_secs(0);
    assert!(verify_wanted_sign("abcd", "1700000000", "abcd", any, 0).is_ok());
    for wrong in ["xbcd", "abxd", "abcx", "abc", "abcde"] {
        let err = verify_wanted_sign("abcd", "1700000000", wrong, any, 0);
        assert_eq!(err.unwrap_err().text(), "http mode: signature mismatch");
    }
}
