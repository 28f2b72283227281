use dingtalk_channel::card::{cap_content, overflow_remainder, CARD_MAX_CONTENT};
use dingtalk_channel::error::{ApiError, Error};
use dingtalk_channel::json::Json;
use dingtalk_channel::reply::{
    accept_webhook_answer, falls_back, first_line_title, plan_reply, plan_reply_at, replace_param,
    webhook_body, ErrorCooldown, ReplyPlan,
};
use dingtalk_channel::send::text_payload;
use dingtalk_channel::time::Duration;
use dingtalk_channel::IncomingMessage;

#[test]
fn title_from_first_line() {
    assert_eq!(first_line_title("# Hello\nbody"), "Hello");
    assert_eq!(first_line_title(""), "Message");
    let long = first_line_title("this is a very long title that exceeds twenty chars");
    assert!(long.chars().count() <= 20);
}

#[test]
fn cooldown_allows_first_blocks_second() {
    let key = "conv-x";
    let mut cooldown = ErrorCooldown::new();
    assert!(cooldown.error_cooldown_pass(key, Duration::from_secs(60)));
    assert!(!cooldown.error_cooldown_pass(key, Duration::from_secs(60)));
    assert!(cooldown.error_cooldown_pass("other-conv", Duration::from_secs(60)));
}

#[test]
fn overflow_remainder_works() {
    let s: String = "中".repeat(CARD_MAX_CONTENT + 5);
    let rest = overflow_remainder(&s).unwrap();
    assert_eq!(rest.chars().count(), 5);
    assert!(overflow_remainder("short").is_none());
    assert_eq!(cap_content(&s).chars().count(), CARD_MAX_CONTENT);
}

#[test]
fn title_skips_empty_lines_and_is_cut() {
    assert_eq!(first_line_title("\n##  \n> - *two* words"), "two* words");
    assert_eq!(
        first_line_title("this is a very long title that exceeds twenty chars"),
        "this is a very long "
    );
    assert_eq!(first_line_title("---"), "Message");
}

#[test]
fn cooldown_ends() {
    let mut c = ErrorCooldown::new();
    let minute = Duration::from_secs(60);
    assert!(c.pass_at("k", minute, Duration::from_secs(100)));
    assert!(!c.pass_at("k", minute, Duration::from_secs(159)));
    assert!(c.pass_at("k", minute, Duration::from_secs(160)));
    let zero = Duration::from_secs(0);
    assert!(c.pass_at("k", zero, Duration::from_secs(160)));
}

fn message(webhook: &str, expires: i64) -> IncomingMessage {
    IncomingMessage {
        session_webhook: webhook.into(),
        webhook_expired_at: expires,
        ..Default::default()
    }
}

#[test]
fn oversized_text_is_chunked() {
    let long = "x".repeat(35);
    let param = text_payload(&long).param;
    match plan_reply(&message("http://host/webhook/reply", 0), param, true, 10) {
        ReplyPlan::Deliver(parts) => {
            assert!(parts.len() >= 4, "35 chars at limit 10");
            let all: String = parts.iter().map(|p| p.text_at("content").to_string()).collect();
            assert_eq!(all, long);
        }
        _ => panic!("should be delivered"),
    }
}

#[test]
fn markdown_pieces_keep_the_title() {
    let param = Json::object()
        .with_text("title", "t")
        .with_text("text", &"y".repeat(15));
    match plan_reply_at(&message("w", 0), param, false, 10, 5) {
        ReplyPlan::Deliver(parts) => {
            assert_eq!(parts.len(), 2);
            assert_eq!(parts[1].text_at("title"), "t");
            assert_eq!(parts[1].text_at("text"), "yyyyy");
        }
        _ => panic!("should be delivered"),
    }
}

#[test]
fn closed_session_is_answered_otherwise() {
    let p = || text_payload("hi").param;
    assert!(matches!(
        plan_reply_at(&message("", 0), p(), true, 10, 5),
        ReplyPlan::Proactive(_)
    ));
    assert!(matches!(
        plan_reply_at(&message("w", 4), p(), true, 10, 5),
        ReplyPlan::Proactive(_)
    ));
    assert!(matches!(
        plan_reply_at(&message("w", 5), p(), true, 10, 5),
        ReplyPlan::Deliver(_)
    ));
    assert!(matches!(
        plan_reply_at(&message("w", 4), p(), false, 10, 5),
        ReplyPlan::Deliver(_)
    ));
    match plan_reply_at(&message("", 0), p(), false, 10, 5) {
        ReplyPlan::Refuse(e) => assert_eq!(e.text(), "reply: sessionWebhook missing"),
        _ => panic!("should be refused"),
    }
}

#[test]
fn webhook_takes_the_param_as_text() {
    let body = webhook_body("sampleText", &text_payload("hi").param);
    assert_eq!(body.text_at("msgKey"), "sampleText");
    assert_eq!(body.text_at("msgParam"), "{\"content\":\"hi\"}");
}

#[test]
fn webhook_errors_fall_back_when_the_session_is_gone() {
    assert!(accept_webhook_answer(200, "{}").is_ok());
    let gone = accept_webhook_answer(404, "x").unwrap_err();
    match &gone {
        Error::Api(ApiError { status, body, .. }) => {
            assert_eq!(*status, 404);
            assert_eq!(body, "x");
        }
        _ => panic!("api error"),
    }
    assert!(falls_back(&gone, true));
    assert!(!falls_back(&gone, false));
    let other = accept_webhook_answer(500, "x").unwrap_err();
    assert!(!falls_back(&other, true));
}

#[test]
fn only_an_object_replaces_an_answer() {
    let p = || text_payload("hi").param;
    assert_eq!(replace_param(p(), Some("{\"content\":\"other\"}")).text_at("content"), "other");
    assert_eq!(replace_param(p(), Some("[1]")).text_at("content"), "hi");
    assert_eq!(replace_param(p(), Some("no json")).text_at("content"), "hi");
    assert_eq!(replace_param(p(), None).text_at("content"), "hi");
}
