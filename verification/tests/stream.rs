use dingtalk_channel::frame::{echo_ack, success_ack};
use dingtalk_channel::stream::{
    accept_opened, backoff_delay, backoff_with, connection_url, handle_frame, open_request, open_url,
    read_opened, Link, LinkEvent, Outgoing, RunLoop, RunStep,
};
use dingtalk_channel::time::Duration;
use dingtalk_channel::Error;

#[test]
fn backoff_caps_at_30s_with_jitter_under_1s() {
    for attempt in 0..20u32 {
        let d = backoff_delay(attempt);
        assert!(d >= Duration::from_secs(1));
        assert!(d <= Duration::from_secs(30).plus(Duration::from_millis(1000)));
    }
    // Monotonic growth until cap.
    let d1 = backoff_delay(0);
    let d5 = backoff_delay(5);
    assert!(d5 >= d1);
}

#[test]
fn ack_shape_matches_spec() {
    let ack = success_ack("mid-1", "");
    assert_eq!(ack.code, 200);
    assert_eq!(ack.headers.get("messageId").unwrap(), "mid-1");
    assert_eq!(ack.data, r#"{"success":true}"#);
    let v = ack.to_json();
    assert_eq!(v.get("headers").unwrap().text_at("contentType"), "application/json");

    let echo = success_ack("mid-2", "echo-data");
    assert_eq!(echo.data, "echo-data");
}

#[test]
fn pauses_double() {
    let ms: Vec<u128> = (0..7).map(|n| backoff_with(n, 5).as_millis()).collect();
    assert_eq!(ms, vec![1005, 2005, 4005, 8005, 16005, 30005, 30005]);
}

#[test]
fn empty_data_is_given_back_as_it_is() {
    assert_eq!(echo_ack("m", "").data, "");
    assert_eq!(echo_ack("m", "x").message, "ok");
}

#[test]
fn request_for_a_connection() {
    let q = open_request("id", "secret", true, "10.0.0.1").to_json();
    assert_eq!(q.text_at("clientId"), "id");
    assert_eq!(q.text_at("clientSecret"), "secret");
    assert_eq!(q.text_at("localIp"), "10.0.0.1");
    assert_eq!(q.text_at("ua"), "dingtalk-channel-sdk-rust/v0.1.0");
    let subs = q.items_at("subscriptions").unwrap();
    let topics: Vec<&str> = subs.iter().map(|s| s.text_at("topic")).collect();
    assert_eq!(
        topics,
        vec![
            "ping",
            "disconnect",
            "/v1.0/im/bot/messages/get",
            "/v1.0/card/instances/callback"
        ]
    );
    assert_eq!(subs[0].text_at("type"), "SYSTEM");
    assert_eq!(subs[3].text_at("type"), "CALLBACK");
    let plain = open_request("id", "secret", false, "").to_json();
    assert_eq!(plain.items_at("subscriptions").unwrap().len(), 3);
    assert_eq!(open_url("http://a"), "http://a/v1.0/gateway/connections/open");
}

#[test]
fn answers_to_the_request_for_a_connection() {
    let good = accept_opened(200, "{\"endpoint\":\"wss://x\",\"ticket\":\"t 1\"}").unwrap();
    assert_eq!(good, ("wss://x".to_string(), "t 1".to_string()));
    assert_eq!(
        accept_opened(503, "busy").unwrap_err().text(),
        "gateway open: http 503: busy"
    );
    assert_eq!(
        accept_opened(200, "{\"endpoint\":\"wss://x\"}").unwrap_err().text(),
        "gateway open: empty endpoint/ticket"
    );
    assert!(matches!(accept_opened(200, "{"), Err(Error::Json(_))));
    assert_eq!(
        accept_opened(200, "{\"endpoint\":1}").unwrap_err().text(),
        "gateway answer of an unexpected type"
    );
    assert!(matches!(
        read_opened(200, "", Err("bad".to_string())),
        Err(Error::Json(_))
    ));
}

#[test]
fn tickets_are_percent_encoded() {
    assert_eq!(connection_url("wss://x", "a b/é~"), "wss://x?ticket=a%20b%2F%C3%A9~");
}

fn frame(kind: &str, topic: &str, data: &str) -> String {
    format!(
        "{{\"type\":\"{kind}\",\"headers\":{{\"topic\":\"{topic}\",\"messageId\":\"m-1\"}},\"data\":\"{data}\"}}"
    )
}

#[test]
fn frames_are_answered() {
    let ping = handle_frame(&frame("SYSTEM", "ping", "opaque"));
    assert_eq!(
        ping.ack.unwrap(),
        "{\"code\":200,\"data\":\"opaque\",\"headers\":{\"contentType\":\"application/json\",\"messageId\":\"m-1\"},\"message\":\"ok\"}"
    );
    assert!(!ping.disconnect && ping.frame.is_none());
    let end = handle_frame(&frame("SYSTEM", "disconnect", ""));
    assert!(end.disconnect && end.ack.is_some() && end.frame.is_none());
    let business = handle_frame(&frame("CALLBACK", "/v1.0/im/bot/messages/get", "d"));
    assert_eq!(
        business.ack.unwrap(),
        "{\"code\":200,\"data\":\"{\\\"success\\\":true}\",\"headers\":{\"contentType\":\"application/json\",\"messageId\":\"m-1\"},\"message\":\"ok\"}"
    );
    let f = business.frame.unwrap();
    assert_eq!(f.topic(), "/v1.0/im/bot/messages/get");
    assert_eq!(f.message_id(), "m-1");
    assert_eq!(f.data, "d");
    let none = handle_frame("no frame");
    assert!(none.ack.is_none() && !none.disconnect && none.frame.is_none());
    assert!(handle_frame("{\"time\":\"x\"}").ack.is_none());
}

fn end_text(end: Option<Result<(), Error>>) -> String {
    match end {
        None => "open".into(),
        Some(Ok(())) => "ok".into(),
        Some(Err(e)) => e.text(),
    }
}

#[test]
fn silence_asks_for_a_sign_of_life() {
    let mut l = Link::new(Duration::from_secs(120));
    let t = Duration::from_secs;
    assert_eq!(l.timeout(t(0)), t(120));
    let s = l.step(LinkEvent::Silent, t(120));
    assert!(matches!(s.send, Some(Outgoing::Ping)));
    assert!(s.end.is_none());
    assert_eq!(l.timeout(t(122)), t(3));
    // Other traffic does not end the wait, a sign of life does.
    l.step(LinkEvent::Other, t(122));
    assert_eq!(l.timeout(t(123)), t(2));
    l.step(LinkEvent::Pong, t(123));
    assert_eq!(l.timeout(t(123)), t(120));
    l.step(LinkEvent::Silent, t(243));
    let over = l.step(LinkEvent::Silent, t(248));
    assert_eq!(end_text(over.end), "pong timeout");
}

#[test]
fn connections_end_with_a_reason() {
    let t = Duration::from_secs(0);
    let end = |e: LinkEvent| end_text(Link::new(t).step(e, t).end);
    assert_eq!(end(LinkEvent::Stopped), "ok");
    assert_eq!(end(LinkEvent::Ended), "connection closed");
    assert_eq!(end(LinkEvent::Close), "connection closed by server");
    assert_eq!(end(LinkEvent::Failed(Error::Ws("reset".into()))), "reset");
    assert_eq!(
        end(LinkEvent::Text(frame("SYSTEM", "disconnect", ""))),
        "server requested disconnect"
    );
    assert_eq!(end(LinkEvent::Text(frame("CALLBACK", "x", ""))), "open");
    assert_eq!(end(LinkEvent::Pong), "open");
}

#[test]
fn texts_are_answered_and_handled() {
    let t = Duration::from_secs(0);
    let s = Link::new(t).step(LinkEvent::Text(frame("CALLBACK", "x", "d")), t);
    assert!(matches!(s.send, Some(Outgoing::Text(_))));
    assert_eq!(s.frame.unwrap().data, "d");
}

#[test]
fn connections_are_opened_again() {
    let mut l = RunLoop::new();
    assert!(l.first());
    assert!(matches!(
        l.after_round(false, false, true, None),
        RunStep::Reconnect { attempt: 0 }
    ));
    assert!(!l.first());
    assert!(matches!(
        l.after_round(false, false, true, None),
        RunStep::Reconnect { attempt: 1 }
    ));
    // A connection that was made sets the attempts back.
    assert!(matches!(
        l.after_round(true, false, true, None),
        RunStep::Reconnect { attempt: 0 }
    ));
    assert!(matches!(
        l.after_round(true, true, true, None),
        RunStep::Return(Ok(()))
    ));
    match l.after_round(true, false, false, None) {
        RunStep::Return(Err(e)) => assert_eq!(e.text(), "stream closed"),
        _ => panic!("should return"),
    }
    match l.after_round(false, false, false, Some(Error::channel("dial timeout"))) {
        RunStep::Return(Err(e)) => assert_eq!(e.text(), "dial timeout"),
        _ => panic!("should return"),
    }
}
