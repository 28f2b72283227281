use dingtalk_channel::card::{
    accept_api_answer, after_call, cap_content, check_answer, create_card, deliver_card, frame_guid,
    new_track_id, overflow_remainder, set_status, stream_frame, strip_trailing_newlines, target_of,
    track_id_of, CallStep, CardTarget,
};
use dingtalk_channel::streamer::{
    fallback_wanted, AppendStep, CardOp, CardStreamer, FinishPlan, FinishStep, Finishing,
};
use dingtalk_channel::time::Duration;
use dingtalk_channel::{ApiError, Error, IncomingMessage};

fn ms(n: u64) -> Duration {
    Duration::from_millis(n)
}

/// The operations in words.
fn shown(ops: &[CardOp]) -> Vec<String> {
    ops.iter()
        .map(|o| match o {
            CardOp::Wait(d) => format!("wait {}", d.as_millis()),
            CardOp::Status { flow, content } => format!("status {flow} {content}"),
            CardOp::Frame { content, last } => format!("frame {content} {last}"),
            CardOp::Fallback(s) => format!("fallback {s}"),
        })
        .collect()
}

fn step_shown(s: &FinishStep) -> String {
    match s {
        FinishStep::Update { content, last } => format!("update {content} {last}"),
        FinishStep::Status { content } => format!("status {content}"),
        FinishStep::Fallback(s) => format!("fallback {s}"),
        FinishStep::Rest(s) => format!("rest {}", s.len()),
        FinishStep::Return(Ok(())) => "ok".into(),
        FinishStep::Return(Err(e)) => format!("err {}", e.text()),
    }
}

fn script(s: &mut CardStreamer, text: &str) -> Finishing {
    match s.finish(text) {
        FinishPlan::Script(f) => f,
        _ => panic!("there is a card"),
    }
}

fn card() -> CardStreamer {
    CardStreamer::new(true, ms(800), Duration::from_secs(600), ms(0))
}

#[test]
fn card_streaming_full_cycle() {
    let mut s = card();
    assert!(s.card_delivered(), "card must be delivered in this scenario");
    // The first words wait for the throttle, the second ones with them.
    match s.append("Hello ", ms(1)).unwrap() {
        AppendStep::Schedule(d) => assert_eq!(d.as_millis(), 799),
        _ => panic!("should wait"),
    }
    assert!(matches!(s.append("world", ms(2)).unwrap(), AppendStep::Keep));
    let mut f = script(&mut s, "");
    // A frame with the content, the last frame, the state.
    assert_eq!(step_shown(&f.start()), "update Hello world false");
    let first = s.update("Hello world", false, ms(2)).unwrap();
    assert_eq!(
        shown(&first),
        vec!["wait 498", "status 2 Hello world", "frame Hello world false"]
    );
    s.note_inputing();
    s.note_frame(ms(500));
    assert_eq!(step_shown(&f.step(Ok(()))), "update Hello world true");
    let last = s.update("Hello world", true, ms(510)).unwrap();
    assert_eq!(shown(&last), vec!["wait 490", "frame Hello world true"]);
    s.note_frame(ms(1000));
    assert_eq!(step_shown(&f.step(Ok(()))), "status Hello world");
    // No text to the session.
    assert_eq!(step_shown(&f.step(Ok(()))), "ok");
    assert!(s.is_closed());
    assert!(s.flush_due(ms(1001)).is_none());
}

#[test]
fn card_failure_falls_back_to_webhook_text() {
    let mut s = CardStreamer::new(false, ms(800), Duration::from_secs(600), ms(0));
    assert!(!s.card_delivered(), "card create failed → degraded mode");
    assert!(matches!(
        s.append("degraded but delivered", ms(5000)).unwrap(),
        AppendStep::Keep
    ));
    match s.finish("") {
        FinishPlan::Fallback(t) => assert_eq!(t, "degraded but delivered"),
        _ => panic!("fallback webhook text"),
    }
    assert!(s.update("x", false, ms(0)).is_err());
    assert!(matches!(s.finish("again"), FinishPlan::Done));
}

#[test]
fn frames_keep_the_throttle() {
    let mut s = card();
    match s.append("a", ms(900)).unwrap() {
        AppendStep::Update(t) => assert_eq!(t, "a"),
        _ => panic!("should send"),
    }
    match s.append("b", ms(1000)).unwrap() {
        AppendStep::Schedule(d) => assert_eq!(d.as_millis(), 700),
        _ => panic!("should wait"),
    }
    assert_eq!(s.flush_due(ms(1700)).unwrap(), "ab");
    // Behind a long silence the first update gathers a little.
    match s.append("c", ms(3701)).unwrap() {
        AppendStep::Schedule(d) => assert_eq!(d.as_millis(), 300),
        _ => panic!("should gather"),
    }
    assert!(matches!(s.append("d", ms(3702)).unwrap(), AppendStep::Keep));
    assert_eq!(s.flush_due(ms(4001)).unwrap(), "abcd");
}

#[test]
fn closed_card_takes_nothing() {
    let mut s = card();
    s.append("x", ms(1)).unwrap();
    assert_eq!(
        shown(&s.abort()),
        vec!["frame x true", "status 5 x"]
    );
    assert_eq!(s.append("y", ms(2)).unwrap_err().text(), "streamer already closed");
    assert!(s.abort().is_empty());
    assert!(s.fail("late").is_empty());
    assert!(matches!(s.finish("late"), FinishPlan::Done));
}

#[test]
fn failure_is_shown_and_told() {
    let mut s = card();
    assert_eq!(
        shown(&s.fail("broken")),
        vec!["status 2 ", "frame broken true", "status 5 broken", "fallback broken"]
    );
    let mut none = CardStreamer::new(false, ms(800), ms(0), ms(0));
    assert_eq!(shown(&none.fail("broken")), vec!["fallback broken"]);
    assert!(!none.is_watched());
}

#[test]
fn forgotten_card_is_finished() {
    let mut s = card();
    assert!(s.is_watched());
    s.append("left", ms(1)).unwrap();
    assert!(s.watch(Duration::from_secs(600)).is_empty());
    assert_eq!(
        shown(&s.watch(Duration::from_secs(601))),
        vec!["frame left true", "status 3 left"]
    );
    assert!(s.is_closed());
    assert!(s.watch(Duration::from_secs(9000)).is_empty());
}

#[test]
fn lost_frames_fall_back() {
    let mut s = card();
    let mut f = script(&mut s, "text");
    assert_eq!(step_shown(&f.start()), "update text false");
    assert_eq!(step_shown(&f.step(Err(Error::channel("no")))), "err no");

    let mut s = card();
    s.note_frame(ms(1));
    let mut f = script(&mut s, "text");
    assert_eq!(step_shown(&f.start()), "update text true");
    assert_eq!(step_shown(&f.step(Err(Error::channel("no")))), "fallback text");
    assert_eq!(step_shown(&f.step(Ok(()))), "err no");

    let mut s = card();
    s.note_frame(ms(1));
    let mut f = script(&mut s, "text");
    f.step(Ok(()));
    assert_eq!(step_shown(&f.step(Err(Error::channel("late")))), "fallback text");
    assert_eq!(step_shown(&f.step(Err(Error::channel("x")))), "err late");
}

#[test]
fn long_text_goes_on_behind_the_card() {
    let long = "字".repeat(20_003);
    let mut s = card();
    s.note_frame(ms(1));
    let ops = s.update(&long, false, ms(600)).unwrap();
    match &ops[1] {
        CardOp::Frame { content, .. } => assert_eq!(content.chars().count(), 20_000),
        _ => panic!("should be a frame"),
    }
    let mut f = script(&mut s, &long);
    f.step(Ok(()));
    assert_eq!(step_shown(&f.step(Ok(()))), "rest 9");
    assert_eq!(step_shown(&f.step(Ok(()))), "ok");
    assert_eq!(cap_content(&long).chars().count(), 20_000);
    assert_eq!(overflow_remainder(&long).unwrap(), "字字字");
    assert!(overflow_remainder("short").is_none());
}

#[test]
fn blank_text_is_not_sent_in_place_of_a_card() {
    assert!(!fallback_wanted(" \n\t"));
    assert!(fallback_wanted(" x"));
}

#[test]
fn requests_for_cards() {
    let c = create_card("tpl", "card_1_a");
    assert_eq!(c.path, "/v1.0/card/instances");
    assert_eq!(c.body.text_at("cardTemplateId"), "tpl");
    assert_eq!(c.body.text_at("outTrackId"), "card_1_a");
    assert_eq!(c.body.text_at("callbackType"), "STREAM");
    let group = CardTarget {
        is_group: true,
        conversation_id: "cid".into(),
        user_id: "u".into(),
        robot_code: "r".into(),
    };
    let d = deliver_card(&group, "id");
    assert_eq!(d.path, "/v1.0/card/instances/deliver");
    assert_eq!(d.body.text_at("openSpaceId"), "dtv1.card//IM_GROUP.cid");
    assert_eq!(
        d.body.get("imGroupOpenDeliverModel").unwrap().text_at("robotCode"),
        "r"
    );
    assert_eq!(d.body.integer_at("userIdType"), 1);
    let user = CardTarget {
        is_group: false,
        ..group
    };
    let d = deliver_card(&user, "id");
    assert_eq!(d.body.text_at("openSpaceId"), "dtv1.card//IM_ROBOT.u");
    assert_eq!(
        d.body.get("imRobotOpenDeliverModel").unwrap().text_at("spaceType"),
        "IM_ROBOT"
    );
}

#[test]
fn states_and_frames() {
    let s = set_status("id", "3", "done");
    let map = s.body.get("cardData").unwrap().get("cardParamMap").unwrap();
    assert_eq!(map.text_at("flowStatus"), "3");
    assert_eq!(map.text_at("msgContent"), "done");
    assert!(s.body.get("cardUpdateOptions").is_some());
    assert!(set_status("id", "2", "").body.get("cardUpdateOptions").is_none());
    let f = stream_frame("id", "g", "a\n\n", false);
    assert_eq!(f.path, "/v1.0/card/streaming");
    assert_eq!(f.body.text_at("content"), "a");
    assert_eq!(f.body.text_at("guid"), "g");
    assert!(matches!(
        f.body.get("isFinalize"),
        Some(dingtalk_channel::json::Json::Bool(false))
    ));
    assert_eq!(strip_trailing_newlines("a\n b\n\n"), "a\n b");
}

#[test]
fn keys_of_cards_and_frames() {
    assert_eq!(track_id_of(17, "abc"), "card_17_abc");
    assert_eq!(frame_guid(17, "abc"), "17_abc");
    let id = new_track_id(5);
    assert!(id.starts_with("card_5_"));
    assert_eq!(id.len(), "card_5_".len() + 8);
    assert!(id[7..].chars().all(|c| c.is_ascii_lowercase() || c.is_ascii_digit()));
}

#[test]
fn card_goes_to_the_conversation() {
    let m = IncomingMessage {
        conversation_type: "dm".into(),
        conversation_id: "c".into(),
        sender_id: "s".into(),
        ..Default::default()
    };
    let t = target_of(&m, "robot");
    assert!(!t.is_group);
    assert_eq!(t.user_id, "s");
    assert_eq!(t.robot_code, "robot");
}

#[test]
fn answers_of_the_service() {
    assert_eq!(accept_api_answer(200, "raw").unwrap(), "raw");
    match accept_api_answer(403, "{\"code\":\"Forbidden.QpsLimit\",\"message\":\"slow\"}") {
        Err(Error::Api(e)) => {
            assert_eq!(e.code, "Forbidden.QpsLimit");
            assert_eq!(e.msg, "slow");
            assert!(e.is_qps_limit());
        }
        _ => panic!("should be refused"),
    }
    match accept_api_answer(500, "oops") {
        Err(Error::Api(e)) => {
            assert_eq!(e.code, "");
            assert_eq!(e.body, "oops");
        }
        _ => panic!("should be refused"),
    }
    assert!(check_answer("{\"result\":[{\"success\":true}]}").is_ok());
    match check_answer("{\"result\":[{\"success\":false}]}") {
        Err(Error::Api(e)) => {
            assert_eq!(e.code, "BusinessFailure");
            assert_eq!(e.status, 200);
        }
        _ => panic!("should be refused"),
    }
}

#[test]
fn service_is_asked_once_more_where_it_was_asked_too_often() {
    let limited = || {
        Err(Error::Api(ApiError {
            status: 403,
            code: "QpsLimit".into(),
            msg: String::new(),
            body: String::new(),
        }))
    };
    assert!(matches!(after_call(limited(), false), CallStep::PauseAndRepeat));
    assert!(matches!(after_call(limited(), true), CallStep::Return(Err(_))));
    assert!(matches!(
        after_call(Err(Error::channel("x")), false),
        CallStep::Return(Err(_))
    ));
    assert!(matches!(after_call(Ok("r".into()), false), CallStep::Return(Ok(_))));
}
