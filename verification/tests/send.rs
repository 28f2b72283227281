use dingtalk_channel::json::Json;
use dingtalk_channel::send::{
    add_footer, audio_payload, check_target, fallback_target, file_payload, image_payload,
    markdown_payload, outgoing_param, payload_text, replace_param, retry_options, send_request,
    text_payload, video_payload,
};
use dingtalk_channel::types::RetryConfig;
use dingtalk_channel::{IncomingMessage, OutboundConfig, SendTarget};

#[test]
fn proactive_send_dm_and_group() {
    let dm = text_payload("dm hello");
    let q = send_request("test-client-id", &SendTarget::user("staff-9"), &dm.msg_key, &dm.param)
        .unwrap();
    assert_eq!(q.path, "/v1.0/robot/oToMessages/batchSend");
    let users = q.body.items_at("userIds").unwrap();
    assert_eq!(users.len(), 1);
    assert_eq!(users[0].as_text(), "staff-9");
    assert_eq!(q.body.text_at("robotCode"), "test-client-id");
    assert_eq!(q.body.text_at("msgKey"), "sampleText");
    assert_eq!(q.body.text_at("msgParam"), "{\"content\":\"dm hello\"}");

    let md = markdown_payload("title", "**md**");
    let q = send_request(
        "test-client-id",
        &SendTarget::group("cid-group"),
        &md.msg_key,
        &md.param,
    )
    .unwrap();
    assert_eq!(q.path, "/v1.0/robot/groupMessages/send");
    assert_eq!(q.body.text_at("openConversationId"), "cid-group");
    assert_eq!(q.body.text_at("msgParam"), "{\"text\":\"**md**\",\"title\":\"title\"}");
    assert!(q.body.get("atUserIds").is_none());
    assert!(q.body.get("isAtAll").is_none());
}

#[test]
fn groups_can_be_mentioned() {
    let t = SendTarget {
        at_user_ids: vec!["u1".into(), "u2".into()],
        at_dingtalk_ids: vec!["d1".into()],
        at_all: true,
        ..SendTarget::group("c")
    };
    let copy = t.clone();
    let q = send_request("r", &copy, "sampleText", &Json::object()).unwrap();
    assert_eq!(q.body.items_at("atUserIds").unwrap()[1].as_text(), "u2");
    assert_eq!(q.body.items_at("atOpendingtalkIds").unwrap()[0].as_text(), "d1");
    assert!(matches!(q.body.get("isAtAll"), Some(Json::Bool(true))));
}

#[test]
fn target_names_exactly_one() {
    let none = SendTarget::default();
    let both = SendTarget {
        user_id: "u".into(),
        ..SendTarget::group("c")
    };
    for t in [&none, &both] {
        assert!(!t.valid());
        assert_eq!(
            check_target(t).unwrap_err().text(),
            "SendTarget: 恰好设置 UserID（单聊）或 ConversationID（群聊）之一"
        );
        assert!(send_request("r", t, "k", &Json::Null).is_err());
    }
    assert_eq!(SendTarget::user("u").target_id(), "u");
    assert_eq!(SendTarget::group("c").target_id(), "c");
}

#[test]
fn payloads_of_media() {
    let f = file_payload("a.png", "@id");
    assert_eq!(f.msg_key, "sampleFile");
    assert_eq!(
        payload_text(&f.param),
        "{\"fileName\":\"a.png\",\"fileType\":\"png\",\"mediaId\":\"@id\"}"
    );
    let v = video_payload("@v", "@p", 0);
    assert_eq!(v.msg_key, "sampleVideo");
    assert_eq!(v.param.text_at("duration"), "60000");
    assert_eq!(v.param.text_at("videoType"), "mp4");
    assert_eq!(v.param.text_at("picMediaId"), "@p");
    let a = audio_payload("@a", 1500);
    assert_eq!(a.msg_key, "sampleAudio");
    assert_eq!(a.param.text_at("duration"), "1500");
    let i = image_payload("https://x/y.png");
    assert_eq!(i.msg_key, "sampleImageMsg");
    assert_eq!(i.param.text_at("photoURL"), "https://x/y.png");
    assert_eq!(markdown_payload("", "# Head\nbody").param.text_at("title"), "Head");
}

#[test]
fn footer_stands_below_the_text() {
    let t = text_payload("hi");
    let p = add_footer("sent by a robot", &t.msg_key, t.param);
    assert_eq!(p.text_at("content"), "hi\n\nsent by a robot");
    let m = markdown_payload("t", "hi");
    let p = add_footer("f", &m.msg_key, m.param);
    assert_eq!(p.text_at("text"), "hi\n\n---\nf");
    assert_eq!(p.text_at("title"), "t");
    let i = image_payload("u");
    let p = add_footer("f", &i.msg_key, i.param);
    assert_eq!(p.text_at("photoURL"), "u");
    let t = text_payload("hi");
    assert_eq!(add_footer("", "sampleText", t.param).text_at("content"), "hi");
}

#[test]
fn footer_of_an_answer_stands_once() {
    let t = text_payload("hi");
    let answer = outgoing_param("f", &t.msg_key, t.param, false);
    assert_eq!(answer.text_at("content"), "hi\n\nf");
    let sent = outgoing_param("f", &t.msg_key, answer, true);
    assert_eq!(sent.text_at("content"), "hi\n\nf");
}

#[test]
fn hooks_replace_messages() {
    let p = || text_payload("hi").param;
    assert_eq!(replace_param(p(), None).text_at("content"), "hi");
    assert_eq!(replace_param(p(), Some("{")).text_at("content"), "hi");
    assert_eq!(
        replace_param(p(), Some("{\"content\":\"other\"}")).text_at("content"),
        "other"
    );
    assert!(replace_param(p(), Some("null")).is_null());
}

#[test]
fn answers_find_their_way() {
    let m = |kind: &str, sender: &str| IncomingMessage {
        conversation_type: kind.into(),
        conversation_id: "c".into(),
        sender_id: sender.into(),
        sender_staff_id: "staff".into(),
        ..Default::default()
    };
    assert_eq!(fallback_target(&m("group", "s")).conversation_id, "c");
    assert_eq!(fallback_target(&m("dm", "s")).user_id, "s");
    assert_eq!(fallback_target(&m("dm", "")).user_id, "staff");
}

#[test]
fn retries_are_configured() {
    let cfg = OutboundConfig {
        retry: RetryConfig {
            max_attempts: 5,
            base_delay_ms: 20,
        },
        footer: String::new(),
    };
    let o = retry_options(Some(&cfg));
    assert_eq!(o.max(), 5);
    assert_eq!(o.delay(1).as_millis(), 20);
    let d = retry_options(None);
    assert_eq!(d.max(), 3);
    assert_eq!(d.delay(2).as_millis(), 1500);
}
