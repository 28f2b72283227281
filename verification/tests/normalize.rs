use dingtalk_channel::json::Json;
use dingtalk_channel::normalize::{normalize_incoming, parse_content, quoted_summary};
use dingtalk_channel::oapi::accept_upload_answer;
use dingtalk_channel::Error;

fn body(msg_type: &str, conversation_type: &str, text: &str, content: &str) -> String {
    format!(
        "{{\"conversationId\":\"cid-001\",\"conversationType\":\"{conversation_type}\",\
         \"senderNick\":\"tester\",\"senderStaffId\":\"staff-1\",\"senderId\":\"sender-1\",\
         \"sessionWebhook\":\"http://host/x\",\"sessionWebhookExpiredTime\":17,\"createAt\":42,\
         \"msgId\":\"m-1\",\"msgtype\":\"{msg_type}\",\"text\":{{\"content\":\"{text}\"}},\
         \"isInAtList\":true,\"isAdmin\":true,\"atUsers\":[],\"content\":{content}}}"
    )
}

fn rich(segments: &str) -> String {
    body("richText", "1", "", &format!("{{\"richText\":{segments}}}"))
}

#[test]
fn rich_text_extracts_picture_and_file_resources() {
    let data = rich(
        "[{\"type\":\"text\",\"text\":\"图1 \"},\
          {\"type\":\"picture\",\"picture\":\"dc-1\"},\
          {\"type\":\"picture\",\"picture\":\"dc-1\"},\
          {\"type\":\"picture\",\"picture\":\"dc-2\"},\
          {\"type\":\"file\",\"downloadCode\":\"dc-3\",\"fileName\":\"report.pdf\"},\
          {\"type\":\"text\",\"text\":\" 图2\"}]",
    );
    let msg = normalize_incoming(data.as_bytes()).unwrap();
    assert_eq!(msg.text, "图1  图2");
    assert_eq!(msg.resources.len(), 3, "duplicate dc-1 must be deduped");
    assert_eq!(msg.resources[0].kind, "image");
    assert_eq!(msg.resources[0].download_code, "dc-1");
    assert_eq!(msg.resources[2].kind, "file");
    assert_eq!(msg.resources[2].download_code, "dc-3");
    assert_eq!(msg.resources[2].file_name, "report.pdf");
}

#[test]
fn rich_text_dirty_segments_yield_no_resources() {
    let data = rich(
        "[{\"type\":\"picture\",\"picture\":123},\
          {\"type\":\"picture\",\"picture\":\"\"},\
          {\"type\":\"picture\"},\
          {\"type\":\"file\",\"downloadCode\":42},\
          {\"type\":\"text\",\"text\":\"ok\"},\
          \"junk-segment\"]",
    );
    let msg = normalize_incoming(data.as_bytes()).unwrap();
    assert_eq!(msg.text, "ok");
    assert!(
        msg.resources.is_empty(),
        "dirty segments must not produce resources"
    );
}

#[test]
fn fields_are_taken_over() {
    let msg = normalize_incoming(body("text", "1", " hi ", "null").as_bytes()).unwrap();
    assert_eq!(msg.conversation_id, "cid-001");
    assert_eq!(msg.conversation_type, "dm");
    assert_eq!(msg.sender_nick, "tester");
    assert_eq!(msg.sender_staff_id, "staff-1");
    assert_eq!(msg.sender_id, "sender-1");
    assert_eq!(msg.session_webhook, "http://host/x");
    assert_eq!(msg.webhook_expired_at, 17);
    assert_eq!(msg.create_at, 42);
    assert_eq!(msg.msg_id, "m-1");
    assert_eq!(msg.text, "hi");
    assert!(msg.is_admin && msg.is_in_at_list);
    assert!(msg.webhook_expired());
    assert!(msg.content.is_null());
    assert_eq!(msg.raw.text_at("msgId"), "m-1");
}

#[test]
fn group_text_loses_its_mention() {
    let text = |t: &str| {
        normalize_incoming(body("text", "2", t, "null").as_bytes())
            .unwrap()
            .text
    };
    assert_eq!(text("@bot  hello "), "hello");
    assert_eq!(text("@bot"), "@bot");
    assert_eq!(text("hello @bot x"), "hello @bot x");
    let dm = normalize_incoming(body("text", "1", "@bot hello", "null").as_bytes()).unwrap();
    assert_eq!(dm.text, "@bot hello");
}

#[test]
fn missing_fields_have_defaults_and_wrong_ones_are_refused() {
    let msg = normalize_incoming(b"{}").unwrap();
    assert_eq!(msg.conversation_type, "group");
    assert_eq!(msg.text, "");
    assert_eq!(msg.create_at, 0);
    assert!(matches!(normalize_incoming(b"{\"msgId\":1}"), Err(Error::Json(_))));
    assert!(matches!(normalize_incoming(b"{\"createAt\":1.5}"), Err(Error::Json(_))));
    assert!(matches!(normalize_incoming(b"{\"text\":null}"), Err(Error::Json(_))));
    assert!(matches!(normalize_incoming(b"7"), Err(Error::Json(_))));
    assert!(matches!(normalize_incoming(b"{"), Err(Error::Json(_))));
    let by_place = normalize_incoming(b"[\"c9\",[],\"m9\"]").unwrap();
    assert_eq!(by_place.conversation_id, "c9");
    assert_eq!(by_place.msg_id, "m9");
}

#[test]
fn mentions_come_from_content_and_users() {
    let data = "{\"msgtype\":\"richText\",\"conversationType\":\"1\",\
        \"atUsers\":[{\"dingtalkId\":\"d1\",\"staffId\":\"s1\"},{\"dingtalkId\":\"all\"}],\
        \"content\":{\"richText\":[{\"type\":\"at\",\"atUserIds\":[\"u1\",7],\"atMobiles\":[\"139\"]}]}}";
    let msg = normalize_incoming(data.as_bytes()).unwrap();
    let ids: Vec<&str> = msg.mentions.iter().map(|m| m.user_id.as_str()).collect();
    assert_eq!(ids, vec!["u1", "7", "139", "s1", ""]);
    assert_eq!(msg.mentions[0].name, "");
    assert_eq!(msg.mentions[2].name, "139");
    assert_eq!(msg.mentions[3].name, "s1");
    assert!(msg.mention_all);
    assert_eq!(msg.at_users.len(), 2);
}

fn shown(msg_type: &str, content: &str) -> (String, usize) {
    let msg = normalize_incoming(body(msg_type, "1", "", content).as_bytes()).unwrap();
    (msg.text, msg.resources.len())
}

#[test]
fn media_are_shown_by_their_names() {
    assert_eq!(shown("picture", "{\"downloadCode\":\"d\"}"), ("[图片]".into(), 1));
    assert_eq!(shown("picture", "{}"), ("[图片]".into(), 0));
    assert_eq!(
        shown("file", "{\"downloadCode\":\"d\",\"fileName\":\"a.txt\"}"),
        ("[文件: a.txt]".into(), 1)
    );
    assert_eq!(shown("file", "{}"), ("[文件: 文件]".into(), 0));
    assert_eq!(
        shown("audio", "{\"downloadCode\":\"d\",\"recognition\":\"said\"}"),
        ("said".into(), 1)
    );
    assert_eq!(shown("audio", "{}"), ("[语音消息]".into(), 0));
    assert_eq!(shown("video", "{\"downloadCode\":\"d\"}"), ("[视频]".into(), 1));
}

#[test]
fn cards_and_other_types() {
    assert_eq!(shown("markdown", "{\"text\":\"**a**\"}").0, "**a**");
    assert_eq!(shown("actionCard", "{\"title\":\"t\",\"text\":\"b\"}").0, "t\n\nb");
    assert_eq!(
        shown(
            "actionCard",
            "{\"title\":\"t\",\"actionUrlItemList\":[{\"actionUrl\":\"u1\"}]}"
        )
        .0,
        "t\n\n操作链接：u1"
    );
    assert_eq!(
        shown(
            "actionCard",
            "{\"actionUrlItemList\":[{\"actionUrl\":\"u1\"},{\"actionUrl\":\"\"},{\"actionUrl\":\"u2\"}]}"
        )
        .0,
        "\n\n操作链接：\n- u1\n- u2"
    );
    assert_eq!(shown("actionCard", "{}").0, "[actionCard消息]");
    assert_eq!(
        shown("interactiveCard", "{\"biz_custom_action_url\":\"u\"}").0,
        "收到交互式卡片链接：u"
    );
    assert_eq!(shown("interactiveCard", "{}").0, "[interactiveCard消息]");
    assert_eq!(shown("whatever", "{\"content\":\"c\"}").0, "c");
    assert_eq!(shown("whatever", "3").0, "");
}

#[test]
fn replies_quote_what_they_answer() {
    let quoted = |replied: &str| shown("reply", &format!("{{\"text\":\"own\",\"repliedMsg\":{replied}}}")).0;
    assert_eq!(
        quoted("{\"msgType\":\"text\",\"content\":{\"text\":\"q\"}}"),
        "own\n[引用] q"
    );
    assert_eq!(
        quoted("{\"msgType\":\"text\",\"content\":\"{\\\"text\\\":\\\"q\\\"}\"}"),
        "own\n[引用] q"
    );
    assert_eq!(quoted("{\"msgType\":\"text\",\"content\":\"plain\"}"), "own\n[引用] plain");
    assert_eq!(
        quoted("{\"msgType\":\"file\",\"content\":\"{\\\"fileName\\\":\\\"f\\\"}\"}"),
        "own\n[引用] [文件: f]"
    );
    assert_eq!(quoted("{\"msgType\":\"picture\",\"content\":\"{}\"}"), "own\n[引用] [图片]");
    assert_eq!(quoted("{\"msgType\":\"video\",\"content\":17}"), "own\n[引用] video消息");
    assert_eq!(quoted("{\"msgType\":\"video\"}"), "own\n[引用] video消息");
    assert_eq!(quoted("5"), "own");
    assert_eq!(
        quoted_summary("text", "raw", &Err("bad".to_string())),
        "[引用] raw"
    );
}

#[test]
fn content_that_is_no_object_holds_nothing() {
    let c = parse_content("picture", &Json::Integer(3));
    assert_eq!(c.text, "");
    assert!(c.resources.is_empty() && c.mentions.is_empty());
}

#[test]
fn clones_say_the_same() {
    let data = rich("[{\"type\":\"file\",\"downloadCode\":\"d\",\"fileName\":\"f\"}]");
    let msg = normalize_incoming(data.as_bytes()).unwrap();
    let copy = msg.clone();
    assert_eq!(copy.resources[0].file_name, "f");
    assert_eq!(copy.raw.text_at("conversationId"), "cid-001");
    assert_eq!(copy.content.items_at("richText").unwrap().len(), 1);
}

#[test]
fn message_as_a_document() {
    let data = rich("[{\"type\":\"file\",\"downloadCode\":\"d\",\"fileName\":\"f\"}]");
    let mut msg = normalize_incoming(data.as_bytes()).unwrap();
    msg.raw = Json::Null;
    let doc = msg.to_json();
    assert_eq!(doc.text_at("conversationId"), "cid-001");
    assert_eq!(doc.text_at("msgType"), "richText");
    assert_eq!(doc.integer_at("createAt"), 42);
    let res = doc.items_at("resources").unwrap();
    assert_eq!(res[0].text_at("type"), "file");
    assert_eq!(res[0].text_at("fileName"), "f");
    // Empty lists and what is not known are left out, and the session always is.
    assert!(doc.get("mentions").is_none());
    assert!(doc.get("atUsers").is_none());
    assert!(doc.get("raw").is_none());
    assert!(!format!("{doc:?}").contains("http://host/x"));
    assert!(doc.get("content").is_some());
}

#[test]
fn mentions_and_media_as_documents() {
    let data = "{\"atUsers\":[{\"dingtalkId\":\"all\",\"staffId\":\"s\"}],\"isInAtList\":true}";
    let doc = normalize_incoming(data.as_bytes()).unwrap().to_json();
    assert_eq!(doc.items_at("atUsers").unwrap()[0].text_at("staffId"), "s");
    assert_eq!(doc.items_at("mentions").unwrap()[0].text_at("userId"), "s");
    assert!(matches!(doc.get("mentionAll"), Some(Json::Bool(true))));
    assert!(doc.get("raw").is_some());
    let media = accept_upload_answer("{\"errcode\":0,\"media_id\":\"@a\",\"created_at\":3}").unwrap();
    let doc = media.to_json();
    assert_eq!(doc.text_at("mediaId"), "a");
    assert_eq!(doc.text_at("rawMediaId"), "@a");
    assert_eq!(doc.integer_at("created_at"), 3);
}
