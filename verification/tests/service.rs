use dingtalk_channel::bot_identity::{
    accept_identity_answer, robot_info_url, BotIdentityCache, IdentityStep,
};
use dingtalk_channel::emotion::{mark_done, mark_thinking, recall_thinking};
use dingtalk_channel::time::Duration;
use dingtalk_channel::token::TokenCache;
use dingtalk_channel::{oapi, token, Error};

fn secs(n: u64) -> Duration {
    Duration::from_secs(n)
}

#[test]
fn media_upload_strips_at() {
    let (tok, lifetime) = oapi::accept_token_answer(
        "{\"errcode\":0,\"access_token\":\"oapi-tok\",\"expires_in\":7200}",
    )
    .unwrap();
    assert_eq!((tok.as_str(), lifetime), ("oapi-tok", 7200));
    let res = oapi::accept_upload_answer(
        "{\"errcode\":0,\"media_id\":\"@abc123\",\"type\":\"image\",\"created_at\":1700000000}",
    )
    .unwrap();
    assert_eq!(res.media_id, "abc123");
    assert_eq!(res.raw_media_id, "@abc123");
    assert_eq!(res.download_url, "https://down.dingtalk.com/media/abc123");
    assert_eq!(res.kind, "image");
    assert_eq!(res.created_at, 1_700_000_000);
    assert_eq!(res.clone().raw_media_id, "@abc123");
}

#[test]
fn plain_media_ids_stay() {
    let res = oapi::accept_upload_answer("{\"errcode\":0,\"media_id\":\"a@b\"}").unwrap();
    assert_eq!(res.media_id, "a@b");
    assert_eq!(res.kind, "");
}

#[test]
fn refusals_of_the_media_service() {
    assert_eq!(
        oapi::accept_token_answer("{\"errcode\":40,\"errmsg\":\"no\"}").unwrap_err().text(),
        "oapi gettoken: errcode=40 errmsg=no"
    );
    assert_eq!(
        oapi::accept_token_answer("{\"errcode\":0}").unwrap_err().text(),
        "oapi gettoken: errcode=0 errmsg="
    );
    assert_eq!(
        oapi::accept_upload_answer("{\"errcode\":-1,\"errmsg\":null}").unwrap_err().text(),
        "media/upload: errcode=-1 errmsg="
    );
    assert!(matches!(oapi::accept_upload_answer("{}"), Err(Error::Json(_))));
    assert!(matches!(oapi::accept_token_answer("x"), Err(Error::Json(_))));
    assert!(matches!(
        oapi::read_upload_answer(Err("bad".into())),
        Err(Error::Json(_))
    ));
}

#[test]
fn addresses_of_the_media_service() {
    assert_eq!(
        oapi::token_url("http://o", "a b", "c&d"),
        "http://o/gettoken?appkey=a%20b&appsecret=c%26d"
    );
    assert_eq!(
        oapi::upload_url("http://o", "t/1", "image"),
        "http://o/media/upload?access_token=t%2F1&type=image"
    );
    assert_eq!(oapi::content_type("", "image"), "image/jpeg");
    assert_eq!(oapi::content_type("", "voice"), "application/octet-stream");
    assert_eq!(oapi::content_type("image/png", "image"), "image/png");
}

#[test]
fn tokens_are_used_until_a_minute_before_their_end() {
    let mut c = TokenCache::new();
    assert!(c.get_at(secs(0)).is_none());
    c.store_at("tok", 100, secs(10));
    assert_eq!(c.get_at(secs(49)).unwrap(), "tok");
    assert!(c.get_at(secs(50)).is_none());
    c.store_at("tok", 0, secs(0));
    assert!(c.get_at(secs(7139)).is_some());
    assert!(c.get_at(secs(7140)).is_none());
    c.store_at("", 100, secs(0));
    assert!(c.get_at(secs(0)).is_none());
}

#[test]
fn answers_with_tokens() {
    assert_eq!(
        token::accept_token_answer(200, "{\"accessToken\":\"t\",\"expireIn\":5}").unwrap(),
        ("t".to_string(), 5)
    );
    assert_eq!(
        token::accept_token_answer(500, "down").unwrap_err().text(),
        "accessToken: http 500: down"
    );
    assert_eq!(
        token::accept_token_answer(200, "{}").unwrap_err().text(),
        "accessToken: empty token in response: {}"
    );
    assert!(matches!(
        token::accept_token_answer(200, "{\"accessToken\":1}"),
        Err(Error::Json(_))
    ));
    let q = token::token_request("id", "secret");
    assert_eq!(q.text_at("appKey"), "id");
    assert_eq!(q.text_at("appSecret"), "secret");
    assert_eq!(token::token_url("http://a"), "http://a/v1.0/oauth2/accessToken");
}

#[test]
fn identity_is_kept_and_asked_for_again() {
    let mut c = BotIdentityCache::new();
    assert!(matches!(c.get_at(secs(0)), IdentityStep::Fetch));
    assert!(c.failed_at(secs(0)).is_none());
    assert!(matches!(c.get_at(secs(59)), IdentityStep::Known(None)));
    assert!(matches!(c.get_at(secs(60)), IdentityStep::Fetch));
    let who = accept_identity_answer(200, "{\"robot_name\":\"R\"}", "client").unwrap();
    assert_eq!(who.robot_code, "client");
    assert_eq!(who.robot_name, "R");
    c.fetched_at(who, secs(60));
    assert!(matches!(c.get_at(secs(1859)), IdentityStep::Known(Some(_))));
    assert!(matches!(c.get_at(secs(1860)), IdentityStep::Fetch));
    // A failure keeps what was known.
    assert_eq!(c.failed_at(secs(1860)).unwrap().robot_name, "R");
    assert!(matches!(c.get_at(secs(1919)), IdentityStep::Known(Some(_))));
}

#[test]
fn answers_about_the_robot() {
    let who = accept_identity_answer(200, "{\"robot_code\":\"c\",\"avatar\":\"a\"}", "x").unwrap();
    assert_eq!(who.robot_code, "c");
    assert_eq!(who.robot_name, "Bot");
    assert_eq!(who.avatar, "a");
    assert_eq!(
        accept_identity_answer(401, "no", "x").unwrap_err().text(),
        "robotInfo API failed: status=401 body=no"
    );
    assert!(matches!(accept_identity_answer(200, "[", "x"), Err(Error::Json(_))));
    assert!(matches!(
        accept_identity_answer(200, "{\"avatar\":7}", "x"),
        Err(Error::Json(_))
    ));
    assert_eq!(robot_info_url("http://a"), "http://a/v1.0/robot/robotInfo");
}

#[test]
fn stamps_on_messages() {
    let q = mark_thinking("r", "c", "m").unwrap();
    assert_eq!(q.path, "/v1.0/robot/emotion/reply");
    assert_eq!(q.body.text_at("emotionName"), "🤔思考中");
    assert_eq!(q.body.text_at("openMsgId"), "m");
    assert_eq!(q.body.integer_at("emotionType"), 2);
    assert_eq!(q.body.get("textEmotion").unwrap().text_at("emotionId"), "2659900");
    assert_eq!(recall_thinking("r", "c", "m").unwrap().path, "/v1.0/robot/emotion/recall");
    let (back, done) = mark_done("r", "c", "m");
    assert_eq!(back.unwrap().body.text_at("emotionName"), "🤔思考中");
    assert_eq!(done.unwrap().body.text_at("emotionName"), "🥳完成");
    for (c, m) in [("", "m"), ("c", "")] {
        assert_eq!(
            mark_thinking("r", c, m).unwrap_err().text(),
            "emotion needs openConversationId and openMsgId"
        );
    }
}
