use dingtalk_channel::channel::{
    accept_action, accept_download_answer, check_download_url, check_media_status, check_start,
    fingerprint_of_action, media_path_of, media_request, message_of_action, route, scope_of, Route,
};
use dingtalk_channel::keyed::KeyedMap;
use dingtalk_channel::lifecycle::Firing;
use dingtalk_channel::time::{millis_of, wall_now, wall_of, Clock, Duration, LONGEST_NANOS};
use dingtalk_channel::{Config, Error, LifecycleHooks, Transport};

#[test]
fn channel_needs_a_handler_and_a_connection() {
    assert!(check_start(true, false, Transport::Stream).is_ok());
    assert!(check_start(false, true, Transport::Stream).is_ok());
    assert_eq!(
        check_start(false, false, Transport::Stream).unwrap_err().text(),
        "OnMessage handler not registered"
    );
    assert_eq!(
        check_start(true, true, Transport::Http).unwrap_err().text(),
        "http mode has no long-running connection; call handle_http_callback per HTTP request instead of start()"
    );
}

#[test]
fn frames_find_their_way() {
    assert_eq!(route("/v1.0/im/bot/messages/get"), Route::Message);
    assert_eq!(route("/v1.0/card/instances/callback"), Route::CardAction);
    assert_eq!(route("other"), Route::Ignored);
}

#[test]
fn actions_on_cards() {
    let a = accept_action("{\"outTrackId\":\"t\",\"userId\":\"u\",\"dataContent\":{\"b\":1,\"a\":[]}}")
        .unwrap();
    assert_eq!(a.out_track_id, "t");
    assert_eq!(a.user_id, "u");
    assert_eq!(scope_of(&a), "card:t");
    assert_eq!(
        fingerprint_of_action(&a),
        dingtalk_channel::safety::content_fingerprint("card:t", 0, "u", "{\"a\":[],\"b\":1}")
    );
    let m = message_of_action(&a);
    assert_eq!(m.conversation_id, "t");
    assert_eq!(m.session_webhook, "");
    let bare = accept_action("[]").unwrap();
    assert_eq!(bare.out_track_id, "");
    assert!(bare.data_content.is_null());
    assert!(matches!(accept_action("{"), Err(Error::Json(_))));
}

#[test]
fn files_are_asked_for() {
    assert_eq!(
        media_request("dc/1", "m 1", "r").unwrap(),
        "/v1.0/robot/messageFiles/download?downloadCode=dc%2F1&messageId=m%201&robotCode=r"
    );
    assert_eq!(
        media_request("", "m", "r").unwrap_err().text(),
        "downloadCode cannot be empty"
    );
    assert!(media_path_of("", "m", "r").contains("downloadCode=&"));
    assert_eq!(accept_download_answer("{\"downloadUrl\":\"u\"}").unwrap(), "u");
    assert_eq!(accept_download_answer("{}").unwrap(), "");
    assert!(matches!(accept_download_answer("?"), Err(Error::Json(_))));
    assert_eq!(check_download_url("").unwrap_err().text(), "empty download URL");
    assert!(check_download_url("u").is_ok());
}

#[test]
fn download_surfaces_non_200() {
    assert!(check_media_status(200).is_ok());
    assert_eq!(check_media_status(404).unwrap_err().text(), "download failed: http 404");
}

#[test]
fn configuration_has_defaults() {
    let c = Config::new("id", "secret");
    assert_eq!(c.client_id, "id");
    assert_eq!(c.api_base, "https://api.dingtalk.com");
    assert_eq!(c.oapi_base, "https://oapi.dingtalk.com");
    assert_eq!(c.stream_throttle, Duration::from_millis(800));
    assert_eq!(c.card_watchdog, Duration::from_secs(600));
    assert_eq!(c.text_chunk_limit, 3500);
    assert_eq!(c.card_rate_milli(), 20_000);
    assert!(c.auto_reconnect);
    assert!(c.transport == Transport::Stream);
    assert_eq!(c.effective_stale_window(), Duration::from_secs(1800));
    let slow = Config {
        card_qps_milli: 0,
        ..Config::default()
    };
    assert_eq!(slow.card_rate_milli(), 20_000);
    let own = Config {
        stale_message_window: Duration::from_secs(5),
        ..Config::default()
    };
    assert_eq!(own.effective_stale_window(), Duration::from_secs(5));
    // Zero lets messages of any age pass.
    let never = Config {
        stale_message_window: Duration::from_secs(0),
        ..Config::default()
    };
    let d = dingtalk_channel::safety::StaleDetector::new(never.effective_stale_window());
    assert!(!d.is_stale(1));
}

#[test]
fn readings_of_the_wall_clock() {
    assert_eq!(wall_of(Some(1_500_000)).as_millis(), 1);
    assert!(wall_of(None).is_zero());
    assert_eq!(millis_of(wall_of(Some(42_000_000))), 42);
    assert!(wall_now().nanos <= LONGEST_NANOS);
    assert!(Clock::start().now().nanos <= LONGEST_NANOS);
    assert_eq!(LONGEST_NANOS, std::time::Duration::MAX.as_nanos());
}

#[test]
fn transports_by_their_names() {
    assert!(Transport::parse("stream") == Some(Transport::Stream));
    assert!(Transport::parse("http") == Some(Transport::Http));
    assert!(Transport::parse("Http").is_none());
}

#[test]
fn hooks_are_kept_in_order() {
    let mut h: LifecycleHooks<u8, char> = LifecycleHooks::new();
    h.on_ready(1);
    h.on_ready(2);
    h.on_error('e');
    h.on_reconnecting(3);
    h.on_reconnected(4);
    h.on_disconnected(5);
    assert_eq!(h.ready_hooks(), &vec![1, 2]);
    assert_eq!(h.error_hooks(), &vec!['e']);
    assert_eq!(h.reconnecting_hooks(), &vec![3]);
    assert_eq!(h.reconnected_hooks(), &vec![4]);
    assert_eq!(h.disconnected_hooks(), &vec![5]);
}

#[test]
fn hooks_are_called_once_and_in_order() {
    let mut h: LifecycleHooks<u8, char> = LifecycleHooks::new();
    h.on_ready(1);
    h.on_ready(2);
    h.on_disconnected(9);
    let fire = |hooks: &Vec<u8>| {
        let mut called = Vec::new();
        let mut firing = Firing::start();
        while let Some(f) = firing.next(hooks) {
            called.push(*f);
        }
        assert!(firing.next(hooks).is_none());
        called
    };
    assert_eq!(fire(h.ready_hooks()), vec![1, 2]);
    h.on_ready(3);
    assert_eq!(fire(h.ready_hooks()), vec![1, 2, 3]);
    assert_eq!(fire(h.disconnected_hooks()), vec![9]);
    assert!(fire(h.reconnecting_hooks()).is_empty());
}

#[test]
fn keyed_map_holds_one_value_for_a_key() {
    let mut m: KeyedMap<u8> = KeyedMap::new();
    m.insert("a".into(), 1);
    m.insert("b".into(), 2);
    m.insert("a".into(), 3);
    assert_eq!(m.len(), 2);
    assert_eq!(m.get("a"), Some(&3));
    assert_eq!(m.take("b"), Some(2));
    assert!(!m.contains_key("b"));
    assert_eq!(m.keys(), vec!["a".to_string()]);
    m.remove("a");
    assert_eq!(m.len(), 0);
    m.insert("c".into(), 1);
    m.clear();
    assert!(m.get("c").is_none());
}
