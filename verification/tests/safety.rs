use dingtalk_channel::safety::chat_queue::{batch_of, merge_batch_messages, ChatQueue, QueueStep};
use dingtalk_channel::safety::seen_cache::fingerprint_of;
use dingtalk_channel::safety::{
    content_fingerprint, ChatQueueManager, ProcessingLock, SeenCache, StaleDetector,
};
use dingtalk_channel::time::Duration;
use dingtalk_channel::{
    BatchConfig, DedupConfig, IncomingMessage, MediaBatchConfig, Mention, Resource,
};
use std::sync::Arc;

#[test]
fn dedup_roundtrip() {
    let mut c = SeenCache::new(DedupConfig {
        ttl: Duration::from_millis(50),
        ..Default::default()
    });
    assert!(!c.check_and_mark(&["a", "b"]));
    assert!(c.check_and_mark(&["b"])); // second key hits
    assert!(c.check_and_mark(&["a"]));
    assert!(!c.has(&["c"]));
    c.add(&["c"]);
    assert!(c.has(&["c"]));
}

#[test]
fn dedup_ttl_expiry() {
    let mut c = SeenCache::new(DedupConfig {
        ttl: Duration::from_millis(20),
        max_entries: 10,
        sweep_interval: Default::default(),
    });
    c.add_at(&["k"], Duration::from_millis(5));
    assert!(c.has_at(&["k"], Duration::from_millis(24)));
    assert!(!c.has_at(&["k"], Duration::from_millis(30)));
    assert!(c.is_empty());
}

#[test]
fn fingerprint_shape() {
    let fp = content_fingerprint("cid", 42, "text", "hi");
    assert!(fp.starts_with("fp:"));
    let fp2 = content_fingerprint("cid", 42, "text", "hi");
    assert_eq!(fp, fp2);
    let fp3 = content_fingerprint("cid", 43, "text", "hi");
    assert_ne!(fp, fp3);
}

#[test]
fn fingerprint_is_hexadecimal() {
    assert_eq!(fingerprint_of(&[0, 1, 0x9a, 0xff]), "fp:00019aff");
    let fp = content_fingerprint("", 0, "", "");
    assert_eq!(fp.len(), 3 + 64);
    // SHA-256 of the three colons and the zero.
    assert!(fp.chars().skip(3).all(|c| c.is_ascii_hexdigit()));
    assert_eq!(
        content_fingerprint("a", 1, "b", "c"),
        format!(
            "fp:{:x}",
            <sha2::Sha256 as sha2::Digest>::digest("a:1:b:c".as_bytes())
        )
    );
}

#[test]
fn oldest_key_leaves_a_full_cache() {
    let mut c = SeenCache::new(DedupConfig {
        ttl: Duration::from_secs(60),
        max_entries: 2,
        ..Default::default()
    });
    let now = Duration::from_secs(1);
    c.add_at(&["a", "b"], now);
    assert!(c.has_at(&["a"], now)); // "b" is now the oldest
    c.add_at(&["c", ""], now);
    assert_eq!(c.len(), 2);
    assert!(c.has_at(&["a"], now) && c.has_at(&["c"], now));
    assert!(!c.has_at(&["b"], now));
    assert!(!c.has_at(&[""], now));
    c.clear();
    assert!(c.is_empty());
}

#[test]
fn stale_messages_are_found() {
    let d = StaleDetector::new(Duration::from_secs(10));
    let now = Duration::from_secs(1_000);
    assert!(d.is_stale_at(989_999, now));
    assert!(!d.is_stale_at(990_000, now));
    assert!(!d.is_stale_at(0, now));
    assert!(!d.is_stale_at(2_000_000, now));
    assert!(!d.is_stale(0));
    assert!(d.is_stale(1));
    let default = StaleDetector::new(Duration::from_secs(0));
    assert!(default.is_stale_at(1, Duration::from_secs(1801)));
    assert!(!default.is_stale_at(1_000, Duration::from_secs(1801)));
}

#[test]
fn lock_is_held_until_released_or_over() {
    let mut l = ProcessingLock::new(Duration::from_secs(10));
    let t = Duration::from_secs;
    assert!(l.acquire_at("a", t(0)));
    assert!(!l.acquire_at("a", t(9)));
    assert!(l.acquire_at("b", t(9)));
    assert!(l.acquire_at("a", t(10)));
    l.release("a");
    assert!(l.acquire_at("a", t(11)));
    l.sweep_at(t(19));
    assert!(!l.acquire_at("a", t(20)));
    assert!(l.acquire_at("b", t(19)));
    assert!(l.acquire("fresh"));
    assert!(!l.acquire("fresh"));
    l.sweep();
    assert!(!l.acquire("fresh"));
}

fn message(id: &str, text: &str) -> Arc<IncomingMessage> {
    Arc::new(IncomingMessage {
        msg_id: id.into(),
        text: text.into(),
        ..Default::default()
    })
}

fn media(id: &str, code: &str) -> Arc<IncomingMessage> {
    Arc::new(IncomingMessage {
        msg_id: id.into(),
        resources: vec![Resource {
            kind: "image".into(),
            download_code: code.into(),
            ..Default::default()
        }],
        ..Default::default()
    })
}

#[test]
fn batches_merge_their_messages() {
    let a = Arc::new(IncomingMessage {
        msg_id: "1".into(),
        text: "one".into(),
        mention_all: true,
        mentions: vec![
            Mention {
                user_id: "u".into(),
                ..Default::default()
            },
            Mention {
                name: "n".into(),
                ..Default::default()
            },
        ],
        resources: vec![Resource {
            download_code: "d".into(),
            ..Default::default()
        }],
        ..Default::default()
    });
    let b = Arc::new(IncomingMessage {
        msg_id: "2".into(),
        text: "".into(),
        mentions: vec![Mention {
            user_id: "u".into(),
            name: "again".into(),
            ..Default::default()
        }],
        resources: vec![
            Resource {
                download_code: "d".into(),
                ..Default::default()
            },
            Resource {
                download_code: "e".into(),
                ..Default::default()
            },
        ],
        ..Default::default()
    });
    let c = message("3", "three");
    let batch = batch_of(&vec![a, b, c]);
    assert_eq!(batch.source_ids, vec!["1", "2", "3"]);
    let m = &batch.message;
    assert_eq!(m.msg_id, "3");
    assert_eq!(m.text, "one\n\nthree");
    assert!(m.mention_all);
    let codes: Vec<&str> = m.resources.iter().map(|r| r.download_code.as_str()).collect();
    assert_eq!(codes, vec!["d", "e"]);
    assert_eq!(m.mentions.len(), 2);
    assert_eq!(m.mentions[1].name, "n");
    assert_eq!(m.batched_sources.len(), 3);
}

#[test]
fn one_message_alone_is_itself() {
    let m = merge_batch_messages(&vec![media("1", "d")]);
    assert_eq!(m.msg_id, "1");
    assert_eq!(m.resources.len(), 1);
    assert_eq!(m.batched_sources.len(), 1);
}

#[test]
fn queue_waits_and_hands_out() {
    let cfg = BatchConfig {
        delay_ms: 600,
        long_threshold_chars: 10,
        long_delay_ms: 2000,
        max_messages: 3,
        max_chars: 100,
    };
    let mut q = ChatQueue::new(cfg, MediaBatchConfig::default(), false);
    let first = match q.push(message("1", "a")) {
        QueueStep::Wait { delay_ms, generation } => {
            assert_eq!(delay_ms, 600);
            generation
        }
        _ => panic!("should wait"),
    };
    let second = match q.push(message("2", "0123456789")) {
        QueueStep::Wait { delay_ms, generation } => {
            assert_eq!(delay_ms, 2000);
            generation
        }
        _ => panic!("should wait"),
    };
    assert!(q.wait_over(first).is_empty());
    let out = q.wait_over(second);
    assert_eq!(out.len(), 1);
    assert_eq!(out[0].source_ids, vec!["1", "2"]);
    assert!(q.wait_over(second).is_empty());
}

#[test]
fn full_batch_is_handed_out_at_once() {
    let cfg = BatchConfig {
        max_messages: 2,
        ..Default::default()
    };
    let mut q = ChatQueue::new(cfg, MediaBatchConfig::default(), false);
    assert!(matches!(q.push(message("1", "a")), QueueStep::Wait { .. }));
    match q.push(message("2", "b")) {
        QueueStep::Dispatch(out) => assert_eq!(out[0].message.text, "a\n\nb"),
        _ => panic!("should be full"),
    }
    // Characters count for one batch alone.
    let cfg = BatchConfig {
        max_chars: 5,
        ..Default::default()
    };
    let mut q = ChatQueue::new(cfg, MediaBatchConfig::default(), false);
    assert!(matches!(q.push(message("1", "12345")), QueueStep::Dispatch(_)));
    assert!(matches!(q.push(message("2", "1234")), QueueStep::Wait { .. }));
}

#[test]
fn media_have_their_own_wait_and_limit() {
    let media_cfg = MediaBatchConfig {
        enabled: true,
        delay_ms: 800,
        max_items: 2,
    };
    let mut q = ChatQueue::new(BatchConfig::default(), media_cfg, false);
    match q.push(media("1", "a")) {
        QueueStep::Wait { delay_ms, .. } => assert_eq!(delay_ms, 800),
        _ => panic!("should wait"),
    }
    assert!(matches!(q.push(media("2", "b")), QueueStep::Dispatch(_)));
}

#[test]
fn serial_queue_hands_out_each_alone() {
    let mut m = ChatQueueManager::new(BatchConfig::default(), true, MediaBatchConfig::default());
    assert!(m.enabled());
    assert!(m.run_serial("s").is_empty()); // the first use makes the queue serial
    match m.push("s", message("1", "a")) {
        QueueStep::Dispatch(out) => {
            assert_eq!(out.len(), 1);
            assert_eq!(out[0].source_ids, vec!["1"]);
        }
        _ => panic!("should be handed out"),
    }
    assert!(matches!(m.push("t", message("2", "b")), QueueStep::Wait { .. }));
    assert!(matches!(m.push("t", message("3", "c")), QueueStep::Wait { .. }));
    assert!(m.wait_over("nobody", 1).is_empty());
    let mut all = m.flush_all();
    all.sort_by(|x, y| x.0.cmp(&y.0));
    assert_eq!(all.len(), 2);
    assert_eq!(all[0].0, "s");
    assert!(all[0].1.is_empty());
    assert_eq!(all[1].1[0].source_ids, vec!["2", "3"]);
    assert!(m.run_serial("t").is_empty());
}
