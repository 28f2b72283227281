use dingtalk_channel::normalize::normalize_incoming;
use dingtalk_channel::pipeline::{ActionAdmission, Admission, SafetyPipeline};
use dingtalk_channel::time::Duration;
use dingtalk_channel::{IncomingMessage, PolicyConfig, RejectReason, SafetyConfig};
use std::sync::Arc;

fn body(text: &str, id: &str) -> String {
    format!(
        "{{\"conversationId\":\"cid-001\",\"conversationType\":\"1\",\"senderStaffId\":\"staff-1\",\
         \"senderId\":\"sender-1\",\"createAt\":1000,\"msgId\":\"{id}\",\"msgtype\":\"text\",\
         \"text\":{{\"content\":\"{text}\"}}}}"
    )
}

fn msg(text: &str, id: &str) -> Arc<IncomingMessage> {
    Arc::new(normalize_incoming(body(text, id).as_bytes()).unwrap())
}

fn t(secs: u64) -> Duration {
    Duration::from_secs(secs)
}

fn reason(a: &Admission) -> RejectReason {
    match a {
        Admission::Rejected(e) => e.reason,
        _ => RejectReason::Admitted,
    }
}

#[test]
fn dedup_drops_second_delivery() {
    let mut p = SafetyPipeline::new(&SafetyConfig::default(), "");
    let first = p.push_message_at("proto-1", &msg("dup", "same-msg-id"), false, t(0), t(2));
    assert!(matches!(first, Admission::Serial(_)));
    p.complete(&vec!["same-msg-id".to_string()], true);
    // Same business msgId delivered under another protocol ID.
    let second =
        p.push_message_at("proto-2-different", &msg("dup", "same-msg-id"), false, t(1), t(2));
    assert_eq!(reason(&second), RejectReason::Duplicate, "second delivery must be deduped");
}

#[test]
fn policy_blocklist_emits_reject_event() {
    let mut cfg = SafetyConfig::default();
    cfg.policy.dm_mode = "blocklist".into();
    cfg.policy.dm_blocklist = vec!["sender-1".into()];
    let mut p = SafetyPipeline::new(&cfg, "");
    match p.push_message_at("proto-blk", &msg("blocked?", "m-blk"), false, t(0), t(2)) {
        Admission::Rejected(e) => {
            assert_eq!(e.reason.as_str(), "dm_blocked");
            assert_eq!(e.message_id, "m-blk");
            assert_eq!(e.chat_id, "cid-001");
            assert_eq!(e.sender_id, "sender-1");
        }
        _ => panic!("must be rejected"),
    }
}

#[test]
fn every_rule_has_its_reason() {
    let mut p = SafetyPipeline::new(&SafetyConfig::default(), "");
    let stale = p.push_message_at("p0", &msg("a", "m0"), false, t(0), t(3600));
    assert_eq!(reason(&stale), RejectReason::Stale);
    p.set_bot_identity("sender-1");
    let own = p.push_message_at("p1", &msg("a", "m1"), false, t(0), t(2));
    assert_eq!(reason(&own), RejectReason::SelfSent);
    p.set_bot_identity("robot");
    p.update_policy(PolicyConfig {
        dm_mode: "disabled".into(),
        ..Default::default()
    });
    assert_eq!(p.get_policy().dm_mode(), "disabled");
    let policy = p.push_message_at("p2", &msg("b", "m2"), false, t(0), t(2));
    assert_eq!(reason(&policy), RejectReason::DmDisabled);
    p.update_policy(PolicyConfig::default_extended());
    let ok = p.push_message_at("p3", &msg("c", "m3"), false, t(0), t(2));
    assert_eq!(reason(&ok), RejectReason::Admitted);
}

#[test]
fn locked_message_is_not_handled_twice() {
    let mut cfg = SafetyConfig::default();
    cfg.mark_after_handler = true;
    cfg.chat_queue.enabled = false;
    let mut p = SafetyPipeline::new(&cfg, "");
    let first = p.push_message_at("p", &msg("a", "m"), false, t(0), t(2));
    assert!(matches!(first, Admission::Direct));
    let second = p.push_message_at("p", &msg("a", "m"), false, t(1), t(2));
    assert_eq!(reason(&second), RejectReason::LockContention);
}

#[test]
fn failed_message_comes_again_and_handled_one_does_not() {
    let mut cfg = SafetyConfig::default();
    cfg.mark_after_handler = true;
    let mut p = SafetyPipeline::new(&cfg, "");
    let ids = vec!["m".to_string()];
    assert_eq!(
        reason(&p.push_message_at("p", &msg("a", "m"), false, t(0), t(2))),
        RejectReason::Admitted
    );
    p.complete_at(&ids, false, t(1));
    assert_eq!(
        reason(&p.push_message_at("p", &msg("a", "m"), false, t(2), t(2))),
        RejectReason::Admitted
    );
    p.complete_at(&ids, true, t(3));
    assert_eq!(
        reason(&p.push_message_at("q", &msg("other", "m"), false, t(4), t(2))),
        RejectReason::Duplicate
    );
}

#[test]
fn failed_message_comes_again_in_another_delivery() {
    let mut cfg = SafetyConfig::default();
    cfg.mark_after_handler = true;
    let mut p = SafetyPipeline::new(&cfg, "");
    assert_eq!(
        reason(&p.push_message_at("p", &msg("a", "m"), false, t(0), t(2))),
        RejectReason::Admitted
    );
    p.complete_at(&vec!["m".to_string()], false, t(1));
    assert_eq!(
        reason(&p.push_message_at("q", &msg("a", "m"), false, t(50), t(52))),
        RejectReason::Admitted
    );
}

#[test]
fn message_that_is_turned_away_is_a_duplicate_too() {
    let mut cfg = SafetyConfig::default();
    cfg.policy.deny_from = vec![msg("a", "m").sender_staff_id.clone()];
    let mut p = SafetyPipeline::new(&cfg, "");
    assert_eq!(
        reason(&p.push_message_at("p", &msg("a", "m"), false, t(0), t(2))),
        RejectReason::SenderDenied
    );
    assert_eq!(
        reason(&p.push_message_at("p", &msg("a", "m"), false, t(1), t(2))),
        RejectReason::Duplicate
    );
}

#[test]
fn replay_under_new_ids_is_known_by_its_content() {
    let mut p = SafetyPipeline::new(&SafetyConfig::default(), "");
    assert_eq!(
        reason(&p.push_message_at("p1", &msg("same", "m1"), false, t(0), t(2))),
        RejectReason::Admitted
    );
    assert_eq!(
        reason(&p.push_message_at("p2", &msg("same", "m2"), false, t(0), t(2))),
        RejectReason::Duplicate
    );
}

#[test]
fn batches_wait_in_their_conversation() {
    let mut p = SafetyPipeline::new(&SafetyConfig::default(), "");
    let wait = p.push_message_at("p1", &msg("a", "m1"), true, t(0), t(2));
    assert!(matches!(wait, Admission::Batched(_)));
    p.push_message_at("p2", &msg("b", "m2"), true, t(0), t(2));
    assert!(p.wait_over("cid-001", 1).is_empty());
    let out = p.wait_over("cid-001", 2);
    assert_eq!(out[0].source_ids, vec!["m1", "m2"]);
    p.push_message_at("p3", &msg("c", "m3"), true, t(0), t(2));
    let rest = p.dispose();
    assert_eq!(rest.len(), 1);
    assert_eq!(rest[0].1[0].source_ids, vec!["m3"]);
}

#[test]
fn actions_are_run_once() {
    let mut p = SafetyPipeline::new(&SafetyConfig::default(), "");
    let keys = vec!["fp:1".to_string()];
    assert!(matches!(
        p.push_action_at("e1", "card:1", &keys, t(0)),
        ActionAdmission::Serial(_)
    ));
    assert!(matches!(
        p.push_action_at("e2", "card:1", &keys, t(0)),
        ActionAdmission::Dropped
    ));
    assert!(p.push_light_at("l1", t(0)));
    assert!(!p.push_light_at("l1", t(0)));
    p.complete_light_at("l1", true, t(0));
}

#[test]
fn pipeline_reads_the_clock() {
    let mut p = SafetyPipeline::new(&SafetyConfig::default(), "");
    let fresh = Arc::new(IncomingMessage {
        msg_id: "m".into(),
        ..Default::default()
    });
    assert!(matches!(p.push_message("p", &fresh, false), Admission::Serial(_)));
    let now = p.now();
    p.complete_at(&vec!["m".to_string()], true, now);
    assert_eq!(reason(&p.push_message("p", &fresh, false)), RejectReason::Duplicate);
    assert_eq!(reason(&p.push_message("q", &msg("old", "x"), false)), RejectReason::Stale);
}
