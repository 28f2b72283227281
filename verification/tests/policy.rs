use dingtalk_channel::keyed::KeyedMap;
use dingtalk_channel::safety::PolicyGate;
use dingtalk_channel::{BotIdentity, GroupOverride, IncomingMessage, PolicyConfig, RejectReason};

fn msg(group: bool) -> IncomingMessage {
    IncomingMessage {
        conversation_type: if group { "group".into() } else { "dm".into() },
        sender_id: "u1".into(),
        sender_staff_id: "staff1".into(),
        ..Default::default()
    }
}

fn msg_group(cid: &str) -> IncomingMessage {
    IncomingMessage {
        conversation_id: cid.into(),
        is_in_at_list: true,
        ..msg(true)
    }
}

#[test]
fn admin_bypasses_everything() {
    let cfg = PolicyConfig {
        admins: vec!["staff1".into()],
        ..Default::default()
    };
    let g = PolicyGate::new(cfg);
    let m = IncomingMessage {
        is_in_at_list: false,
        mention_all: true,
        ..msg(true)
    };
    assert!(g.evaluate(&m).allowed);
}

#[test]
fn global_deny_wins_over_adminless_allow() {
    let mut overrides = KeyedMap::new();
    overrides.insert(
        "cid".into(),
        GroupOverride {
            allow_from: vec!["u1".into()],
            ..Default::default()
        },
    );
    let cfg = PolicyConfig {
        deny_from: vec!["staff1".into()],
        allow_from: vec!["staff1".into()],
        group_overrides: overrides,
        require_mention: Some(false),
        ..Default::default()
    };
    let g = PolicyGate::new(cfg);
    assert_eq!(
        g.evaluate(&msg_group("cid")).reason,
        RejectReason::SenderDenied
    );
}

#[test]
fn override_admits_under_global_allowlist() {
    let mut overrides = KeyedMap::new();
    overrides.insert("special".into(), GroupOverride::default());
    let cfg = PolicyConfig {
        group_allowlist: vec!["other".into()],
        group_overrides: overrides,
        require_mention: Some(false),
        ..Default::default()
    };
    let g = PolicyGate::new(cfg);
    assert!(g.evaluate(&msg_group("other")).allowed);
    assert_eq!(
        g.evaluate(&msg_group("random")).reason,
        RejectReason::GroupNotAllowed
    );
    assert!(g.evaluate(&msg_group("special")).allowed);
}

#[test]
fn blocklist_not_exempt_by_override() {
    let mut overrides = KeyedMap::new();
    overrides.insert("blocked".into(), GroupOverride::default());
    let cfg = PolicyConfig {
        group_blocklist: vec!["blocked".into()],
        group_overrides: overrides,
        ..Default::default()
    };
    let g = PolicyGate::new(cfg);
    assert_eq!(
        g.evaluate(&msg_group("blocked")).reason,
        RejectReason::GroupBlocked
    );
}

#[test]
fn dm_modes() {
    let g = PolicyGate::new(PolicyConfig {
        dm_mode: "disabled".into(),
        ..Default::default()
    });
    assert_eq!(g.evaluate(&msg(false)).reason, RejectReason::DmDisabled);

    let g = PolicyGate::new(PolicyConfig {
        dm_mode: "allowlist".into(),
        dm_allowlist: vec!["u9".into()],
        ..Default::default()
    });
    assert_eq!(g.evaluate(&msg(false)).reason, RejectReason::DmNotAllowed);

    let g = PolicyGate::new(PolicyConfig {
        dm_mode: "blocklist".into(),
        dm_blocklist: vec!["u1".into()],
        ..Default::default()
    });
    assert_eq!(g.evaluate(&msg(false)).reason, RejectReason::DmBlocked);

    let g = PolicyGate::new(PolicyConfig::default_extended());
    assert!(g.evaluate(&msg(false)).allowed);
}

#[test]
fn group_rules_in_their_order() {
    let mut overrides = KeyedMap::new();
    overrides.insert(
        "off".into(),
        GroupOverride {
            enabled: Some(false),
            ..Default::default()
        },
    );
    overrides.insert(
        "picky".into(),
        GroupOverride {
            require_mention: Some(false),
            respond_to_mention_all: Some(true),
            allow_from: vec!["u2".into()],
            block_from: vec!["u1".into()],
            ..Default::default()
        },
    );
    let g = PolicyGate::new(PolicyConfig {
        group_overrides: overrides,
        ..Default::default()
    });
    assert_eq!(g.evaluate(&msg_group("off")).reason, RejectReason::GroupDisabled);
    assert_eq!(g.evaluate(&msg_group("picky")).reason, RejectReason::SenderBlocked);
    let other = IncomingMessage {
        sender_id: "u3".into(),
        ..msg_group("picky")
    };
    assert_eq!(g.evaluate(&other).reason, RejectReason::SenderNotAllowed);
    let friend = IncomingMessage {
        sender_id: "u2".into(),
        mention_all: true,
        is_in_at_list: false,
        ..msg_group("picky")
    };
    assert!(g.evaluate(&friend).allowed);
    let quiet = IncomingMessage {
        is_in_at_list: false,
        ..msg_group("any")
    };
    assert_eq!(g.evaluate(&quiet).reason, RejectReason::NoMention);
    let all = IncomingMessage {
        mention_all: true,
        ..msg_group("any")
    };
    assert_eq!(g.evaluate(&all).reason, RejectReason::MentionAll);
}

#[test]
fn sender_allowlist_turns_others_away() {
    let g = PolicyGate::new(PolicyConfig {
        allow_from: vec!["staff2".into()],
        ..Default::default()
    });
    assert_eq!(g.evaluate(&msg(false)).reason, RejectReason::SenderNotAllowed);
    let nobody = IncomingMessage {
        sender_staff_id: "".into(),
        ..msg(false)
    };
    assert_eq!(g.evaluate(&nobody).reason, RejectReason::SenderNotAllowed);
    let listed = IncomingMessage {
        sender_staff_id: "staff2".into(),
        ..msg(false)
    };
    assert!(g.evaluate(&listed).allowed);
}

#[test]
fn policy_can_be_changed() {
    let mut g = PolicyGate::new(PolicyConfig::default_extended());
    assert!(g.evaluate(&msg(false)).allowed);
    g.set_bot_identity(BotIdentity::default());
    let mut overrides = KeyedMap::new();
    overrides.insert("g1".into(), GroupOverride::default());
    g.update_config(PolicyConfig {
        dm_mode: "disabled".into(),
        group_overrides: overrides,
        ..Default::default()
    });
    assert_eq!(g.evaluate(&msg(false)).reason.as_str(), "dm_disabled");
    let copy = g.get_config();
    assert_eq!(copy.dm_mode(), "disabled");
    assert!(copy.group_overrides.contains_key("g1"));
    assert!(!copy.group_overrides.contains_key("g2"));
}

#[test]
fn reasons_in_words() {
    let words = [
        (RejectReason::Admitted, ""),
        (RejectReason::GroupNotAllowed, "group_not_allowed"),
        (RejectReason::GroupBlocked, "group_blocked"),
        (RejectReason::GroupDisabled, "group_disabled"),
        (RejectReason::NoMention, "no_mention"),
        (RejectReason::MentionAll, "mention_all_blocked"),
        (RejectReason::DmDisabled, "dm_disabled"),
        (RejectReason::DmNotAllowed, "dm_not_allowed"),
        (RejectReason::DmBlocked, "dm_blocked"),
        (RejectReason::SenderNotAllowed, "sender_not_allowed"),
        (RejectReason::SenderBlocked, "sender_blocked"),
        (RejectReason::Stale, "stale"),
        (RejectReason::Duplicate, "duplicate"),
        (RejectReason::SelfSent, "self_sent"),
        (RejectReason::LockContention, "lock_contention"),
        (RejectReason::SenderDenied, "sender_denied"),
    ];
    for (reason, word) in words {
        assert_eq!(reason.as_str(), word);
    }
}
