//! Who may talk to the robot.

use crate::text;
use crate::types::{
    BotIdentity, BotIdentityView, GroupOverride, IncomingMessage, MessageView, OverrideView,
    PolicyConfig, PolicyDecision, PolicyView, RejectReason, CONVERSATION_TYPE_GROUP,
};
use vstd::prelude::*;

verus! {

/// Membership in a list; nobody has the empty name.
pub open spec fn member(list: Seq<Seq<char>>, id: Seq<char>) -> bool {
    id.len() > 0 && list.contains(id)
}

/// The first of the two that is given, else the last word.
pub open spec fn rule(own: Option<bool>, common: Option<bool>, default: bool) -> bool {
    match own {
        Some(b) => b,
        None => match common {
            Some(b) => b,
            None => default,
        },
    }
}

/// Why a message in a group is not admitted, or that it is. The rules are asked
/// in this order: the blocklist, the allowlist (an entry of its own admits a
/// group too), whether the group is switched off, the mention, the senders of
/// the group, the mention of everybody.
pub open spec fn group_verdict(cfg: PolicyView, m: MessageView) -> RejectReason {
    let own = cfg.group_overrides.contains_key(m.conversation_id);
    let o = cfg.group_overrides[m.conversation_id];
    let own_mention: Option<bool> = if own {
        o.require_mention
    } else {
        None
    };
    let own_all: Option<bool> = if own {
        o.respond_to_mention_all
    } else {
        None
    };
    if member(cfg.group_blocklist, m.conversation_id) {
        RejectReason::GroupBlocked
    } else if cfg.group_allowlist.len() > 0 && !own && !member(
        cfg.group_allowlist,
        m.conversation_id,
    ) {
        RejectReason::GroupNotAllowed
    } else if own && o.enabled == Some(false) {
        RejectReason::GroupDisabled
    } else if rule(own_mention, cfg.require_mention, true) && !m.is_in_at_list {
        RejectReason::NoMention
    } else if own && member(o.block_from, m.sender_id) {
        RejectReason::SenderBlocked
    } else if own && o.allow_from.len() > 0 && !member(o.allow_from, m.sender_id) {
        RejectReason::SenderNotAllowed
    } else if m.mention_all && !rule(own_all, cfg.respond_to_mention_all, false) {
        RejectReason::MentionAll
    } else {
        RejectReason::Admitted
    }
}

/// Why a message between two is not admitted, or that it is.
pub open spec fn dm_verdict(cfg: PolicyView, m: MessageView) -> RejectReason {
    if cfg.mode() == "disabled"@ {
        RejectReason::DmDisabled
    } else if cfg.mode() == "allowlist"@ {
        if member(cfg.dm_allowlist, m.sender_id) {
            RejectReason::Admitted
        } else {
            RejectReason::DmNotAllowed
        }
    } else if cfg.mode() == "blocklist"@ && member(cfg.dm_blocklist, m.sender_id) {
        RejectReason::DmBlocked
    } else {
        RejectReason::Admitted
    }
}

/// Why a message is not admitted, or that it is. No rule holds for an admin;
/// then the senders who may not are asked for, then those who may, then the
/// rules of the conversation.
pub open spec fn verdict(cfg: PolicyView, m: MessageView) -> RejectReason {
    if member(cfg.admins, m.sender_staff_id) {
        RejectReason::Admitted
    } else if member(cfg.deny_from, m.sender_staff_id) {
        RejectReason::SenderDenied
    } else if cfg.allow_from.len() > 0 && !member(cfg.allow_from, m.sender_staff_id) {
        RejectReason::SenderNotAllowed
    } else if m.conversation_type == CONVERSATION_TYPE_GROUP@ {
        group_verdict(cfg, m)
    } else {
        dm_verdict(cfg, m)
    }
}

/// The decision that goes with a verdict.
pub open spec fn decision(r: RejectReason) -> PolicyDecision {
    PolicyDecision { allowed: r == RejectReason::Admitted, reason: r }
}

/// Decides by a policy that can be changed while it is in use.
#[derive(Debug)]
pub struct PolicyGate {
    cfg: PolicyConfig,
    bot: Option<BotIdentity>,
}

fn is_member(list: &Vec<String>, id: &str) -> (r: bool)
    ensures
        r == member(text::texts(list@), id@),
{
    !id.is_empty() && text::listed(list, id)
}

fn or_rule(own: Option<bool>, common: Option<bool>, default: bool) -> (r: bool)
    ensures
        r == rule(own, common, default),
{
    match own {
        Some(b) => b,
        None => match common {
            Some(b) => b,
            None => default,
        },
    }
}

fn evaluate_group(cfg: &PolicyConfig, msg: &IncomingMessage) -> (r: PolicyDecision)
    ensures
        r == decision(group_verdict(cfg@, msg@)),
{
    if is_member(&cfg.group_blocklist, msg.conversation_id.as_str()) {
        return PolicyDecision::reject(RejectReason::GroupBlocked);
    }
    let ov: Option<&GroupOverride> = cfg.group_overrides.get(msg.conversation_id.as_str());
    if cfg.group_allowlist.len() > 0 && ov.is_none() && !is_member(
        &cfg.group_allowlist,
        msg.conversation_id.as_str(),
    ) {
        return PolicyDecision::reject(RejectReason::GroupNotAllowed);
    }
    if let Some(o) = ov {
        if let Some(false) = o.enabled {
            return PolicyDecision::reject(RejectReason::GroupDisabled);
        }
    }
    let own_mention = match ov {
        Some(o) => o.require_mention,
        None => None,
    };
    if or_rule(own_mention, cfg.require_mention, true) && !msg.is_in_at_list {
        return PolicyDecision::reject(RejectReason::NoMention);
    }
    if let Some(o) = ov {
        if is_member(&o.block_from, msg.sender_id.as_str()) {
            return PolicyDecision::reject(RejectReason::SenderBlocked);
        }
        if o.allow_from.len() > 0 && !is_member(&o.allow_from, msg.sender_id.as_str()) {
            return PolicyDecision::reject(RejectReason::SenderNotAllowed);
        }
    }
    let own_all = match ov {
        Some(o) => o.respond_to_mention_all,
        None => None,
    };
    if msg.mention_all && !or_rule(own_all, cfg.respond_to_mention_all, false) {
        return PolicyDecision::reject(RejectReason::MentionAll);
    }
    PolicyDecision::allow()
}

fn evaluate_dm(cfg: &PolicyConfig, msg: &IncomingMessage) -> (r: PolicyDecision)
    ensures
        r == decision(dm_verdict(cfg@, msg@)),
{
    let mode = cfg.dm_mode();
    if text::same(mode, "disabled") {
        PolicyDecision::reject(RejectReason::DmDisabled)
    } else if text::same(mode, "allowlist") {
        if is_member(&cfg.dm_allowlist, msg.sender_id.as_str()) {
            PolicyDecision::allow()
        } else {
            PolicyDecision::reject(RejectReason::DmNotAllowed)
        }
    } else if text::same(mode, "blocklist") && is_member(
        &cfg.dm_blocklist,
        msg.sender_id.as_str(),
    ) {
        PolicyDecision::reject(RejectReason::DmBlocked)
    } else {
        PolicyDecision::allow()
    }
}

impl PolicyGate {
    /// The policy in use.
    pub closed spec fn policy(&self) -> PolicyView {
        self.cfg@
    }

    /// Who the robot is, once it is known.
    pub closed spec fn robot(&self) -> Option<BotIdentityView> {
        match self.bot {
            Some(b) => Some(b@),
            None => None,
        }
    }

    pub fn new(cfg: PolicyConfig) -> (r: PolicyGate)
        ensures
            r.policy() == cfg@,
            r.robot() is None,
    {
        PolicyGate { cfg, bot: None }
    }

    /// Decides whether a message is admitted.
    pub fn evaluate(&self, msg: &IncomingMessage) -> (r: PolicyDecision)
        ensures
            r == decision(verdict(self.policy(), msg@)),
    {
        let cfg = &self.cfg;
        let staff = msg.sender_staff_id.as_str();
        if is_member(&cfg.admins, staff) {
            return PolicyDecision::allow();
        }
        if is_member(&cfg.deny_from, staff) {
            return PolicyDecision::reject(RejectReason::SenderDenied);
        }
        if cfg.allow_from.len() > 0 && !is_member(&cfg.allow_from, staff) {
            return PolicyDecision::reject(RejectReason::SenderNotAllowed);
        }
        if text::same(msg.conversation_type.as_str(), CONVERSATION_TYPE_GROUP) {
            evaluate_group(cfg, msg)
        } else {
            evaluate_dm(cfg, msg)
        }
    }

    /// Puts another policy in use.
    pub fn update_config(&mut self, cfg: PolicyConfig)
        ensures
            final(self).policy() == cfg@,
            final(self).robot() == old(self).robot(),
    {
        self.cfg = cfg;
    }

    /// A copy of the policy in use.
    pub fn get_config(&self) -> (r: PolicyConfig)
        ensures
            r@ == self.policy(),
    {
        self.cfg.clone()
    }

    pub fn set_bot_identity(&mut self, bot: BotIdentity)
        ensures
            final(self).policy() == old(self).policy(),
            final(self).robot() == Some(bot@),
    {
        self.bot = Some(bot);
    }
}

// ── laws ──

/// A decision names a reason exactly where it does not admit.
pub proof fn rejected_iff_reason(cfg: PolicyView, m: MessageView)
    ensures
        decision(verdict(cfg, m)).allowed <==> decision(verdict(cfg, m)).reason
            == RejectReason::Admitted,
{
}

/// No rule holds for an admin.
pub proof fn admin_bypasses_every_rule(cfg: PolicyView, m: MessageView)
    requires
        member(cfg.admins, m.sender_staff_id),
    ensures
        decision(verdict(cfg, m)).allowed,
{
}

/// A sender who may not and is no admin is turned away, whatever else the
/// policy says.
pub proof fn deny_wins_over_allow(cfg: PolicyView, m: MessageView)
    requires
        member(cfg.deny_from, m.sender_staff_id),
        !member(cfg.admins, m.sender_staff_id),
    ensures
        verdict(cfg, m) == RejectReason::SenderDenied,
{
}

/// Where some senders may, nobody else is admitted but an admin: neither one who
/// is not listed nor one without a name.
pub proof fn only_listed_senders_pass(cfg: PolicyView, m: MessageView)
    requires
        cfg.allow_from.len() > 0,
        decision(verdict(cfg, m)).allowed,
    ensures
        member(cfg.admins, m.sender_staff_id) || member(cfg.allow_from, m.sender_staff_id),
{
}

/// An entry of its own never admits a group that the blocklist holds: but for
/// an admin, no message in it is admitted.
pub proof fn blocklist_is_never_exempted(cfg: PolicyView, m: MessageView)
    requires
        m.conversation_type == CONVERSATION_TYPE_GROUP@,
        member(cfg.group_blocklist, m.conversation_id),
        !member(cfg.admins, m.sender_staff_id),
    ensures
        !decision(verdict(cfg, m)).allowed,
{
}

/// A group with an entry of its own is not turned away for its absence from
/// the allowlist.
pub proof fn own_entry_admits_under_allowlist(cfg: PolicyView, m: MessageView)
    requires
        cfg.group_overrides.contains_key(m.conversation_id),
    ensures
        verdict(cfg, m) != RejectReason::GroupNotAllowed,
{
}

/// What holds for one group has no effect in another conversation.
pub proof fn override_stays_in_its_group(
    cfg: PolicyView,
    group: Seq<char>,
    o: OverrideView,
    m: MessageView,
)
    requires
        m.conversation_id != group,
    ensures
        verdict(
            PolicyView { group_overrides: cfg.group_overrides.insert(group, o), ..cfg },
            m,
        ) == verdict(cfg, m),
{
    let other = PolicyView { group_overrides: cfg.group_overrides.insert(group, o), ..cfg };
    assert(other.mode() == cfg.mode());
}

/// With the open policy a message between two is admitted, and one in a group
/// exactly where the robot is mentioned and not everybody is.
pub proof fn open_policy_verdict(m: MessageView)
    ensures
        m.conversation_type != CONVERSATION_TYPE_GROUP@ ==> decision(
            verdict(crate::types::open_policy(), m),
        ).allowed,
        m.conversation_type == CONVERSATION_TYPE_GROUP@ ==> (decision(
            verdict(crate::types::open_policy(), m),
        ).allowed <==> m.is_in_at_list && !m.mention_all),
{
    reveal_strlit("open");
    reveal_strlit("disabled");
    reveal_strlit("allowlist");
    reveal_strlit("blocklist");
    assert("open"@.len() == 4 && "disabled"@.len() == 8 && "allowlist"@.len() == 9
        && "blocklist"@.len() == 9);
}

/// A sender for whom only the rules of the conversation decide: no admin, not
/// denied, and admitted by a list of senders or by there being none.
pub open spec fn ordinary(cfg: PolicyView, m: MessageView) -> bool {
    &&& m.sender_staff_id.len() == 0 || !cfg.admins.contains(m.sender_staff_id)
    &&& m.sender_staff_id.len() == 0 || !cfg.deny_from.contains(m.sender_staff_id)
    &&& cfg.allow_from.len() == 0 || m.sender_staff_id.len() > 0 && cfg.allow_from.contains(
        m.sender_staff_id,
    )
}

/// Who is listed is an admin, denied or allowed by the name in the company, and
/// only by a name that is not empty.
pub proof fn senders_are_known_by_their_name(cfg: PolicyView, m: MessageView)
    ensures
        m.sender_staff_id.len() > 0 && cfg.admins.contains(m.sender_staff_id) ==> verdict(cfg, m)
            == RejectReason::Admitted,
        m.sender_staff_id.len() > 0 && cfg.deny_from.contains(m.sender_staff_id)
            && !cfg.admins.contains(m.sender_staff_id) ==> verdict(cfg, m)
            == RejectReason::SenderDenied,
        cfg.allow_from.len() > 0 && !cfg.allow_from.contains(m.sender_staff_id)
            && !cfg.admins.contains(m.sender_staff_id) && !cfg.deny_from.contains(
            m.sender_staff_id,
        ) ==> verdict(cfg, m) == RejectReason::SenderNotAllowed,
        ordinary(cfg, m) ==> verdict(cfg, m) != RejectReason::SenderDenied,
{
}

proof fn lemma_modes()
    ensures
        "open"@ != "disabled"@,
        "open"@ != "allowlist"@,
        "open"@ != "blocklist"@,
        "disabled"@ != "allowlist"@,
        "disabled"@ != "blocklist"@,
        "allowlist"@ != "blocklist"@,
{
    reveal_strlit("open");
    reveal_strlit("disabled");
    reveal_strlit("allowlist");
    reveal_strlit("blocklist");
    assert("open"@.len() == 4 && "disabled"@.len() == 8 && "allowlist"@.len() == 9);
    assert("allowlist"@[0] != "blocklist"@[0]);
}

/// Between two, the mode decides: nobody is admitted where it is "disabled", only
/// the listed senders where it is "allowlist", all but the listed ones where it is
/// "blocklist", and everybody where it is "open" or nothing.
pub proof fn mode_decides_between_two(cfg: PolicyView, m: MessageView)
    requires
        ordinary(cfg, m),
        m.conversation_type != "group"@,
    ensures
        cfg.dm_mode == "disabled"@ ==> verdict(cfg, m) == RejectReason::DmDisabled,
        cfg.dm_mode == "allowlist"@ ==> verdict(cfg, m) == (if m.sender_id.len() > 0
            && cfg.dm_allowlist.contains(m.sender_id) {
            RejectReason::Admitted
        } else {
            RejectReason::DmNotAllowed
        }),
        cfg.dm_mode == "blocklist"@ ==> verdict(cfg, m) == (if m.sender_id.len() > 0
            && cfg.dm_blocklist.contains(m.sender_id) {
            RejectReason::DmBlocked
        } else {
            RejectReason::Admitted
        }),
        cfg.dm_mode == "open"@ || cfg.dm_mode.len() == 0 ==> verdict(cfg, m)
            == RejectReason::Admitted,
{
    lemma_modes();
    reveal_strlit("open");
    reveal_strlit("disabled");
    reveal_strlit("allowlist");
    reveal_strlit("blocklist");
}

/// In a group without an entry of its own, the lists of groups, the mention of
/// the robot and the mention of everybody decide, in this order.
pub proof fn lists_and_mentions_decide_in_a_group(cfg: PolicyView, m: MessageView)
    requires
        ordinary(cfg, m),
        m.conversation_type == "group"@,
        m.conversation_id.len() > 0,
        !cfg.group_overrides.contains_key(m.conversation_id),
    ensures
        ({
            let blocked = cfg.group_blocklist.contains(m.conversation_id);
            let unlisted = cfg.group_allowlist.len() > 0 && !cfg.group_allowlist.contains(
                m.conversation_id,
            );
            let silent = !m.is_in_at_list && cfg.require_mention != Some(false);
            let loud = m.mention_all && cfg.respond_to_mention_all != Some(true);
            &&& blocked ==> verdict(cfg, m) == RejectReason::GroupBlocked
            &&& !blocked && unlisted ==> verdict(cfg, m) == RejectReason::GroupNotAllowed
            &&& !blocked && !unlisted && silent ==> verdict(cfg, m) == RejectReason::NoMention
            &&& !blocked && !unlisted && !silent && loud ==> verdict(cfg, m)
                == RejectReason::MentionAll
            &&& !blocked && !unlisted && !silent && !loud ==> verdict(cfg, m)
                == RejectReason::Admitted
        }),
{
}

/// In a group with an entry of its own, the entry decides: whether the group is
/// switched off, its own rules for mentions before those for all groups, and the
/// senders it names, those who may not before those who may.
pub proof fn own_entry_decides_in_its_group(cfg: PolicyView, m: MessageView)
    requires
        ordinary(cfg, m),
        m.conversation_type == "group"@,
        m.conversation_id.len() > 0,
        m.sender_id.len() > 0,
        cfg.group_overrides.contains_key(m.conversation_id),
    ensures
        ({
            let o = cfg.group_overrides[m.conversation_id];
            let blocked = cfg.group_blocklist.contains(m.conversation_id);
            let off = o.enabled == Some(false);
            let must = match o.require_mention {
                Some(b) => b,
                None => cfg.require_mention != Some(false),
            };
            let silent = must && !m.is_in_at_list;
            let denied = o.block_from.contains(m.sender_id);
            let unlisted = o.allow_from.len() > 0 && !o.allow_from.contains(m.sender_id);
            let answers = match o.respond_to_mention_all {
                Some(b) => b,
                None => cfg.respond_to_mention_all == Some(true),
            };
            let loud = m.mention_all && !answers;
            &&& blocked ==> verdict(cfg, m) == RejectReason::GroupBlocked
            &&& !blocked && off ==> verdict(cfg, m) == RejectReason::GroupDisabled
            &&& !blocked && !off && silent ==> verdict(cfg, m) == RejectReason::NoMention
            &&& !blocked && !off && !silent && denied ==> verdict(cfg, m)
                == RejectReason::SenderBlocked
            &&& !blocked && !off && !silent && !denied && unlisted ==> verdict(cfg, m)
                == RejectReason::SenderNotAllowed
            &&& !blocked && !off && !silent && !denied && !unlisted && loud ==> verdict(cfg, m)
                == RejectReason::MentionAll
            &&& !blocked && !off && !silent && !denied && !unlisted && !loud ==> verdict(cfg, m)
                == RejectReason::Admitted
        }),
{
}

} // verus!
