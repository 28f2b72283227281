//! The types that the whole library shares.

use crate::json::{Json, JsonView};
use crate::keyed;
use crate::keyed::KeyedMap;
use crate::text;
use crate::time::{now_millis, Duration};
use std::sync::Arc;
use vstd::prelude::*;

verus! {

/// Type of a conversation between two.
pub const CONVERSATION_TYPE_DM: &'static str = "dm";

/// Type of a conversation in a group.
pub const CONVERSATION_TYPE_GROUP: &'static str = "group";

/// Default time for which a message is remembered, in milliseconds.
pub const DEFAULT_DEDUP_TTL_MS: u64 = 300_000;

/// What the values of a list stand for, in their order.
pub open spec fn views<T: View>(v: Seq<T>) -> Seq<T::V> {
    Seq::new(v.len(), |i: int| v[i]@)
}

/// `Arc::clone` gives another handle to the same value.
#[verifier::external_body]
pub(crate) fn share<T>(a: &Arc<T>) -> (r: Arc<T>)
    ensures
        r == *a,
{
    a.clone()
}

/// A user who is mentioned in the payload.
#[derive(Debug, Default)]
pub struct AtUser {
    pub dingtalk_id: String,
    pub staff_id: String,
}

pub struct AtUserView {
    pub dingtalk_id: Seq<char>,
    pub staff_id: Seq<char>,
}

impl View for AtUser {
    type V = AtUserView;

    open spec fn view(&self) -> AtUserView {
        AtUserView { dingtalk_id: self.dingtalk_id@, staff_id: self.staff_id@ }
    }
}

impl Clone for AtUser {
    fn clone(&self) -> (r: AtUser)
        ensures
            r@ == self@,
    {
        AtUser { dingtalk_id: self.dingtalk_id.clone(), staff_id: self.staff_id.clone() }
    }
}

/// A media resource that a message carries.
#[derive(Debug, Default)]
pub struct Resource {
    /// image, file, audio or video.
    pub kind: String,
    /// The code that the resource is downloaded with.
    pub download_code: String,
    /// Name of a file, a sound or a video.
    pub file_name: String,
    /// What was said in a sound.
    pub recognition: String,
}

pub struct ResourceView {
    pub kind: Seq<char>,
    pub download_code: Seq<char>,
    pub file_name: Seq<char>,
    pub recognition: Seq<char>,
}

impl View for Resource {
    type V = ResourceView;

    open spec fn view(&self) -> ResourceView {
        ResourceView {
            kind: self.kind@,
            download_code: self.download_code@,
            file_name: self.file_name@,
            recognition: self.recognition@,
        }
    }
}

impl Clone for Resource {
    fn clone(&self) -> (r: Resource)
        ensures
            r@ == self@,
    {
        Resource {
            kind: self.kind.clone(),
            download_code: self.download_code.clone(),
            file_name: self.file_name.clone(),
            recognition: self.recognition.clone(),
        }
    }
}

/// A mention inside a message.
#[derive(Debug, Default)]
pub struct Mention {
    /// Placeholder in a rich text.
    pub key: String,
    /// The mentioned user, or a mobile number.
    pub user_id: String,
    /// The name to show.
    pub name: String,
    pub is_bot: bool,
    /// Everybody is mentioned.
    pub is_all: bool,
}

pub struct MentionView {
    pub key: Seq<char>,
    pub user_id: Seq<char>,
    pub name: Seq<char>,
    pub is_bot: bool,
    pub is_all: bool,
}

impl View for Mention {
    type V = MentionView;

    open spec fn view(&self) -> MentionView {
        MentionView {
            key: self.key@,
            user_id: self.user_id@,
            name: self.name@,
            is_bot: self.is_bot,
            is_all: self.is_all,
        }
    }
}

impl Clone for Mention {
    fn clone(&self) -> (r: Mention)
        ensures
            r@ == self@,
    {
        Mention {
            key: self.key.clone(),
            user_id: self.user_id.clone(),
            name: self.name.clone(),
            is_bot: self.is_bot,
            is_all: self.is_all,
        }
    }
}

/// An inbound message of the robot in its normal form.
#[derive(Debug, Default)]
pub struct IncomingMessage {
    pub conversation_id: String,
    /// dm or group.
    pub conversation_type: String,
    pub conversation_title: String,
    pub sender_id: String,
    pub sender_staff_id: String,
    pub sender_nick: String,
    pub sender_corp_id: String,
    /// The text without the leading mention of the robot and without blanks
    /// round it.
    pub text: String,
    pub msg_type: String,
    /// The rich content as it came.
    pub content: Json,
    pub resources: Vec<Resource>,
    pub mentions: Vec<Mention>,
    pub mention_all: bool,
    pub at_users: Vec<AtUser>,
    /// Where a reply goes; a secret.
    pub session_webhook: String,
    pub webhook_expired_at: i64,
    /// The key by which a message is known again.
    pub msg_id: String,
    /// When the message was written, in milliseconds since the epoch.
    pub create_at: i64,
    pub is_admin: bool,
    pub is_in_at_list: bool,
    /// The messages that were merged into this one.
    pub batched_sources: Vec<Arc<IncomingMessage>>,
    pub raw: Json,
}

pub struct MessageView {
    pub conversation_id: Seq<char>,
    pub conversation_type: Seq<char>,
    pub conversation_title: Seq<char>,
    pub sender_id: Seq<char>,
    pub sender_staff_id: Seq<char>,
    pub sender_nick: Seq<char>,
    pub sender_corp_id: Seq<char>,
    pub text: Seq<char>,
    pub msg_type: Seq<char>,
    pub content: JsonView,
    pub resources: Seq<ResourceView>,
    pub mentions: Seq<MentionView>,
    pub mention_all: bool,
    pub at_users: Seq<AtUserView>,
    pub session_webhook: Seq<char>,
    pub webhook_expired_at: i64,
    pub msg_id: Seq<char>,
    pub create_at: i64,
    pub is_admin: bool,
    pub is_in_at_list: bool,
    pub batched_sources: Seq<Arc<IncomingMessage>>,
    pub raw: JsonView,
}

impl View for IncomingMessage {
    type V = MessageView;

    open spec fn view(&self) -> MessageView {
        MessageView {
            conversation_id: self.conversation_id@,
            conversation_type: self.conversation_type@,
            conversation_title: self.conversation_title@,
            sender_id: self.sender_id@,
            sender_staff_id: self.sender_staff_id@,
            sender_nick: self.sender_nick@,
            sender_corp_id: self.sender_corp_id@,
            text: self.text@,
            msg_type: self.msg_type@,
            content: self.content@,
            resources: views(self.resources@),
            mentions: views(self.mentions@),
            mention_all: self.mention_all,
            at_users: views(self.at_users@),
            session_webhook: self.session_webhook@,
            webhook_expired_at: self.webhook_expired_at,
            msg_id: self.msg_id@,
            create_at: self.create_at,
            is_admin: self.is_admin,
            is_in_at_list: self.is_in_at_list,
            batched_sources: self.batched_sources@,
            raw: self.raw@,
        }
    }
}

/// A copy of a list of resources.
pub fn copy_resources(v: &Vec<Resource>) -> (r: Vec<Resource>)
    ensures
        views(r@) == views(v@),
{
    let mut out: Vec<Resource> = Vec::new();
    let mut i: usize = 0;
    while i < v.len()
        invariant
            i <= v@.len(),
            views(out@) =~= views(v@).take(i as int),
        decreases v@.len() - i,
    {
        let item = v[i].clone();
        out.push(item);
        assert(views(out@) =~= views(v@).take(i as int).push(item@));
        assert(views(v@).take(i + 1) =~= views(v@).take(i as int).push(views(v@)[i as int]));
        i += 1;
    }
    out
}

/// A copy of a list of mentions.
pub fn copy_mentions(v: &Vec<Mention>) -> (r: Vec<Mention>)
    ensures
        views(r@) == views(v@),
{
    let mut out: Vec<Mention> = Vec::new();
    let mut i: usize = 0;
    while i < v.len()
        invariant
            i <= v@.len(),
            views(out@) =~= views(v@).take(i as int),
        decreases v@.len() - i,
    {
        let item = v[i].clone();
        out.push(item);
        assert(views(out@) =~= views(v@).take(i as int).push(item@));
        assert(views(v@).take(i + 1) =~= views(v@).take(i as int).push(views(v@)[i as int]));
        i += 1;
    }
    out
}

/// A copy of a list of mentioned users.
pub fn copy_at_users(v: &Vec<AtUser>) -> (r: Vec<AtUser>)
    ensures
        views(r@) == views(v@),
{
    let mut out: Vec<AtUser> = Vec::new();
    let mut i: usize = 0;
    while i < v.len()
        invariant
            i <= v@.len(),
            views(out@) =~= views(v@).take(i as int),
        decreases v@.len() - i,
    {
        let item = v[i].clone();
        out.push(item);
        assert(views(out@) =~= views(v@).take(i as int).push(item@));
        assert(views(v@).take(i + 1) =~= views(v@).take(i as int).push(views(v@)[i as int]));
        i += 1;
    }
    out
}

/// Handles to the same messages.
pub fn share_all(v: &Vec<Arc<IncomingMessage>>) -> (r: Vec<Arc<IncomingMessage>>)
    ensures
        r@ == v@,
{
    let mut out: Vec<Arc<IncomingMessage>> = Vec::new();
    let mut i: usize = 0;
    while i < v.len()
        invariant
            i <= v@.len(),
            out@ =~= v@.take(i as int),
        decreases v@.len() - i,
    {
        out.push(share(&v[i]));
        assert(v@.take(i + 1) =~= v@.take(i as int).push(v@[i as int]));
        i += 1;
    }
    out
}

impl Clone for IncomingMessage {
    fn clone(&self) -> (r: IncomingMessage)
        ensures
            r@ == self@,
    {
        IncomingMessage {
            conversation_id: self.conversation_id.clone(),
            conversation_type: self.conversation_type.clone(),
            conversation_title: self.conversation_title.clone(),
            sender_id: self.sender_id.clone(),
            sender_staff_id: self.sender_staff_id.clone(),
            sender_nick: self.sender_nick.clone(),
            sender_corp_id: self.sender_corp_id.clone(),
            text: self.text.clone(),
            msg_type: self.msg_type.clone(),
            content: self.content.clone(),
            resources: copy_resources(&self.resources),
            mentions: copy_mentions(&self.mentions),
            mention_all: self.mention_all,
            at_users: copy_at_users(&self.at_users),
            session_webhook: self.session_webhook.clone(),
            webhook_expired_at: self.webhook_expired_at,
            msg_id: self.msg_id.clone(),
            create_at: self.create_at,
            is_admin: self.is_admin,
            is_in_at_list: self.is_in_at_list,
            batched_sources: share_all(&self.batched_sources),
            raw: self.raw.clone(),
        }
    }
}

/// Whether the webhook of a session is past its end at some time. A webhook
/// without an end is never past it.
pub open spec fn past_end(webhook_expired_at: i64, now: i64) -> bool {
    webhook_expired_at > 0 && now > webhook_expired_at
}

impl IncomingMessage {
    /// Whether the webhook of the session is past its end at the given time.
    pub fn webhook_expired_at_time(&self, now: i64) -> (r: bool)
        ensures
            r == past_end(self.webhook_expired_at, now),
    {
        self.webhook_expired_at > 0 && now > self.webhook_expired_at
    }

    /// Whether the webhook of the session is past its end. What the clock says
    /// decides; a webhook without an end never is.
    pub fn webhook_expired(&self) -> (r: bool)
        ensures
            self.webhook_expired_at <= 0 ==> !r,
            exists|now: i64| r == #[trigger] past_end(self.webhook_expired_at, now),
    {
        self.webhook_expired_at_time(now_millis())
    }
}

/// What a user did on a card.
#[derive(Debug, Default)]
pub struct CardAction {
    pub out_track_id: String,
    pub user_id: String,
    pub data_content: Json,
    pub raw: Json,
}

pub struct CardActionView {
    pub out_track_id: Seq<char>,
    pub user_id: Seq<char>,
    pub data_content: JsonView,
    pub raw: JsonView,
}

impl View for CardAction {
    type V = CardActionView;

    open spec fn view(&self) -> CardActionView {
        CardActionView {
            out_track_id: self.out_track_id@,
            user_id: self.user_id@,
            data_content: self.data_content@,
            raw: self.raw@,
        }
    }
}

impl Clone for CardAction {
    fn clone(&self) -> (r: CardAction)
        ensures
            r@ == self@,
    {
        CardAction {
            out_track_id: self.out_track_id.clone(),
            user_id: self.user_id.clone(),
            data_content: self.data_content.clone(),
            raw: self.raw.clone(),
        }
    }
}

/// Who may talk to the robot.
#[derive(Debug, Default)]
pub struct PolicyConfig {
    /// The groups that may (none: every group may).
    pub group_allowlist: Vec<String>,
    /// The groups that may not.
    pub group_blocklist: Vec<String>,
    /// In a group the robot has to be mentioned (default true).
    pub require_mention: Option<bool>,
    /// A mention of everybody is a mention of the robot (default false).
    pub respond_to_mention_all: Option<bool>,
    /// open, disabled, allowlist or blocklist.
    pub dm_mode: String,
    /// Who may in the mode allowlist.
    pub dm_allowlist: Vec<String>,
    /// Who may not in the mode blocklist.
    pub dm_blocklist: Vec<String>,
    /// What holds for one group. An entry admits a group that the allowlist
    /// does not hold, and never one that the blocklist holds.
    pub group_overrides: KeyedMap<GroupOverride>,
    /// The senders who may (none: every sender may).
    pub allow_from: Vec<String>,
    /// The senders who may not; this is asked before `allow_from`.
    pub deny_from: Vec<String>,
    /// The senders for whom no rule holds.
    pub admins: Vec<String>,
}

pub struct PolicyView {
    pub group_allowlist: Seq<Seq<char>>,
    pub group_blocklist: Seq<Seq<char>>,
    pub require_mention: Option<bool>,
    pub respond_to_mention_all: Option<bool>,
    pub dm_mode: Seq<char>,
    pub dm_allowlist: Seq<Seq<char>>,
    pub dm_blocklist: Seq<Seq<char>>,
    pub group_overrides: Map<Seq<char>, OverrideView>,
    pub allow_from: Seq<Seq<char>>,
    pub deny_from: Seq<Seq<char>>,
    pub admins: Seq<Seq<char>>,
}

impl View for PolicyConfig {
    type V = PolicyView;

    open spec fn view(&self) -> PolicyView {
        PolicyView {
            group_allowlist: text::texts(self.group_allowlist@),
            group_blocklist: text::texts(self.group_blocklist@),
            require_mention: self.require_mention,
            respond_to_mention_all: self.respond_to_mention_all,
            dm_mode: self.dm_mode@,
            dm_allowlist: text::texts(self.dm_allowlist@),
            dm_blocklist: text::texts(self.dm_blocklist@),
            group_overrides: keyed::seen(self.group_overrides@),
            allow_from: text::texts(self.allow_from@),
            deny_from: text::texts(self.deny_from@),
            admins: text::texts(self.admins@),
        }
    }
}

/// What holds for one group.
#[derive(Debug, Default)]
pub struct GroupOverride {
    /// `Some(false)`: nobody may in this group.
    pub enabled: Option<bool>,
    /// In place of the rule for every group.
    pub require_mention: Option<bool>,
    /// In place of the rule for every group.
    pub respond_to_mention_all: Option<bool>,
    /// Who may in this group (none: everybody may).
    pub allow_from: Vec<String>,
    /// Who may not in this group; this is asked before `allow_from`.
    pub block_from: Vec<String>,
}

pub struct OverrideView {
    pub enabled: Option<bool>,
    pub require_mention: Option<bool>,
    pub respond_to_mention_all: Option<bool>,
    pub allow_from: Seq<Seq<char>>,
    pub block_from: Seq<Seq<char>>,
}

impl View for GroupOverride {
    type V = OverrideView;

    open spec fn view(&self) -> OverrideView {
        OverrideView {
            enabled: self.enabled,
            require_mention: self.require_mention,
            respond_to_mention_all: self.respond_to_mention_all,
            allow_from: text::texts(self.allow_from@),
            block_from: text::texts(self.block_from@),
        }
    }
}

impl Clone for GroupOverride {
    fn clone(&self) -> (r: GroupOverride)
        ensures
            r@ == self@,
    {
        GroupOverride {
            enabled: self.enabled,
            require_mention: self.require_mention,
            respond_to_mention_all: self.respond_to_mention_all,
            allow_from: text::copy_texts(&self.allow_from),
            block_from: text::copy_texts(&self.block_from),
        }
    }
}

impl Clone for PolicyConfig {
    fn clone(&self) -> (r: PolicyConfig)
        ensures
            r@ == self@,
    {
        let mut overrides: KeyedMap<GroupOverride> = KeyedMap::new();
        let n: usize = self.group_overrides.len();
        let ghost list = self.group_overrides.list();
        let mut i: usize = 0;
        proof {
            assert(list.take(0) =~= Seq::empty());
            assert(keyed::seen(overrides@) =~= keyed::seen(keyed::map_of(list.take(0))));
        }
        while i < n
            invariant
                i <= n,
                n == list.len(),
                list == self.group_overrides.list(),
                keyed::seen(overrides@) == keyed::seen(keyed::map_of(list.take(i as int))),
            decreases n - i,
        {
            let (key, value) = self.group_overrides.entry(i);
            let copy = value.clone();
            let ghost before = overrides@;
            overrides.insert(key.clone(), copy);
            proof {
                assert(list.take(i + 1).drop_last() =~= list.take(i as int));
                assert(list.take(i + 1).last() == list[i as int]);
                keyed::seen_insert(before, key@, copy);
                keyed::seen_insert(keyed::map_of(list.take(i as int)), key@, *value);
            }
            i += 1;
        }
        proof {
            assert(list.take(n as int) =~= list);
            self.group_overrides.lemma_list();
        }
        PolicyConfig {
            group_allowlist: text::copy_texts(&self.group_allowlist),
            group_blocklist: text::copy_texts(&self.group_blocklist),
            require_mention: self.require_mention,
            respond_to_mention_all: self.respond_to_mention_all,
            dm_mode: self.dm_mode.clone(),
            dm_allowlist: text::copy_texts(&self.dm_allowlist),
            dm_blocklist: text::copy_texts(&self.dm_blocklist),
            group_overrides: overrides,
            allow_from: text::copy_texts(&self.allow_from),
            deny_from: text::copy_texts(&self.deny_from),
            admins: text::copy_texts(&self.admins),
        }
    }
}

/// The policy that holds where none was given.
pub open spec fn open_policy() -> PolicyView {
    PolicyView {
        group_allowlist: Seq::empty(),
        group_blocklist: Seq::empty(),
        require_mention: None,
        respond_to_mention_all: None,
        dm_mode: "open"@,
        dm_allowlist: Seq::empty(),
        dm_blocklist: Seq::empty(),
        group_overrides: Map::empty(),
        allow_from: Seq::empty(),
        deny_from: Seq::empty(),
        admins: Seq::empty(),
    }
}

impl PolicyView {
    /// The mode for a conversation between two: open where none is given.
    pub open spec fn mode(self) -> Seq<char> {
        if self.dm_mode.len() == 0 {
            "open"@
        } else {
            self.dm_mode
        }
    }
}

impl PolicyConfig {
    /// The policy without any rule but the default ones, with its mode written
    /// out.
    pub fn default_extended() -> (r: PolicyConfig)
        ensures
            r@ == open_policy(),
    {
        let r = PolicyConfig {
            group_allowlist: Vec::new(),
            group_blocklist: Vec::new(),
            require_mention: None,
            respond_to_mention_all: None,
            dm_mode: text::owned("open"),
            dm_allowlist: Vec::new(),
            dm_blocklist: Vec::new(),
            group_overrides: KeyedMap::new(),
            allow_from: Vec::new(),
            deny_from: Vec::new(),
            admins: Vec::new(),
        };
        proof {
            assert(text::texts(Seq::<String>::empty()) =~= Seq::empty());
            assert(keyed::seen(r.group_overrides@) =~= Map::empty());
            assert(r@ =~= open_policy());
        }
        r
    }

    pub fn dm_mode(&self) -> (r: &str)
        ensures
            r@ == self@.mode(),
    {
        if self.dm_mode.as_str().is_empty() {
            "open"
        } else {
            self.dm_mode.as_str()
        }
    }
}

/// What a policy says of a message.
#[derive(Debug, Clone, Copy, PartialEq, Eq, Structural)]
pub struct PolicyDecision {
    pub allowed: bool,
    pub reason: RejectReason,
}

impl PolicyDecision {
    pub fn allow() -> (r: PolicyDecision)
        ensures
            r == (PolicyDecision { allowed: true, reason: RejectReason::Admitted }),
    {
        PolicyDecision { allowed: true, reason: RejectReason::Admitted }
    }

    pub fn reject(reason: RejectReason) -> (r: PolicyDecision)
        ensures
            r == (PolicyDecision { allowed: false, reason }),
    {
        PolicyDecision { allowed: false, reason }
    }
}

/// Why a message is not handled.
#[derive(Debug, Clone, Copy, PartialEq, Eq, Structural)]
pub enum RejectReason {
    Admitted,
    GroupNotAllowed,
    GroupBlocked,
    GroupDisabled,
    NoMention,
    MentionAll,
    DmDisabled,
    DmNotAllowed,
    DmBlocked,
    SenderNotAllowed,
    SenderBlocked,
    Stale,
    Duplicate,
    SelfSent,
    LockContention,
    SenderDenied,
}

impl RejectReason {
    /// The word for a reason.
    pub open spec fn word(self) -> Seq<char> {
        match self {
            RejectReason::Admitted => ""@,
            RejectReason::GroupNotAllowed => "group_not_allowed"@,
            RejectReason::GroupBlocked => "group_blocked"@,
            RejectReason::GroupDisabled => "group_disabled"@,
            RejectReason::NoMention => "no_mention"@,
            RejectReason::MentionAll => "mention_all_blocked"@,
            RejectReason::DmDisabled => "dm_disabled"@,
            RejectReason::DmNotAllowed => "dm_not_allowed"@,
            RejectReason::DmBlocked => "dm_blocked"@,
            RejectReason::SenderNotAllowed => "sender_not_allowed"@,
            RejectReason::SenderBlocked => "sender_blocked"@,
            RejectReason::Stale => "stale"@,
            RejectReason::Duplicate => "duplicate"@,
            RejectReason::SelfSent => "self_sent"@,
            RejectReason::LockContention => "lock_contention"@,
            RejectReason::SenderDenied => "sender_denied"@,
        }
    }

    pub fn as_str(&self) -> (r: &'static str)
        ensures
            r@ == self.word(),
    {
        match self {
            RejectReason::Admitted => "",
            RejectReason::GroupNotAllowed => "group_not_allowed",
            RejectReason::GroupBlocked => "group_blocked",
            RejectReason::GroupDisabled => "group_disabled",
            RejectReason::NoMention => "no_mention",
            RejectReason::MentionAll => "mention_all_blocked",
            RejectReason::DmDisabled => "dm_disabled",
            RejectReason::DmNotAllowed => "dm_not_allowed",
            RejectReason::DmBlocked => "dm_blocked",
            RejectReason::SenderNotAllowed => "sender_not_allowed",
            RejectReason::SenderBlocked => "sender_blocked",
            RejectReason::Stale => "stale",
            RejectReason::Duplicate => "duplicate",
            RejectReason::SelfSent => "self_sent",
            RejectReason::LockContention => "lock_contention",
            RejectReason::SenderDenied => "sender_denied",
        }
    }
}

/// A message that was not handled.
#[derive(Debug)]
pub struct RejectEvent {
    pub message_id: String,
    pub chat_id: String,
    pub sender_id: String,
    pub reason: RejectReason,
}

pub struct RejectEventView {
    pub message_id: Seq<char>,
    pub chat_id: Seq<char>,
    pub sender_id: Seq<char>,
    pub reason: RejectReason,
}

impl View for RejectEvent {
    type V = RejectEventView;

    open spec fn view(&self) -> RejectEventView {
        RejectEventView {
            message_id: self.message_id@,
            chat_id: self.chat_id@,
            sender_id: self.sender_id@,
            reason: self.reason,
        }
    }
}

impl Clone for RejectEvent {
    fn clone(&self) -> (r: RejectEvent)
        ensures
            r@ == self@,
    {
        RejectEvent {
            message_id: self.message_id.clone(),
            chat_id: self.chat_id.clone(),
            sender_id: self.sender_id.clone(),
            reason: self.reason,
        }
    }
}

/// How texts that follow each other closely are put together.
#[derive(Debug, Clone, Copy, PartialEq, Eq, Structural)]
pub struct BatchConfig {
    /// How long to wait for another text.
    pub delay_ms: u64,
    /// From how many characters on a text is long.
    pub long_threshold_chars: usize,
    /// How long to wait for another text behind a long one.
    pub long_delay_ms: u64,
    /// The largest number of texts.
    pub max_messages: usize,
    /// The largest number of characters.
    pub max_chars: usize,
}

impl Default for BatchConfig {
    fn default() -> (r: BatchConfig)
        ensures
            r == (BatchConfig {
                delay_ms: 600,
                long_threshold_chars: 1000,
                long_delay_ms: 2000,
                max_messages: 8,
                max_chars: 4000,
            }),
    {
        BatchConfig {
            delay_ms: 600,
            long_threshold_chars: 1000,
            long_delay_ms: 2000,
            max_messages: 8,
            max_chars: 4000,
        }
    }
}

/// Several messages as one.
#[derive(Debug)]
pub struct BatchedMessage {
    /// The last message with the texts of all.
    pub message: Arc<IncomingMessage>,
    /// The keys of the messages.
    pub source_ids: Vec<String>,
}

pub struct BatchedView {
    pub message: MessageView,
    pub source_ids: Seq<Seq<char>>,
}

impl View for BatchedMessage {
    type V = BatchedView;

    open spec fn view(&self) -> BatchedView {
        BatchedView { message: self.message@, source_ids: text::texts(self.source_ids@) }
    }
}

impl Clone for BatchedMessage {
    fn clone(&self) -> (r: BatchedMessage)
        ensures
            r@ == self@,
            r.message == self.message,
    {
        BatchedMessage {
            message: share(&self.message),
            source_ids: text::copy_texts(&self.source_ids),
        }
    }
}

/// Whether the messages of a conversation are handled one behind the other.
#[derive(Debug, Clone, Copy, PartialEq, Eq, Structural)]
pub struct ChatQueueConfig {
    /// Where this is false, the answers of two messages may mix.
    pub enabled: bool,
}

impl Default for ChatQueueConfig {
    fn default() -> (r: ChatQueueConfig)
        ensures
            r == (ChatQueueConfig { enabled: true }),
    {
        ChatQueueConfig { enabled: true }
    }
}

/// How media messages that follow each other closely are put together.
#[derive(Debug, Clone, Copy, PartialEq, Eq, Structural)]
pub struct MediaBatchConfig {
    pub enabled: bool,
    /// How long to wait for another message.
    pub delay_ms: u64,
    /// The largest number of messages.
    pub max_items: usize,
}

impl Default for MediaBatchConfig {
    fn default() -> (r: MediaBatchConfig)
        ensures
            r == (MediaBatchConfig { enabled: false, delay_ms: 800, max_items: 9 }),
    {
        MediaBatchConfig { enabled: false, delay_ms: 800, max_items: 9 }
    }
}

/// How often and after which time a message is sent again.
#[derive(Debug, Clone, Copy, PartialEq, Eq, Structural)]
pub struct RetryConfig {
    pub max_attempts: usize,
    pub base_delay_ms: u64,
}

impl Default for RetryConfig {
    fn default() -> (r: RetryConfig)
        ensures
            r == (RetryConfig { max_attempts: 3, base_delay_ms: 500 }),
    {
        RetryConfig { max_attempts: 3, base_delay_ms: 500 }
    }
}

/// What holds for every message that is sent.
#[derive(Debug)]
pub struct OutboundConfig {
    pub retry: RetryConfig,
    /// Stands below every text.
    pub footer: String,
}

impl Default for OutboundConfig {
    fn default() -> (r: OutboundConfig)
        ensures
            r.retry == (RetryConfig { max_attempts: 3, base_delay_ms: 500 }),
            r.footer@ == Seq::<char>::empty(),
    {
        OutboundConfig { retry: RetryConfig::default(), footer: String::new() }
    }
}

impl Clone for OutboundConfig {
    fn clone(&self) -> (r: OutboundConfig)
        ensures
            r.retry == self.retry,
            r.footer@ == self.footer@,
    {
        OutboundConfig { retry: self.retry, footer: self.footer.clone() }
    }
}

/// Who the robot is.
#[derive(Debug, Default)]
pub struct BotIdentity {
    pub robot_code: String,
    pub robot_name: String,
    pub avatar: String,
}

pub struct BotIdentityView {
    pub robot_code: Seq<char>,
    pub robot_name: Seq<char>,
    pub avatar: Seq<char>,
}

impl View for BotIdentity {
    type V = BotIdentityView;

    open spec fn view(&self) -> BotIdentityView {
        BotIdentityView {
            robot_code: self.robot_code@,
            robot_name: self.robot_name@,
            avatar: self.avatar@,
        }
    }
}

impl Clone for BotIdentity {
    fn clone(&self) -> (r: BotIdentity)
        ensures
            r@ == self@,
    {
        BotIdentity {
            robot_code: self.robot_code.clone(),
            robot_name: self.robot_name.clone(),
            avatar: self.avatar.clone(),
        }
    }
}

/// How long and how many messages are remembered.
#[derive(Debug, Clone, Copy, PartialEq, Eq, Structural)]
pub struct DedupConfig {
    pub ttl: Duration,
    pub max_entries: usize,
    pub sweep_interval: Duration,
}

impl Default for DedupConfig {
    fn default() -> (r: DedupConfig)
        ensures
            r == (DedupConfig {
                ttl: Duration { nanos: 43_200_000_000_000 },
                max_entries: 5000,
                sweep_interval: Duration { nanos: 300_000_000_000 },
            }),
    {
        DedupConfig {
            ttl: Duration::from_secs(12 * 3600),
            max_entries: 5000,
            sweep_interval: Duration::from_secs(5 * 60),
        }
    }
}

/// What a message has to pass before it is handled.
#[derive(Debug)]
pub struct SafetyConfig {
    pub dedup: DedupConfig,
    pub policy: PolicyConfig,
    pub text_batch: BatchConfig,
    pub media_batch: MediaBatchConfig,
    pub chat_queue: ChatQueueConfig,
    /// How old a message may be.
    pub stale_window: Duration,
    /// For how long a message is locked while it is handled.
    pub lock_ttl: Duration,
    /// Drop what the robot itself wrote.
    pub drop_self_sent: bool,
    /// Remember a message only once it was handled without an error, so that
    /// one that was not can come again; else it is remembered when it comes in.
    pub mark_after_handler: bool,
}

/// Two sets of safety rules that say the same.
pub open spec fn same_safety(a: SafetyConfig, b: SafetyConfig) -> bool {
    &&& a.dedup == b.dedup
    &&& a.policy@ == b.policy@
    &&& a.text_batch == b.text_batch
    &&& a.media_batch == b.media_batch
    &&& a.chat_queue == b.chat_queue
    &&& a.stale_window == b.stale_window
    &&& a.lock_ttl == b.lock_ttl
    &&& a.drop_self_sent == b.drop_self_sent
    &&& a.mark_after_handler == b.mark_after_handler
}

impl Clone for SafetyConfig {
    fn clone(&self) -> (r: SafetyConfig)
        ensures
            same_safety(r, *self),
    {
        SafetyConfig {
            dedup: self.dedup,
            policy: self.policy.clone(),
            text_batch: self.text_batch,
            media_batch: self.media_batch,
            chat_queue: self.chat_queue,
            stale_window: self.stale_window,
            lock_ttl: self.lock_ttl,
            drop_self_sent: self.drop_self_sent,
            mark_after_handler: self.mark_after_handler,
        }
    }
}

/// The safety rules that hold where none were given.
pub open spec fn default_safety(r: SafetyConfig) -> bool {
    &&& r.dedup == (DedupConfig {
        ttl: Duration { nanos: 43_200_000_000_000 },
        max_entries: 5000,
        sweep_interval: Duration { nanos: 300_000_000_000 },
    })
    &&& r.policy@ == open_policy()
    &&& r.text_batch == (BatchConfig {
        delay_ms: 600,
        long_threshold_chars: 1000,
        long_delay_ms: 2000,
        max_messages: 8,
        max_chars: 4000,
    })
    &&& r.media_batch == (MediaBatchConfig { enabled: false, delay_ms: 800, max_items: 9 })
    &&& r.chat_queue == (ChatQueueConfig { enabled: true })
    &&& r.stale_window == (Duration { nanos: 1_800_000_000_000 })
    &&& r.lock_ttl == (Duration { nanos: 300_000_000_000 })
    &&& r.drop_self_sent
    &&& !r.mark_after_handler
}

impl Default for SafetyConfig {
    fn default() -> (r: SafetyConfig)
        ensures
            default_safety(r),
    {
        SafetyConfig {
            dedup: DedupConfig::default(),
            policy: PolicyConfig::default_extended(),
            text_batch: BatchConfig::default(),
            media_batch: MediaBatchConfig::default(),
            chat_queue: ChatQueueConfig::default(),
            stale_window: Duration::from_secs(30 * 60),
            lock_ttl: Duration::from_secs(5 * 60),
            drop_self_sent: true,
            mark_after_handler: false,
        }
    }
}

/// The rules that hold where none were given, in numbers.
pub proof fn defaults_of_the_safety_rules(r: SafetyConfig)
    requires
        default_safety(r),
    ensures
        r.dedup.ttl.nanos == 12 * 3600 * 1_000_000_000,
        r.dedup.max_entries == 5000,
        r.dedup.sweep_interval.nanos == 300 * 1_000_000_000,
        r.text_batch.delay_ms == 600,
        r.text_batch.long_threshold_chars == 1000,
        r.text_batch.long_delay_ms == 2000,
        r.text_batch.max_messages == 8,
        r.text_batch.max_chars == 4000,
        !r.media_batch.enabled,
        r.media_batch.delay_ms == 800,
        r.media_batch.max_items == 9,
        r.chat_queue.enabled,
        r.stale_window.nanos == 1800 * 1_000_000_000,
        r.lock_ttl.nanos == 300 * 1_000_000_000,
        r.drop_self_sent,
        !r.mark_after_handler,
        r.policy@.mode() == "open"@,
        r.policy@.admins.len() == 0,
        r.policy@.group_allowlist.len() == 0,
        r.policy@.group_blocklist.len() == 0,
        r.policy@.dm_blocklist.len() == 0,
        r.policy@.deny_from.len() == 0,
{
    reveal_strlit("open");
}

/// The words for the reasons; a message that is admitted has none.
pub proof fn reasons_have_their_words()
    ensures
        RejectReason::GroupNotAllowed.word() == "group_not_allowed"@,
        RejectReason::GroupBlocked.word() == "group_blocked"@,
        RejectReason::GroupDisabled.word() == "group_disabled"@,
        RejectReason::NoMention.word() == "no_mention"@,
        RejectReason::MentionAll.word() == "mention_all_blocked"@,
        RejectReason::DmDisabled.word() == "dm_disabled"@,
        RejectReason::DmNotAllowed.word() == "dm_not_allowed"@,
        RejectReason::DmBlocked.word() == "dm_blocked"@,
        RejectReason::SenderNotAllowed.word() == "sender_not_allowed"@,
        RejectReason::SenderBlocked.word() == "sender_blocked"@,
        RejectReason::Stale.word() == "stale"@,
        RejectReason::Duplicate.word() == "duplicate"@,
        RejectReason::SelfSent.word() == "self_sent"@,
        RejectReason::LockContention.word() == "lock_contention"@,
        RejectReason::SenderDenied.word() == "sender_denied"@,
        RejectReason::Admitted.word().len() == 0,
{
    reveal_strlit("");
}

/// A session ends behind its end, and never where it has none.
pub proof fn session_ends_behind_its_end(end: i64, now: i64)
    ensures
        end > 0 ==> (past_end(end, now) <==> now > end),
        end <= 0 ==> !past_end(end, now),
{
}

/// A copy of the safety rules holds the same rules.
pub proof fn copied_safety_rules_are_the_same(a: SafetyConfig, b: SafetyConfig)
    requires
        same_safety(a, b),
    ensures
        a.dedup == b.dedup,
        a.policy@ == b.policy@,
        a.text_batch == b.text_batch,
        a.media_batch == b.media_batch,
        a.chat_queue == b.chat_queue,
        a.stale_window == b.stale_window,
        a.lock_ttl == b.lock_ttl,
        a.drop_self_sent == b.drop_self_sent,
        a.mark_after_handler == b.mark_after_handler,
{
}

/// Where no mode is given, a conversation between two is open.
pub proof fn conversations_are_open_by_default(p: PolicyView)
    ensures
        p.dm_mode.len() == 0 ==> p.mode() == "open"@,
        p.dm_mode.len() > 0 ==> p.mode() == p.dm_mode,
{
}

} // verus!
