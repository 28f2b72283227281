//! Who the robot is.

use crate::error::{Error, ErrorView};
use crate::json;
use crate::json::{Json, JsonView};
use crate::record;
use crate::record::{is_record, read_text};
use crate::text;
use crate::time;
use crate::time::Duration;
use crate::types::{BotIdentity, BotIdentityView};
use vstd::prelude::*;

verus! {

/// What is known of the robot, when it was found out, and when that failed
/// last.
#[derive(Debug)]
pub struct BotIdentityCache {
    identity: Option<BotIdentity>,
    fetched_at: Option<Duration>,
    last_failure_at: Option<Duration>,
}

pub struct IdentityCacheView {
    pub identity: Option<BotIdentityView>,
    pub fetched_at: Option<Duration>,
    pub last_failure_at: Option<Duration>,
}

/// For half an hour what is known holds.
pub open spec fn fresh(c: IdentityCacheView, now: Duration) -> bool {
    c.identity is Some && (c.fetched_at matches Some(at) && time::difference(now, at)
        < 1_800_000_000_000)
}

/// For a minute behind a failure nobody asks again.
pub open spec fn throttled(c: IdentityCacheView, now: Duration) -> bool {
    c.last_failure_at matches Some(at) && time::difference(now, at) < 60_000_000_000
}

/// What is to be done to find out who the robot is.
#[derive(Debug)]
pub enum IdentityStep {
    /// This is what is known.
    Known(Option<BotIdentity>),
    /// The service is to be asked.
    Fetch,
}

impl View for BotIdentityCache {
    type V = IdentityCacheView;

    closed spec fn view(&self) -> IdentityCacheView {
        IdentityCacheView {
            identity: match self.identity {
                Some(i) => Some(i@),
                None => None,
            },
            fetched_at: self.fetched_at,
            last_failure_at: self.last_failure_at,
        }
    }
}

pub open spec fn identity_view(i: Option<BotIdentity>) -> Option<BotIdentityView> {
    match i {
        Some(x) => Some(x@),
        None => None,
    }
}

impl BotIdentityCache {
    pub fn new() -> (r: BotIdentityCache)
        ensures
            r@ == (IdentityCacheView { identity: None, fetched_at: None, last_failure_at: None }),
    {
        BotIdentityCache { identity: None, fetched_at: None, last_failure_at: None }
    }

    fn known(&self) -> (r: Option<BotIdentity>)
        ensures
            identity_view(r) == self@.identity,
    {
        match &self.identity {
            Some(i) => Some(i.clone()),
            None => None,
        }
    }

    /// What is to be done at the given time to find out who the robot is.
    pub fn get_at(&self, now: Duration) -> (r: IdentityStep)
        ensures
            r is Fetch <==> !fresh(self@, now) && !throttled(self@, now),
            r matches IdentityStep::Known(i) ==> identity_view(i) == self@.identity,
    {
        if self.identity.is_some() {
            if let Some(at) = self.fetched_at {
                if now.minus(at).nanos < 1_800_000_000_000 {
                    return IdentityStep::Known(self.known());
                }
            }
        }
        if let Some(at) = self.last_failure_at {
            if now.minus(at).nanos < 60_000_000_000 {
                return IdentityStep::Known(self.known());
            }
        }
        IdentityStep::Fetch
    }

    /// Keeps what the service said at the given time.
    pub fn fetched_at(&mut self, identity: BotIdentity, now: Duration)
        ensures
            final(self)@ == (IdentityCacheView {
                identity: Some(identity@),
                fetched_at: Some(now),
                last_failure_at: None,
            }),
    {
        self.identity = Some(identity);
        self.fetched_at = Some(now);
        self.last_failure_at = None;
    }

    /// Notes that the service could not be asked at the given time. What was
    /// known stays.
    pub fn failed_at(&mut self, now: Duration) -> (r: Option<BotIdentity>)
        ensures
            final(self)@ == (IdentityCacheView { last_failure_at: Some(now), ..old(self)@ }),
            identity_view(r) == old(self)@.identity,
    {
        self.last_failure_at = Some(now);
        self.known()
    }
}

/// Where the service is asked who the robot is.
pub open spec fn robot_address(api_base: Seq<char>) -> Seq<char> {
    api_base + "/v1.0/robot/robotInfo"@
}

/// Where the service is asked who the robot is.
pub fn robot_info_url(api_base: &str) -> (r: String)
    ensures
        r@ == api_base@ + "/v1.0/robot/robotInfo"@,
        r@ == robot_address(api_base@),
{
    text::cat(api_base, "/v1.0/robot/robotInfo")
}

/// The text, or another where it is empty.
pub open spec fn text_or(s: Seq<char>, other: Seq<char>) -> Seq<char> {
    if s.len() == 0 {
        other
    } else {
        s
    }
}

/// Who the robot is in the answer of the service, when its body was read as
/// JSON with the given outcome.
pub open spec fn identity_answer(
    status: u16,
    raw: Seq<char>,
    client_id: Seq<char>,
    read: Result<JsonView, Seq<char>>,
) -> Result<BotIdentityView, ErrorView> {
    if status != 200 {
        Err(
            ErrorView::Channel(
                "robotInfo API failed: status="@ + text::decimal(status as nat) + " body="@ + raw,
            ),
        )
    } else {
        match read {
            Err(e) => Err(ErrorView::Json(e)),
            Ok(v) => match (
                record::text_slot(v, "robot_code"@, 0),
                record::text_slot(v, "robot_name"@, 1),
                record::text_slot(v, "avatar"@, 2),
            ) {
                (Some(code), Some(name), Some(avatar)) => if record::record(v, 3) {
                    Ok(
                        BotIdentityView {
                            robot_code: text_or(code, client_id),
                            robot_name: text_or(name, "Bot"@),
                            avatar,
                        },
                    )
                } else {
                    Err(ErrorView::Json("robot answer of an unexpected type"@))
                },
                _ => Err(ErrorView::Json("robot answer of an unexpected type"@)),
            },
        }
    }
}

pub open spec fn identity_answer_view(r: Result<BotIdentity, Error>) -> Result<
    BotIdentityView,
    ErrorView,
> {
    match r {
        Ok(i) => Ok(i@),
        Err(e) => Err(e@),
    }
}

/// Who the robot is in the answer of the service, when its body was read as
/// JSON with the given outcome.
pub fn read_identity_answer(
    status: u16,
    raw: &str,
    client_id: &str,
    read: Result<Json, String>,
) -> (r: Result<BotIdentity, Error>)
    ensures
        identity_answer_view(r) == identity_answer(
            status,
            raw@,
            client_id@,
            json::outcome(read),
        ),
{
    if status != 200 {
        let mut message = text::owned("robotInfo API failed: status=");
        message.append(text::decimal_text(status as u64).as_str());
        message.append(" body=");
        message.append(raw);
        return Err(Error::channel(message.as_str()));
    }
    let v = match read {
        Err(e) => return Err(Error::Json(e)),
        Ok(v) => v,
    };
    match (read_text(&v, "robot_code", 0), read_text(&v, "robot_name", 1), read_text(
        &v,
        "avatar",
        2,
    )) {
        (Some(code), Some(name), Some(avatar)) => {
            if !is_record(&v, 3) {
                return Err(Error::Json(text::owned("robot answer of an unexpected type")));
            }
            let robot_code = if code.as_str().is_empty() {
                text::owned(client_id)
            } else {
                code
            };
            let robot_name = if name.as_str().is_empty() {
                text::owned("Bot")
            } else {
                name
            };
            Ok(BotIdentity { robot_code, robot_name, avatar })
        },
        _ => Err(Error::Json(text::owned("robot answer of an unexpected type"))),
    }
}

/// Who the robot is in the answer of the service.
pub fn accept_identity_answer(status: u16, raw: &str, client_id: &str) -> (r: Result<
    BotIdentity,
    Error,
>)
    ensures
        identity_answer_view(r) == identity_answer(
            status,
            raw@,
            client_id@,
            json::parsed_json(vstd::utf8::encode_utf8(raw@)),
        ),
{
    read_identity_answer(status, raw, client_id, json::parse(raw.as_bytes()))
}

/// A failure loses nothing that was known, and keeps the service from being
/// asked for a minute.
pub proof fn failure_keeps_what_was_known(c: IdentityCacheView, now: Duration, then: Duration)
    requires
        time::difference(then, now) < 60_000_000_000,
    ensures
        ({
            let after = IdentityCacheView { last_failure_at: Some(now), ..c };
            after.identity == c.identity && throttled(after, then)
        }),
{
}

/// The robot is who the service says, and without a code or a name the client and
/// a plain word.
pub proof fn robot_is_who_the_service_says(
    status: u16,
    raw: Seq<char>,
    client_id: Seq<char>,
    v: JsonView,
    code: Seq<char>,
    name: Seq<char>,
    avatar: Seq<char>,
)
    requires
        v is Object,
        v.get("robot_code"@) == Some(JsonView::Text(code)),
        v.get("robot_name"@) == Some(JsonView::Text(name)),
        v.get("avatar"@) == Some(JsonView::Text(avatar)),
    ensures
        identity_answer(status, raw, client_id, Ok(v)) is Ok <==> status == 200,
        identity_answer(status, raw, client_id, Ok(v)) matches Ok(i) ==> {
            &&& i.robot_code == (if code.len() > 0 {
                code
            } else {
                client_id
            })
            &&& i.robot_name == (if name.len() > 0 {
                name
            } else {
                "Bot"@
            })
            &&& i.avatar == avatar
        },
{
}

/// What is known holds for half an hour, and behind a failure the service is not
/// asked for a minute.
pub proof fn what_is_known_holds_for_its_time(
    c: IdentityCacheView,
    at: Duration,
    now: Duration,
)
    requires
        at.nanos <= now.nanos,
    ensures
        c.identity is Some && c.fetched_at == Some(at) ==> (fresh(c, now) <==> now.nanos - at.nanos
            < 1_800_000_000_000),
        c.identity is None || c.fetched_at is None ==> !fresh(c, now),
        c.last_failure_at == Some(at) ==> (throttled(c, now) <==> now.nanos - at.nanos
            < 60_000_000_000),
        c.last_failure_at is None ==> !throttled(c, now),
{
}

/// An answer with another status is told with its status and its words, and one
/// that cannot be read as what it is.
pub proof fn failed_answer_is_told(
    status: u16,
    raw: Seq<char>,
    client_id: Seq<char>,
    read: Result<JsonView, Seq<char>>,
    e: Seq<char>,
)
    ensures
        status != 200 ==> identity_answer(status, raw, client_id, read) == Err::<
            BotIdentityView,
            ErrorView,
        >(
            ErrorView::Channel(
                "robotInfo API failed: status="@ + text::decimal(status as nat) + " body="@ + raw,
            ),
        ),
        identity_answer(200, raw, client_id, Err(e)) == Err::<BotIdentityView, ErrorView>(
            ErrorView::Json(e),
        ),
{
}

/// The service is asked below its address.
pub proof fn place_of_the_robot(base: Seq<char>)
    ensures
        robot_address(base).take(base.len() as int) == base,
        robot_address(base).skip(base.len() as int) == "/v1.0/robot/robotInfo"@,
{
    assert(robot_address(base).take(base.len() as int) =~= base);
    assert(robot_address(base).skip(base.len() as int) =~= "/v1.0/robot/robotInfo"@);
}

/// The answer of the service can be a list of the code, the name and the picture.
pub proof fn answer_can_be_a_list(
    raw: Seq<char>,
    client_id: Seq<char>,
    code: Seq<char>,
    name: Seq<char>,
    avatar: Seq<char>,
)
    requires
        code.len() > 0,
        name.len() > 0,
    ensures
        identity_answer(
            200,
            raw,
            client_id,
            Ok(
                JsonView::Array(
                    seq![JsonView::Text(code), JsonView::Text(name), JsonView::Text(avatar)],
                ),
            ),
        ) == Ok::<BotIdentityView, ErrorView>(
            BotIdentityView { robot_code: code, robot_name: name, avatar },
        ),
{
}

} // verus!
