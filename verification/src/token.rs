//! The token that the service is asked with.

use crate::error::{Error, ErrorView};
use crate::json;
use crate::json::{Json, JsonView};
use crate::record;
use crate::record::{is_record, read_integer, read_text};
use crate::text;
use crate::time;
use crate::time::Duration;
use vstd::prelude::*;

verus! {

/// A token and the end of its time.
#[derive(Debug)]
pub struct TokenCache {
    token: String,
    expires_at: Option<Duration>,
}

pub struct CacheView {
    pub token: Seq<char>,
    pub expires_at: Option<Duration>,
}

/// Whether a token is used at some time: up to a minute before its end.
pub open spec fn usable(c: CacheView, now: Duration) -> bool {
    c.token.len() > 0 && (c.expires_at matches Some(end) && time::sum(
        now,
        Duration { nanos: 60_000_000_000 },
    ) < end.nanos)
}

/// For how many seconds a token is good: two hours where the service does not
/// say.
pub open spec fn lifetime_secs(given: i64) -> nat {
    if given <= 0 {
        7200
    } else {
        given as nat
    }
}

/// The cache with a token that came at some time.
pub open spec fn stored(token: Seq<char>, lifetime: i64, now: Duration) -> CacheView {
    CacheView {
        token,
        expires_at: Some(
            Duration {
                nanos: time::sum(
                    now,
                    Duration { nanos: (lifetime_secs(lifetime) * 1_000_000_000) as u128 },
                ) as u128,
            },
        ),
    }
}

impl View for TokenCache {
    type V = CacheView;

    closed spec fn view(&self) -> CacheView {
        CacheView { token: self.token@, expires_at: self.expires_at }
    }
}

impl TokenCache {
    pub fn new() -> (r: TokenCache)
        ensures
            r@ == (CacheView { token: Seq::empty(), expires_at: None }),
    {
        TokenCache { token: String::new(), expires_at: None }
    }

    /// The token, where it can be used at the given time.
    pub fn get_at(&self, now: Duration) -> (r: Option<String>)
        ensures
            r is Some <==> usable(self@, now),
            r matches Some(t) ==> t@ == self@.token,
    {
        match self.expires_at {
            Some(end) => {
                if !self.token.as_str().is_empty() && now.plus(
                    Duration::from_secs(60),
                ).nanos < end.nanos {
                    Some(self.token.clone())
                } else {
                    None
                }
            },
            None => None,
        }
    }

    /// Keeps a token that came at the given time.
    pub fn store_at(&mut self, token: &str, lifetime: i64, now: Duration)
        ensures
            final(self)@ == stored(token@, lifetime, now),
    {
        let secs: u64 = if lifetime <= 0 {
            7200
        } else {
            lifetime as u64
        };
        self.token = text::owned(token);
        self.expires_at = Some(now.plus(Duration::from_secs(secs)));
    }
}

/// A stored token is used until a minute before its end, and then asked for
/// again.
pub proof fn stored_token_is_used_until_a_minute_before_its_end(
    token: Seq<char>,
    lifetime: i64,
    now: Duration,
    then: Duration,
)
    requires
        token.len() > 0,
    ensures
        usable(stored(token, lifetime, now), then) <==> time::sum(
            then,
            Duration { nanos: 60_000_000_000 },
        ) < time::sum(
            now,
            Duration { nanos: (lifetime_secs(lifetime) * 1_000_000_000) as u128 },
        ),
{
}

/// What is asked for a token with.
pub open spec fn token_question(client_id: Seq<char>, client_secret: Seq<char>) -> JsonView {
    JsonView::object().with_text("appKey"@, client_id).with_text("appSecret"@, client_secret)
}

/// What is asked for a token with.
pub fn token_request(client_id: &str, client_secret: &str) -> (r: Json)
    ensures
        r@ == JsonView::object().with_text("appKey"@, client_id@).with_text(
            "appSecret"@,
            client_secret@,
        ),
        r@ == token_question(client_id@, client_secret@),
{
    Json::object().with_text("appKey", client_id).with_text("appSecret", client_secret)
}

/// Where a token is asked for.
pub open spec fn token_address(api_base: Seq<char>) -> Seq<char> {
    api_base + "/v1.0/oauth2/accessToken"@
}

/// Where a token is asked for.
pub fn token_url(api_base: &str) -> (r: String)
    ensures
        r@ == api_base@ + "/v1.0/oauth2/accessToken"@,
        r@ == token_address(api_base@),
{
    text::cat(api_base, "/v1.0/oauth2/accessToken")
}

/// The token and its lifetime in the answer of the service, when its body was
/// read as JSON with the given outcome.
pub open spec fn token_answer(
    status: u16,
    raw: Seq<char>,
    read: Result<JsonView, Seq<char>>,
) -> Result<(Seq<char>, i64), ErrorView> {
    if status != 200 {
        Err(
            ErrorView::Channel(
                "accessToken: http "@ + text::decimal(status as nat) + ": "@ + raw,
            ),
        )
    } else {
        match read {
            Err(e) => Err(ErrorView::Json(e)),
            Ok(v) => match (
                record::text_slot(v, "accessToken"@, 0),
                record::integer_slot(v, "expireIn"@, 1),
            ) {
                (Some(token), Some(lifetime)) => if !record::record(v, 2) {
                    Err(ErrorView::Json("token answer of an unexpected type"@))
                } else if token.len() == 0 {
                    Err(
                        ErrorView::Channel("accessToken: empty token in response: "@ + raw),
                    )
                } else {
                    Ok((token, lifetime))
                },
                _ => Err(ErrorView::Json("token answer of an unexpected type"@)),
            },
        }
    }
}

pub open spec fn token_answer_view(r: Result<(String, i64), Error>) -> Result<
    (Seq<char>, i64),
    ErrorView,
> {
    match r {
        Ok((token, lifetime)) => Ok((token@, lifetime)),
        Err(e) => Err(e@),
    }
}

/// The token and its lifetime in the answer of the service, when its body was
/// read as JSON with the given outcome.
pub fn read_token_answer(status: u16, raw: &str, read: Result<Json, String>) -> (r: Result<
    (String, i64),
    Error,
>)
    ensures
        token_answer_view(r) == token_answer(status, raw@, json::outcome(read)),
{
    if status != 200 {
        let mut message = text::owned("accessToken: http ");
        message.append(text::decimal_text(status as u64).as_str());
        message.append(": ");
        message.append(raw);
        return Err(Error::channel(message.as_str()));
    }
    let v = match read {
        Err(e) => return Err(Error::Json(e)),
        Ok(v) => v,
    };
    match (read_text(&v, "accessToken", 0), read_integer(&v, "expireIn", 1)) {
        (Some(token), Some(lifetime)) => {
            if !is_record(&v, 2) {
                Err(Error::Json(text::owned("token answer of an unexpected type")))
            } else if token.as_str().is_empty() {
                let message = text::cat("accessToken: empty token in response: ", raw);
                Err(Error::channel(message.as_str()))
            } else {
                Ok((token, lifetime))
            }
        },
        _ => Err(Error::Json(text::owned("token answer of an unexpected type"))),
    }
}

/// The token and its lifetime in the answer of the service.
pub fn accept_token_answer(status: u16, raw: &str) -> (r: Result<(String, i64), Error>)
    ensures
        token_answer_view(r) == token_answer(
            status,
            raw@,
            json::parsed_json(vstd::utf8::encode_utf8(raw@)),
        ),
{
    read_token_answer(status, raw, json::parse(raw.as_bytes()))
}

/// A token is used while more than a minute of its time is left: the time that the
/// service gives it, or two hours where it gives none.
pub proof fn token_is_used_for_its_time(
    token: Seq<char>,
    lifetime: i64,
    now: Duration,
    then: Duration,
)
    requires
        token.len() > 0,
        now.nanos <= u64::MAX,
        then.nanos <= u64::MAX,
    ensures
        lifetime > 0 ==> (usable(stored(token, lifetime, now), then) <==> then.nanos
            + 60_000_000_000 < now.nanos + lifetime * 1_000_000_000),
        lifetime <= 0 ==> (usable(stored(token, lifetime, now), then) <==> then.nanos
            + 60_000_000_000 < now.nanos + 7_200_000_000_000),
        stored(token, lifetime, now).token == token,
{
}

/// No token is used before one came.
pub proof fn no_token_is_used_before_one_came(now: Duration)
    ensures
        !usable(CacheView { token: Seq::empty(), expires_at: None }, now),
{
}

/// A token is taken from a good answer that holds one, with the time it is given.
pub proof fn token_is_taken_from_a_good_answer(
    status: u16,
    raw: Seq<char>,
    v: JsonView,
    token: Seq<char>,
    lifetime: i64,
)
    requires
        v is Object,
        v.get("accessToken"@) == Some(JsonView::Text(token)),
        v.get("expireIn"@) == Some(JsonView::Integer(lifetime)),
    ensures
        token_answer(status, raw, Ok(v)) is Ok <==> status == 200 && token.len() > 0,
        token_answer(status, raw, Ok(v)) matches Ok(t) ==> t == (token, lifetime),
{
}

/// An answer with another status is told with its status and its words, one without
/// a token with its words, and one that cannot be read as what it is.
pub proof fn failed_answer_is_told(
    status: u16,
    raw: Seq<char>,
    read: Result<JsonView, Seq<char>>,
    e: Seq<char>,
    v: JsonView,
)
    requires
        v is Object,
        v.get("accessToken"@) is None,
        v.get("expireIn"@) is None,
    ensures
        status != 200 ==> token_answer(status, raw, read) == Err::<(Seq<char>, i64), ErrorView>(
            ErrorView::Channel("accessToken: http "@ + text::decimal(status as nat) + ": "@ + raw),
        ),
        token_answer(200, raw, Err(e)) == Err::<(Seq<char>, i64), ErrorView>(ErrorView::Json(e)),
        token_answer(200, raw, Ok(v)) == Err::<(Seq<char>, i64), ErrorView>(
            ErrorView::Channel("accessToken: empty token in response: "@ + raw),
        ),
{
}

/// A token is asked for in the name of the client and with its secret.
pub proof fn token_is_asked_for_with_the_secret(id: Seq<char>, secret: Seq<char>)
    ensures
        ({
            let b = token_question(id, secret);
            &&& b.get("appKey"@) == Some(JsonView::Text(id))
            &&& b.get("appSecret"@) == Some(JsonView::Text(secret))
        }),
{
    let b = token_question(id, secret);
    let s = seq![("appKey"@, JsonView::Text(id)), ("appSecret"@, JsonView::Text(secret))];
    reveal_strlit("appKey");
    reveal_strlit("appSecret");
    assert("appKey"@.len() != "appSecret"@.len());
    assert(b->Object_0 =~= s);
    json::member_is_found(s, 0, "appKey"@);
    json::member_is_found(s, 1, "appSecret"@);
}

/// A token is asked for below the address of the service.
pub proof fn place_of_the_token(base: Seq<char>)
    ensures
        token_address(base).take(base.len() as int) == base,
        token_address(base).skip(base.len() as int) == "/v1.0/oauth2/accessToken"@,
{
    assert(token_address(base).take(base.len() as int) =~= base);
    assert(token_address(base).skip(base.len() as int) =~= "/v1.0/oauth2/accessToken"@);
}

/// The answer of the service can be a list of the token and its time.
pub proof fn answer_can_be_a_list(raw: Seq<char>, token: Seq<char>, lifetime: i64)
    requires
        token.len() > 0,
    ensures
        token_answer(
            200,
            raw,
            Ok(JsonView::Array(seq![JsonView::Text(token), JsonView::Integer(lifetime)])),
        ) == Ok::<(Seq<char>, i64), ErrorView>((token, lifetime)),
{
}

} // verus!
