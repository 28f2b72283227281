//! Messages that come in as requests to a server of the user.

use crate::error::{Error, ErrorView};
use crate::json;
use crate::normalize;
use crate::normalize::normalize_incoming;
use crate::text;
use crate::time::{now_millis, Duration};
use crate::types::{IncomingMessage, MessageView};
use vstd::prelude::*;

verus! {

/// The HMAC of a message under a key, with SHA-256.
pub uninterp spec fn hmac_sha256(key: Seq<u8>, message: Seq<u8>) -> Seq<u8>;

/// `hmac::Hmac` over `sha2::Sha256`, fed with one message. The result is a
/// function of the key and the message and is 32 bytes long; a key of any
/// length is taken.
#[verifier::external_body]
fn hmac_sha256_of(key: &[u8], message: &[u8]) -> (r: Vec<u8>)
    ensures
        r@ == hmac_sha256(key@, message@),
        r@.len() == 32,
{
    let mut mac = <hmac::Hmac<sha2::Sha256> as hmac::Mac>::new_from_slice(key).expect("any length");
    hmac::Mac::update(&mut mac, message);
    hmac::Mac::finalize(mac).into_bytes().to_vec()
}

/// Bytes in the standard alphabet of Base64, with padding.
pub uninterp spec fn base64_text(data: Seq<u8>) -> Seq<char>;

/// `encode` of the standard engine of `base64`. The result is a function of the
/// bytes: four characters for every three of them. The text has to fit into
/// memory.
#[verifier::external_body]
fn base64_of(data: &[u8]) -> (r: String)
    requires
        data@.len() <= usize::MAX / 8,
    ensures
        r@ == base64_text(data@),
        r@.len() == (data@.len() + 2) / 3 * 4,
{
    base64::Engine::encode(&base64::engine::general_purpose::STANDARD, data)
}

/// The signature of a request with a time.
pub open spec fn wanted_sign(secret: Seq<char>, timestamp: Seq<char>) -> Seq<char> {
    base64_text(
        hmac_sha256(
            vstd::utf8::encode_utf8(secret),
            vstd::utf8::encode_utf8(timestamp.push('\n') + secret),
        ),
    )
}

/// The time of a request in milliseconds: small numbers are seconds.
pub open spec fn request_millis(ts: int) -> int {
    if ts < 100_000_000_000 {
        ts * 1000
    } else {
        ts
    }
}

/// Whether the time of a request is too far from now. A tolerance of zero takes
/// every time.
pub open spec fn outside_window(ts: int, tolerance: Duration, now_ms: int) -> bool {
    let age = now_ms - request_millis(ts);
    &&& tolerance.nanos != 0
    &&& (age > (tolerance.nanos / 1_000_000) as int || -age > (tolerance.nanos
        / 1_000_000) as int)
}

/// A time in a request that fits into 64 bits.
pub open spec fn request_time(timestamp: Seq<char>) -> Option<int> {
    match text::integer(timestamp) {
        Some(n) => if i64::MIN <= n <= i64::MAX {
            Some(n)
        } else {
            None
        },
        None => None,
    }
}

/// Why a request is refused, or that it is not, when its signature should be
/// `want`.
pub open spec fn sign_verdict(
    want: Seq<char>,
    timestamp: Seq<char>,
    sign: Seq<char>,
    tolerance: Duration,
    now_ms: int,
) -> Option<Seq<char>> {
    if sign.len() == 0 || timestamp.len() == 0 {
        Some("http mode: missing timestamp/sign headers"@)
    } else if request_time(timestamp) is None {
        Some("http mode: invalid timestamp header"@)
    } else if outside_window(request_time(timestamp).unwrap(), tolerance, now_ms) {
        Some("http mode: timestamp outside tolerance window"@)
    } else if sign != want {
        Some("http mode: signature mismatch"@)
    } else {
        None
    }
}

/// The outcome that goes with a verdict.
pub open spec fn refused(r: Result<(), Error>, verdict: Option<Seq<char>>) -> bool {
    match verdict {
        Some(message) => r matches Err(e) && e@ == ErrorView::Channel(message),
        None => r is Ok,
    }
}

/// Whether two texts are equal. Texts of one length are compared to their end,
/// wherever they differ.
fn same_throughout(a: &str, b: &str) -> (r: bool)
    ensures
        r == (a@ == b@),
{
    let x = text::chars_of(a);
    let y = text::chars_of(b);
    if x.len() != y.len() {
        return false;
    }
    let mut equal: bool = true;
    let mut i: usize = 0;
    while i < x.len()
        invariant
            x@.len() == y@.len(),
            i <= x.len(),
            equal <==> forall|k: int| 0 <= k < i ==> x@[k] == y@[k],
        decreases x.len() - i,
    {
        let here: bool = x[i] == y[i];
        equal = here && equal;
        i += 1;
    }
    assert(equal <==> x@ =~= y@);
    equal
}

/// Verifies a request whose signature should be `want`.
pub fn verify_wanted_sign(
    want: &str,
    timestamp: &str,
    sign: &str,
    tolerance: Duration,
    now_ms: i64,
) -> (r: Result<(), Error>)
    ensures
        refused(r, sign_verdict(want@, timestamp@, sign@, tolerance, now_ms as int)),
{
    if sign.is_empty() || timestamp.is_empty() {
        return Err(Error::channel("http mode: missing timestamp/sign headers"));
    }
    let ts: i64 = match text::parse_integer(timestamp) {
        Some(n) => n,
        None => return Err(Error::channel("http mode: invalid timestamp header")),
    };
    if !tolerance.is_zero() {
        let ms: i128 = if ts < 100_000_000_000 {
            (ts as i128) * 1000
        } else {
            ts as i128
        };
        let age: i128 = (now_ms as i128) - ms;
        let size: u128 = if age < 0 {
            (0 - age) as u128
        } else {
            age as u128
        };
        if size > tolerance.as_millis() {
            return Err(Error::channel("http mode: timestamp outside tolerance window"));
        }
    }
    if !same_throughout(want, sign) {
        return Err(Error::channel("http mode: signature mismatch"));
    }
    Ok(())
}

/// Verifies the signature of a request at the given time.
pub fn verify_http_sign_at(
    secret: &str,
    timestamp: &str,
    sign: &str,
    tolerance: Duration,
    now_ms: i64,
) -> (r: Result<(), Error>)
    ensures
        refused(
            r,
            sign_verdict(
                wanted_sign(secret@, timestamp@),
                timestamp@,
                sign@,
                tolerance,
                now_ms as int,
            ),
        ),
{
    let mut message = text::owned(timestamp);
    message.push('\n');
    message.append(secret);
    let mac = hmac_sha256_of(secret.as_bytes(), message.as_str().as_bytes());
    let want = base64_of(mac.as_slice());
    verify_wanted_sign(want.as_str(), timestamp, sign, tolerance, now_ms)
}

/// Verifies the signature of a request. What the clock says decides with the
/// rest, unless the tolerance is zero.
pub fn verify_http_sign(secret: &str, timestamp: &str, sign: &str, tolerance: Duration) -> (r:
    Result<(), Error>)
    ensures
        exists|now_ms: int|
            refused(
                r,
                #[trigger] sign_verdict(
                    wanted_sign(secret@, timestamp@),
                    timestamp@,
                    sign@,
                    tolerance,
                    now_ms,
                ),
            ),
        tolerance.nanos == 0 ==> refused(
            r,
            sign_verdict(wanted_sign(secret@, timestamp@), timestamp@, sign@, tolerance, 0),
        ),
{
    verify_http_sign_at(secret, timestamp, sign, tolerance, now_millis())
}

/// What comes of a request with a body that was read as JSON with the given
/// outcome.
pub open spec fn callback_outcome(
    has_handler: bool,
    verdict: Option<Seq<char>>,
    read: Result<json::JsonView, Seq<char>>,
) -> Result<MessageView, ErrorView> {
    if !has_handler {
        Err(ErrorView::Channel("OnMessage handler not registered"@))
    } else {
        match verdict {
            Some(message) => Err(ErrorView::Channel(message)),
            None => match normalize::incoming(read) {
                Ok(m) => Ok(m),
                Err(e) => Err(
                    ErrorView::Channel("http mode: bad bot message payload: "@ + e.words()),
                ),
            },
        }
    }
}

/// The message in a request, once a handler is there and the signature is
/// right. Its delivery is known by the key of the message.
pub fn accept_http_callback_at(
    has_handler: bool,
    secret: &str,
    body: &[u8],
    timestamp: &str,
    sign: &str,
    tolerance: Duration,
    now_ms: i64,
) -> (r: Result<IncomingMessage, Error>)
    ensures
        normalize::result_view(r) == callback_outcome(
            has_handler,
            sign_verdict(
                wanted_sign(secret@, timestamp@),
                timestamp@,
                sign@,
                tolerance,
                now_ms as int,
            ),
            json::parsed_json(body@),
        ),
{
    if !has_handler {
        return Err(Error::channel("OnMessage handler not registered"));
    }
    match verify_http_sign_at(secret, timestamp, sign, tolerance, now_ms) {
        Ok(()) => {},
        Err(e) => return Err(e),
    }
    match normalize_incoming(body) {
        Ok(m) => Ok(m),
        Err(e) => {
            let words = e.text();
            let message = text::cat("http mode: bad bot message payload: ", words.as_str());
            Err(Error::channel(message.as_str()))
        },
    }
}

/// A request with the signature that it should have is accepted whenever its
/// time is within the window.
pub proof fn right_signature_is_accepted(
    want: Seq<char>,
    timestamp: Seq<char>,
    tolerance: Duration,
    now_ms: int,
)
    requires
        want.len() > 0,
        request_time(timestamp) is Some,
        !outside_window(request_time(timestamp).unwrap(), tolerance, now_ms),
    ensures
        sign_verdict(want, timestamp, want, tolerance, now_ms) is None,
{
    if timestamp.len() == 0 {
        assert(text::digits_of(timestamp).len() == 0);
    }
}

/// A request is accepted with no signature but its own.
pub proof fn other_signature_is_refused(
    want: Seq<char>,
    timestamp: Seq<char>,
    sign: Seq<char>,
    tolerance: Duration,
    now_ms: int,
)
    requires
        sign != want,
    ensures
        sign_verdict(want, timestamp, sign, tolerance, now_ms) is Some,
{
}

/// A time in seconds and the same time in milliseconds are taken alike.
pub proof fn seconds_and_millis_are_alike(secs: int, tolerance: Duration, now_ms: int)
    requires
        100_000_000 <= secs < 100_000_000_000,
    ensures
        outside_window(secs, tolerance, now_ms) == outside_window(
            secs * 1000,
            tolerance,
            now_ms,
        ),
{
}

/// The signature of a request is made with the secret from its time, a line feed
/// and the secret.
pub proof fn signature_is_made_from_time_and_secret(secret: Seq<char>, timestamp: Seq<char>)
    ensures
        wanted_sign(secret, timestamp) == base64_text(
            hmac_sha256(
                vstd::utf8::encode_utf8(secret),
                vstd::utf8::encode_utf8(timestamp + seq!['\n'] + secret),
            ),
        ),
{
    assert(timestamp.push('\n') + secret =~= timestamp + seq!['\n'] + secret);
}

/// A request with the time `n` in milliseconds, or in seconds where the number is
/// small, is taken exactly where that time is no further from now than the
/// tolerance, or where there is none, and its signature is the right one.
pub proof fn request_is_taken_by_time_and_signature(
    want: Seq<char>,
    n: nat,
    sign: Seq<char>,
    tolerance_ms: nat,
    now_ms: int,
)
    requires
        n <= i64::MAX,
        sign.len() > 0,
        tolerance_ms <= u64::MAX,
    ensures
        ({
            let ms = if n < 100_000_000_000 {
                n * 1000
            } else {
                n
            };
            let near = tolerance_ms == 0 || -tolerance_ms <= now_ms - ms <= tolerance_ms;
            let verdict = sign_verdict(
                want,
                text::decimal(n),
                sign,
                Duration { nanos: (tolerance_ms * 1_000_000) as u128 },
                now_ms,
            );
            &&& verdict is None <==> near && sign == want
            &&& !near ==> verdict == Some("http mode: timestamp outside tolerance window"@)
            &&& near && sign != want ==> verdict == Some("http mode: signature mismatch"@)
        }),
{
    text::written_number_is_read(n);
    assert((tolerance_ms * 1_000_000) / 1_000_000 == tolerance_ms);
}

/// A request without a time or a signature is refused for that.
pub proof fn unsigned_request_is_refused(
    want: Seq<char>,
    given: Seq<char>,
    tolerance: Duration,
    now_ms: int,
)
    ensures
        sign_verdict(want, given, Seq::empty(), tolerance, now_ms) == Some(
            "http mode: missing timestamp/sign headers"@,
        ),
        sign_verdict(want, Seq::empty(), given, tolerance, now_ms) == Some(
            "http mode: missing timestamp/sign headers"@,
        ),
{
}

/// A callback is taken where somebody handles it, it is signed and its body is a
/// message; else it is refused, for the first of these that does not hold.
pub proof fn callback_is_taken_in_order(
    verdict: Seq<char>,
    read: Result<json::JsonView, Seq<char>>,
)
    ensures
        callback_outcome(false, None, read) == Err::<MessageView, ErrorView>(
            ErrorView::Channel("OnMessage handler not registered"@),
        ),
        callback_outcome(true, Some(verdict), read) == Err::<MessageView, ErrorView>(
            ErrorView::Channel(verdict),
        ),
        normalize::incoming(read) is Ok ==> callback_outcome(true, None, read)
            == normalize::incoming(read),
        normalize::incoming(read) is Err ==> callback_outcome(true, None, read) is Err,
{
}

} // verus!
