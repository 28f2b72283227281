//! How often the service is asked for cards.

use crate::config::DEFAULT_QPS_BACKOFF_MS;
use crate::time;
use crate::time::{Clock, Duration};
use vstd::prelude::*;

verus! {

/// One token, in the unit that a rate of a thousandth in a second fills in a
/// nanosecond.
pub const TOKEN: u128 = 1_000_000_000_000;

/// What a bucket holds.
pub struct BucketView {
    /// How many tokens come in a second, in thousandths.
    pub rate: nat,
    pub tokens: nat,
    /// Up to when the tokens were counted.
    pub last: nat,
    /// Until when no token is given.
    pub pause: Option<nat>,
}

/// A bucket holds the tokens of one second at most.
pub open spec fn brim(rate: nat) -> nat {
    rate * 1_000_000_000
}

/// The bucket with the tokens that came up to some time.
pub open spec fn refilled(b: BucketView, now: nat) -> BucketView {
    if now > b.last {
        let all = b.tokens + (now - b.last) as nat * b.rate;
        BucketView {
            tokens: if all > brim(b.rate) {
                brim(b.rate)
            } else {
                all
            },
            last: now,
            ..b
        }
    } else {
        b
    }
}

/// How long it takes until there is a whole token, a millisecond at least.
pub open spec fn shortage(b: BucketView) -> nat {
    let nanos = (TOKEN - b.tokens + b.rate - 1) as nat / b.rate;
    if nanos < 1_000_000 {
        1_000_000
    } else {
        nanos
    }
}

/// Whether no token is given at some time.
pub open spec fn paused(b: BucketView, now: nat) -> bool {
    b.pause matches Some(end) && now < end
}

/// Whether a token is given at some time.
pub open spec fn granted(b: BucketView, now: nat) -> bool {
    !paused(b, now) && refilled(b, now).tokens >= TOKEN
}

/// The bucket once a token was asked for.
pub open spec fn asked(b: BucketView, now: nat) -> BucketView {
    if paused(b, now) {
        b
    } else {
        let full = BucketView { pause: None, ..refilled(b, now) };
        if full.tokens >= TOKEN {
            BucketView { tokens: (full.tokens - TOKEN) as nat, ..full }
        } else {
            full
        }
    }
}

/// How long to wait before asking again, where no token is given.
pub open spec fn wait_of(b: BucketView, now: nat) -> nat {
    if paused(b, now) {
        (b.pause.unwrap() - now) as nat
    } else {
        shortage(refilled(b, now))
    }
}

/// The bucket once it was told to pause: it is empty, and no token comes for two
/// seconds.
pub open spec fn backed_off(b: BucketView, now: Duration) -> BucketView {
    let end = time::sum(now, Duration { nanos: 2_000_000_000 });
    BucketView { rate: b.rate, tokens: 0, last: end, pause: Some(end) }
}

/// A bucket of tokens: one is taken for every request.
pub struct TokenBucket {
    rate_milli: u64,
    tokens: u128,
    last_refill: Duration,
    backoff_end: Option<Duration>,
    clock: Clock,
}

/// The answer to a request for a token.
#[derive(Debug, Clone, Copy, PartialEq, Eq, Structural)]
pub enum Grant {
    Acquired,
    /// Ask again after this time.
    Wait(Duration),
}

impl View for TokenBucket {
    type V = BucketView;

    closed spec fn view(&self) -> BucketView {
        BucketView {
            rate: self.rate_milli as nat,
            tokens: self.tokens as nat,
            last: self.last_refill.nanos as nat,
            pause: match self.backoff_end {
                Some(end) => Some(end.nanos as nat),
                None => None,
            },
        }
    }
}

impl TokenBucket {
    /// There are tokens to come, and never more than the bucket holds.
    pub open spec fn wf(&self) -> bool {
        self@.rate > 0 && self@.rate <= u64::MAX && self@.tokens <= brim(self@.rate)
    }

    /// A full bucket that counts from the given time.
    pub fn new_at(rate_milli: u64, now: Duration) -> (r: TokenBucket)
        requires
            rate_milli > 0,
        ensures
            r.wf(),
            r@ == (BucketView {
                rate: rate_milli as nat,
                tokens: brim(rate_milli as nat),
                last: now.nanos as nat,
                pause: None,
            }),
    {
        TokenBucket {
            rate_milli,
            tokens: (rate_milli as u128) * 1_000_000_000,
            last_refill: now,
            backoff_end: None,
            clock: Clock::start(),
        }
    }

    /// A full bucket.
    pub fn new(rate_milli: u64) -> (r: TokenBucket)
        requires
            rate_milli > 0,
        ensures
            r.wf(),
            r@ == (BucketView {
                rate: rate_milli as nat,
                tokens: brim(rate_milli as nat),
                last: 0,
                pause: None,
            }),
    {
        TokenBucket::new_at(rate_milli, Duration { nanos: 0 })
    }

    /// The time that the bucket goes by.
    pub fn now(&self) -> (r: Duration)
        ensures
            r.nanos <= time::LONGEST_NANOS,
    {
        self.clock.now()
    }

    /// Counts the tokens that came up to some time.
    fn refill(&mut self, now: Duration)
        requires
            old(self).wf(),
        ensures
            final(self).wf(),
            final(self)@ == refilled(old(self)@, now.nanos as nat),
    {
        if now.nanos > self.last_refill.nanos {
            let elapsed: u128 = now.nanos - self.last_refill.nanos;
            let rate: u128 = self.rate_milli as u128;
            let most: u128 = rate * 1_000_000_000;
            if elapsed >= 1_000_000_000 {
                assert(elapsed * rate >= 1_000_000_000 * rate) by (nonlinear_arith)
                    requires
                        elapsed >= 1_000_000_000,
                ;
                self.tokens = most;
            } else {
                assert(elapsed * rate <= 1_000_000_000 * rate) by (nonlinear_arith)
                    requires
                        elapsed < 1_000_000_000,
                ;
                let all: u128 = self.tokens + elapsed * rate;
                self.tokens = if all > most {
                    most
                } else {
                    all
                };
            }
            self.last_refill = now;
        }
    }

    /// Asks for a token at the given time.
    pub fn poll_at(&mut self, now: Duration) -> (r: Grant)
        requires
            old(self).wf(),
        ensures
            final(self).wf(),
            final(self)@ == asked(old(self)@, now.nanos as nat),
            (r == Grant::Acquired) == granted(old(self)@, now.nanos as nat),
            r matches Grant::Wait(d) ==> d.nanos == wait_of(old(self)@, now.nanos as nat),
    {
        if let Some(end) = self.backoff_end {
            if now.nanos < end.nanos {
                return Grant::Wait(Duration { nanos: end.nanos - now.nanos });
            }
        }
        self.backoff_end = None;
        self.refill(now);
        if self.tokens >= TOKEN {
            self.tokens = self.tokens - TOKEN;
            return Grant::Acquired;
        }
        let rate: u128 = self.rate_milli as u128;
        let missing: u128 = TOKEN - self.tokens + rate - 1;
        let nanos: u128 = missing / rate;
        if nanos < 1_000_000 {
            Grant::Wait(Duration { nanos: 1_000_000 })
        } else {
            Grant::Wait(Duration { nanos })
        }
    }

    /// Empties the bucket at the given time and gives no token for two seconds.
    pub fn trigger_backoff_at(&mut self, now: Duration)
        requires
            old(self).wf(),
        ensures
            final(self).wf(),
            final(self)@ == backed_off(old(self)@, now),
    {
        let end = now.plus(Duration::from_millis(DEFAULT_QPS_BACKOFF_MS));
        self.backoff_end = Some(end);
        self.tokens = 0;
        self.last_refill = end;
    }

    /// Empties the bucket and gives no token for two seconds.
    pub fn trigger_backoff(&mut self)
        requires
            old(self).wf(),
        ensures
            final(self).wf(),
            exists|now: Duration| final(self)@ == #[trigger] backed_off(old(self)@, now),
    {
        let now = self.clock.now();
        self.trigger_backoff_at(now);
    }
}

// ── laws ──

/// While the bucket pauses, no token is given, and the wait ends with the
/// pause.
pub proof fn pause_grants_nothing(b: BucketView, now: nat)
    requires
        paused(b, now),
    ensures
        !granted(b, now),
        now + wait_of(b, now) == b.pause.unwrap(),
        asked(b, now) == b,
{
}

/// Who waits as long as was said, alone and without a pause, gets a token,
/// where the bucket can hold one.
pub proof fn waiting_is_enough(b: BucketView, now: nat)
    requires
        b.rate > 0,
        b.tokens <= brim(b.rate),
        brim(b.rate) >= TOKEN,
        b.last <= now,
        b.pause is None,
        !granted(b, now),
    ensures
        granted(asked(b, now), now + wait_of(b, now)),
{
    let full = refilled(b, now);
    let wait = wait_of(b, now);
    let after = asked(b, now);
    let missing = (TOKEN - full.tokens) as nat;
    let nanos = (missing + b.rate - 1) as nat / b.rate;
    assert(nanos * b.rate >= missing) by (nonlinear_arith)
        requires
            b.rate > 0,
            nanos == (missing + b.rate - 1) as nat / b.rate,
    ;
    assert(wait * b.rate >= nanos * b.rate) by (nonlinear_arith)
        requires
            wait >= nanos,
    ;
    assert(after.last == now);
    assert((now + wait - after.last) as nat * after.rate == wait * b.rate);
}

/// The bucket once tokens were asked for at several times, and how many were
/// given.
pub open spec fn run(b: BucketView, times: Seq<nat>) -> (BucketView, nat)
    decreases times.len(),
{
    if times.len() == 0 {
        (b, 0)
    } else {
        let (before, n) = run(b, times.drop_last());
        (asked(before, times.last()), if granted(before, times.last()) {
            n + 1
        } else {
            n
        })
    }
}

/// No more tokens are given than there were and came.
pub proof fn rate_is_kept(b: BucketView, times: Seq<nat>)
    ensures
        run(b, times).0.rate == b.rate,
        run(b, times).0.last >= b.last,
        run(b, times).1 * TOKEN + run(b, times).0.tokens <= b.tokens + (run(b, times).0.last
            - b.last) * b.rate,
    decreases times.len(),
{
    if times.len() > 0 {
        rate_is_kept(b, times.drop_last());
        let (before, n) = run(b, times.drop_last());
        let now = times.last();
        let (after, m) = run(b, times);
        if !paused(before, now) {
            let full = refilled(before, now);
            assert((after.last - b.last) * b.rate == (before.last - b.last) * b.rate + (after.last
                - before.last) * b.rate) by (nonlinear_arith);
            assert(full.tokens <= before.tokens + (after.last - before.last) * b.rate);
            assert((n + 1) * TOKEN == n * TOKEN + TOKEN) by (nonlinear_arith);
        }
    } else {
        assert((b.last - b.last) * b.rate == 0) by (nonlinear_arith);
    }
}

/// Tokens come with time, as many as the rate says, and never more than the bucket
/// holds.
pub proof fn tokens_come_with_time(b: BucketView, now: nat)
    requires
        b.last <= now,
        b.tokens <= b.rate * 1_000_000_000,
    ensures
        refilled(b, now).last == now,
        refilled(b, now).tokens == (if b.tokens + (now - b.last) * b.rate > b.rate
            * 1_000_000_000 {
            b.rate * 1_000_000_000
        } else {
            (b.tokens + (now - b.last) * b.rate) as nat
        }),
        refilled(b, now).rate == b.rate,
        refilled(b, now).pause == b.pause,
{
    assert((now - b.last) as nat * b.rate == (now - b.last) * b.rate);
    if now == b.last {
        assert((now - b.last) * b.rate == 0) by (nonlinear_arith)
            requires
                now == b.last,
        ;
    }
}

/// A token is given exactly where there is no pause and a whole one is there, and
/// then there is one less.
pub proof fn token_is_given_where_there_is_one(b: BucketView, now: nat)
    requires
        b.pause is None,
    ensures
        granted(b, now) <==> refilled(b, now).tokens >= 1_000_000_000_000,
        granted(b, now) ==> asked(b, now).tokens == refilled(b, now).tokens - 1_000_000_000_000,
        !granted(b, now) ==> asked(b, now).tokens == refilled(b, now).tokens,
        asked(b, now).rate == b.rate,
{
}

/// A pause empties the bucket and lasts two seconds.
pub proof fn pause_lasts_two_seconds(b: BucketView, now: Duration, then: nat)
    requires
        now.nanos <= u64::MAX,
    ensures
        paused(backed_off(b, now), then) <==> then < now.nanos + 2_000_000_000,
        backed_off(b, now).tokens == 0,
        backed_off(b, now).rate == b.rate,
{
}

/// The wait for a token is as long as the rest of it takes, and no longer, but a
/// millisecond at least.
pub proof fn wait_is_no_longer_than_needed(b: BucketView, now: nat)
    requires
        b.rate > 0,
        b.pause is None,
        !granted(b, now),
    ensures
        ({
            let wait = wait_of(b, now);
            let missing = 1_000_000_000_000 - refilled(b, now).tokens;
            &&& wait >= 1_000_000
            &&& wait * b.rate >= missing
            &&& wait > 1_000_000 ==> (wait - 1) * b.rate < missing
        }),
{
    let full = refilled(b, now);
    let missing = (1_000_000_000_000 - full.tokens) as nat;
    let rate = b.rate as nat;
    assert(full.rate == b.rate);
    let nanos = (missing + rate - 1) as nat / rate;
    assert(nanos * rate >= missing && (nanos - 1) * rate < missing) by (nonlinear_arith)
        requires
            rate > 0,
            missing > 0,
            nanos == (missing + rate - 1) as nat / rate,
    ;
    let wait = wait_of(b, now);
    assert(wait >= nanos);
    assert(wait * rate >= nanos * rate) by (nonlinear_arith)
        requires
            wait >= nanos,
    ;
}

} // verus!
