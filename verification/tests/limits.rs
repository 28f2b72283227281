use dingtalk_channel::outbound::retry::{RetryOptions, RetryStep};
use dingtalk_channel::ratelimit::{Grant, TokenBucket};
use dingtalk_channel::time::Duration;
use dingtalk_channel::{ApiError, Error};

fn ms(n: u64) -> Duration {
    Duration::from_millis(n)
}

#[test]
fn bucket_gives_a_second_of_tokens_and_then_the_rate() {
    let mut b = TokenBucket::new_at(2_000, ms(0));
    assert_eq!(b.poll_at(ms(0)), Grant::Acquired);
    assert_eq!(b.poll_at(ms(0)), Grant::Acquired);
    assert_eq!(b.poll_at(ms(0)), Grant::Wait(ms(500)));
    assert_eq!(b.poll_at(ms(499)), Grant::Wait(ms(1)));
    assert_eq!(b.poll_at(ms(500)), Grant::Acquired);
    assert_eq!(b.poll_at(ms(500)), Grant::Wait(ms(500)));
    // The bucket holds no more than a second of tokens.
    assert_eq!(b.poll_at(ms(100_000)), Grant::Acquired);
    assert_eq!(b.poll_at(ms(100_000)), Grant::Acquired);
    assert_eq!(b.poll_at(ms(100_000)), Grant::Wait(ms(500)));
}

#[test]
fn pause_empties_the_bucket() {
    let mut b = TokenBucket::new_at(20_000, ms(0));
    b.trigger_backoff_at(ms(100));
    assert_eq!(b.poll_at(ms(100)), Grant::Wait(ms(2000)));
    assert_eq!(b.poll_at(ms(2099)), Grant::Wait(ms(1)));
    assert_eq!(b.poll_at(ms(2100)), Grant::Wait(ms(50)));
    assert_eq!(b.poll_at(ms(2150)), Grant::Acquired);
}

#[test]
fn bucket_goes_by_its_clock() {
    let mut b = TokenBucket::new(1_000);
    let now = b.now();
    assert_eq!(b.poll_at(now), Grant::Acquired);
    b.trigger_backoff();
    let now = b.now();
    assert!(matches!(b.poll_at(now), Grant::Wait(_)));
}

#[test]
fn waits_grow_by_three() {
    let o = RetryOptions::default();
    let waits: Vec<u128> = (1..5).map(|n| o.delay(n).as_millis()).collect();
    assert_eq!(waits, vec![500, 1500, 4500, 13500]);
    let zero = RetryOptions {
        max_attempts: 0,
        base_delay: ms(0),
    };
    assert_eq!(zero.max(), 3);
    assert_eq!(zero.delay(1).as_millis(), 500);
    assert_eq!(o.delay(1_000).nanos, u128::MAX);
}

#[test]
fn hopeless_errors_are_not_tried_again() {
    let o = RetryOptions::default();
    let api = |status: u16| {
        Error::Api(ApiError {
            status,
            code: String::new(),
            msg: String::new(),
            body: String::new(),
        })
    };
    assert!(matches!(o.after_failure(1, &api(400)), RetryStep::GiveUp(_)));
    assert!(matches!(o.after_failure(1, &api(404)), RetryStep::GiveUp(_)));
    match o.after_failure(1, &api(500)) {
        RetryStep::Again(d) => assert_eq!(d.as_millis(), 500),
        _ => panic!("should be tried again"),
    }
    match o.after_failure(2, &api(429)) {
        RetryStep::Again(d) => assert_eq!(d.as_millis(), 1500),
        _ => panic!("should be tried again"),
    }
    match o.after_failure(3, &api(500)) {
        RetryStep::GiveUp(e) => assert!(e.text().starts_with("ChannelError(code=unknown): ")),
        _ => panic!("should be given up"),
    }
}
