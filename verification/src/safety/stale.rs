//! Messages that are too old, and messages that are being handled.

use crate::keyed;
use crate::keyed::KeyedMap;
use crate::text;
use crate::time;
use crate::time::{wall_now, Clock, Duration};
use vstd::prelude::*;

verus! {

/// How old a message may be where nothing else is said: half an hour.
pub const DEFAULT_STALE_NANOS: u128 = 1_800_000_000_000;

/// The window, or the default where it is zero.
pub open spec fn window_or_default(window: Duration) -> Duration {
    if window.nanos == 0 {
        Duration { nanos: DEFAULT_STALE_NANOS }
    } else {
        window
    }
}

/// Whether a message that was written at some millisecond since the epoch is
/// older than the window. One of an unknown time is not, nor is one from the
/// future.
pub open spec fn too_old(window: Duration, create_at_ms: int, now: Duration) -> bool {
    create_at_ms > 0 && now.nanos - create_at_ms * 1_000_000 > window.nanos
}

/// Finds the messages that are delivered once more long after they were
/// written.
#[derive(Debug, Clone, Copy, PartialEq, Eq, Structural)]
pub struct StaleDetector {
    window: Duration,
}

impl StaleDetector {
    /// How old a message may be.
    pub closed spec fn window(&self) -> Duration {
        self.window
    }

    pub fn new(window: Duration) -> (r: StaleDetector)
        ensures
            r.window() == window_or_default(window),
    {
        if window.is_zero() {
            StaleDetector { window: Duration { nanos: DEFAULT_STALE_NANOS } }
        } else {
            StaleDetector { window }
        }
    }

    /// Whether a message is too old at the given time since the epoch.
    pub fn is_stale_at(&self, create_at_ms: i64, now: Duration) -> (r: bool)
        ensures
            r == too_old(self.window(), create_at_ms as int, now),
    {
        if create_at_ms <= 0 {
            return false;
        }
        let created: u128 = (create_at_ms as u128) * 1_000_000;
        if now.nanos <= created {
            return false;
        }
        now.nanos - created > self.window.nanos
    }

    /// Whether a message is too old. What the clock says decides; one of an
    /// unknown time never is.
    pub fn is_stale(&self, create_at_ms: i64) -> (r: bool)
        ensures
            create_at_ms <= 0 ==> !r,
            exists|now: Duration| r == #[trigger] too_old(self.window(), create_at_ms as int, now),
    {
        self.is_stale_at(create_at_ms, wall_now())
    }
}

/// A message that is too old stays too old.
pub proof fn staleness_is_lasting(
    window: Duration,
    create_at_ms: int,
    now: Duration,
    later: Duration,
)
    requires
        now.nanos <= later.nanos,
        too_old(window, create_at_ms, now),
    ensures
        too_old(window, create_at_ms, later),
{
}

/// Whether a lock is held at some time.
pub open spec fn held(locks: Map<Seq<char>, Duration>, id: Seq<char>, now: Duration) -> bool {
    locks.contains_key(id) && now.nanos < locks[id].nanos
}

/// The locks that are still held at some time.
pub open spec fn still_held(locks: Map<Seq<char>, Duration>, now: Duration) -> Map<
    Seq<char>,
    Duration,
> {
    Map::new(|id: Seq<char>| held(locks, id, now), |id: Seq<char>| locks[id])
}

/// Locks by a name, each for a short time, so that one message is not handled
/// twice at once.
pub struct ProcessingLock {
    ttl: Duration,
    locks: KeyedMap<Duration>,
    clock: Clock,
}

impl ProcessingLock {
    /// For how long a lock is held.
    pub closed spec fn ttl(&self) -> Duration {
        self.ttl
    }

    /// The locks with the end of their time.
    pub closed spec fn locks(&self) -> Map<Seq<char>, Duration> {
        self.locks@
    }

    pub closed spec fn wf(&self) -> bool {
        self.locks.wf()
    }

    pub fn new(ttl: Duration) -> (r: ProcessingLock)
        ensures
            r.wf(),
            r.ttl() == ttl,
            r.locks() == Map::<Seq<char>, Duration>::empty(),
    {
        ProcessingLock { ttl, locks: KeyedMap::new(), clock: Clock::start() }
    }

    /// Takes a lock at the given time of the clock, unless it is held.
    pub fn acquire_at(&mut self, id: &str, now: Duration) -> (r: bool)
        requires
            old(self).wf(),
        ensures
            final(self).wf(),
            final(self).ttl() == old(self).ttl(),
            r == !held(old(self).locks(), id@, now),
            final(self).locks() == (if r {
                old(self).locks().insert(
                    id@,
                    Duration { nanos: time::sum(now, old(self).ttl()) as u128 },
                )
            } else {
                old(self).locks()
            }),
    {
        if let Some(end) = self.locks.get(id) {
            if now.nanos < end.nanos {
                return false;
            }
        }
        self.locks.insert(text::owned(id), now.plus(self.ttl));
        true
    }

    /// Takes a lock, unless it is held. What the clock says decides where the
    /// lock was taken before; a lock that nobody took is free.
    pub fn acquire(&mut self, id: &str) -> (r: bool)
        requires
            old(self).wf(),
        ensures
            final(self).wf(),
            final(self).ttl() == old(self).ttl(),
            !old(self).locks().contains_key(id@) ==> r,
            exists|now: Duration|
                r == !#[trigger] held(old(self).locks(), id@, now) && final(self).locks() == (if r {
                    old(self).locks().insert(
                        id@,
                        Duration { nanos: time::sum(now, old(self).ttl()) as u128 },
                    )
                } else {
                    old(self).locks()
                }),
    {
        let now = self.clock.now();
        self.acquire_at(id, now)
    }

    /// Gives a lock back.
    pub fn release(&mut self, id: &str)
        requires
            old(self).wf(),
        ensures
            final(self).wf(),
            final(self).ttl() == old(self).ttl(),
            final(self).locks() == old(self).locks().remove(id@),
    {
        self.locks.remove(id);
    }

    /// Drops the locks whose time is over at the given time of the clock.
    pub fn sweep_at(&mut self, now: Duration)
        requires
            old(self).wf(),
        ensures
            final(self).wf(),
            final(self).ttl() == old(self).ttl(),
            final(self).locks() == still_held(old(self).locks(), now),
    {
        let mut kept: KeyedMap<Duration> = KeyedMap::new();
        let n: usize = self.locks.len();
        let ghost list = self.locks.list();
        proof {
            self.locks.lemma_list();
            assert(list.take(0) =~= Seq::empty());
            assert(kept@ =~= still_held(keyed::map_of(list.take(0)), now));
        }
        let mut i: usize = 0;
        while i < n
            invariant
                i <= n,
                n == list.len(),
                list == self.locks.list(),
                keyed::distinct(list),
                kept.wf(),
                kept@ == still_held(keyed::map_of(list.take(i as int)), now),
                self.ttl == old(self).ttl,
            decreases n - i,
        {
            let (id, end) = self.locks.entry(i);
            let ghost before = keyed::map_of(list.take(i as int));
            proof {
                assert(list.take(i + 1).drop_last() =~= list.take(i as int));
                assert(list.take(i + 1).last() == list[i as int]);
                keyed::lemma_map_dom(list.take(i as int), id@);
                assert(!before.contains_key(id@)) by {
                    if before.contains_key(id@) {
                        let k = choose|k: int|
                            0 <= k < list.take(i as int).len() && (#[trigger] list.take(
                                i as int,
                            )[k]).0@ == id@;
                        assert(list[k].0@ != list[i as int].0@);
                    }
                }
            }
            if now.nanos < end.nanos {
                kept.insert(id.clone(), *end);
            }
            assert(kept@ =~= still_held(keyed::map_of(list.take(i + 1)), now));
            i += 1;
        }
        proof {
            assert(list.take(n as int) =~= list);
        }
        self.locks = kept;
    }

    /// Drops the locks whose time is over. What the clock says decides.
    pub fn sweep(&mut self)
        requires
            old(self).wf(),
        ensures
            final(self).wf(),
            final(self).ttl() == old(self).ttl(),
            exists|now: Duration|
                final(self).locks() == #[trigger] still_held(old(self).locks(), now),
    {
        let now = self.clock.now();
        self.sweep_at(now);
    }
}

// ── laws ──

/// A lock that was taken is held up to the end of its time.
pub proof fn taken_lock_is_held(
    locks: Map<Seq<char>, Duration>,
    id: Seq<char>,
    end: Duration,
    now: Duration,
)
    ensures
        held(locks.insert(id, end), id, now) <==> now.nanos < end.nanos,
{
}

/// A lock that was given back is free.
pub proof fn released_lock_is_free(locks: Map<Seq<char>, Duration>, id: Seq<char>, now: Duration)
    ensures
        !held(locks.remove(id), id, now),
{
}

/// Taking a lock and giving it back have no effect on another.
pub proof fn locks_are_independent(
    locks: Map<Seq<char>, Duration>,
    id: Seq<char>,
    end: Duration,
    other: Seq<char>,
    now: Duration,
)
    requires
        other != id,
    ensures
        held(locks.insert(id, end), other, now) == held(locks, other, now),
        held(locks.remove(id), other, now) == held(locks, other, now),
{
}

/// Dropping the locks whose time is over frees none that is held, then or
/// later.
pub proof fn sweeping_frees_no_held_lock(
    locks: Map<Seq<char>, Duration>,
    now: Duration,
    later: Duration,
    id: Seq<char>,
)
    requires
        now.nanos <= later.nanos,
    ensures
        held(still_held(locks, now), id, later) == held(locks, id, later),
{
}

/// A message is too old exactly where its time is known and further back than the
/// window.
pub proof fn message_is_too_old_behind_the_window(window_ms: nat, created_ms: nat, now_ms: nat)
    requires
        window_ms <= u64::MAX,
        now_ms <= u64::MAX,
    ensures
        too_old(
            Duration { nanos: (window_ms * 1_000_000) as u128 },
            created_ms as int,
            Duration { nanos: (now_ms * 1_000_000) as u128 },
        ) <==> created_ms > 0 && now_ms > created_ms + window_ms,
        !too_old(
            Duration { nanos: (window_ms * 1_000_000) as u128 },
            0,
            Duration { nanos: (now_ms * 1_000_000) as u128 },
        ),
{
}

/// A lock is held exactly until its end.
pub proof fn lock_is_held_until_its_end(
    locks: Map<Seq<char>, Duration>,
    id: Seq<char>,
    end: Duration,
    now: Duration,
)
    ensures
        held(locks.insert(id, end), id, now) <==> now.nanos < end.nanos,
        !held(locks.remove(id), id, now),
{
}

} // verus!
