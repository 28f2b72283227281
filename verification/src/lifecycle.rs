//! What is called when the connection changes.

use vstd::prelude::*;

verus! {

/// The hooks in the order in which they were given: `H` is called without
/// anything, `E` with an error.
#[derive(Debug, Default)]
pub struct LifecycleHooks<H, E> {
    ready: Vec<H>,
    error: Vec<E>,
    reconnecting: Vec<H>,
    reconnected: Vec<H>,
    disconnected: Vec<H>,
}

pub struct HooksView<H, E> {
    pub ready: Seq<H>,
    pub error: Seq<E>,
    pub reconnecting: Seq<H>,
    pub reconnected: Seq<H>,
    pub disconnected: Seq<H>,
}

impl<H, E> View for LifecycleHooks<H, E> {
    type V = HooksView<H, E>;

    closed spec fn view(&self) -> HooksView<H, E> {
        HooksView {
            ready: self.ready@,
            error: self.error@,
            reconnecting: self.reconnecting@,
            reconnected: self.reconnected@,
            disconnected: self.disconnected@,
        }
    }
}

impl<H, E> LifecycleHooks<H, E> {
    pub fn new() -> (r: LifecycleHooks<H, E>)
        ensures
            r@ == (HooksView::<H, E> {
                ready: Seq::empty(),
                error: Seq::empty(),
                reconnecting: Seq::empty(),
                reconnected: Seq::empty(),
                disconnected: Seq::empty(),
            }),
    {
        LifecycleHooks {
            ready: Vec::new(),
            error: Vec::new(),
            reconnecting: Vec::new(),
            reconnected: Vec::new(),
            disconnected: Vec::new(),
        }
    }

    /// Calls the hook when the connection is open.
    pub fn on_ready(&mut self, f: H)
        ensures
            final(self)@ == (HooksView { ready: old(self)@.ready.push(f), ..old(self)@ }),
    {
        self.ready.push(f);
    }

    /// Calls the hook with every error of the connection.
    pub fn on_error(&mut self, f: E)
        ensures
            final(self)@ == (HooksView { error: old(self)@.error.push(f), ..old(self)@ }),
    {
        self.error.push(f);
    }

    /// Calls the hook before the connection is opened again.
    pub fn on_reconnecting(&mut self, f: H)
        ensures
            final(self)@ == (HooksView {
                reconnecting: old(self)@.reconnecting.push(f),
                ..old(self)@
            }),
    {
        self.reconnecting.push(f);
    }

    /// Calls the hook when the connection is open again.
    pub fn on_reconnected(&mut self, f: H)
        ensures
            final(self)@ == (HooksView {
                reconnected: old(self)@.reconnected.push(f),
                ..old(self)@
            }),
    {
        self.reconnected.push(f);
    }

    /// Calls the hook when the connection is closed.
    pub fn on_disconnected(&mut self, f: H)
        ensures
            final(self)@ == (HooksView {
                disconnected: old(self)@.disconnected.push(f),
                ..old(self)@
            }),
    {
        self.disconnected.push(f);
    }

    /// The hooks for an open connection, first given first.
    pub fn ready_hooks(&self) -> (r: &Vec<H>)
        ensures
            r@ == self@.ready,
    {
        &self.ready
    }

    /// The hooks for an error, first given first.
    pub fn error_hooks(&self) -> (r: &Vec<E>)
        ensures
            r@ == self@.error,
    {
        &self.error
    }

    /// The hooks before the connection is opened again, first given first.
    pub fn reconnecting_hooks(&self) -> (r: &Vec<H>)
        ensures
            r@ == self@.reconnecting,
    {
        &self.reconnecting
    }

    /// The hooks for a connection that is open again, first given first.
    pub fn reconnected_hooks(&self) -> (r: &Vec<H>)
        ensures
            r@ == self@.reconnected,
    {
        &self.reconnected
    }

    /// The hooks for a closed connection, first given first.
    pub fn disconnected_hooks(&self) -> (r: &Vec<H>)
        ensures
            r@ == self@.disconnected,
    {
        &self.disconnected
    }
}

// ── calling them ──

/// How far the hooks of an event were called.
#[derive(Debug)]
pub struct Firing {
    called: usize,
}

/// The hooks that are called in so many steps, when so many were called before.
pub open spec fn fired<T>(hooks: Seq<T>, called: nat, steps: nat) -> Seq<T>
    decreases steps,
{
    if steps == 0 || called >= hooks.len() {
        Seq::empty()
    } else {
        seq![hooks[called as int]] + fired(hooks, called + 1, (steps - 1) as nat)
    }
}

impl Firing {
    /// How many hooks were called.
    pub closed spec fn called(&self) -> nat {
        self.called as nat
    }

    /// Nothing was called yet.
    pub fn start() -> (r: Firing)
        ensures
            r.called() == 0,
    {
        Firing { called: 0 }
    }

    /// The hook that is called next, or none once every one was called.
    pub fn next<'a, T>(&mut self, hooks: &'a Vec<T>) -> (r: Option<&'a T>)
        ensures
            match r {
                Some(f) => {
                    &&& old(self).called() < hooks@.len()
                    &&& *f == hooks@[old(self).called() as int]
                    &&& final(self).called() == old(self).called() + 1
                },
                None => {
                    &&& old(self).called() >= hooks@.len()
                    &&& final(self).called() == old(self).called()
                },
            },
            fired(hooks@, old(self).called(), 1) == (match r {
                Some(f) => seq![*f],
                None => Seq::empty(),
            }),
    {
        if self.called < hooks.len() {
            let f = &hooks[self.called];
            self.called = self.called + 1;
            proof {
                let done = old(self).called();
                assert(fired(hooks@, done + 1, 0) =~= Seq::empty());
                assert(fired(hooks@, done, 1) =~= seq![hooks@[done as int]]);
            }
            Some(f)
        } else {
            None
        }
    }
}

// ── laws ──

/// The steps behind some hooks call the rest of them, in order.
proof fn lemma_fired<T>(hooks: Seq<T>, called: nat, steps: nat)
    requires
        called <= hooks.len(),
        called + steps >= hooks.len(),
    ensures
        fired(hooks, called, steps) == hooks.skip(called as int),
    decreases steps,
{
    if called < hooks.len() {
        lemma_fired(hooks, called + 1, (steps - 1) as nat);
    }
    assert(fired(hooks, called, steps) =~= hooks.skip(called as int));
}

/// Every hook of an event is called once, in the order in which they were given,
/// and however often it is asked then, no hook is called again.
pub proof fn every_hook_is_called_once<T>(hooks: Seq<T>, steps: nat)
    requires
        steps >= hooks.len(),
    ensures
        fired(hooks, 0, steps) == hooks,
{
    lemma_fired(hooks, 0, steps);
    assert(hooks.skip(0) =~= hooks);
}

/// A hook that is given for an open connection is called behind those that were
/// given before it, and the hooks of every other event are called as before.
pub proof fn given_hook_is_called_last<H, E>(hooks: HooksView<H, E>, f: H, steps: nat)
    requires
        steps > hooks.ready.len(),
    ensures
        ({
            let then = HooksView { ready: hooks.ready.push(f), ..hooks };
            &&& fired(then.ready, 0, steps) == fired(hooks.ready, 0, steps).push(f)
            &&& fired(then.error, 0, steps) == fired(hooks.error, 0, steps)
            &&& fired(then.reconnecting, 0, steps) == fired(hooks.reconnecting, 0, steps)
            &&& fired(then.reconnected, 0, steps) == fired(hooks.reconnected, 0, steps)
            &&& fired(then.disconnected, 0, steps) == fired(hooks.disconnected, 0, steps)
        }),
{
    every_hook_is_called_once(hooks.ready.push(f), steps);
    every_hook_is_called_once(hooks.ready, steps);
}

} // verus!
