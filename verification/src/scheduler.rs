//! A fixed-size window over transfers in flight.
//!
//! Transfers are launched in the order of the task list. When the window is
//! full, the oldest transfer is awaited before the next one is launched,
//! whichever finishes first: the window drains first in, first out. A failed
//! transfer closes the window for good; what is in flight is still awaited,
//! so no failure is lost and none goes unreported.

use std::collections::VecDeque;
use vstd::prelude::*;

verus! {

/// What the caller has to do next.
#[derive(Clone, Copy, Debug, PartialEq, Eq, Structural)]
pub enum Directive {
    /// Start the next transfer and hand its handle in.
    Launch,
    /// Take the oldest transfer out, await it and report how it ended.
    AwaitOldest,
    /// Nothing is in flight and nothing is left to start.
    Finished,
}

/// The mathematical content of a [`Scheduler`].
pub struct SchedulerView<H> {
    /// How many transfers may be in flight at once.
    pub limit: nat,
    /// The transfers in flight, oldest first.
    pub in_flight: Seq<H>,
    /// Whether a failure was reported.
    pub stopped: bool,
}

impl<H> SchedulerView<H> {
    /// An empty window of the given width.
    pub open spec fn idle(limit: nat) -> Self {
        SchedulerView { limit, in_flight: Seq::empty(), stopped: false }
    }

    /// Whether the window is as wide as promised: at least one transfer
    /// fits, and no more than `limit` are in flight.
    pub open spec fn within_limit(self) -> bool {
        0 < self.limit && self.in_flight.len() <= self.limit
    }

    /// What to do next; `more` says whether a task is left to start. After a
    /// failure nothing is started any more, and what is in flight is
    /// awaited. Otherwise the next task is started as soon as there is room.
    pub open spec fn directive(self, more: bool) -> Directive {
        if more && !self.stopped && self.in_flight.len() < self.limit {
            Directive::Launch
        } else if self.in_flight.len() > 0 {
            Directive::AwaitOldest
        } else {
            Directive::Finished
        }
    }

    /// The window after `handle` was launched.
    pub open spec fn launch(self, handle: H) -> Self {
        SchedulerView { in_flight: self.in_flight.push(handle), ..self }
    }

    /// The window after the oldest transfer was taken out.
    pub open spec fn retire(self) -> Self {
        SchedulerView { in_flight: self.in_flight.drop_first(), ..self }
    }

    /// The window after an awaited transfer reported success or failure.
    pub open spec fn report(self, ok: bool) -> Self {
        SchedulerView { stopped: self.stopped || !ok, ..self }
    }
}

/// The transfers in flight. A window starts within its limit, and every
/// operation keeps it there.
pub struct Scheduler<H> {
    limit: usize,
    in_flight: VecDeque<H>,
    stopped: bool,
}

impl<H> View for Scheduler<H> {
    type V = SchedulerView<H>;

    closed spec fn view(&self) -> SchedulerView<H> {
        SchedulerView {
            limit: self.limit as nat,
            in_flight: self.in_flight@,
            stopped: self.stopped,
        }
    }
}

impl<H> Scheduler<H> {
    /// An empty window that lets `limit` transfers run at once; at least
    /// one must be let through.
    pub fn new(limit: usize) -> (s: Self)
        requires
            limit > 0,
        ensures
            s@ == SchedulerView::<H>::idle(limit as nat),
            s@.within_limit(),
    {
        Scheduler { limit, in_flight: VecDeque::new(), stopped: false }
    }

    /// How many transfers are in flight.
    pub fn in_flight(&self) -> (n: usize)
        ensures
            n == self@.in_flight.len(),
    {
        self.in_flight.len()
    }

    /// Whether a failure was reported.
    pub fn is_stopped(&self) -> (b: bool)
        ensures
            b == self@.stopped,
    {
        self.stopped
    }

    /// Says what to do next; `more` tells whether a task is left to start.
    pub fn directive(&self, more: bool) -> (d: Directive)
        ensures
            d == self@.directive(more),
    {
        if more && !self.stopped && self.in_flight.len() < self.limit {
            Directive::Launch
        } else if self.in_flight.len() > 0 {
            Directive::AwaitOldest
        } else {
            Directive::Finished
        }
    }

    /// Records a transfer that was just started. A transfer may only be
    /// started when [`Scheduler::directive`] says so: the window has room
    /// and no failure was reported.
    pub fn launch(&mut self, handle: H)
        requires
            old(self)@.directive(true) == Directive::Launch,
        ensures
            final(self)@ == old(self)@.launch(handle),
            final(self)@.within_limit(),
    {
        self.in_flight.push_back(handle);
    }

    /// Takes the oldest transfer out of the window, for the caller to await.
    /// `None`, and no change, where nothing is in flight.
    pub fn retire(&mut self) -> (r: Option<H>)
        ensures
            match r {
                Some(h) => old(self)@.in_flight.len() > 0 && h == old(self)@.in_flight[0]
                    && final(self)@ == old(self)@.retire(),
                None => old(self)@.in_flight.len() == 0 && final(self)@ == old(self)@,
            },
            old(self)@.within_limit() ==> final(self)@.within_limit(),
    {
        self.in_flight.pop_front()
    }

    /// Records how an awaited transfer ended.
    pub fn report(&mut self, ok: bool)
        ensures
            final(self)@ == old(self)@.report(ok),
            old(self)@.within_limit() ==> final(self)@.within_limit(),
    {
        if !ok {
            self.stopped = true;
        }
    }
}

/// The bookkeeping of a run: transfers are numbered in launch order.
pub struct Tally {
    /// How many transfers were launched.
    pub launched: nat,
    /// The transfers that were awaited, in the order they were.
    pub awaited: Seq<nat>,
    /// The most transfers that were in flight at one time.
    pub peak: nat,
}

impl Tally {
    /// Before anything was launched.
    pub open spec fn zero() -> Tally {
        Tally { launched: 0, awaited: Seq::empty(), peak: 0 }
    }
}

/// The larger of two numbers.
pub open spec fn larger(a: nat, b: nat) -> nat {
    if a < b {
        b
    } else {
        a
    }
}

/// A run that follows the directives until it is told to finish: `left`
/// tasks wait to be started, and `ok` tells of each transfer, by its number,
/// whether it succeeds.
pub open spec fn drive(s: SchedulerView<nat>, left: nat, ok: spec_fn(nat) -> bool, t: Tally) -> (
    SchedulerView<nat>,
    Tally,
)
    decreases 2 * left + s.in_flight.len(),
{
    match s.directive(left > 0) {
        Directive::Finished => (s, t),
        Directive::Launch => drive(
            s.launch(t.launched),
            (left - 1) as nat,
            ok,
            Tally {
                launched: t.launched + 1,
                awaited: t.awaited,
                peak: larger(t.peak, s.in_flight.len() + 1),
            },
        ),
        Directive::AwaitOldest => drive(
            s.retire().report(ok(s.in_flight[0])),
            left,
            ok,
            Tally { launched: t.launched, awaited: t.awaited.push(s.in_flight[0]), peak: t.peak },
        ),
    }
}

/// The numbers from `from` up to, not including, `to`, in order.
pub open spec fn numbers(from: nat, to: nat) -> Seq<nat> {
    Seq::new((to - from) as nat, |i: int| (from + i) as nat)
}

proof fn lemma_drive(s: SchedulerView<nat>, left: nat, ok: spec_fn(nat) -> bool, t: Tally)
    requires
        s.within_limit(),
        t.peak <= s.limit,
        t.awaited.len() <= t.launched,
        t.awaited == numbers(0, t.awaited.len()),
        s.in_flight == numbers(t.awaited.len(), t.launched),
        s.stopped <==> exists|i: nat| i < t.awaited.len() && !(#[trigger] ok(i)),
    ensures
        ({
            let (end, tally) = drive(s, left, ok, t);
            &&& end.limit == s.limit
            &&& end.in_flight.len() == 0
            &&& tally.peak <= s.limit
            &&& t.launched <= tally.launched <= t.launched + left
            &&& tally.awaited == numbers(0, tally.launched)
            &&& end.stopped <==> exists|i: nat| i < tally.launched && !(#[trigger] ok(i))
            &&& !end.stopped ==> tally.launched == t.launched + left
        }),
    decreases 2 * left + s.in_flight.len(),
{
    match s.directive(left > 0) {
        Directive::Finished => {},
        Directive::Launch => {
            let s1 = s.launch(t.launched);
            let t1 = Tally {
                launched: t.launched + 1,
                awaited: t.awaited,
                peak: larger(t.peak, s.in_flight.len() + 1),
            };
            assert(s1.in_flight =~= numbers(t1.awaited.len(), t1.launched));
            lemma_drive(s1, (left - 1) as nat, ok, t1);
        },
        Directive::AwaitOldest => {
            let oldest = s.in_flight[0];
            let s1 = s.retire().report(ok(oldest));
            let t1 = Tally { launched: t.launched, awaited: t.awaited.push(oldest), peak: t.peak };
            assert(t1.awaited =~= numbers(0, t1.awaited.len()));
            assert(s1.in_flight =~= numbers(t1.awaited.len(), t1.launched));
            lemma_drive(s1, left, ok, t1);
        },
    }
}

/// The window is respected. A run over `n` tasks through a window of width
/// `limit` never has more than `limit` transfers in flight. It ends with
/// nothing in flight, having awaited every transfer it launched, in launch
/// order. It launches all `n` unless a transfer fails; it has stopped
/// exactly when one of the transfers it launched failed.
pub proof fn lemma_window_is_respected(limit: nat, n: nat, ok: spec_fn(nat) -> bool)
    requires
        limit > 0,
    ensures
        ({
            let (end, tally) = drive(SchedulerView::<nat>::idle(limit), n, ok, Tally::zero());
            &&& tally.peak <= limit
            &&& end.in_flight.len() == 0
            &&& tally.launched <= n
            &&& tally.awaited == numbers(0, tally.launched)
            &&& end.stopped <==> exists|i: nat| i < tally.launched && !(#[trigger] ok(i))
            &&& !end.stopped ==> tally.launched == n
        }),
{
    let s = SchedulerView::<nat>::idle(limit);
    assert(s.in_flight =~= numbers(0, 0));
    lemma_drive(s, n, ok, Tally::zero());
}

} // verus!
