//! Fixed-timestep driver: accumulates real elapsed time and runs the
//! simulation exactly once per fixed tick, feeding it at most the
//! most recent input event per tick. Drawing happens outside, once
//! per rendered frame.

pub mod events;

use vstd::prelude::*;

use crate::engine::events::Event;
use crate::engine::events::EventProcessor;

verus! {

/// Frame timing handed to each update: the timestamp of the previous
/// rendered frame and the time elapsed since it, both in
/// microseconds.
#[derive(Clone, Copy, PartialEq, Eq, Structural, Debug)]
pub struct Time {
    pub last_frame: u64,
    pub delta: u64,
}

/// The contract between the driver and the simulation it runs: an
/// update step with an optional input event. `inv` is whatever state
/// property updates need and keep; `steps_to` says how one update
/// transforms the state.
pub trait Runnable: Sized {
    spec fn inv(&self) -> bool;

    spec fn steps_to(pre: Self, evt: Option<Event>, post: Self) -> bool;

    fn update(&mut self, time: &Time, evt: Option<Event>)
        requires
            old(self).inv(),
        ensures
            final(self).inv(),
            Self::steps_to(*old(self), evt, *final(self)),
    ;
}

/// How many ticks a backlog of `acc` microseconds yields at
/// `tick_length` microseconds per tick: one tick is run while the
/// backlog strictly exceeds one tick length.
pub open spec fn tick_count(acc: nat, tick_length: nat) -> nat
    decreases acc,
{
    if tick_length == 0 || acc <= tick_length {
        0
    } else {
        1 + tick_count((acc - tick_length) as nat, tick_length)
    }
}

/// `r1` is reachable from `r0` by `n` update steps, of which the
/// first is fed `evt` and all later ones no event.
pub open spec fn reached<R: Runnable>(r0: R, evt: Option<Event>, n: nat, r1: R) -> bool
    decreases n,
{
    if n == 0 {
        r1 == r0
    } else {
        exists|mid: R|
            #[trigger] R::steps_to(r0, evt, mid) && reached(mid, None, (n - 1) as nat, r1)
    }
}

/// A step appended after `n` steps makes `n + 1` steps; the appended
/// step is fed `evt` exactly when it is the first.
proof fn lemma_reached_snoc<R: Runnable>(r0: R, evt: Option<Event>, n: nat, r1: R, r2: R)
    requires
        reached(r0, evt, n, r1),
        R::steps_to(r1, if n == 0 { evt } else { None }, r2),
    ensures
        reached(r0, evt, n + 1, r2),
    decreases n,
{
    if n == 0 {
        assert(R::steps_to(r0, evt, r2) && reached(r2, None, 0nat, r2));
    } else {
        let mid = choose|mid: R|
            #[trigger] R::steps_to(r0, evt, mid) && reached(mid, None, (n - 1) as nat, r1);
        lemma_reached_snoc(mid, None, (n - 1) as nat, r1, r2);
        assert(R::steps_to(r0, evt, mid) && reached(mid, None, n, r2));
    }
}

/// The fixed-timestep driver: owns the simulation state, the pending
/// input slot, and the time bookkeeping. The host calls
/// [`Engine::push_event`] when input arrives and [`Engine::on_frame`]
/// once per rendered frame, then draws.
pub struct Engine<R: Runnable> {
    pub runnable: R,
    pub events: EventProcessor,
    pub last_frame: u64,
    pub accumulated: u64,
    pub tick_length: u64,
}

impl<R: Runnable> Engine<R> {
    pub open spec fn wf(self) -> bool {
        &&& self.tick_length > 0
        &&& self.runnable.inv()
    }

    /// A driver started at timestamp `start` (microseconds) with the
    /// given tick length (microseconds per simulation step).
    pub fn new(runnable: R, start: u64, tick_length: u64) -> (e: Engine<R>)
        requires
            tick_length > 0,
            runnable.inv(),
        ensures
            e.runnable == runnable,
            e.events.pending == Option::<Event>::None,
            e.last_frame == start,
            e.accumulated == 0,
            e.tick_length == tick_length,
            e.wf(),
    {
        Engine {
            runnable,
            events: EventProcessor::new(),
            last_frame: start,
            accumulated: 0,
            tick_length,
        }
    }

    /// Record an input event for the next tick, discarding any older
    /// pending one.
    pub fn push_event(&mut self, evt: Event)
        ensures
            final(self).events == events::push_spec(old(self).events, evt),
            final(self).runnable == old(self).runnable,
            final(self).last_frame == old(self).last_frame,
            final(self).accumulated == old(self).accumulated,
            final(self).tick_length == old(self).tick_length,
    {
        self.events.push(evt);
    }

    /// One rendered frame at timestamp `perf` (microseconds, at or
    /// after the previous frame): the elapsed time joins the backlog,
    /// the simulation is updated once per full tick in the backlog —
    /// the first tick consuming the pending event, later ticks none —
    /// and the remainder is carried over. Returns the number of ticks
    /// run.
    pub fn on_frame(&mut self, perf: u64) -> (ticks: u64)
        requires
            old(self).wf(),
            perf >= old(self).last_frame,
            old(self).accumulated + (perf - old(self).last_frame) <= u64::MAX,
        ensures
            final(self).wf(),
            final(self).tick_length == old(self).tick_length,
            final(self).last_frame == perf,
            ticks as nat == tick_count(
                (old(self).accumulated + (perf - old(self).last_frame)) as nat,
                old(self).tick_length as nat,
            ),
            final(self).accumulated == old(self).accumulated + (perf - old(self).last_frame)
                - ticks * old(self).tick_length,
            reached(old(self).runnable, old(self).events.pending, ticks as nat, final(self).runnable),
            final(self).events.pending == (if ticks > 0 {
                Option::<Event>::None
            } else {
                old(self).events.pending
            }),
    {
        let delta = perf - self.last_frame;
        let time = Time { last_frame: self.last_frame, delta };
        self.accumulated = self.accumulated + delta;
        let ghost acc0 = self.accumulated;
        let ghost len = self.tick_length;
        let ghost r0 = self.runnable;
        let ghost evt0 = self.events.pending;
        let mut ticks: u64 = 0;
        while self.accumulated > self.tick_length
            invariant
                self.tick_length == len,
                len > 0,
                self.runnable.inv(),
                ticks as nat + tick_count(self.accumulated as nat, len as nat) == tick_count(
                    acc0 as nat,
                    len as nat,
                ),
                self.accumulated == acc0 - ticks * len,
                ticks * len <= acc0,
                reached(r0, evt0, ticks as nat, self.runnable),
                self.events.pending == (if ticks > 0 {
                    Option::<Event>::None
                } else {
                    evt0
                }),
            decreases self.accumulated,
        {
            let ghost prev = self.runnable;
            let evt = self.events.process();
            self.runnable.update(&time, evt);
            proof {
                lemma_reached_snoc(r0, evt0, ticks as nat, prev, self.runnable);
                assert(ticks < acc0) by (nonlinear_arith)
                    requires
                        ticks * len <= acc0,
                        len >= 1,
                        ticks >= 0,
                        acc0 - ticks * len > len,
                ;
                assert((ticks + 1) * len == ticks * len + len) by (nonlinear_arith);
            }
            self.accumulated = self.accumulated - self.tick_length;
            ticks = ticks + 1;
        }
        self.last_frame = perf;
        ticks
    }
}

} // verus!
