//! The completion bridge: a single-shot cell that turns the engine's
//! "operation finished" callback — fired exactly once, from any thread, at
//! an arbitrary time — into something a cooperative scheduler can await.
//!
//! [`State`] is the shared cell; [`BridgeState`] is its abstract state. The
//! callback stores a status code, marks the cell finished and wakes the
//! registered continuation, in that order; a poll first checks the flag,
//! otherwise registers its continuation and then checks the flag again
//! before suspending. That re-check closes the race in which the callback
//! fires between the first check and the registration; the proof functions
//! at the end of this module show that wherever the callback lands among a
//! poll's steps, the result is delivered exactly once and no wakeup is lost.

use vstd::prelude::*;

verus! {

/// What a single poll of the completion future reports.
#[derive(Debug, PartialEq, Eq, Structural)]
pub enum PollOutcome {
    /// The callback has fired: the stored status code, handed out once.
    Ready(i32),
    /// Not finished yet: the caller's continuation is registered and the
    /// task suspends until the callback wakes it.
    Pending,
    /// The status was already consumed by an earlier poll: a misuse,
    /// reported rather than masked.
    Consumed,
}

/// The abstract state of a completion cell: the stored status code, whether
/// the callback has fired, which continuation handle is registered, and
/// whether the status has already been handed out.
pub struct BridgeState {
    pub status: i32,
    pub finished: bool,
    pub waker: Option<usize>,
    pub consumed: bool,
}

impl BridgeState {
    /// A fresh cell: nothing stored, nothing registered, nothing consumed.
    pub open spec fn pending() -> BridgeState {
        BridgeState { status: 0, finished: false, waker: None, consumed: false }
    }

    /// A status can only ever have been consumed after the callback fired.
    pub open spec fn wf(self) -> bool {
        self.consumed ==> self.finished
    }

    /// The foreign callback's transition: store the status, mark the cell
    /// finished, and take out whatever continuation is registered — the
    /// caller wakes it. Storing before marking is what guarantees that a
    /// consumer which observes `finished` also observes the status.
    pub open spec fn signal_step(self, status: i32) -> (BridgeState, Option<usize>) {
        (BridgeState { status, finished: true, waker: None, ..self }, self.waker)
    }

    /// Registering a continuation handle: the last registration wins.
    pub open spec fn register_step(self, w: usize) -> BridgeState {
        BridgeState { waker: Some(w), ..self }
    }

    /// Handing the stored status out, once.
    pub open spec fn consume_step(self) -> (BridgeState, i32) {
        (BridgeState { consumed: true, ..self }, self.status)
    }

    /// What one whole poll does to the cell when no callback interleaves
    /// with it: report misuse after consumption, consume a finished status,
    /// or register the continuation and suspend.
    pub open spec fn poll_step(self, w: usize) -> (BridgeState, PollOutcome) {
        if self.consumed {
            (self, PollOutcome::Consumed)
        } else if self.finished {
            (self.consume_step().0, PollOutcome::Ready(self.status))
        } else {
            (self.register_step(w), PollOutcome::Pending)
        }
    }
}

/// The shared completion cell behind one asynchronous engine operation.
pub struct State {
    rlt: i32,
    finish: bool,
    waker: Option<usize>,
    consumed: bool,
}

impl View for State {
    type V = BridgeState;

    closed spec fn view(&self) -> BridgeState {
        BridgeState {
            status: self.rlt,
            finished: self.finish,
            waker: self.waker,
            consumed: self.consumed,
        }
    }
}

impl State {
    #[verifier::type_invariant]
    spec fn inv(self) -> bool {
        self@.wf()
    }

    /// A fresh, pending cell.
    pub fn new() -> (r: State)
        ensures
            r@ == BridgeState::pending(),
    {
        State { rlt: 0, finish: false, waker: None, consumed: false }
    }

    /// Puts the cell back to pending so it can carry the next operation.
    pub fn reset(&mut self)
        ensures
            final(self)@ == BridgeState::pending(),
    {
        proof {
            use_type_invariant(&*self);
        }
        self.consumed = false;
        self.finish = false;
        self.rlt = 0;
        self.waker = None;
    }

    /// The callback's write, fired exactly once per operation: stores the
    /// status, marks the cell finished and returns the continuation handle
    /// to wake — the wake itself is the caller's (scheduler-facing) side.
    pub fn signal(&mut self, rlt: i32) -> (woke: Option<usize>)
        requires
            !old(self)@.finished,
        ensures
            final(self)@ == old(self)@.signal_step(rlt).0,
            woke == old(self)@.signal_step(rlt).1,
    {
        proof {
            use_type_invariant(&*self);
        }
        self.rlt = rlt;
        self.finish = true;
        let mut w: Option<usize> = None;
        core::mem::swap(&mut self.waker, &mut w);
        w
    }

    /// Whether the callback has fired (the poll's flag check).
    pub fn is_finished(&self) -> (r: bool)
        ensures
            r == self@.finished,
    {
        self.finish
    }

    /// Whether the status has already been handed out.
    pub fn is_consumed(&self) -> (r: bool)
        ensures
            r == self@.consumed,
    {
        self.consumed
    }

    /// Registers the polling task's continuation handle; a later
    /// registration overwrites an earlier one.
    pub fn register(&mut self, w: usize)
        ensures
            final(self)@ == old(self)@.register_step(w),
    {
        proof {
            use_type_invariant(&*self);
        }
        self.waker = Some(w);
    }

    /// Hands the stored status out if it is ready and still unconsumed.
    pub fn try_consume(&mut self) -> (r: Option<i32>)
        ensures
            old(self)@.finished && !old(self)@.consumed ==> final(self)@ == old(
                self,
            )@.consume_step().0 && r == Some(old(self)@.status),
            !(old(self)@.finished && !old(self)@.consumed) ==> final(self)@ == old(self)@ && r
                is None,
    {
        proof {
            use_type_invariant(&*self);
        }
        if self.finish && !self.consumed {
            self.consumed = true;
            Some(self.rlt)
        } else {
            None
        }
    }

    /// One poll of the completion future. If the status is ready it is
    /// consumed and returned at once. Otherwise the continuation is
    /// registered and the flag checked again before suspending, so that a
    /// callback firing between the first check and the registration is
    /// still delivered by this same call rather than lost.
    pub fn poll(&mut self, w: usize) -> (r: PollOutcome)
        ensures
            final(self)@ == old(self)@.poll_step(w).0,
            r == old(self)@.poll_step(w).1,
    {
        if self.is_consumed() {
            return PollOutcome::Consumed;
        }
        if !self.is_finished() {
            self.register(w);
            if !self.is_finished() {
                return PollOutcome::Pending;
            }
        }
        match self.try_consume() {
            Some(v) => PollOutcome::Ready(v),
            None => PollOutcome::Pending,
        }
    }
}

impl Default for State {
    /// A fresh, pending cell.
    fn default() -> (r: State)
        ensures
            r@ == BridgeState::pending(),
    {
        State::new()
    }
}

/// The four places the exactly-once callback can land relative to one poll
/// of a still-pending cell, at the granularity of the cell's atomic steps:
/// before the poll's first flag check, after that check but before the
/// registration, after the registration but before the re-check, or after
/// the poll has suspended.
pub enum RacePoint {
    BeforeFirstCheck,
    BeforeRegister,
    BeforeSecondCheck,
    AfterPoll,
}

/// One poll of a pending cell with the callback `signal(status)` interleaved
/// at `point`. Yields the final cell state, what the poll returns, and the
/// continuation handle the callback woke, if any.
pub open spec fn poll_race(pre: BridgeState, status: i32, w: usize, point: RacePoint) -> (
    BridgeState,
    PollOutcome,
    Option<usize>,
) {
    match point {
        RacePoint::BeforeFirstCheck => {
            // the poll's first check already sees the status: no suspension
            let (s1, woke) = pre.signal_step(status);
            let (s2, out) = s1.poll_step(w);
            (s2, out, woke)
        },
        RacePoint::BeforeRegister => {
            // the first check saw nothing, then the callback fired; the poll
            // registers anyway and its re-check delivers the status
            let (s1, woke) = pre.signal_step(status);
            let s2 = s1.register_step(w);
            let (s3, v) = s2.consume_step();
            (s3, PollOutcome::Ready(v), woke)
        },
        RacePoint::BeforeSecondCheck => {
            // the callback fired between registration and the re-check: the
            // re-check delivers the status on this same poll
            let s1 = pre.register_step(w);
            let (s2, woke) = s1.signal_step(status);
            let (s3, v) = s2.consume_step();
            (s3, PollOutcome::Ready(v), woke)
        },
        RacePoint::AfterPoll => {
            // the poll suspended first: the callback finds the registered
            // continuation and wakes it
            let s1 = pre.register_step(w);
            let (s2, woke) = s1.signal_step(status);
            (s2, PollOutcome::Pending, woke)
        },
    }
}

/// No lost wakeup and no lost result: wherever the exactly-once callback
/// lands relative to a poll of a pending cell, either that very poll
/// returns the status, or the poll suspends and the callback wakes exactly
/// the continuation the poll registered — and the woken task's next poll
/// returns the status. `w2` is the continuation handle of that next poll.
pub proof fn lemma_no_lost_wakeup(
    pre: BridgeState,
    status: i32,
    w: usize,
    w2: usize,
    point: RacePoint,
)
    requires
        !pre.finished,
        !pre.consumed,
    ensures
        ({
            let (post, out, woke) = poll_race(pre, status, w, point);
            &&& post.finished
            &&& out == PollOutcome::Ready(status) || (out == PollOutcome::Pending && woke == Some(
                w,
            ))
            &&& out == PollOutcome::Ready(status) ==> post.consumed
            &&& out == PollOutcome::Pending ==> post.poll_step(w2).1 == PollOutcome::Ready(status)
        }),
{
}

/// The status is handed out exactly once: a poll of a finished, unconsumed
/// cell returns it, and every further poll reports the misuse and leaves
/// the cell unchanged.
pub proof fn lemma_consume_exactly_once(s: BridgeState, w1: usize, w2: usize)
    requires
        s.finished,
        !s.consumed,
    ensures
        s.poll_step(w1).1 == PollOutcome::Ready(s.status),
        s.poll_step(w1).0.poll_step(w2).1 == PollOutcome::Consumed,
        s.poll_step(w1).0.poll_step(w2).0 == s.poll_step(w1).0,
{
}

} // verus!
