use std::sync::atomic::{AtomicUsize, Ordering};
use std::sync::Arc;
use vstd::prelude::*;

use crate::resource::ResourceMetered;

verus! {

/// A state machine that processes a stream of messages.
pub trait Fsm {
    type Message: ResourceMetered;
}

/// Places a handed-off state machine on a worker pool.
pub trait FsmScheduler {
    type Fsm: Fsm;

    /// Takes ownership of `fsm` to run it on a worker.
    fn schedule(&self, fsm: Box<Self::Fsm>);
}

/// Who holds a state machine: its token (idle), a worker (scheduled), or
/// nobody any more (closed).
#[derive(PartialEq, Eq, Structural, Clone, Copy, Debug)]
pub enum FsmStatus {
    Idle,
    Scheduled,
    Closed,
}

/// The status after a notify from status `s`: only an idle machine is
/// scheduled.
pub open spec fn notify_next(s: FsmStatus) -> FsmStatus {
    if s == FsmStatus::Idle {
        FsmStatus::Scheduled
    } else {
        s
    }
}

/// Whether a notify from status `s` hands the machine to the scheduler.
pub open spec fn notify_hands_off(s: FsmStatus) -> bool {
    s == FsmStatus::Idle
}

/// The ownership token of one state machine. The token holds the machine
/// exactly when it is idle.
pub struct FsmState<N> {
    status: FsmStatus,
    data: Option<Box<N>>,
    state_cnt: Arc<AtomicUsize>,
}

impl<N> FsmState<N> {
    pub closed spec fn status(&self) -> FsmStatus {
        self.status
    }

    /// The machine held by the token, if any.
    pub closed spec fn slot(&self) -> Option<Box<N>> {
        self.data
    }

    pub closed spec fn wf(&self) -> bool {
        (self.status == FsmStatus::Idle) == self.data.is_some()
    }

    /// A token holding `fsm`, idle; the shared count of tokens made is
    /// incremented.
    pub fn new(fsm: Box<N>, state_cnt: Arc<AtomicUsize>) -> (st: Self)
        ensures
            st.wf(),
            st.status() == FsmStatus::Idle,
            st.slot() == Some(fsm),
    {
        state_cnt.fetch_add(1, Ordering::Relaxed);
        FsmState { status: FsmStatus::Idle, data: Some(fsm), state_cnt }
    }

    pub fn status_now(&self) -> (r: FsmStatus)
        ensures
            r == self.status(),
    {
        self.status
    }

    /// Takes the machine out when idle, which marks it scheduled; returns
    /// nothing when it is scheduled or closed.
    pub fn take_fsm(&mut self) -> (r: Option<Box<N>>)
        requires
            old(self).wf(),
        ensures
            final(self).wf(),
            final(self).status() == notify_next(old(self).status()),
            old(self).status() == FsmStatus::Idle ==> r == old(self).slot() && r is Some,
            old(self).status() != FsmStatus::Idle ==> r is None && *final(self) == *old(self),
    {
        if self.status == FsmStatus::Idle {
            self.status = FsmStatus::Scheduled;
            self.data.take()
        } else {
            None
        }
    }

    /// Called after a message was queued: an idle machine is handed to the
    /// scheduler and becomes scheduled; otherwise nothing happens. The result
    /// tells whether a hand-off took place.
    pub fn notify<S: FsmScheduler<Fsm = N>>(&mut self, scheduler: &S) -> (handed_off: bool)
        requires
            old(self).wf(),
        ensures
            final(self).wf(),
            final(self).status() == notify_next(old(self).status()),
            handed_off == notify_hands_off(old(self).status()),
            !handed_off ==> final(self).slot() == old(self).slot(),
    {
        match self.take_fsm() {
            Some(n) => {
                scheduler.schedule(n);
                true
            },
            None => false,
        }
    }

    /// Gives the machine back after a worker ran it. On a scheduled token the
    /// machine becomes idle again, unless `backlog` says messages arrived
    /// meanwhile: then it is handed to the scheduler at once. On a closed
    /// token the machine is dropped. The result tells whether it was
    /// scheduled again.
    pub fn release<S: FsmScheduler<Fsm = N>>(
        &mut self,
        fsm: Box<N>,
        backlog: usize,
        scheduler: &S,
    ) -> (rescheduled: bool)
        requires
            old(self).wf(),
            old(self).status() != FsmStatus::Idle,
        ensures
            final(self).wf(),
            rescheduled == (old(self).status() == FsmStatus::Scheduled && backlog > 0),
            old(self).status() == FsmStatus::Closed ==> final(self).status() == FsmStatus::Closed
                && final(self).slot() is None,
            old(self).status() == FsmStatus::Scheduled && backlog == 0 ==> final(self).status()
                == FsmStatus::Idle && final(self).slot() == Some(fsm),
            rescheduled ==> final(self).status() == FsmStatus::Scheduled,
    {
        if self.status == FsmStatus::Closed {
            return false;
        }
        self.data = Some(fsm);
        self.status = FsmStatus::Idle;
        if backlog > 0 {
            self.notify(scheduler)
        } else {
            false
        }
    }

    /// Closes the token for good, dropping an idle machine still held.
    pub fn clear(&mut self)
        requires
            old(self).wf(),
        ensures
            final(self).wf(),
            final(self).status() == FsmStatus::Closed,
            final(self).slot() is None,
    {
        self.status = FsmStatus::Closed;
        self.data = None;
    }
}

/// Exactly-once scheduling: of two notifies in a row, at most one hands the
/// machine off, and once it is scheduled a further notify hands off nothing
/// and leaves it scheduled.
pub proof fn lemma_notify_once(s: FsmStatus)
    ensures
        !(notify_hands_off(s) && notify_hands_off(notify_next(s))),
        notify_hands_off(s) ==> notify_next(s) == FsmStatus::Scheduled,
        s == FsmStatus::Scheduled ==> !notify_hands_off(s) && notify_next(s)
            == FsmStatus::Scheduled,
{
}

} // verus!
