use std::sync::atomic::AtomicUsize;
use std::sync::Arc;
use vstd::prelude::*;

use crate::fsm::{notify_next, Fsm, FsmScheduler, FsmState, FsmStatus};
use crate::queue::{SendError, TrySendError};
use crate::resource::{
    charge_groups, charges_view, default_group, dominant_of, ResourceController,
    ResourceMetered,
};
use crate::sender::LooseBoundedSender;

verus! {

/// The charges that a message declaring `declared` makes: none when it
/// declares nothing.
pub open spec fn declared_charges(declared: Option<Vec<(String, u64)>>) -> Seq<(Seq<char>, u64)> {
    match declared {
        Some(v) => charges_view(v@),
        None => Seq::empty(),
    }
}

/// `after` is `before` with the charges of one message added, and `group` is
/// the dominant group of those charges.
pub open spec fn charged_once(
    before: Seq<(Seq<char>, u64)>,
    after: Seq<(Seq<char>, u64)>,
    group: Seq<char>,
) -> bool {
    exists|gs: Seq<(Seq<char>, u64)>|
        after == before + gs && #[trigger] dominant_of(gs).0 == group
}

/// The sending end of one state machine's channel together with the token
/// that owns the machine. A send queues the message, charges its declared
/// resource use and, when the machine is idle, hands it to the scheduler.
#[verifier::reject_recursive_types(Owner)]
pub struct BasicMailbox<Owner: Fsm> {
    sender: LooseBoundedSender<Owner::Message>,
    state: FsmState<Owner>,
    last_msg_group: String,
}

impl<Owner: Fsm> BasicMailbox<Owner> {
    pub closed spec fn sender(&self) -> LooseBoundedSender<Owner::Message> {
        self.sender
    }

    pub closed spec fn state(&self) -> FsmState<Owner> {
        self.state
    }

    /// The dominant group of the last message sent.
    pub closed spec fn last_group(&self) -> Seq<char> {
        self.last_msg_group@
    }

    pub open spec fn wf(&self) -> bool {
        self.state().wf()
    }

    /// A mailbox for `fsm`, which starts idle and owned by the mailbox.
    pub fn new(
        sender: LooseBoundedSender<Owner::Message>,
        fsm: Box<Owner>,
        state_cnt: Arc<AtomicUsize>,
    ) -> (m: BasicMailbox<Owner>)
        ensures
            m.wf(),
            m.sender() == sender,
            m.state().status() == FsmStatus::Idle,
            m.state().slot() == Some(fsm),
            m.last_group() == default_group(),
    {
        let m = BasicMailbox {
            sender,
            state: FsmState::new(fsm, state_cnt),
            last_msg_group: "default".to_owned(),
        };
        proof {
            reveal_strlit("default");
            assert(m.last_msg_group@ =~= default_group());
        }
        m
    }

    pub fn is_connected(&self) -> (r: bool)
        ensures
            r == self.sender().is_open(),
    {
        self.sender.is_sender_connected()
    }

    /// Gives the machine back after a worker ran it. When messages are found
    /// queued at that point the machine is scheduled again at once, so that
    /// none of them waits without a worker; a closed mailbox drops it.
    pub fn release<S: FsmScheduler<Fsm = Owner>>(&mut self, fsm: Box<Owner>, scheduler: &S) -> (rescheduled: bool)
        requires
            old(self).wf(),
            old(self).state().status() != FsmStatus::Idle,
        ensures
            final(self).wf(),
            final(self).sender() == old(self).sender(),
            final(self).last_group() == old(self).last_group(),
            old(self).state().status() == FsmStatus::Closed ==> !rescheduled && final(self).state().status() == FsmStatus::Closed,
            old(self).state().status() == FsmStatus::Scheduled && !rescheduled ==> final(self).state().status() == FsmStatus::Idle && final(self).state().slot() == Some(fsm),
            rescheduled ==> final(self).state().status() == FsmStatus::Scheduled,
    {
        let backlog = self.sender.len();
        self.state.release(fsm, backlog, scheduler)
    }

    /// Takes the machine out if it is idle, marking it scheduled.
    pub fn take_fsm(&mut self) -> (r: Option<Box<Owner>>)
        requires
            old(self).wf(),
        ensures
            final(self).wf(),
            final(self).sender() == old(self).sender(),
            final(self).last_group() == old(self).last_group(),
            final(self).state().status() == notify_next(old(self).state().status()),
            old(self).state().status() == FsmStatus::Idle ==> r == old(self).state().slot(),
            old(self).state().status() != FsmStatus::Idle ==> r is None && final(self).state()
                == old(self).state(),
    {
        self.state.take_fsm()
    }

    /// The number of queued messages, as seen at the moment of the call.
    pub fn len(&self) -> (r: usize) {
        self.sender.len()
    }

    pub fn is_empty(&self) -> (r: bool) {
        self.sender.is_empty()
    }

    /// The resource group charged most by the last message sent.
    pub fn last_msg_group(&self) -> (r: &str)
        ensures
            r@ == self.last_group(),
    {
        self.last_msg_group.as_str()
    }

    /// Charges each group that a message declares to `resource_ctl`, and
    /// records the one charged most as the last message's group; a message
    /// that declares nothing charges nothing and resets it to the default.
    fn consume(&mut self, declared: Option<Vec<(String, u64)>>, resource_ctl: &mut ResourceController)
        ensures
            final(self).sender() == old(self).sender(),
            final(self).state() == old(self).state(),
            final(resource_ctl).charged() == old(resource_ctl).charged() + declared_charges(
                declared,
            ),
            final(self).last_group() == dominant_of(declared_charges(declared)).0,
    {
        match declared {
            Some(groups) => {
                self.last_msg_group = charge_groups(groups, resource_ctl);
            },
            None => {
                self.last_msg_group = "default".to_owned();
                proof {
                    reveal_strlit("default");
                    assert(resource_ctl.charged() =~= old(resource_ctl).charged() + Seq::<
                        (Seq<char>, u64),
                    >::empty());
                    assert(self.last_msg_group@ =~= default_group());
                }
            },
        }
    }

    /// Sends `msg` whatever the queue length, then schedules the machine if
    /// it is idle. Fails, handing the message back, when the mailbox was
    /// closed or the receiving side is gone; the machine is then left as is.
    pub fn force_send<S: FsmScheduler<Fsm = Owner>>(
        &mut self,
        msg: Owner::Message,
        scheduler: &S,
        resource_ctl: &mut ResourceController,
    ) -> (r: Result<(), SendError<Owner::Message>>)
        requires
            old(self).wf(),
        ensures
            final(self).wf(),
            charged_once(old(resource_ctl).charged(), final(resource_ctl).charged(), final(self).last_group()),
            final(self).sender() == old(self).sender(),
            !old(self).sender().is_open() ==> r == Err::<(), SendError<Owner::Message>>(
                SendError(msg),
            ),
            r matches Err(SendError(m)) ==> m == msg && final(self).state() == old(self).state(),
            r is Ok ==> final(self).state().status() == notify_next(old(self).state().status()),
    {
        let declared = msg.get_resource_consumptions();
        self.consume(declared, resource_ctl);
        match self.sender.force_send(msg) {
            Ok(()) => {},
            Err(e) => {
                return Err(e);
            },
        }
        self.state.notify(scheduler);
        Ok(())
    }

    /// Sends `msg` unless the queue was found full, then schedules the
    /// machine if it is idle. On failure the message comes back in the error
    /// and the machine is left as is.
    pub fn try_send<S: FsmScheduler<Fsm = Owner>>(
        &mut self,
        msg: Owner::Message,
        scheduler: &S,
        resource_ctl: &mut ResourceController,
    ) -> (r: Result<(), TrySendError<Owner::Message>>)
        requires
            old(self).wf(),
        ensures
            final(self).wf(),
            charged_once(old(resource_ctl).charged(), final(resource_ctl).charged(), final(self).last_group()),
            final(self).sender() == old(self).sender(),
            !old(self).sender().is_open() ==> r == Err::<(), TrySendError<Owner::Message>>(
                TrySendError::Disconnected(msg)),
            r matches Err(TrySendError::Full(m)) ==> m == msg && old(self).sender().is_open(),
            r matches Err(TrySendError::Disconnected(m)) ==> m == msg,
            r is Err ==> final(self).state() == old(self).state(),
            r is Ok ==> final(self).state().status() == notify_next(old(self).state().status()),
    {
        let declared = msg.get_resource_consumptions();
        self.consume(declared, resource_ctl);
        match self.sender.try_send(msg) {
            Ok(()) => {},
            Err(e) => {
                return Err(e);
            },
        }
        self.state.notify(scheduler);
        Ok(())
    }

    /// Closes the mailbox: later sends fail and an idle machine is dropped.
    pub fn close(&mut self)
        requires
            old(self).wf(),
        ensures
            final(self).wf(),
            !final(self).sender().is_open(),
            final(self).state().status() == FsmStatus::Closed,
            final(self).state().slot() is None,
    {
        self.sender.close_sender();
        self.state.clear();
    }
}

/// A mailbox bound to one scheduler and one resource controller, so that a
/// send needs neither.
#[verifier::reject_recursive_types(Owner)]
pub struct Mailbox<Owner: Fsm, Scheduler: FsmScheduler<Fsm = Owner>> {
    mailbox: BasicMailbox<Owner>,
    scheduler: Scheduler,
    resource_ctl: ResourceController,
}

impl<Owner: Fsm, Scheduler: FsmScheduler<Fsm = Owner>> Mailbox<Owner, Scheduler> {
    pub closed spec fn basic(&self) -> BasicMailbox<Owner> {
        self.mailbox
    }

    pub closed spec fn charged(&self) -> Seq<(Seq<char>, u64)> {
        self.resource_ctl.charged()
    }

    pub closed spec fn scheduler(&self) -> Scheduler {
        self.scheduler
    }

    pub fn new(
        mailbox: BasicMailbox<Owner>,
        scheduler: Scheduler,
        resource_ctl: ResourceController,
    ) -> (m: Mailbox<Owner, Scheduler>)
        ensures
            m.basic() == mailbox,
            m.scheduler() == scheduler,
            m.charged() == resource_ctl.charged(),
    {
        Mailbox { mailbox, scheduler, resource_ctl }
    }

    /// `BasicMailbox::force_send` with the bound scheduler and controller.
    pub fn force_send(&mut self, msg: Owner::Message) -> (r: Result<
        (),
        SendError<Owner::Message>,
    >)
        requires
            old(self).basic().wf(),
        ensures
            final(self).basic().wf(),
            final(self).scheduler() == old(self).scheduler(),
            charged_once(old(self).charged(), final(self).charged(), final(self).basic().last_group()),
            final(self).basic().sender() == old(self).basic().sender(),
            !old(self).basic().sender().is_open() ==> r == Err::<
                (),
                SendError<Owner::Message>,
            >(SendError(msg)),
            r matches Err(SendError(m)) ==> m == msg && final(self).basic().state() == old(
                self).basic().state(),
            r is Ok ==> final(self).basic().state().status() == notify_next(
                old(self).basic().state().status(),
            ),
    {
        self.mailbox.force_send(msg, &self.scheduler, &mut self.resource_ctl)
    }

    /// `BasicMailbox::try_send` with the bound scheduler and controller.
    pub fn try_send(&mut self, msg: Owner::Message) -> (r: Result<
        (),
        TrySendError<Owner::Message>,
    >)
        requires
            old(self).basic().wf(),
        ensures
            final(self).basic().wf(),
            final(self).scheduler() == old(self).scheduler(),
            charged_once(old(self).charged(), final(self).charged(), final(self).basic().last_group()),
            final(self).basic().sender() == old(self).basic().sender(),
            !old(self).basic().sender().is_open() ==> r == Err::<
                (),
                TrySendError<Owner::Message>,
            >(TrySendError::Disconnected(msg)),
            r matches Err(TrySendError::Full(m)) ==> m == msg && old(self).basic().sender().is_open(),
            r matches Err(TrySendError::Disconnected(m)) ==> m == msg,
            r is Err ==> final(self).basic().state() == old(self).basic().state(),
            r is Ok ==> final(self).basic().state().status() == notify_next(
                old(self).basic().state().status(),
            ),
    {
        self.mailbox.try_send(msg, &self.scheduler, &mut self.resource_ctl)
    }

    /// The resource charges made through this mailbox's controller.
    pub fn resource_ctl(&self) -> (r: &ResourceController)
        ensures
            r.charged() == self.charged(),
    {
        &self.resource_ctl
    }
}

} // verus!
