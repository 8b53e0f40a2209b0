use std::cell::RefCell;
use std::sync::atomic::{AtomicUsize, Ordering};
use std::sync::Arc;

use fsm_mailbox::fsm::{Fsm, FsmScheduler, FsmState, FsmStatus};
use fsm_mailbox::mailbox::{BasicMailbox, Mailbox};
use fsm_mailbox::queue::{SendError, TrySendError};
use fsm_mailbox::resource::{charge_groups, ResourceController, ResourceMetered};
use fsm_mailbox::sender::loose_bounded;

#[derive(Debug, PartialEq)]
struct Msg {
    id: u64,
    groups: Option<Vec<(String, u64)>>,
}

impl ResourceMetered for Msg {
    fn get_resource_consumptions(&self) -> Option<Vec<(String, u64)>> {
        self.groups.clone()
    }
}

fn plain(id: u64) -> Msg {
    Msg { id, groups: None }
}

#[derive(Debug, PartialEq)]
struct Machine {
    name: &'static str,
}

impl Fsm for Machine {
    type Message = Msg;
}

#[derive(Default)]
struct Workers {
    scheduled: RefCell<Vec<Box<Machine>>>,
}

impl FsmScheduler for Workers {
    type Fsm = Machine;

    fn schedule(&self, fsm: Box<Machine>) {
        self.scheduled.borrow_mut().push(fsm);
    }
}

fn machine() -> Box<Machine> {
    Box::new(Machine { name: "m" })
}

#[test]
fn notify_schedules_once_per_idle_period() {
    let (tx, _rx) = loose_bounded::<Msg>(100);
    let mut mb = BasicMailbox::new(tx, machine(), Arc::new(AtomicUsize::new(0)));
    let workers = Workers::default();
    let mut ctl = ResourceController::new();
    mb.force_send(plain(1), &workers, &mut ctl).unwrap();
    mb.force_send(plain(2), &workers, &mut ctl).unwrap();
    mb.try_send(plain(3), &workers, &mut ctl).unwrap();
    assert_eq!(workers.scheduled.borrow().len(), 1);
    assert_eq!(mb.len(), 3);
    assert!(!mb.is_empty());
    assert!(mb.take_fsm().is_none());
}

#[test]
fn token_notify_twice_hands_off_once() {
    let cnt = Arc::new(AtomicUsize::new(0));
    let mut st = FsmState::new(machine(), cnt.clone());
    assert_eq!(cnt.load(Ordering::Relaxed), 1);
    let workers = Workers::default();
    assert!(st.notify(&workers));
    assert!(!st.notify(&workers));
    assert_eq!(st.status_now(), FsmStatus::Scheduled);
    assert_eq!(workers.scheduled.borrow().len(), 1);
}

#[test]
fn release_without_backlog_goes_idle() {
    let mut st = FsmState::new(machine(), Arc::new(AtomicUsize::new(0)));
    let workers = Workers::default();
    let fsm = st.take_fsm().unwrap();
    assert_eq!(st.status_now(), FsmStatus::Scheduled);
    assert!(!st.release(fsm, 0, &workers));
    assert_eq!(st.status_now(), FsmStatus::Idle);
    assert_eq!(workers.scheduled.borrow().len(), 0);
    assert_eq!(st.take_fsm(), Some(machine()));
}

#[test]
fn release_with_backlog_reschedules() {
    let (tx, _rx) = loose_bounded::<Msg>(100);
    let mut mb = BasicMailbox::new(tx, machine(), Arc::new(AtomicUsize::new(0)));
    let workers = Workers::default();
    let mut ctl = ResourceController::new();
    mb.force_send(plain(1), &workers, &mut ctl).unwrap();
    let fsm = workers.scheduled.borrow_mut().pop().unwrap();
    assert!(mb.release(fsm, &workers));
    assert_eq!(workers.scheduled.borrow().len(), 1);
    assert_eq!(workers.scheduled.borrow()[0].name, "m");
}

#[test]
fn release_after_close_drops_machine() {
    let mut st = FsmState::new(machine(), Arc::new(AtomicUsize::new(0)));
    let workers = Workers::default();
    let fsm = st.take_fsm().unwrap();
    st.clear();
    assert!(!st.release(fsm, 5, &workers));
    assert_eq!(st.status_now(), FsmStatus::Closed);
    assert!(st.take_fsm().is_none());
    assert!(!st.notify(&workers));
}

#[test]
fn close_refuses_sends() {
    let (tx, _rx) = loose_bounded::<Msg>(100);
    let mut mb = BasicMailbox::new(tx, machine(), Arc::new(AtomicUsize::new(0)));
    let workers = Workers::default();
    let mut ctl = ResourceController::new();
    assert!(mb.is_connected());
    mb.close();
    assert!(!mb.is_connected());
    assert!(mb.take_fsm().is_none());
    assert_eq!(mb.force_send(plain(4), &workers, &mut ctl), Err(SendError(plain(4))));
    assert_eq!(
        mb.try_send(plain(5), &workers, &mut ctl),
        Err(TrySendError::Disconnected(plain(5)))
    );
    assert_eq!(workers.scheduled.borrow().len(), 0);
}

#[test]
fn send_fails_when_receiver_is_gone() {
    let (tx, rx) = loose_bounded::<Msg>(100);
    drop(rx);
    let mut mb = BasicMailbox::new(tx, machine(), Arc::new(AtomicUsize::new(0)));
    let workers = Workers::default();
    let mut ctl = ResourceController::new();
    assert_eq!(mb.force_send(plain(1), &workers, &mut ctl), Err(SendError(plain(1))));
    assert_eq!(
        mb.try_send(plain(2), &workers, &mut ctl),
        Err(TrySendError::Disconnected(plain(2)))
    );
    assert_eq!(workers.scheduled.borrow().len(), 0);
    assert!(mb.take_fsm().is_some());
}

#[test]
fn try_send_reports_full_at_limit() {
    let (tx, rx) = loose_bounded::<Msg>(2);
    let mut mb = BasicMailbox::new(tx, machine(), Arc::new(AtomicUsize::new(0)));
    let workers = Workers::default();
    let mut ctl = ResourceController::new();
    mb.try_send(plain(0), &workers, &mut ctl).unwrap();
    mb.try_send(plain(1), &workers, &mut ctl).unwrap();
    assert_eq!(
        mb.try_send(plain(99), &workers, &mut ctl),
        Err(TrySendError::Full(plain(99)))
    );
    assert_eq!(workers.scheduled.borrow().len(), 1);
    mb.force_send(plain(100), &workers, &mut ctl).unwrap();
    assert_eq!(rx.len(), 3);
    assert_eq!(rx.recv().unwrap().id, 0);
    assert_eq!(rx.recv().unwrap().id, 1);
    mb.try_send(plain(2), &workers, &mut ctl).unwrap();
}

#[test]
fn closed_full_mailbox_reports_disconnected() {
    let (tx, _rx) = loose_bounded::<Msg>(1);
    let mut mb = BasicMailbox::new(tx, machine(), Arc::new(AtomicUsize::new(0)));
    let workers = Workers::default();
    let mut ctl = ResourceController::new();
    mb.force_send(plain(0), &workers, &mut ctl).unwrap();
    mb.close();
    assert_eq!(
        mb.try_send(plain(1), &workers, &mut ctl),
        Err(TrySendError::Disconnected(plain(1)))
    );
}

#[test]
fn try_send_observed_rule() {
    let (mut tx, _rx) = loose_bounded::<u64>(4);
    assert_eq!(tx.try_send_observed(1, 3), Ok(()));
    assert_eq!(tx.try_send_observed(2, 4), Err(TrySendError::Full(2)));
    assert_eq!(tx.try_send_observed(3, 9), Err(TrySendError::Full(3)));
    tx.close_sender();
    assert_eq!(tx.try_send_observed(4, 0), Err(TrySendError::Disconnected(4)));
    assert_eq!(tx.try_send_observed(5, 9), Err(TrySendError::Disconnected(5)));
}

#[test]
fn resource_accounting_picks_dominant_group() {
    let (tx, _rx) = loose_bounded::<Msg>(100);
    let mb = BasicMailbox::new(tx, machine(), Arc::new(AtomicUsize::new(0)));
    let workers = Workers::default();
    let mut mailbox = Mailbox::new(mb, workers, ResourceController::new());
    let msg = Msg {
        id: 1,
        groups: Some(vec![("groupA".to_string(), 10), ("groupB".to_string(), 30)]),
    };
    mailbox.force_send(msg).unwrap();
    let ctl = mailbox.resource_ctl();
    assert_eq!(ctl.total(&"groupA".to_string()), 10);
    assert_eq!(ctl.total(&"groupB".to_string()), 30);
    assert_eq!(ctl.total(&"other".to_string()), 0);
}

#[test]
fn last_group_follows_each_message() {
    let (tx, _rx) = loose_bounded::<Msg>(100);
    let mut mb = BasicMailbox::new(tx, machine(), Arc::new(AtomicUsize::new(0)));
    let workers = Workers::default();
    let mut ctl = ResourceController::new();
    assert_eq!(mb.last_msg_group(), "default");
    let msg = Msg {
        id: 1,
        groups: Some(vec![("groupA".to_string(), 10), ("groupB".to_string(), 30)]),
    };
    mb.force_send(msg, &workers, &mut ctl).unwrap();
    assert_eq!(mb.last_msg_group(), "groupB");
    mb.try_send(plain(2), &workers, &mut ctl).unwrap();
    assert_eq!(mb.last_msg_group(), "default");
    assert_eq!(ctl.total(&"groupB".to_string()), 30);
    assert_eq!(ctl.total(&"default".to_string()), 0);
}

#[test]
fn dominant_ties_keep_first_group() {
    let mut ctl = ResourceController::new();
    let groups = vec![
        ("a".to_string(), 5),
        ("b".to_string(), 9),
        ("c".to_string(), 9),
        ("a".to_string(), 1),
    ];
    assert_eq!(charge_groups(groups, &mut ctl), "b");
    assert_eq!(ctl.total(&"a".to_string()), 6);
    assert_eq!(ctl.total(&"c".to_string()), 9);
    let mut ctl2 = ResourceController::new();
    assert_eq!(charge_groups(vec![("z".to_string(), 0)], &mut ctl2), "default");
    assert_eq!(ctl2.total(&"z".to_string()), 0);
}

#[test]
fn mailbox_try_send_through_bound_scheduler() {
    let (tx, rx) = loose_bounded::<Msg>(100);
    let mb = BasicMailbox::new(tx, machine(), Arc::new(AtomicUsize::new(0)));
    let mut mailbox = Mailbox::new(mb, Workers::default(), ResourceController::new());
    mailbox.try_send(plain(1)).unwrap();
    mailbox.try_send(plain(2)).unwrap();
    assert_eq!(rx.try_recv().unwrap().id, 1);
    drop(rx);
    assert_eq!(mailbox.try_send(plain(3)), Err(TrySendError::Disconnected(plain(3))));
}
