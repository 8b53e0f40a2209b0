use fsm_mailbox::key::MapKey;
use fsm_mailbox::queue::{PriorityQueue, RecvStep, SendError, TryRecvError, TrySendError};

const LOW: u64 = 0;
const NORMAL: u64 = 1;
const HIGH: u64 = 2;

#[test]
fn test_priority() {
    let mut q = PriorityQueue::<u64>::new();
    q.try_send(1, NORMAL).unwrap();
    q.send(2, LOW).unwrap();
    q.send(3, HIGH).unwrap();

    assert_eq!(q.try_recv(), Ok(2));
    assert_eq!(q.recv_step(), RecvStep::Ready(1));
    assert_eq!(q.recv_step(), RecvStep::Ready(3));
    assert_eq!(q.try_recv(), Err(TryRecvError::Empty));

    q.drop_receiver();
    assert_eq!(q.send(2, LOW), Err(SendError(2)));
    assert_eq!(q.try_send(2, LOW), Err(TrySendError::Disconnected(2)));

    let mut q = PriorityQueue::<u64>::new();
    assert!(q.drop_sender());
    assert_eq!(q.recv_step(), RecvStep::Closed);
    assert_eq!(q.try_recv(), Err(TryRecvError::Disconnected));

    let mut q = PriorityQueue::<u64>::new();
    assert_eq!(q.len(), 0);
    q.send(2, LOW).unwrap();
    q.send(3, NORMAL).unwrap();
    assert_eq!(q.len(), 2);
    q.drop_sender();
    assert_eq!(q.try_recv(), Ok(2));
    assert_eq!(q.recv_step(), RecvStep::Ready(3));
    assert_eq!(q.try_recv(), Err(TryRecvError::Disconnected));
    assert_eq!(q.recv_step(), RecvStep::Closed);
}

#[test]
fn receive_order_example() {
    let mut q = PriorityQueue::<u64>::new();
    q.send(1, 1).unwrap();
    q.send(2, 0).unwrap();
    q.send(3, 2).unwrap();
    assert_eq!(q.try_recv(), Ok(2));
    assert_eq!(q.try_recv(), Ok(1));
    assert_eq!(q.try_recv(), Ok(3));
}

#[test]
fn equal_priority_is_first_in_first_out() {
    let mut q = PriorityQueue::<&str>::new();
    q.send("a", 5).unwrap();
    q.send("b", 5).unwrap();
    q.send("urgent", 1).unwrap();
    q.send("c", 5).unwrap();
    assert_eq!(q.try_recv(), Ok("urgent"));
    assert_eq!(q.try_recv(), Ok("a"));
    assert_eq!(q.try_recv(), Ok("b"));
    assert_eq!(q.try_recv(), Ok("c"));
    assert_eq!(q.try_recv(), Err(TryRecvError::Empty));
}

#[test]
fn send_waits_while_empty_with_sender() {
    let mut q = PriorityQueue::<u64>::new();
    assert_eq!(q.recv_step(), RecvStep::Wait);
    assert!(q.is_connected());
    q.send(10, LOW).unwrap();
    assert_eq!(q.recv_step(), RecvStep::Ready(10));
}

#[test]
fn receivers_and_senders_are_counted() {
    let mut q = PriorityQueue::<u64>::new();
    q.add_receiver();
    q.drop_receiver();
    assert_eq!(q.send(7, LOW), Ok(()));
    q.add_sender();
    assert!(!q.drop_sender());
    assert!(q.is_connected());
    assert!(q.drop_sender());
    assert!(!q.is_connected());
    assert_eq!(q.try_recv(), Ok(7));
    assert_eq!(q.try_recv(), Err(TryRecvError::Disconnected));
}

#[test]
fn conservation_interleaved() {
    let mut q = PriorityQueue::<u64>::new();
    let mut expected: u64 = 0;
    let mut real: u64 = 0;
    let mut received: u64 = 0;
    for i in 0..1000u64 {
        for p in 0..10u64 {
            q.send(i, p % 3).unwrap();
            expected += i;
        }
        if i % 3 == 0 {
            if let Ok(v) = q.try_recv() {
                real += v;
                received += 1;
            }
        }
    }
    q.drop_sender();
    loop {
        match q.recv_step() {
            RecvStep::Ready(v) => {
                real += v;
                received += 1;
            }
            RecvStep::Closed => break,
            RecvStep::Wait => panic!("no sender is left"),
        }
    }
    assert_eq!(received, 10_000);
    assert_eq!(expected, real);
}

#[test]
fn map_keys_are_allocated_in_order() {
    let mut q = PriorityQueue::<u64>::new();
    let a = q.get_map_key(3);
    let b = q.get_map_key(3);
    let c = q.get_map_key(1);
    assert_eq!(a, MapKey { priority: 3, sequence: 0 });
    assert_eq!(b, MapKey { priority: 3, sequence: 1 });
    assert_eq!(c.sequence, 2);
    assert!(a.precedes(&b));
    assert!(c.precedes(&a));
    assert_eq!(a.cmp(&b), std::cmp::Ordering::Less);
    assert_eq!(a.cmp(&c), std::cmp::Ordering::Greater);
    assert_eq!(a.cmp(&a), std::cmp::Ordering::Equal);
}
