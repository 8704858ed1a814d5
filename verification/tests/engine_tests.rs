use aqueue::engine::Engine;
use aqueue::errors::QueueError;

#[test]
fn tickets_are_assigned_in_order() {
    let mut e = Engine::new();
    assert_eq!(e.submit(), Ok(0));
    assert_eq!(e.submit(), Ok(1));
    assert_eq!(e.submit(), Ok(2));
}

#[test]
fn drain_returns_tickets_in_push_order() {
    let mut e = Engine::new();
    for _ in 0..5 {
        e.submit().unwrap();
    }
    assert!(e.try_become_runner());
    assert_eq!(e.drain(), vec![0, 1, 2, 3, 4]);
}

#[test]
fn election_is_exclusive() {
    let mut e = Engine::new();
    assert!(e.try_become_runner());
    // A second caller cannot become runner while the first one drains.
    assert!(!e.try_become_runner());
}

#[test]
fn runner_steps_down_on_empty_store() {
    let mut e = Engine::new();
    e.submit().unwrap();
    assert!(e.try_become_runner());
    assert_eq!(e.pop_cycle(), Some(0));
    assert_eq!(e.pop_cycle(), None);
    // The engine returned to Idle: a fresh election succeeds.
    assert!(e.try_become_runner());
}

#[test]
fn return_to_idle_after_drain() {
    let mut e = Engine::new();
    e.submit().unwrap();
    e.submit().unwrap();
    assert!(e.try_become_runner());
    assert_eq!(e.drain(), vec![0, 1]);
    // All tasks handed out and the store empty: a fresh submission re-elects.
    assert_eq!(e.submit(), Ok(2));
    assert!(e.try_become_runner());
    assert_eq!(e.drain(), vec![2]);
}

#[test]
fn flag_is_clear_between_operations() {
    let mut e = Engine::new();
    assert!(e.may_elect());
    e.submit().unwrap();
    assert!(e.may_elect());
    assert!(e.try_become_runner());
    assert!(e.may_elect());
}

#[test]
fn submit_and_run_drains_own_task_when_idle() {
    let mut e = Engine::new();
    let (id, ran) = e.submit_and_run().unwrap();
    assert_eq!(id, 0);
    assert_eq!(ran, vec![0]);
}

#[test]
fn submit_and_run_defers_to_active_runner() {
    let mut e = Engine::new();
    assert!(e.try_become_runner());
    let (id, ran) = e.submit_and_run().unwrap();
    assert_eq!(id, 0);
    // The election was lost: the active runner owns the ticket.
    assert_eq!(ran, Vec::<u64>::new());
    assert_eq!(e.drain(), vec![0]);
}

#[test]
fn submit_and_run_keeps_fifo_across_earlier_pending() {
    let mut e = Engine::new();
    e.submit().unwrap();
    e.submit().unwrap();
    let (id, ran) = e.submit_and_run().unwrap();
    assert_eq!(id, 2);
    // The caller that won the election runs everything pending before its
    // own task, then its own: strict push order.
    assert_eq!(ran, vec![0, 1, 2]);
}

#[test]
fn pushes_during_drain_keep_fifo() {
    let mut e = Engine::new();
    e.submit().unwrap();
    e.submit().unwrap();
    assert!(e.try_become_runner());
    assert_eq!(e.pop_cycle(), Some(0));
    // A concurrent caller pushes while the runner drains.
    assert_eq!(e.submit(), Ok(2));
    assert_eq!(e.pop_cycle(), Some(1));
    assert_eq!(e.pop_cycle(), Some(2));
    assert_eq!(e.pop_cycle(), None);
}

#[test]
fn shut_down_discards_pending_in_order() {
    let mut e = Engine::new();
    e.submit().unwrap();
    e.submit().unwrap();
    e.submit().unwrap();
    assert_eq!(e.shut_down(), vec![0, 1, 2]);
}

#[test]
fn submit_after_shut_down_fails() {
    let mut e = Engine::new();
    e.submit().unwrap();
    e.shut_down();
    assert_eq!(e.submit(), Err(QueueError::PushFailed));
}

#[test]
fn shut_down_twice_is_harmless() {
    let mut e = Engine::new();
    e.submit().unwrap();
    assert_eq!(e.shut_down(), vec![0]);
    assert_eq!(e.shut_down(), Vec::<u64>::new());
}

#[test]
fn a_thousand_tasks_complete_in_fifo_order() {
    let mut e = Engine::new();
    let mut expected = Vec::new();
    for i in 0..1000 {
        assert_eq!(e.submit(), Ok(i));
        expected.push(i);
    }
    assert!(e.try_become_runner());
    assert_eq!(e.drain(), expected);
    assert_eq!(e.submit(), Ok(1000));
}

#[test]
fn error_kinds_are_distinct() {
    assert_ne!(QueueError::PushFailed, QueueError::DeliveryFailed);
    assert_eq!(QueueError::PushFailed.describe(), "the store rejected the push");
    assert_eq!(QueueError::DeliveryFailed.describe(), "tx is close");
}
