use aqueue::engine::Engine;
use aqueue::errors::QueueError;
use aqueue::task::finish_task;
use aqueue::task::interpret_receipt;

fn receive<T>(rx: async_oneshot::Receiver<T>) -> Result<T, async_oneshot::Closed> {
    match rx.try_recv() {
        Ok(v) => Ok(v),
        Err(async_oneshot::TryRecvError::Closed) => Err(async_oneshot::Closed()),
        Err(async_oneshot::TryRecvError::Empty(_)) => panic!("channel still pending"),
    }
}

#[test]
fn finish_task_delivers_the_value() {
    let (tx, rx) = async_oneshot::oneshot::<u64>();
    assert_eq!(finish_task(tx, 42), Ok(()));
    assert_eq!(receive(rx), Ok(42));
}

#[test]
fn finish_task_reports_abandoned_receiver() {
    let (tx, rx) = async_oneshot::oneshot::<u64>();
    rx.close();
    assert_eq!(finish_task(tx, 42), Err(QueueError::DeliveryFailed));
}

#[test]
fn interpret_receipt_passes_values_through() {
    assert_eq!(interpret_receipt::<u64>(Ok(7)), Ok(7));
}

#[test]
fn interpret_receipt_maps_closed_channel() {
    assert_eq!(
        interpret_receipt::<u64>(Err(async_oneshot::Closed())),
        Err(QueueError::DeliveryFailed)
    );
}

#[test]
fn single_submission_resolves_with_its_result() {
    // One caller submits a computation producing 42; it wins the election,
    // drains its own ticket, and its receiver resolves with the value.
    let mut e = Engine::new();
    let (tx, rx) = async_oneshot::oneshot::<u64>();
    let (id, ran) = e.submit_and_run().unwrap();
    assert_eq!(ran, vec![id]);
    assert_eq!(finish_task(tx, 42), Ok(()));
    assert_eq!(interpret_receipt(receive(rx)), Ok(42));
}

#[test]
fn domain_error_travels_as_a_value() {
    // The computation's own error is an ordinary outcome, not an engine
    // failure: the channel delivers it and the drain loop goes on.
    let (tx, rx) = async_oneshot::oneshot::<Result<u64, String>>();
    assert_eq!(finish_task(tx, Err("boom".to_string())), Ok(()));
    assert_eq!(interpret_receipt(receive(rx)), Ok(Err("boom".to_string())));
}

#[test]
fn discarded_task_fails_its_receiver() {
    // The engine is torn down with one ticket still queued: its sender is
    // dropped unexecuted and the waiting caller observes a delivery failure.
    let mut e = Engine::new();
    let (tx, rx) = async_oneshot::oneshot::<u64>();
    e.submit().unwrap();
    let discarded = e.shut_down();
    assert_eq!(discarded, vec![0]);
    drop(tx);
    assert_eq!(interpret_receipt(receive(rx)), Err(QueueError::DeliveryFailed));
}

#[test]
fn two_callers_complete_in_push_order() {
    // Caller A pushes before caller B; whoever runs, A's channel is sent
    // through before B's.
    let mut e = Engine::new();
    let (tx_a, rx_a) = async_oneshot::oneshot::<&'static str>();
    let (tx_b, rx_b) = async_oneshot::oneshot::<&'static str>();
    let a = e.submit().unwrap();
    let b = e.submit().unwrap();
    assert!(a < b);
    assert!(e.try_become_runner());
    let order = e.drain();
    assert_eq!(order, vec![a, b]);
    let mut tx_a = Some(tx_a);
    let mut tx_b = Some(tx_b);
    let mut resolved = Vec::new();
    for id in order {
        if id == a {
            assert_eq!(finish_task(tx_a.take().unwrap(), "A"), Ok(()));
        } else {
            assert_eq!(finish_task(tx_b.take().unwrap(), "B"), Ok(()));
        }
        resolved.push(id);
    }
    assert_eq!(resolved, vec![a, b]);
    assert_eq!(interpret_receipt(receive(rx_a)), Ok("A"));
    assert_eq!(interpret_receipt(receive(rx_b)), Ok("B"));
}
