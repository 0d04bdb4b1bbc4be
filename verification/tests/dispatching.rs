use pathfinder::domain::{NodeInfo, PathRequest};
use pathfinder::node_connector::{ConnectionError, ListenerFault};
use pathfinder::server::{Command, CrashReason, Dispatcher, Incoming};

fn request(id: u64) -> PathRequest {
    PathRequest::new(id, NodeInfo(1, 0), NodeInfo(2, 0), 1, vec![], 0, vec![])
}

fn holding(workers: usize, worker: usize) -> Dispatcher {
    let (dispatcher, _) = Dispatcher::new(workers);
    let (dispatcher, command) = dispatcher.step(Incoming::WorkerFree(worker));
    assert!(matches!(command, Command::Listen));
    dispatcher
}

#[test]
fn dispatcher_waits_for_a_worker_first() {
    let (dispatcher, command) = Dispatcher::new(3);
    assert!(matches!(command, Command::AwaitWorker));
    assert_eq!(dispatcher.worker_count(), 3);
    assert_eq!(dispatcher.in_flight(), 0);
}

#[test]
fn request_goes_to_the_worker_whose_credit_is_held() {
    let dispatcher = holding(3, 1);
    let (dispatcher, command) = dispatcher.step(Incoming::Request(request(9)));
    match command {
        Command::Deliver(1, delivered) => assert_eq!(delivered.request_id, 9),
        other => panic!("not delivered: {:?}", other),
    }
    assert_eq!(dispatcher.in_flight(), 1);
}

#[test]
fn in_flight_never_exceeds_the_workers() {
    let (mut dispatcher, _) = Dispatcher::new(2);
    for worker in 0..2 {
        let (next, command) = dispatcher.step(Incoming::WorkerFree(worker));
        assert!(matches!(command, Command::Listen));
        let (next, command) = next.step(Incoming::Request(request(worker as u64)));
        assert!(matches!(command, Command::Deliver(w, _) if w == worker));
        dispatcher = next;
    }
    assert_eq!(dispatcher.in_flight(), 2);
    let (dispatcher, command) = dispatcher.step(Incoming::Request(request(5)));
    assert!(matches!(command, Command::Crash(CrashReason::Unexpected)));
    assert_eq!(dispatcher.in_flight(), 2);
}

#[test]
fn worker_that_signals_idle_is_counted_out() {
    let dispatcher = holding(2, 0);
    let (dispatcher, _) = dispatcher.step(Incoming::Request(request(1)));
    assert_eq!(dispatcher.in_flight(), 1);
    let (dispatcher, command) = dispatcher.step(Incoming::WorkerFree(0));
    assert!(matches!(command, Command::Listen));
    assert_eq!(dispatcher.in_flight(), 0);
}

#[test]
fn failed_receive_does_not_consume_a_credit() {
    for error in [
        ConnectionError::DeserializationError(vec![1, 2]),
        ConnectionError::RedisDeserializationError("bad".to_string()),
        ConnectionError::TargetDoesNotExist(4),
    ] {
        let dispatcher = holding(2, 1);
        let (dispatcher, command) = dispatcher.step(Incoming::ListenerFailed(error));
        assert!(matches!(command, Command::ReturnCredit(1)));
        assert_eq!(dispatcher.in_flight(), 0);
        let (dispatcher, command) = dispatcher.step(Incoming::WorkerFree(1));
        assert!(matches!(command, Command::Listen));
        let (_, command) = dispatcher.step(Incoming::Request(request(3)));
        assert!(matches!(command, Command::Deliver(1, _)));
    }
}

#[test]
fn ended_stream_returns_the_credit_and_stops_the_dispatcher() {
    let dispatcher = holding(2, 1);
    let (dispatcher, _) = dispatcher.step(Incoming::Request(request(1)));
    let (dispatcher, _) = dispatcher.step(Incoming::WorkerFree(0));
    let (dispatcher, command) = dispatcher.step(Incoming::ListenerFailed(ConnectionError::NoRequest));
    assert!(matches!(command, Command::Close(0)));
    assert_eq!(dispatcher.in_flight(), 1);
    let (_, command) = dispatcher.step(Incoming::WorkerFree(0));
    assert!(matches!(command, Command::Crash(CrashReason::Unexpected)));
}

#[test]
fn what_a_failure_means_to_the_listener() {
    assert_eq!(ConnectionError::ProtocolError(String::new()).fault(), ListenerFault::Socket);
    assert_eq!(ConnectionError::NoRequest.fault(), ListenerFault::Closed);
    assert_eq!(ConnectionError::DeserializationError(vec![]).fault(), ListenerFault::Message);
    assert_eq!(ConnectionError::TargetDoesNotExist(1).fault(), ListenerFault::Message);
    assert_eq!(
        ConnectionError::RedisDeserializationError(String::new()).fault(),
        ListenerFault::Message
    );
}

#[test]
fn protocol_error_stops_the_server() {
    let dispatcher = holding(2, 1);
    let (dispatcher, command) =
        dispatcher.step(Incoming::ListenerFailed(ConnectionError::ProtocolError("gone".to_string())));
    assert!(matches!(command, Command::Crash(CrashReason::Protocol)));
    let (_, command) = dispatcher.step(Incoming::WorkerFree(0));
    assert!(matches!(command, Command::Crash(CrashReason::Unexpected)));
}

#[test]
fn closed_free_channel_is_waited_on() {
    let (dispatcher, _) = Dispatcher::new(1);
    let (_, command) = dispatcher.step(Incoming::FreeClosed);
    assert!(matches!(command, Command::AwaitWorker));
}

#[test]
fn failed_delivery_stops_the_server() {
    let dispatcher = holding(1, 0);
    let (dispatcher, _) = dispatcher.step(Incoming::Request(request(1)));
    let (_, command) = dispatcher.step(Incoming::DeliveryFailed);
    assert!(matches!(command, Command::Crash(CrashReason::WorkerGone)));
}

#[test]
fn credit_of_an_unknown_worker_stops_the_server() {
    let (dispatcher, _) = Dispatcher::new(2);
    let (_, command) = dispatcher.step(Incoming::WorkerFree(2));
    assert!(matches!(command, Command::Crash(CrashReason::UnknownWorker)));
}

#[test]
fn fatal_errors() {
    assert!(ConnectionError::ProtocolError(String::new()).is_fatal());
    assert!(!ConnectionError::NoRequest.is_fatal());
    assert!(!ConnectionError::DeserializationError(vec![]).is_fatal());
    assert!(!ConnectionError::TargetDoesNotExist(1).is_fatal());
    assert!(!ConnectionError::RedisDeserializationError(String::new()).is_fatal());
}
