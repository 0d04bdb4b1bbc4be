use pathfinder::bootstrap::{BootStep, Bootstrap};
use pathfinder::node_connector::{
    is_ack, send_next, send_start, ConnectionError, SendReport, SendStep,
};

#[test]
fn only_ok_acknowledges() {
    assert!(is_ack(b"OK"));
    assert!(!is_ack(b"ok"));
    assert!(!is_ack(b"OK "));
    assert!(!is_ack(b"O"));
    assert!(!is_ack(b""));
    assert!(!is_ack(&[0xff, 0xfe]));
}

#[test]
fn transport_retry() {
    assert!(matches!(send_start(4, true), SendStep::Transmit));
    let mut transmissions = 1;
    for reply in [&b"busy"[..], &[0xff, 0x00][..], &b""[..], &b"OK"[..]] {
        match send_next(SendReport::Reply(reply.to_vec())) {
            SendStep::Transmit => transmissions += 1,
            SendStep::Delivered => {
                assert_eq!(reply, b"OK");
                break;
            }
            other => panic!("gave up: {:?}", other),
        }
    }
    assert_eq!(transmissions, 4);
}

#[test]
fn send_to_an_unknown_server_fails() {
    assert!(matches!(
        send_start(4, false),
        SendStep::Failed(ConnectionError::TargetDoesNotExist(4))
    ));
}

#[test]
fn socket_failure_ends_the_sending() {
    match send_next(SendReport::SocketFailed("reset".to_string())) {
        SendStep::Failed(ConnectionError::ProtocolError(text)) => assert_eq!(text, "reset"),
        other => panic!("went on: {:?}", other),
    }
}

#[test]
fn server_comes_up_region_by_region() {
    let (boot, step) = Bootstrap::new(9, vec![4, 6], 3);
    assert_eq!(step, BootStep::Load(4));
    let (boot, step) = boot.step(true);
    assert_eq!(step, BootStep::ClaimRegion(4, 9));
    let (boot, step) = boot.step(true);
    assert_eq!(step, BootStep::ClaimNodes(4));
    let (boot, step) = boot.step(true);
    assert_eq!(step, BootStep::Load(6));
    let (boot, step) = boot.step(true);
    assert_eq!(step, BootStep::ClaimRegion(6, 9));
    let (boot, step) = boot.step(true);
    assert_eq!(step, BootStep::ClaimNodes(6));
    let (boot, step) = boot.step(true);
    assert_eq!(step, BootStep::Serve(3));
    let (_, step) = boot.step(true);
    assert_eq!(step, BootStep::Serve(3));
}

#[test]
fn server_without_regions_serves_at_once() {
    let (_, step) = Bootstrap::new(9, vec![], 2);
    assert_eq!(step, BootStep::Serve(2));
}

#[test]
fn failed_step_ends_the_coming_up() {
    let (boot, _) = Bootstrap::new(9, vec![4, 6], 3);
    let (boot, _) = boot.step(true);
    let (boot, step) = boot.step(false);
    assert_eq!(step, BootStep::Abort);
    let (_, step) = boot.step(true);
    assert_eq!(step, BootStep::Abort);
}
