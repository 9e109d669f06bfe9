use socket_forward::client::Client;
use socket_forward::greeting::{hello_message, hello_message_now};
use socket_forward::handoff::{
    ack_message, check_ack, handoff_message, received_descriptor, AckError, ControlSummary,
    HandoffPlan, HandoffSkip, ReceiveOutcome,
};
use socket_forward::registry::ConnectionRegistry;
use socket_forward::server::{
    bind_failure_recovery, handler_step, shutdown_wait_over, BindRecovery, ConnectionIds,
    HandlerAction, HandlerEvent,
};

fn peers(list: &[&str]) -> Vec<String> {
    list.iter().map(|s| s.to_string()).collect()
}

#[test]
fn handoff_start_reasons() {
    assert_eq!(HandoffPlan::start(0, peers(&["/tmp/a"])).err(), Some(HandoffSkip::NoConnections));
    assert_eq!(HandoffPlan::start(0, peers(&[])).err(), Some(HandoffSkip::NoConnections));
    assert_eq!(HandoffPlan::start(2, peers(&[])).err(), Some(HandoffSkip::NoPeers));
    let plan = HandoffPlan::start(2, peers(&["/tmp/a"])).ok().unwrap();
    assert!(plan.handed_off().is_empty());
    assert_eq!(plan.peers(), &peers(&["/tmp/a"]));
}

#[test]
fn round_robin_over_acknowledged_connections() {
    let mut plan = HandoffPlan::start(5, peers(&["/tmp/a", "/tmp/b", "/tmp/c"])).ok().unwrap();
    assert_eq!(plan.next_target(), "/tmp/a");
    plan.record_success(10);
    assert_eq!(plan.next_target(), "/tmp/b");
    plan.record_success(11);
    assert_eq!(plan.next_target(), "/tmp/c");
    plan.record_success(12);
    assert_eq!(plan.next_target(), "/tmp/a");
    plan.record_success(13);
    assert_eq!(plan.next_target(), "/tmp/b");
    assert_eq!(plan.handed_off(), &vec![10u64, 11, 12, 13]);
}

#[test]
fn stale_sibling_is_skipped() {
    // the first sibling is a stale socket that refuses every offer
    let mut plan = HandoffPlan::start(2, peers(&["/tmp/stale", "/tmp/live"])).ok().unwrap();
    assert_eq!(plan.next_target(), "/tmp/stale");
    assert!(plan.record_failure());
    assert_eq!(plan.next_target(), "/tmp/live");
    plan.record_success(1);
    assert_eq!(plan.next_target(), "/tmp/stale");
    assert!(plan.record_failure());
    assert_eq!(plan.next_target(), "/tmp/live");
    plan.record_success(2);
    assert_eq!(plan.handed_off(), &vec![1u64, 2]);
}

#[test]
fn connection_refused_everywhere_is_given_up() {
    let mut plan = HandoffPlan::start(2, peers(&["/tmp/a", "/tmp/b", "/tmp/c"])).ok().unwrap();
    plan.record_success(7);
    assert_eq!(plan.next_target(), "/tmp/b");
    assert!(plan.record_failure());
    assert_eq!(plan.next_target(), "/tmp/c");
    assert!(plan.record_failure());
    assert_eq!(plan.next_target(), "/tmp/a");
    assert!(!plan.record_failure());
    // the next connection starts where the given-up one did
    assert_eq!(plan.next_target(), "/tmp/b");
    assert_eq!(plan.handed_off(), &vec![7u64]);
}

#[test]
fn ack_exchange() {
    assert_eq!(&handoff_message(), b"HANDOFF");
    assert_eq!(&ack_message(), b"ACK");
    assert_eq!(check_ack(&ack_message()), Ok(()));
    assert_eq!(check_ack(b"ACK"), Ok(()));
    assert_eq!(check_ack(b"NAK"), Err(AckError::InvalidAcknowledgment));
    assert_eq!(check_ack(&[0, 0, 0]), Err(AckError::InvalidAcknowledgment));
    assert_eq!(check_ack(b"ACk"), Err(AckError::InvalidAcknowledgment));
}

#[test]
fn descriptor_from_first_control_message() {
    assert_eq!(received_descriptor(&None), ReceiveOutcome::NoDescriptor);
    assert_eq!(received_descriptor(&Some(ControlSummary::ScmRights(vec![7, 8]))), ReceiveOutcome::Descriptor(7));
    assert_eq!(received_descriptor(&Some(ControlSummary::ScmRights(vec![]))), ReceiveOutcome::Stuck);
    assert_eq!(received_descriptor(&Some(ControlSummary::Other)), ReceiveOutcome::Stuck);
}

#[test]
fn registry_save_and_remove() {
    let mut reg: ConnectionRegistry<&'static str> = ConnectionRegistry::new();
    assert_eq!(reg.len(), 0);
    reg.save(1, "one");
    reg.save(2, "two");
    reg.save(3, "three");
    reg.save(2, "deux");
    assert_eq!(reg.len(), 3);
    assert_eq!(reg.get(2), Some(&"deux"));
    assert_eq!(reg.get(9), None);
    let mut ids = reg.ids();
    ids.sort();
    assert_eq!(ids, vec![1, 2, 3]);
    let removed = reg.remove_handed_off(&vec![3, 9, 1]);
    assert_eq!(removed, vec!["three", "one"]);
    assert_eq!(reg.len(), 1);
    assert_eq!(reg.ids(), vec![2]);
}

#[test]
fn connection_ids_are_fresh() {
    let mut ids = ConnectionIds::new();
    assert_eq!(ids.peek(), 0);
    assert_eq!(ids.allocate(), 0);
    assert_eq!(ids.allocate(), 1);
    assert_eq!(ids.allocate(), 2);
    assert_eq!(ids.peek(), 3);
}

#[test]
fn shutdown_wait() {
    assert!(shutdown_wait_over(2, 2, 0, 30_000_000_000));
    assert!(shutdown_wait_over(3, 2, 0, 30_000_000_000));
    assert!(!shutdown_wait_over(1, 2, 30_000_000_000, 30_000_000_000));
    assert!(shutdown_wait_over(1, 2, 30_000_000_001, 30_000_000_000));
    assert!(shutdown_wait_over(0, 0, 0, 0));
}

#[test]
fn handler_reactions() {
    assert_eq!(handler_step(&HandlerEvent::ShutdownRequested), HandlerAction::SaveConnection);
    assert_eq!(handler_step(&HandlerEvent::GreetingSent), HandlerAction::PauseThenGreet);
    assert_eq!(handler_step(&HandlerEvent::WriteFailed), HandlerAction::Disconnect);
}

#[test]
fn bind_recovery() {
    assert_eq!(bind_failure_recovery(true), BindRecovery::RemoveStaleAndRetry);
    assert_eq!(bind_failure_recovery(false), BindRecovery::Fail);
}

#[test]
fn greeting_lines() {
    assert_eq!(hello_message(3, "12:34:56"), "[Server 3] - 12:34:56 - Hello from server!\n");
    let line = hello_message_now(17);
    assert!(line.starts_with("[Server 17] - "));
    assert!(line.ends_with(" - Hello from server!\n"));
    let clock = &line["[Server 17] - ".len().."[Server 17] - ".len() + 8];
    let b = clock.as_bytes();
    assert_eq!(b[2], b':');
    assert_eq!(b[5], b':');
    for i in [0usize, 1, 3, 4, 6, 7] {
        assert!(b[i].is_ascii_digit());
    }
    let hour: u32 = clock[0..2].parse().unwrap();
    assert!(hour <= 23);
}

#[test]
fn client_keeps_address() {
    let client = Client::new("127.0.0.1:3000".to_string());
    assert_eq!(client.server_address(), "127.0.0.1:3000");
}
