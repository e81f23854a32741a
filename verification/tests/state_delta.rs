use gameroom_ledger::address::calculate_address;
use gameroom_ledger::event::{StateChange, StateChangeEvent};
use gameroom_ledger::projection::{Party, Projection};
use gameroom_ledger::state_delta::{StateDeltaError, StatusStateDeltaProcessor, Step};
use gameroom_ledger::status::Status;

const GENESIS: &[u8] = b"00ec02b7e8d6f8a1c4a0e0e5b1a9d3c2f4e6a8b0c1d2e3f4a5b6c7d8e9f0a1b2c3d4e5";

fn party(id: &str, status: &str) -> Party {
    Party { id: id.as_bytes().to_vec(), status: status.as_bytes().to_vec(), updated_time: 1 }
}

fn pending() -> Projection {
    Projection::new(
        b"Pending".to_vec(),
        vec![party("node-a", "Ready"), party("node-b", "Pending")],
        vec![party("svc-a", "Ready"), party("svc-b", "Ready")],
        1,
    )
}

fn processor() -> StatusStateDeltaProcessor {
    StatusStateDeltaProcessor::new(b"circuit-1", b"node-a", b"02requester", GENESIS)
}

fn event(id: &str, changes: Vec<StateChange>) -> StateChangeEvent {
    StateChangeEvent { id: id.as_bytes().to_vec(), state_changes: changes }
}

fn put(key: &[u8], value: &[u8]) -> StateChange {
    StateChange::Put { key: key.to_vec(), value: value.to_vec() }
}

fn kinds(projection: &Projection) -> Vec<String> {
    projection
        .notifications()
        .iter()
        .map(|n| String::from_utf8(n.notification_type.clone()).unwrap())
        .collect()
}

#[test]
fn genesis_write_activates_the_circuit() {
    let mut projection = pending();
    processor()
        .handle_state_change_event(&mut projection, &event("e1", vec![put(GENESIS, b"contract")]), 50)
        .expect("nothing to read in a genesis write");
    assert_eq!(kinds(&projection), vec!["circuit_active"]);
    let note = &projection.notifications()[0];
    assert_eq!(note.requester, b"02requester");
    assert_eq!(note.requester_node_id, b"node-a");
    assert_eq!(note.target, b"circuit-1");
    assert_eq!(note.created_time, 50);
    assert!(!note.read);
    assert_eq!(projection.status(), b"Active");
    let members: Vec<(&[u8], u64)> =
        projection.members().iter().map(|p| (&p.status[..], p.updated_time)).collect();
    assert_eq!(members, vec![(&b"Active"[..], 50), (&b"Pending"[..], 1)]);
    let services: Vec<(&[u8], u64)> =
        projection.services().iter().map(|p| (&p.status[..], p.updated_time)).collect();
    assert_eq!(services, vec![(&b"Active"[..], 50), (&b"Active"[..], 50)]);
    assert_eq!(projection.last_event(), b"e1");
}

#[test]
fn redelivered_event_takes_effect_again() {
    let mut projection = pending();
    let processor = processor();
    let delivered = event("e1", vec![put(GENESIS, b"contract")]);
    processor.handle_state_change_event(&mut projection, &delivered, 50).unwrap();
    processor.handle_state_change_event(&mut projection, &delivered, 60).unwrap();
    assert_eq!(kinds(&projection), vec!["circuit_active", "circuit_active"]);
    assert_eq!(projection.last_event(), b"e1");
    assert_eq!(projection.status(), b"Active");
}

#[test]
fn status_write_inserts_then_updates_the_row() {
    let mut projection = pending();
    let processor = processor();
    let address = calculate_address(b"alice");
    let mut alice = Status::new(b"alice".to_vec());
    alice.set_participant1(b"02first");
    alice.set_participant2(b"03second");
    processor
        .handle_state_change_event(&mut projection, &event("e1", vec![put(&address, &alice.to_bytes())]), 100)
        .unwrap();
    alice.update_status(b"LOADING,1700,,,,,,,true,90,berth busy, tug late", b"02first").unwrap();
    processor
        .handle_state_change_event(&mut projection, &event("e2", vec![put(&address, &alice.to_bytes())]), 200)
        .unwrap();
    assert_eq!(kinds(&projection), vec!["status_updated:alice", "new_status_created:alice"]);
    let row = projection.fetch_status(b"alice").expect("alice was projected");
    assert_eq!(row.status_name, b"alice");
    assert_eq!(row.circuit_id, b"circuit-1");
    assert_eq!(row.sender, b"P1");
    assert_eq!(row.participant_1, b"");
    assert_eq!(row.participant_2, b"03second");
    assert_eq!(row.eta, Some(1700));
    assert_eq!(row.etb, None);
    assert_eq!(row.is_bunkering, Some(true));
    assert_eq!(row.bunkering_time, Some(90));
    assert_eq!(row.logs, b";berth busy, tug late");
    assert_eq!(row.created_time, 100);
    assert_eq!(row.updated_time, 200);
    assert_eq!(projection.last_event(), b"e2");
    assert_eq!(projection.status(), b"Pending");
}

#[test]
fn every_record_of_a_bucket_is_projected() {
    let mut projection = pending();
    let address = calculate_address(b"a");
    let tail = ",P1,,,error,none,none,none,none,none,none,none,none,none,";
    let value = format!("a{t}|b{t}", t = tail);
    processor()
        .handle_state_change_event(&mut projection, &event("e1", vec![put(&address, value.as_bytes())]), 7)
        .unwrap();
    assert_eq!(kinds(&projection), vec!["status_updated:a", "status_updated:b"]);
    assert!(projection.fetch_status(b"a").is_some());
    assert!(projection.fetch_status(b"b").is_some());
}

#[test]
fn removals_and_foreign_writes_are_ignored() {
    let mut projection = pending();
    let address = calculate_address(b"alice");
    let changes = vec![
        StateChange::Delete { key: address.clone() },
        StateChange::Other,
        put(b"abcdef0123", b"not ours"),
        put(b"b013", b"too short to be ours"),
    ];
    processor().handle_state_change_event(&mut projection, &event("e9", changes), 5).unwrap();
    assert!(projection.notifications().is_empty());
    assert!(projection.fetch_status(b"alice").is_none());
    assert_eq!(projection.last_event(), b"e9");
}

#[test]
fn unreadable_change_fails_the_whole_event() {
    let mut projection = pending();
    let processor = processor();
    let address = calculate_address(b"alice");
    processor
        .handle_state_change_event(&mut projection, &event("e1", vec![put(GENESIS, b"contract")]), 50)
        .unwrap();
    for bad in [&b"alice,P1,,"[..], b"\xfe\xff"] {
        let changes = vec![
            put(&address, &Status::new(b"alice".to_vec()).to_bytes()),
            put(&address, bad),
        ];
        assert_eq!(
            processor.handle_state_change_event(&mut projection, &event("e2", changes), 60),
            Err(StateDeltaError::StatusPayloadParseError)
        );
        assert_eq!(projection.last_event(), b"e1");
        assert_eq!(kinds(&projection), vec!["circuit_active"]);
        assert!(projection.fetch_status(b"alice").is_none());
    }
}

#[test]
fn plan_lists_steps_in_order_of_changes() {
    let address = calculate_address(b"alice");
    let changes = vec![
        put(&address, &Status::new(b"alice".to_vec()).to_bytes()),
        put(GENESIS, b""),
        StateChange::Delete { key: address.clone() },
    ];
    let steps = processor().plan_event(&event("e1", changes)).unwrap();
    assert_eq!(steps.len(), 2);
    match &steps[0] {
        Step::Upsert(status) => assert_eq!(status.get_name(), b"alice"),
        other => panic!("expected an upsert, found {:?}", other),
    }
    assert!(matches!(steps[1], Step::Activate));
}

#[test]
fn single_change_is_applied_without_moving_the_cursor() {
    let mut projection = pending();
    let processor = processor();
    processor.handle_state_change(&mut projection, &put(GENESIS, b"contract"), 9).unwrap();
    assert_eq!(kinds(&projection), vec!["circuit_active"]);
    assert_eq!(projection.last_event(), b"");
    assert_eq!(
        processor.handle_state_change(&mut projection, &put(&calculate_address(b"x"), b"x,y"), 10),
        Err(StateDeltaError::StatusPayloadParseError)
    );
    assert_eq!(kinds(&projection), vec!["circuit_active"]);
}

#[test]
fn hardened_handler_skips_what_was_delivered_before() {
    let mut projection = pending();
    let processor = processor();
    let second = event("0002", vec![put(GENESIS, b"contract")]);
    let first = event("0001", vec![put(GENESIS, b"contract")]);
    let third = event("0003", vec![]);
    assert_eq!(processor.handle_new_state_change_event(&mut projection, &second, 50), Ok(true));
    assert_eq!(processor.handle_new_state_change_event(&mut projection, &second, 60), Ok(false));
    assert_eq!(processor.handle_new_state_change_event(&mut projection, &first, 70), Ok(false));
    assert_eq!(kinds(&projection), vec!["circuit_active"]);
    assert_eq!(projection.notifications()[0].created_time, 50);
    assert_eq!(projection.last_event(), b"0002");
    assert_eq!(processor.handle_new_state_change_event(&mut projection, &third, 80), Ok(true));
    assert_eq!(projection.last_event(), b"0003");
    assert_eq!(kinds(&projection), vec!["circuit_active"]);
}

#[test]
fn hardened_handler_fails_as_the_plain_one_does() {
    let mut projection = pending();
    let bad = event("0001", vec![put(&calculate_address(b"x"), b"x,y")]);
    assert_eq!(
        processor().handle_new_state_change_event(&mut projection, &bad, 5),
        Err(StateDeltaError::StatusPayloadParseError)
    );
    assert_eq!(projection.last_event(), b"");
}
