use gameroom_ledger::address::calculate_address;
use gameroom_ledger::error::{ApplyError, Corrupted, Rejection};
use gameroom_ledger::handler::StatusTransactionHandler;
use gameroom_ledger::ledger::{Ledger, LedgerRequest};
use gameroom_ledger::payload::{Action, StatusPayload};
use gameroom_ledger::state::StatusState;
use gameroom_ledger::status::{DockingType, Status};

const CREATE_ALICE: &[u8] = b"alice,create,,,,,,,,,,,";

fn stored_text(state: &StatusState, name: &[u8]) -> Option<String> {
    state
        .context()
        .peek(&calculate_address(name))
        .map(|bytes| String::from_utf8(bytes.to_vec()).unwrap())
}

#[test]
fn handler_describes_its_family() {
    let handler = StatusTransactionHandler::new();
    assert_eq!(handler.family_name(), b"sawtooth_message".to_vec());
    assert_eq!(handler.family_versions(), &vec![b"1.0".to_vec()]);
    assert_eq!(handler.namespaces(), &vec![b"b01374".to_vec()]);
}

#[test]
fn payload_of_thirteen_fields_is_read() {
    let payload = StatusPayload::new(b"alice,delay,LOADING,1,2,3,4,5,6,7,true,8,late, very late").unwrap();
    assert_eq!(payload.get_name(), b"alice");
    assert_eq!(payload.get_action(), Action::Delay);
    assert_eq!(payload.get_status_string(), b"LOADING,1,2,3,4,5,6,7,true,8,late, very late");
}

#[test]
fn payload_checks_come_in_order() {
    let cases: [(&[u8], ApplyError); 7] = [
        (b"\xff,create,,,,,,,,,,,", ApplyError::InvalidSerialization(Corrupted::Payload)),
        (b"alice,create,,,,,,,,,,", ApplyError::InvalidTransaction(Rejection::PayloadArity)),
        (b",,,,,,,,,,,,", ApplyError::InvalidTransaction(Rejection::NameRequired)),
        (b"a|b,,,,,,,,,,,,", ApplyError::InvalidTransaction(Rejection::ActionRequired)),
        (b"a|b,create,,,,,,,,,,,", ApplyError::InvalidTransaction(Rejection::NameHasPipe)),
        (b"alice,Create,,,,,,,,,,,", ApplyError::InvalidTransaction(Rejection::InvalidAction)),
        (b"alice,creat,,,,,,,,,,,", ApplyError::InvalidTransaction(Rejection::InvalidAction)),
    ];
    for (data, expected) in cases.iter() {
        assert_eq!(StatusPayload::new(data).err(), Some(*expected));
    }
}

#[test]
fn create_makes_record_with_empty_participants_and_log() {
    let handler = StatusTransactionHandler::new();
    let mut state = StatusState::new(Ledger::new());
    handler.apply(CREATE_ALICE, "02signer", &mut state).expect("alice is absent");
    let alice = state.get_status(b"alice").unwrap().expect("alice was created");
    assert_eq!(alice.get_name(), b"alice");
    assert_eq!(alice.get_participant1(), b"");
    assert_eq!(alice.get_participant2(), b"");
    assert_eq!(alice.get_logs(), b"");
    assert_eq!(alice.get_docking_type(), DockingType::Error);
    assert_eq!(
        stored_text(&state, b"alice").unwrap(),
        "alice,P1,,,error,none,none,none,none,none,none,none,none,none,"
    );
}

#[test]
fn create_on_present_record_fails() {
    let handler = StatusTransactionHandler::new();
    let mut state = StatusState::new(Ledger::new());
    handler.apply(CREATE_ALICE, "02signer", &mut state).unwrap();
    let before = stored_text(&state, b"alice");
    assert_eq!(
        handler.apply(CREATE_ALICE, "02other", &mut state),
        Err(ApplyError::InvalidTransaction(Rejection::AlreadyExists))
    );
    assert_eq!(stored_text(&state, b"alice"), before);
}

#[test]
fn first_update_records_signer_and_appends_to_log() {
    let handler = StatusTransactionHandler::new();
    let mut state = StatusState::new(Ledger::new());
    handler.apply(CREATE_ALICE, "02signer", &mut state).unwrap();
    handler
        .apply(b"alice,delay,LOADING,1700000000000,,,,,,,,,berth busy", "02signer", &mut state)
        .expect("the first signer to update becomes participant 1");
    handler
        .apply(b"alice,prepone,LOADING,1600000000000,,,,,,,,,tug early, pilot too", "02signer", &mut state)
        .expect("participant 1 may update again");
    let alice = state.get_status(b"alice").unwrap().unwrap();
    assert_eq!(alice.get_participant1(), b"02signer");
    assert_eq!(alice.get_participant2(), b"");
    assert_eq!(alice.get_eta(), Some(1600000000000));
    assert_eq!(alice.get_logs(), b";berth busy;tug early, pilot too");
    assert_eq!(
        stored_text(&state, b"alice").unwrap(),
        "alice,P1,02signer,,LOADING,1600000000000,none,none,none,none,none,none,none,none,;berth busy;tug early, pilot too"
    );
}

#[test]
fn update_by_second_signer_fails_and_changes_nothing() {
    let handler = StatusTransactionHandler::new();
    let mut state = StatusState::new(Ledger::new());
    handler.apply(CREATE_ALICE, "02signer", &mut state).unwrap();
    handler.apply(b"alice,delay,LOADING,5,,,,,,,,,x", "02signer", &mut state).unwrap();
    let before = stored_text(&state, b"alice");
    assert_eq!(
        handler.apply(b"alice,delay,DISCHARGE,6,,,,,,,,,y", "03other", &mut state),
        Err(ApplyError::InvalidTransaction(Rejection::WrongSigner))
    );
    assert_eq!(stored_text(&state, b"alice"), before);
}

#[test]
fn update_and_delete_need_a_present_record() {
    let handler = StatusTransactionHandler::new();
    let mut state = StatusState::new(Ledger::new());
    for payload in [&b"bob,delay,LOADING,5,,,,,,,,,x"[..], b"bob,prepone,,,,,,,,,,,", b"bob,delete,,,,,,,,,,,"] {
        assert_eq!(
            handler.apply(payload, "02signer", &mut state),
            Err(ApplyError::InvalidTransaction(Rejection::DoesNotExist))
        );
    }
    assert!(state.context().peek(&calculate_address(b"bob")).is_none());
}

#[test]
fn delete_of_last_record_removes_the_address() {
    let handler = StatusTransactionHandler::new();
    let mut state = StatusState::new(Ledger::new());
    handler.apply(CREATE_ALICE, "02signer", &mut state).unwrap();
    handler.apply(b"alice,delete,,,,,,,,,,,", "02signer", &mut state).expect("alice is present");
    assert!(state.context().peek(&calculate_address(b"alice")).is_none());
    assert_eq!(state.get_status(b"alice").unwrap().map(|s| s.to_bytes()), None);
    let ledger = state.into_context();
    let address = calculate_address(b"alice");
    match ledger.journal().last() {
        Some(LedgerRequest::Delete { address: removed }) => assert_eq!(removed, &address),
        other => panic!("expected a removal, found {:?}", other),
    }
}

#[test]
fn rejected_payload_touches_nothing() {
    let handler = StatusTransactionHandler::new();
    let mut state = StatusState::new(Ledger::new());
    assert_eq!(
        handler.apply(b"alice,create", "02signer", &mut state),
        Err(ApplyError::InvalidTransaction(Rejection::PayloadArity))
    );
    assert!(state.into_context().journal().is_empty());
}

#[test]
fn colliding_names_share_a_bucket_and_stay_apart() {
    let shared = b"b01374-collision".to_vec();
    let mut state = StatusState::new(Ledger::new());
    let mut first = Status::new(b"first".to_vec());
    first.set_participant1(b"k1");
    let mut second = Status::new(b"second".to_vec());
    second.set_participant1(b"k2");
    state.set_status_at(&shared, first).unwrap();
    state.set_status_at(&shared, second).unwrap();
    assert_eq!(state.get_status_at(&shared, b"first").unwrap().unwrap().get_participant1(), b"k1");
    assert_eq!(state.get_status_at(&shared, b"second").unwrap().unwrap().get_participant1(), b"k2");
    assert_eq!(
        String::from_utf8(state.context().peek(&shared).unwrap().to_vec()).unwrap(),
        "first,P1,k1,,error,none,none,none,none,none,none,none,none,none,|second,P1,k2,,error,none,none,none,none,none,none,none,none,none,"
    );
    state.delete_status_at(&shared, b"first").unwrap();
    assert!(state.get_status_at(&shared, b"first").unwrap().is_none());
    assert!(state.get_status_at(&shared, b"second").unwrap().is_some());
    state.delete_status_at(&shared, b"second").unwrap();
    assert!(state.context().peek(&shared).is_none());
}

#[test]
fn each_address_is_read_from_the_ledger_once() {
    let mut ledger = Ledger::new();
    let address = calculate_address(b"alice");
    ledger.preload(address.clone(), Status::new(b"alice".to_vec()).to_bytes());
    let mut state = StatusState::new(ledger);
    assert!(state.get_status(b"alice").unwrap().is_some());
    assert!(state.get_status(b"alice").unwrap().is_some());
    assert!(state.get_status(b"bob").unwrap().is_none());
    assert!(state.get_status(b"bob").unwrap().is_none());
    let ledger = state.into_context();
    let reads: Vec<&Vec<u8>> = ledger
        .journal()
        .iter()
        .map(|request| match request {
            LedgerRequest::Get { address } => address,
            other => panic!("expected reads only, found {:?}", other),
        })
        .collect();
    assert_eq!(reads, vec![&address, &calculate_address(b"bob")]);
}

#[test]
fn corrupt_bucket_aborts_the_transaction() {
    let handler = StatusTransactionHandler::new();
    for corrupt in [&b"alice,P1"[..], b"\xffalice,P1,,,error,none,none,none,none,none,none,none,none,none,"] {
        let mut ledger = Ledger::new();
        ledger.preload(calculate_address(b"alice"), corrupt.to_vec());
        let mut state = StatusState::new(ledger);
        assert_eq!(
            handler.apply(CREATE_ALICE, "02signer", &mut state),
            Err(ApplyError::InvalidSerialization(Corrupted::State))
        );
        assert_eq!(state.context().peek(&calculate_address(b"alice")), Some(corrupt));
    }
}
