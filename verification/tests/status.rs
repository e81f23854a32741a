use gameroom_ledger::bucket::Bucket;
use gameroom_ledger::decimal::{parse_decimal, to_decimal};
use gameroom_ledger::error::{ApplyError, Rejection};
use gameroom_ledger::status::{DockingType, Status};

fn text(s: &Status) -> String {
    String::from_utf8(s.to_bytes()).expect("records are text")
}

#[test]
fn new_status_has_default_fields() {
    let s = Status::new(b"alice".to_vec());
    assert_eq!(s.get_name(), b"alice");
    assert_eq!(s.get_sender(), b"P1");
    assert_eq!(s.get_participant1(), b"");
    assert_eq!(s.get_participant2(), b"");
    assert_eq!(s.get_docking_type(), DockingType::Error);
    assert_eq!(
        [s.get_eta(), s.get_etb(), s.get_ata(), s.get_eto(), s.get_ato(), s.get_etc(), s.get_etd()],
        [None; 7]
    );
    assert_eq!(s.get_is_bunkering(), None);
    assert_eq!(s.get_bunkering_time(), None);
    assert_eq!(s.get_logs(), b"");
    assert_eq!(text(&s), "alice,P1,,,error,none,none,none,none,none,none,none,none,none,");
}

#[test]
fn status_text_reads_back() {
    let mut s = Status::new(b"vessel-7".to_vec());
    s.set_participant1(b"02abc");
    s.update_status(b"LOADING,1500,,,+42,007,x,,true,90000,first, second", b"02abc")
        .expect("participant 1 may update");
    let written = s.to_bytes();
    assert_eq!(
        String::from_utf8(written.clone()).unwrap(),
        "vessel-7,P1,02abc,,LOADING,1500,none,none,42,7,none,none,true,90000,;first, second"
    );
    let back = Status::from_bytes(&written).expect("fifteen fields and more");
    assert_eq!(back.to_bytes(), written);
    assert_eq!(back.get_logs(), b";first, second");
    assert_eq!(
        [
            back.get_eta(),
            back.get_etb(),
            back.get_ata(),
            back.get_eto(),
            back.get_ato(),
            back.get_etc(),
            back.get_etd()
        ],
        [Some(1500), None, None, Some(42), Some(7), None, None]
    );
    assert_eq!(back.get_docking_type(), DockingType::Loading);
    assert_eq!(back.get_is_bunkering(), Some(true));
    assert_eq!(back.get_bunkering_time(), Some(90000));
}

#[test]
fn status_with_too_few_fields_is_no_record() {
    assert!(Status::from_bytes(b"").is_none());
    assert!(Status::from_bytes(b"a,b,c,d,error,none,none,none,none,none,none,none,none,none").is_none());
    assert!(Status::from_bytes(b"a,b,c,d,error,none,none,none,none,none,none,none,none,none,").is_some());
}

#[test]
fn update_by_another_signer_leaves_record_unchanged() {
    let mut s = Status::new(b"alice".to_vec());
    s.set_participant1(b"first");
    let before = s.to_bytes();
    let outcome = s.update_status(b"LOADING,1,2,3,4,5,6,7,true,8,log", b"second");
    assert_eq!(outcome, Err(ApplyError::InvalidTransaction(Rejection::WrongSigner)));
    assert_eq!(s.to_bytes(), before);
}

#[test]
fn update_with_too_few_fields_leaves_record_unchanged() {
    let mut s = Status::new(b"alice".to_vec());
    s.set_participant1(b"first");
    let before = s.to_bytes();
    let outcome = s.update_status(b"LOADING,1,2,3,4,5,6,7,true,8", b"first");
    assert_eq!(outcome, Err(ApplyError::InvalidTransaction(Rejection::UpdateArity)));
    assert_eq!(s.to_bytes(), before);
}

#[test]
fn update_keeps_fields_that_it_leaves_empty() {
    let mut s = Status::new(b"alice".to_vec());
    s.update_status(b"DISCHARGE,10,20,30,40,50,60,70,false,80,one", b"").unwrap();
    s.update_status(b",,21,,,,,,,,", b"").unwrap();
    assert_eq!(
        text(&s),
        "alice,P1,,,error,10,21,30,40,50,60,70,false,80,;one"
    );
    s.update_status(b"DISCHARGE,abc,,,,,,,maybe,,two", b"").unwrap();
    assert_eq!(
        text(&s),
        "alice,P1,,,DISCHARGE,none,21,30,40,50,60,70,none,80,;one;two"
    );
}

#[test]
fn decimal_numbers_read_as_std_reads_them() {
    for case in ["0", "7", "007", "+5", "18446744073709551615", "18446744073709551616", "", "+", "-1", "1 ", "12a", "none", "++1"] {
        assert_eq!(parse_decimal(case.as_bytes()), case.parse::<u64>().ok(), "{:?}", case);
    }
    for n in [0u64, 9, 10, 11, 99, 100, 12345, u64::MAX] {
        assert_eq!(to_decimal(n), n.to_string().into_bytes());
        assert_eq!(parse_decimal(&to_decimal(n)), Some(n));
    }
}

#[test]
fn bucket_keeps_one_record_per_name() {
    let mut bucket = Bucket::new();
    assert!(bucket.is_empty());
    bucket.insert(Status::new(b"b".to_vec()));
    bucket.insert(Status::new(b"a".to_vec()));
    let mut changed = Status::new(b"b".to_vec());
    changed.set_participant1(b"key");
    bucket.insert(changed);
    assert_eq!(bucket.len(), 2);
    assert_eq!(bucket.get(b"b").unwrap().get_participant1(), b"key");
    assert!(bucket.get(b"c").is_none());
    bucket.remove(b"a");
    bucket.remove(b"a");
    assert_eq!(bucket.len(), 1);
    bucket.remove(b"b");
    assert!(bucket.is_empty());
}

#[test]
fn bucket_bytes_do_not_depend_on_insertion_order() {
    let names: [&[u8]; 4] = [b"a", b"a!", b"B", b"ab"];
    let mut forward = Bucket::new();
    for n in names.iter() {
        forward.insert(Status::new(n.to_vec()));
    }
    let mut backward = Bucket::new();
    for n in names.iter().rev() {
        backward.insert(Status::new(n.to_vec()));
    }
    let bytes = Status::serialize_statuses(&forward);
    assert_eq!(bytes, Status::serialize_statuses(&backward));
    let tail = ",P1,,,error,none,none,none,none,none,none,none,none,none,";
    let expected = format!("B{t}|a!{t}|a{t}|ab{t}", t = tail);
    assert_eq!(String::from_utf8(bytes).unwrap(), expected);
}

#[test]
fn bucket_bytes_read_back_and_are_stable() {
    let mut bucket = Bucket::new();
    let mut one = Status::new(b"one".to_vec());
    one.update_status(b"LOADING,5,,,,,,,,,a,b;c", b"").unwrap();
    bucket.insert(one);
    bucket.insert(Status::new(b"two".to_vec()));
    let bytes = Status::serialize_statuses(&bucket);
    let back = Status::deserialize_statuses(&bytes).expect("what was written reads back");
    assert_eq!(back.len(), 2);
    assert_eq!(back.get(b"one").unwrap().to_bytes(), bucket.get(b"one").unwrap().to_bytes());
    assert_eq!(back.get(b"two").unwrap().to_bytes(), bucket.get(b"two").unwrap().to_bytes());
    assert_eq!(Status::serialize_statuses(&back), bytes);
}

#[test]
fn unsorted_bucket_bytes_are_normalised() {
    let tail = ",P1,,,error,none,none,none,none,none,none,none,none,none,";
    let given = format!("b{t}|a{t}", t = tail);
    let sorted = format!("a{t}|b{t}", t = tail);
    let bucket = Status::deserialize_statuses(given.as_bytes()).unwrap();
    assert_eq!(Status::serialize_statuses(&bucket), sorted.into_bytes());
}

#[test]
fn bucket_with_a_short_record_is_corrupt() {
    let tail = ",P1,,,error,none,none,none,none,none,none,none,none,none,";
    assert!(Status::deserialize_statuses(b"").is_none());
    assert!(Status::deserialize_statuses(format!("a{}|", tail).as_bytes()).is_none());
    assert!(Status::deserialize_statuses(format!("a{}|b,c", tail).as_bytes()).is_none());
}

#[test]
fn later_record_of_one_name_replaces_earlier() {
    let given = "a,first,,,error,none,none,none,none,none,none,none,none,none,|a,second,,,error,none,none,none,none,none,none,none,none,none,";
    let bucket = Status::deserialize_statuses(given.as_bytes()).unwrap();
    assert_eq!(bucket.len(), 1);
    assert_eq!(bucket.get(b"a").unwrap().get_sender(), b"second");
}

#[test]
fn duration_is_read_from_a_field() {
    let s = Status::new(b"alice".to_vec());
    assert_eq!(s.get_duration_from_string(b"1500"), Some(1500));
    assert_eq!(s.get_duration_from_string(b""), None);
    assert_eq!(s.get_duration_from_string(b"none"), None);
    assert_eq!(s.get_duration_from_string(b"1.5"), None);
}

#[test]
fn address_does_not_depend_on_content() {
    let mut s = Status::new(b"alice".to_vec());
    let before = gameroom_ledger::address::calculate_address(s.get_name());
    s.update_status(b"LOADING,1,2,3,4,5,6,7,true,8,log", b"").unwrap();
    s.set_participant2(b"someone");
    assert_eq!(gameroom_ledger::address::calculate_address(s.get_name()), before);
}
