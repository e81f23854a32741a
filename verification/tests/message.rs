use gameroom_ledger::bucket::Bucket;
use gameroom_ledger::error::{ApplyError, Rejection};
use gameroom_ledger::message::{Message, MessageType};

fn text(m: &Message) -> String {
    String::from_utf8(m.to_bytes()).expect("records are text")
}

#[test]
fn new_thread_says_that_it_was_made() {
    let m = Message::new(b"thread-1".to_vec());
    assert_eq!(m.get_name(), b"thread-1");
    assert_eq!(m.get_message_content(), b"Chat Created");
    assert_eq!(m.get_message_type(), MessageType::Text);
    assert_eq!(m.get_id(), 0);
    assert_eq!(m.get_previous_id(), None);
    assert_eq!(m.get_sender(), b"P1");
    assert_eq!(m.get_participant1(), b"");
    assert_eq!(m.get_participant2(), b"");
    assert_eq!(text(&m), "thread-1,Chat Created,TEXT,0,-1,P1,,");
}

#[test]
fn added_message_replaces_content_and_counts_on() {
    let mut m = Message::new(b"thread-1".to_vec());
    m.set_participant1(b"02a");
    m.set_participant2(b"03b");
    m.add_message(b"hello, world", b"02a").unwrap();
    m.add_message(b"hello yourself", b"03b").unwrap();
    assert_eq!(m.get_id(), 2);
    assert_eq!(m.get_previous_id(), Some(1));
    assert_eq!(text(&m), "thread-1,hello yourself,TEXT,2,1,03b,02a,03b");
}

#[test]
fn content_with_commas_reads_back() {
    let mut m = Message::new(b"thread-1".to_vec());
    m.add_message(b"one, two,, three,", b"02a").unwrap();
    let written = m.to_bytes();
    assert_eq!(String::from_utf8(written.clone()).unwrap(), "thread-1,one, two,, three,,TEXT,1,0,02a,,");
    let back = Message::from_bytes(&written).expect("eight fields and more");
    assert_eq!(back.get_message_content(), b"one, two,, three,");
    assert_eq!(back.get_id(), 1);
    assert_eq!(back.get_previous_id(), Some(0));
    assert_eq!(back.to_bytes(), written);
}

#[test]
fn message_text_that_is_no_record() {
    assert!(Message::from_bytes(b"").is_none());
    assert!(Message::from_bytes(b"t,c,TEXT,0,-1,P1,").is_none());
    assert!(Message::from_bytes(b"t,c,TEXT,zero,-1,P1,,").is_none());
    assert!(Message::from_bytes(b"t,c,TEXT,4294967296,-1,P1,,").is_none());
    let read = Message::from_bytes(b"t,c,text,4294967295,4294967296,P1,a,b").unwrap();
    assert_eq!(read.get_message_type(), MessageType::Error);
    assert_eq!(read.get_id(), u32::MAX);
    assert_eq!(read.get_previous_id(), None);
    assert_eq!(read.get_participant1(), b"a");
    assert_eq!(read.get_participant2(), b"b");
}

#[test]
fn thread_at_its_limit_takes_no_more() {
    let mut m = Message::from_bytes(b"t,c,TEXT,4294967295,-1,P1,,").unwrap();
    let before = m.to_bytes();
    assert_eq!(
        m.add_message(b"more", b"02a"),
        Err(ApplyError::InvalidTransaction(Rejection::ThreadFull))
    );
    assert_eq!(m.to_bytes(), before);
}

#[test]
fn previous_id_is_set_from_text() {
    let mut m = Message::new(b"t".to_vec());
    m.set_previous_id(b"41");
    assert_eq!(m.get_previous_id(), Some(41));
    m.set_previous_id(b"-1");
    assert_eq!(m.get_previous_id(), None);
}

#[test]
fn message_bucket_is_sorted_and_reads_back() {
    let mut bucket = Bucket::new();
    bucket.insert(Message::new(b"zeta".to_vec()));
    bucket.insert(Message::new(b"alpha".to_vec()));
    let bytes = Message::serialize_messages(&bucket);
    assert_eq!(
        String::from_utf8(bytes.clone()).unwrap(),
        "alpha,Chat Created,TEXT,0,-1,P1,,|zeta,Chat Created,TEXT,0,-1,P1,,"
    );
    let back = Message::deserialize_messages(&bytes).unwrap();
    assert_eq!(back.len(), 2);
    assert_eq!(Message::serialize_messages(&back), bytes);
    assert!(Message::deserialize_messages(b"alpha,Chat Created,TEXT,0,-1,P1,,|zeta").is_none());
}
