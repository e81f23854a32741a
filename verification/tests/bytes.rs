use gameroom_ledger::bytemap::ByteMap;
use gameroom_ledger::bytes::{
    append_bytes, ascii_bytes, bytes_eq, contains_byte, copy_bytes, is_word, join_bytes, join_from,
    split_bytes, starts_with, COMMA, PIPE,
};
use gameroom_ledger::ledger::{Ledger, LedgerRequest};
use gameroom_ledger::order::{bytes_le, sort_texts};
use gameroom_ledger::utf8::is_utf8;

fn words(list: &[&str]) -> Vec<Vec<u8>> {
    list.iter().map(|w| w.as_bytes().to_vec()).collect()
}

#[test]
fn split_is_what_std_split_is() {
    for case in ["", ",", "a", "a,b", ",a,,b,", "a|b,c", ",,,"] {
        let expected: Vec<Vec<u8>> = case.split(',').map(|p| p.as_bytes().to_vec()).collect();
        assert_eq!(split_bytes(case.as_bytes(), COMMA), expected, "{:?}", case);
    }
    assert_eq!(split_bytes(b"a|b,c", PIPE), words(&["a", "b,c"]));
}

#[test]
fn join_is_what_std_join_is() {
    assert_eq!(join_bytes(&words(&[]), COMMA), b"".to_vec());
    assert_eq!(join_bytes(&words(&["a"]), COMMA), b"a".to_vec());
    assert_eq!(join_bytes(&words(&["a", "", "b"]), COMMA), b"a,,b".to_vec());
    assert_eq!(join_from(&words(&["a", "b", "c", "d"]), 2, PIPE), b"c|d".to_vec());
    assert_eq!(join_from(&words(&["a", "b"]), 2, PIPE), b"".to_vec());
}

#[test]
fn join_undoes_split() {
    for case in ["", ",", "a,b", ",a,,b,", "no comma"] {
        let pieces = split_bytes(case.as_bytes(), COMMA);
        assert_eq!(join_bytes(&pieces, COMMA), case.as_bytes().to_vec());
    }
}

#[test]
fn byte_string_helpers() {
    assert!(bytes_eq(b"abc", b"abc"));
    assert!(!bytes_eq(b"abc", b"abd"));
    assert!(!bytes_eq(b"abc", b"ab"));
    assert!(contains_byte(b"a|b", PIPE));
    assert!(!contains_byte(b"a,b", PIPE));
    assert!(starts_with(b"b01374ff", b"b01374"));
    assert!(!starts_with(b"b0137", b"b01374"));
    assert!(!starts_with(b"b01375ff", b"b01374"));
    assert!(starts_with(b"anything", b""));
    assert!(is_word(b"none", "none"));
    assert!(!is_word(b"None", "none"));
    assert_eq!(ascii_bytes("delay"), b"delay".to_vec());
    assert_eq!(copy_bytes(b"xyz"), b"xyz".to_vec());
    let mut out = b"ab".to_vec();
    append_bytes(&mut out, b"cd");
    assert_eq!(out, b"abcd".to_vec());
}

#[test]
fn order_is_the_order_of_byte_strings() {
    let cases: [&[u8]; 8] = [b"", b"a", b"a!", b"a,", b"ab", b"b", b"B", b"\xff"];
    for x in cases.iter() {
        for y in cases.iter() {
            assert_eq!(bytes_le(x, y), x <= y, "{:?} {:?}", x, y);
        }
    }
}

#[test]
fn sort_is_what_std_sort_is() {
    let given = words(&["pear", "apple", "", "apple", "Pear", "a,b", "a!b", "a"]);
    let mut expected = given.clone();
    expected.sort();
    assert_eq!(sort_texts(given), expected);
    assert_eq!(sort_texts(Vec::new()), Vec::<Vec<u8>>::new());
}

#[test]
fn utf8_is_told_from_other_bytes() {
    assert!(is_utf8(b""));
    assert!(is_utf8("na\u{ef}ve \u{2713} \u{1f600}".as_bytes()));
    assert!(!is_utf8(b"\xff"));
    assert!(!is_utf8(b"\xc3"));
    assert!(!is_utf8(b"\xed\xa0\x80"));
    assert!(!is_utf8(b"\xc0\xaf"));
}

#[test]
fn byte_map_holds_one_value_per_key() {
    let mut map: ByteMap<u32> = ByteMap::new();
    assert!(!map.contains_key(b"a"));
    map.insert(b"a".to_vec(), 1);
    map.insert(b"b".to_vec(), 2);
    map.insert(b"a".to_vec(), 3);
    assert_eq!(map.get(b"a"), Some(&3));
    assert_eq!(map.get(b"b"), Some(&2));
    assert_eq!(map.get(b""), None);
    map.remove(b"a");
    map.remove(b"missing");
    assert!(!map.contains_key(b"a"));
    assert!(map.contains_key(b"b"));
}

#[test]
fn ledger_keeps_entries_and_a_journal() {
    let mut ledger = Ledger::new();
    ledger.preload(b"k1".to_vec(), b"v1".to_vec());
    assert!(ledger.journal().is_empty());
    assert_eq!(ledger.peek(b"k1"), Some(&b"v1"[..]));
    assert_eq!(ledger.get_state_entry(b"k1"), Some(b"v1".to_vec()));
    assert_eq!(ledger.get_state_entry(b"k2"), None);
    ledger.set_state_entry(b"k2".to_vec(), b"v2".to_vec());
    ledger.delete_state_entry(b"k1");
    assert_eq!(ledger.peek(b"k1"), None);
    assert_eq!(ledger.peek(b"k2"), Some(&b"v2"[..]));
    let journal: Vec<String> = ledger.journal().iter().map(|r| format!("{:?}", r)).collect();
    assert_eq!(journal.len(), 4);
    assert!(matches!(&ledger.journal()[0], LedgerRequest::Get { address } if address == b"k1"));
    assert!(matches!(&ledger.journal()[1], LedgerRequest::Get { address } if address == b"k2"));
    assert!(
        matches!(&ledger.journal()[2], LedgerRequest::Put { address, data } if address == b"k2" && data == b"v2")
    );
    assert!(matches!(&ledger.journal()[3], LedgerRequest::Delete { address } if address == b"k1"));
}
