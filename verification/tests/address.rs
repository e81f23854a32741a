use gameroom_ledger::address::{
    address, bytes_to_hex_str, calculate_address, get_status_prefix, prefix,
};

#[test]
fn status_prefix_is_digest_of_family_name() {
    assert_eq!(get_status_prefix(), b"b01374".to_vec());
    assert_eq!(prefix(b"sawtooth_message"), b"b01374".to_vec());
}

#[test]
fn address_is_prefix_then_name_digest() {
    let expected = b"b01374408b27d3097eea5a46bf2ab6433a7234a33d5e49957b13ec7acc2ca08e1a13c7".to_vec();
    assert_eq!(calculate_address(b"alice"), expected);
    assert_eq!(address(b"sawtooth_message", b"alice"), expected);
    assert_eq!(expected.len(), 70);
}

#[test]
fn address_depends_on_the_names_alone() {
    assert_eq!(calculate_address(b"alice"), calculate_address(b"alice"));
    assert_ne!(calculate_address(b"alice"), calculate_address(b"bob"));
    assert_ne!(address(b"family-a", b"alice"), address(b"family-b", b"alice"));
    assert_eq!(&address(b"family-a", b"alice")[6..], &address(b"family-b", b"alice")[6..]);
    assert_eq!(address(b"family-a", b"alice")[..6].to_vec(), prefix(b"family-a"));
    assert_eq!(
        prefix(b""),
        b"cf83e1".to_vec()
    );
}

#[test]
fn bytes_are_written_in_lower_case_hexadecimal() {
    assert_eq!(bytes_to_hex_str(&[]), b"".to_vec());
    assert_eq!(bytes_to_hex_str(&[0x00, 0x09, 0x0a, 0x10, 0xec, 0x02, 0xff]), b"00090a10ec02ff".to_vec());
    let all: Vec<u8> = (0..=255).collect();
    let expected: String = all.iter().map(|b| format!("{:02x}", b)).collect();
    assert_eq!(bytes_to_hex_str(&all), expected.into_bytes());
}

#[test]
fn addresses_are_lower_case_hexadecimal() {
    for name in [&b""[..], b"alice", b"a,b|c", "\u{1f600}".as_bytes()] {
        let address = calculate_address(name);
        assert_eq!(address.len(), 70);
        assert!(address.iter().all(|c| c.is_ascii_digit() || (b'a'..=b'f').contains(c)));
    }
}
