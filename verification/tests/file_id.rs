use sharesphere::codec::bytes::{find_byte, same_bytes, split_fields, starts_with, trim};
use sharesphere::codec::decimal::{parse_decimal, render_decimal};
use sharesphere::config::Config;
use sharesphere::file_id::FileId;

const TEXT: &str = "936da01f-9abd-4d9d-80c7-02af85c822a8";
const VALUE: u128 = 0x936da01f_9abd_4d9d_80c7_02af85c822a8;

#[test]
fn an_identifier_is_written_hyphenated() {
    assert_eq!(FileId::from_u128(VALUE).to_text(), TEXT);
    assert_eq!(FileId::from_u128(VALUE).to_bytes(), TEXT.as_bytes().to_vec());
    assert_eq!(FileId::from_u128(0).to_text(), "00000000-0000-0000-0000-000000000000");
    assert_eq!(FileId::from_u128(u128::MAX).to_text(), "ffffffff-ffff-ffff-ffff-ffffffffffff");
    assert_eq!(FileId::from_u128(1).to_text(), "00000000-0000-0000-0000-000000000001");
    assert_eq!(
        FileId::from_u128(0xa1a2a3a4_b1b2_c1c2_d1d2_d3d4d5d6d7d8).to_text(),
        "a1a2a3a4-b1b2-c1c2-d1d2-d3d4d5d6d7d8"
    );
}

#[test]
fn an_identifier_is_read_in_several_forms() {
    let id = Some(FileId::from_u128(VALUE));
    assert_eq!(FileId::parse_str(TEXT), id);
    assert_eq!(FileId::parse_ascii(TEXT.as_bytes()), id);
    assert_eq!(FileId::parse_str("936DA01F-9ABD-4D9D-80C7-02AF85C822A8"), id);
    assert_eq!(FileId::parse_str("936da01f9abd4d9d80c702af85c822a8"), id);
    assert_eq!(FileId::parse_str("{936da01f-9abd-4d9d-80c7-02af85c822a8}"), id);
    assert_eq!(FileId::parse_str("urn:uuid:936da01f-9abd-4d9d-80c7-02af85c822a8"), id);
}

#[test]
fn text_that_is_no_identifier_is_refused() {
    for text in ["", "936da01f", "936da01f-9abd-4d9d-80c7-02af85c822a", "936da01f-9abd-4d9d-80c7-02af85c822ag", "936da01f_9abd_4d9d_80c7_02af85c822a8", "CHUNK_REQUEST"] {
        assert_eq!(FileId::parse_str(text), None, "{}", text);
    }
}

#[test]
fn written_identifiers_read_back() {
    for value in [0u128, 1, VALUE, u128::MAX, 0x0123456789abcdef_fedcba9876543210] {
        let id = FileId::from_u128(value);
        assert_eq!(FileId::parse_str(&id.to_text()), Some(id));
        assert_eq!(id.as_u128(), value);
    }
}

#[test]
fn generated_identifiers_are_random_and_of_version_four() {
    let a = FileId::generate();
    let b = FileId::generate();
    assert_ne!(a, b);
    let text = a.to_text().into_bytes();
    assert_eq!(text[14], b'4');
    assert!(matches!(text[19], b'8' | b'9' | b'a' | b'b'));
}

#[test]
fn decimal_fields_are_read() {
    assert_eq!(parse_decimal(b"0"), Some(0));
    assert_eq!(parse_decimal(b"42"), Some(42));
    assert_eq!(parse_decimal(b"+42"), Some(42));
    assert_eq!(parse_decimal(b"0042"), Some(42));
    assert_eq!(parse_decimal(usize::MAX.to_string().as_bytes()), Some(usize::MAX));
    assert_eq!(parse_decimal(b""), None);
    assert_eq!(parse_decimal(b"+"), None);
    assert_eq!(parse_decimal(b"-1"), None);
    assert_eq!(parse_decimal(b"++1"), None);
    assert_eq!(parse_decimal(b"1+"), None);
    assert_eq!(parse_decimal(b" 1"), None);
    assert_eq!(parse_decimal(b"1 "), None);
    assert_eq!(parse_decimal(b"12a"), None);
    assert_eq!(parse_decimal(format!("{}0", usize::MAX).as_bytes()), None);
    assert_eq!(parse_decimal(b"99999999999999999999999999999999"), None);
    let above = (usize::MAX as u128 + 1).to_string();
    assert_eq!(parse_decimal(above.as_bytes()), None);
}

#[test]
fn decimal_fields_are_written() {
    assert_eq!(render_decimal(0), b"0".to_vec());
    assert_eq!(render_decimal(9), b"9".to_vec());
    assert_eq!(render_decimal(10), b"10".to_vec());
    assert_eq!(render_decimal(1024), b"1024".to_vec());
    assert_eq!(render_decimal(usize::MAX), usize::MAX.to_string().into_bytes());
    for n in [0usize, 5, 10, 99, 100, 12345, usize::MAX] {
        assert_eq!(parse_decimal(&render_decimal(n)), Some(n));
    }
}

#[test]
fn bytes_are_searched_trimmed_and_split() {
    assert_eq!(find_byte(b"a:b:c", b':', 0), 1);
    assert_eq!(find_byte(b"a:b:c", b':', 2), 3);
    assert_eq!(find_byte(b"a:b:c", b':', 4), 5);
    assert_eq!(find_byte(b"abc", b':', 0), 3);
    assert_eq!(find_byte(b"", b':', 0), 0);
    assert!(starts_with(b"abc", b"ab"));
    assert!(starts_with(b"abc", b""));
    assert!(!starts_with(b"abc", b"b"));
    assert!(!starts_with(b"a", b"ab"));
    assert!(same_bytes(b"abc", b"abc"));
    assert!(!same_bytes(b"abc", b"abd"));
    assert!(!same_bytes(b"abc", b"ab"));
    assert_eq!(trim(b"  a b \r\n"), b"a b");
    assert_eq!(trim(b"\t\x0b\x0c"), b"");
    assert_eq!(trim(b""), b"");
    assert_eq!(trim(b"abc"), b"abc");
    assert_eq!(split_fields(b"a:b:c", b':'), vec![b"a".to_vec(), b"b".to_vec(), b"c".to_vec()]);
    assert_eq!(split_fields(b"abc", b':'), vec![b"abc".to_vec()]);
    assert_eq!(split_fields(b"", b':'), vec![b"".to_vec()]);
    assert_eq!(split_fields(b":", b':'), vec![b"".to_vec(), b"".to_vec()]);
    assert_eq!(split_fields(b"a::b:", b':'), vec![b"a".to_vec(), b"".to_vec(), b"b".to_vec(), b"".to_vec()]);
}

#[test]
fn a_node_knows_itself_by_the_loopback_address() {
    let config = Config {
        peer_port: 8080,
        bootstrap_peers: vec!["127.0.0.1:8081".to_string()],
        storage_path: "storage".to_string(),
        encryption_key: "00".repeat(32),
    };
    assert_eq!(config.local_peer().address, "127.0.0.1:8080");
    let other = Config { peer_port: 0, ..config.clone() };
    assert_eq!(other.local_peer().address, "127.0.0.1:0");
    let last = Config { peer_port: 65535, ..config };
    assert_eq!(last.local_peer().address, "127.0.0.1:65535");
}
