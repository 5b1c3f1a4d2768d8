use kvhandles::keys::KvPair;
use kvhandles::records::{dump_records, encode_record, parse_records};

fn pair(k: &[u8], v: &[u8]) -> KvPair {
    KvPair { key: k.to_vec(), val: v.to_vec() }
}

#[test]
fn one_record_has_exact_framing() {
    let mut out: Vec<u8> = Vec::new();
    encode_record(&b"ab".to_vec(), &b"xyz".to_vec(), &mut out);
    let expected = vec![
        0u8, 0, 0, 2, // key length, big-endian
        97, 98, // "ab"
        0, 0, 0, 3, // value length, big-endian
        120, 121, 122, // "xyz"
    ];
    assert_eq!(out, expected);
}

#[test]
fn empty_dump_is_empty_and_parses_back() {
    let entries: Vec<KvPair> = Vec::new();
    let bytes = dump_records(&entries);
    assert_eq!(bytes.len(), 0);
    let back = parse_records(&bytes).unwrap();
    assert_eq!(back.len(), 0);
}

#[test]
fn dump_then_parse_reproduces_pairs() {
    let entries = vec![
        pair(b"alpha", b"1"),
        pair(b"beta", b""),
        pair(b"", b"empty key above, empty value here is fine too"),
        pair(b"\x00\xff", b"\xfe\x00\x01"),
    ];
    let bytes = dump_records(&entries);
    let back = parse_records(&bytes).unwrap();
    assert_eq!(back.len(), entries.len());
    for (a, b) in entries.iter().zip(back.iter()) {
        assert_eq!(a.key, b.key);
        assert_eq!(a.val, b.val);
    }
}

#[test]
fn truncated_framing_is_rejected() {
    let entries = vec![pair(b"key", b"value")];
    let mut bytes = dump_records(&entries);
    bytes.pop();
    assert!(parse_records(&bytes).is_none());
    // a bare, short length prefix
    assert!(parse_records(&vec![0u8, 0, 0]).is_none());
    // a length that promises more bytes than there are
    assert!(parse_records(&vec![0u8, 0, 0, 9, 1, 2]).is_none());
}

#[test]
fn parse_is_exact_about_lengths() {
    // two records back to back, nothing between them
    let mut bytes: Vec<u8> = Vec::new();
    encode_record(&b"a".to_vec(), &b"1".to_vec(), &mut bytes);
    encode_record(&b"b".to_vec(), &b"22".to_vec(), &mut bytes);
    let back = parse_records(&bytes).unwrap();
    assert_eq!(back.len(), 2);
    assert_eq!(back[0].key, b"a".to_vec());
    assert_eq!(back[0].val, b"1".to_vec());
    assert_eq!(back[1].key, b"b".to_vec());
    assert_eq!(back[1].val, b"22".to_vec());
}
