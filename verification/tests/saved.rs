use nn::zlib::{decode_saved, encode_saved};

#[test]
fn saved_bytes_round_trip() {
    let json = br#"{"weights":[[1.0,2.0]],"loss":1.0}"#;
    let bytes = encode_saved(json);
    assert_ne!(bytes.as_slice(), &json[..]);
    // a zlib stream at the best compression level
    assert_eq!(&bytes[..2], &[0x78, 0xDA]);
    assert_eq!(decode_saved(&bytes), Some(json.to_vec()));
}

#[test]
fn empty_json_round_trips() {
    let bytes = encode_saved(b"");
    assert!(!bytes.is_empty());
    assert_eq!(decode_saved(&bytes), Some(Vec::new()));
}

#[test]
fn garbage_is_not_a_saved_network() {
    assert_eq!(decode_saved(b"not a zlib stream"), None);
}
