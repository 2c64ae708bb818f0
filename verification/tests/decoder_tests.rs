use tx_broadcast::decoder::{decode_transaction, DecodeError};

fn to_hex(bytes: &[u8]) -> String {
    let mut s = String::from("0x");
    for b in bytes {
        s.push_str(&format!("{:02x}", b));
    }
    s
}

#[test]
fn decodes_framed_payload() {
    // Compact single-byte header: length 3 (3 << 2 = 0x0c), three bytes.
    let r = decode_transaction("0x0c616263");
    assert_eq!(r, Ok(vec![0x0c, 0x61, 0x62, 0x63]));
}

#[test]
fn decodes_uppercase_hex() {
    let r = decode_transaction("0x0C616263");
    assert_eq!(r, Ok(vec![0x0c, 0x61, 0x62, 0x63]));
}

#[test]
fn decodes_empty_payload() {
    // Header announcing zero bytes, nothing after it.
    let r = decode_transaction("0x00");
    assert_eq!(r, Ok(vec![0x00]));
}

#[test]
fn rejects_undecodable_blob() {
    // Valid hex whose first byte selects the four-byte header mode and
    // announces a length far beyond what follows.
    let r = decode_transaction("0xdeadbeef");
    assert_eq!(r, Err(DecodeError::MalformedTransaction));
}

#[test]
fn rejects_bad_hex() {
    assert_eq!(decode_transaction(""), Err(DecodeError::InvalidHex));
    assert_eq!(decode_transaction("0x616"), Err(DecodeError::InvalidHex));
    assert_eq!(decode_transaction("deadbeef"), Err(DecodeError::InvalidHex));
    assert_eq!(decode_transaction("0xzz"), Err(DecodeError::InvalidHex));
    assert_eq!(decode_transaction("0x\u{e9}9"), Err(DecodeError::InvalidHex));
}

#[test]
fn rejects_empty_byte_blob() {
    // "0x" decodes to no bytes at all: there is no header to read.
    assert_eq!(decode_transaction("0x"), Err(DecodeError::MalformedTransaction));
}

#[test]
fn decodes_two_byte_header() {
    // Mode 1: header (1 << 2) | 1 = 0x05, 0x00 announces one byte.
    let r = decode_transaction("0x0500aa");
    assert_eq!(r, Ok(vec![0x05, 0x00, 0xaa]));
}

#[test]
fn decodes_four_byte_header() {
    // Mode 2: header (64 << 2) | 2 = 0x0102 little-endian, 64 bytes after.
    let mut blob = vec![0x02, 0x01, 0x00, 0x00];
    blob.extend(std::iter::repeat(0x55u8).take(64));
    let r = decode_transaction(&to_hex(&blob));
    assert_eq!(r, Ok(blob));
}

#[test]
fn decodes_big_integer_header() {
    // Mode 3 with four extra bytes: header 0x03, then the length 5
    // little-endian, then five bytes.
    let blob = vec![0x03, 0x05, 0x00, 0x00, 0x00, 1, 2, 3, 4, 5];
    let r = decode_transaction(&to_hex(&blob));
    assert_eq!(r, Ok(blob));
}

#[test]
fn rejects_wrong_announced_length() {
    // Single-byte header announcing 3 bytes, but 2 follow.
    assert_eq!(decode_transaction("0x0c6162"), Err(DecodeError::MalformedTransaction));
    // Two-byte header cut short.
    assert_eq!(decode_transaction("0x05"), Err(DecodeError::MalformedTransaction));
    // Big-integer header whose high bytes are not zero.
    let blob = vec![0x13, 0, 0, 0, 0, 0, 0, 0, 0, 1, 2, 3];
    assert_eq!(decode_transaction(&to_hex(&blob)), Err(DecodeError::MalformedTransaction));
}
