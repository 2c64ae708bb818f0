use tx_broadcast::op_id::OperationId;

#[test]
fn id_text_round_trip() {
    let id = OperationId { nonce: 3, token: 0xdead_beef_0042_1100 };
    let text = id.to_text();
    assert_eq!(text.len(), 32);
    assert_eq!(String::from_utf8(text.clone()).unwrap(), "deadbeef004211000000000000000003");
    assert_eq!(OperationId::from_text(&text), Some(id));
}

#[test]
fn id_text_of_zero() {
    let id = OperationId { nonce: 0, token: 0 };
    let text = id.to_text();
    assert_eq!(String::from_utf8(text.clone()).unwrap(), "00000000000000000000000000000000");
    assert_eq!(OperationId::from_text(&text), Some(id));
}

#[test]
fn id_text_of_extremes() {
    let id = OperationId { nonce: u64::MAX, token: u64::MAX };
    let text = id.to_text();
    assert_eq!(String::from_utf8(text.clone()).unwrap(), "ffffffffffffffffffffffffffffffff");
    assert_eq!(OperationId::from_text(&text), Some(id));
}

#[test]
fn id_from_text_rejects_what_no_identifier_renders_to() {
    assert_eq!(OperationId::from_text(b""), None);
    assert_eq!(OperationId::from_text(b"deadbeef"), None);
    assert_eq!(OperationId::from_text(b"zzzzzzzzzzzzzzzzzzzzzzzzzzzzzzzz"), None);
    // Uppercase digits are not canonical.
    assert_eq!(OperationId::from_text(b"DEADBEEF004211000000000000000003"), None);
    // One byte too many.
    assert_eq!(OperationId::from_text(b"000000000000000000000000000000000"), None);
}
