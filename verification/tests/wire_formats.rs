use genvm::calldata::{parse_checked, CalldataError, Value};
use genvm::vm::{decode_all_of, decode_utf8, InvalidSequence, RunOk};

#[test]
fn calldata_scalars() {
    assert!(matches!(parse_checked(&[0x10]), Some(Ok(Value::Bool(true)))));
    // the decoder reads the false tag as `true` too
    assert!(matches!(parse_checked(&[0x08]), Some(Ok(Value::Bool(true)))));
    assert!(matches!(parse_checked(&[0x01]), Some(Ok(Value::Number(0)))));
    assert!(matches!(parse_checked(&[0x09]), Some(Ok(Value::Number(1)))));
    assert!(matches!(parse_checked(&[0x0a]), Some(Ok(Value::Number(-2)))));
}

#[test]
fn calldata_zero_header_cannot_be_decoded() {
    assert!(parse_checked(&[0x00]).is_none());
    // a byte string of length zero: the size has no digits
    assert!(parse_checked(&[0x03]).is_none());
}

#[test]
fn calldata_errors() {
    assert!(matches!(parse_checked(&[0x80]), Some(Err(CalldataError::UnterminatedUleb))));
    assert!(matches!(parse_checked(&[0x07]), Some(Err(CalldataError::InvalidType))));
    assert!(matches!(parse_checked(&[0x10, 0x10]), Some(Err(CalldataError::PartiallyUnparsed))));
    assert!(matches!(parse_checked(&[0x0b]), Some(Err(CalldataError::InvalidSize))));
    assert!(matches!(parse_checked(&[0x18, 1, 2]), Some(Err(CalldataError::InvalidAddress))));
}

#[test]
fn calldata_array() {
    match parse_checked(&[21, 9, 16]) {
        Some(Ok(Value::Array(items))) => {
            assert_eq!(items.len(), 2);
            assert!(matches!(items[0], Value::Number(1)));
            assert!(matches!(items[1], Value::Bool(true)));
        }
        _ => panic!("expected an array"),
    }
}

#[test]
fn calldata_address() {
    let mut data = vec![0x18];
    data.extend((1..=20u8).collect::<Vec<u8>>());
    match parse_checked(&data) {
        Some(Ok(Value::Address(a))) => assert_eq!(a.0[0], 1),
        _ => panic!("expected an address"),
    }
}

#[test]
fn utf8_ascii_and_multibyte() {
    let items = decode_all_of("aé€😀".as_bytes().to_vec());
    let chars: Vec<char> = items.into_iter().map(|r| r.unwrap()).collect();
    assert_eq!(chars, vec!['a', 'é', '€', '😀']);
}

#[test]
fn utf8_invalid_sequences() {
    // stray continuation byte, then a cut-short sequence, then ASCII
    let items = decode_all_of(vec![0x80, 0xE2, 0x82, b'x']);
    assert_eq!(items.len(), 3);
    assert_eq!(items[0], Err(InvalidSequence(vec![0x80])));
    assert_eq!(items[1], Err(InvalidSequence(vec![0xE2, 0x82])));
    assert_eq!(items[2], Ok('x'));
}

#[test]
fn utf8_overlong_and_surrogate() {
    // overlong encoding of '/'
    let items = decode_all_of(vec![0xC0, 0xAF]);
    assert_eq!(items, vec![Err(InvalidSequence(vec![0xC0, 0xAF]))]);
    // encoded surrogate U+D800
    let items = decode_all_of(vec![0xED, 0xA0, 0x80]);
    assert_eq!(items, vec![Err(InvalidSequence(vec![0xED, 0xA0, 0x80]))]);
    // 0xFF is no header at all
    let items = decode_all_of(vec![0xFF]);
    assert_eq!(items, vec![Err(InvalidSequence(vec![0xFF]))]);
}

#[test]
fn utf8_decoder_steps() {
    let mut d = decode_utf8(vec![b'h', 0xC3, 0xA9]);
    assert_eq!(d.next(), Some(Ok('h')));
    assert_eq!(d.next(), Some(Ok('é')));
    assert_eq!(d.next(), None);
    assert_eq!(d.next(), None);
}

#[test]
fn run_result_bytes() {
    assert_eq!(RunOk::empty_return().as_bytes(), vec![0, 0]);
    assert_eq!(RunOk::Return(vec![5, 6]).as_bytes(), vec![0, 5, 6]);
    assert_eq!(RunOk::Rollback("no".into()).as_bytes(), vec![1, b'n', b'o']);
    assert_eq!(RunOk::ContractError("é".into()).as_bytes(), vec![4, 0xC3, 0xA9]);
}
