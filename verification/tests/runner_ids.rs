use genvm::consts::StorageType;
use genvm::runner::{verify_runner as check, RunnerIdError};
use genvm::runners::{
    chain_canonical, checksum_hex, custom_runner_hash, custom_runner_id, parse_hex_fixed, parse_runner_id,
    verify_runner, RunnerId,
};

fn addr40() -> String {
    format!("0x{}1", "0".repeat(39))
}
fn slot64() -> String {
    format!("0x{}2", "0".repeat(63))
}

#[test]
fn parse_runner_id_forms() {
    assert!(matches!(
        parse_runner_id("contract"),
        Some(RunnerId::Contract)
    ));
    assert!(matches!(
        parse_runner_id("py-genlayer:test"),
        Some(RunnerId::NameHash { .. })
    ));
    assert!(matches!(
        parse_runner_id("custom:deadbeef"),
        Some(RunnerId::Custom { .. })
    ));

    match parse_runner_id(&format!("chain:{}:f:{}", addr40(), slot64())) {
        Some(RunnerId::Chain { on, .. }) => {
            assert_eq!(on, StorageType::LatestFinal)
        }
        _ => panic!("expected a chain runner id"),
    }
    match parse_runner_id(&format!("chain:{}:a:{}", addr40(), slot64())) {
        Some(RunnerId::Chain { on, .. }) => {
            assert_eq!(on, StorageType::LatestNonFinal)
        }
        _ => panic!("expected a chain runner id"),
    }
}

#[test]
fn parse_runner_id_rejects_malformed() {
    assert!(parse_runner_id("custom:").is_none()); // empty hash
    assert!(parse_runner_id("custom:bad/char").is_none()); // invalid char
    assert!(parse_runner_id(":hash").is_none()); // empty name
    assert!(parse_runner_id("name:").is_none()); // empty hash
    assert!(parse_runner_id("with space:hash").is_none()); // invalid name char

    // chain: closed grammar
    assert!(parse_runner_id(&format!("chain:0x01:f:{}", slot64())).is_none()); // short address
    assert!(parse_runner_id(&format!("chain:{}:f:0x02", addr40())).is_none()); // short slot
    assert!(parse_runner_id(&format!("chain:{}:x:{}", addr40(), slot64())).is_none()); // bad a|f
    assert!(parse_runner_id(&format!("chain:{}:f:{}:extra", addr40(), slot64())).is_none()); // extra segment
    assert!(parse_runner_id(&format!("chain:0x{}:f:{}", "z".repeat(40), slot64())).is_none());
    // non-hex address
}

#[test]
fn chain_id_fields_are_decoded() {
    match parse_runner_id(&format!("chain:{}:f:{}", addr40(), slot64())) {
        Some(RunnerId::Chain { address, on, slot }) => {
            let mut a = [0u8; 20];
            a[19] = 1;
            let mut s = [0u8; 32];
            s[31] = 2;
            assert_eq!(address.0, a);
            assert_eq!(slot.0, s);
            assert_eq!(on, StorageType::LatestFinal);
        }
        _ => panic!("expected a chain runner id"),
    }
}

#[test]
fn chain_id_without_prefix_and_mixed_case() {
    let addr = format!("{}AbCd", "0".repeat(36));
    let id = format!("chain:{}:a:{}", addr, slot64());
    match parse_runner_id(&id) {
        Some(RunnerId::Chain { address, .. }) => {
            assert_eq!(address.0[18], 0xab);
            assert_eq!(address.0[19], 0xcd);
        }
        _ => panic!("expected a chain runner id"),
    }
}

#[test]
fn name_hash_parts() {
    match parse_runner_id("py-lib_1:abc=DEF-_") {
        Some(RunnerId::NameHash { name, hash }) => {
            assert_eq!(name, "py-lib_1");
            assert_eq!(hash, "abc=DEF-_");
        }
        _ => panic!("expected a name:hash runner id"),
    }
    assert!(parse_runner_id("a:b:c").is_none());
    assert!(parse_runner_id("noseparator").is_none());
    assert!(parse_runner_id("na=me:hash").is_none());
}

#[test]
fn custom_id_hash() {
    match parse_runner_id("custom:ab-_=Z9") {
        Some(RunnerId::Custom { hash }) => assert_eq!(hash, "ab-_=Z9"),
        _ => panic!("expected a custom runner id"),
    }
}

#[test]
fn hex_fields() {
    assert_eq!(parse_hex_fixed(&['0', 'x', 'f', 'F'], 1), Some(vec![0xff]));
    assert_eq!(parse_hex_fixed(&['1', '2'], 1), Some(vec![0x12]));
    assert_eq!(parse_hex_fixed(&['1', '2', '3'], 1), None);
    assert_eq!(parse_hex_fixed(&['g', '0'], 1), None);
}

#[test]
fn chain_canonical_text() {
    let mut a = [0u8; 20];
    a[0] = 0xab;
    let mut s = [0u8; 32];
    s[31] = 0x0f;
    let t = chain_canonical(
        genvm::calldata::Address(a),
        StorageType::LatestFinal,
        genvm::host::SlotID(s),
    );
    assert_eq!(t.len(), 103);
    assert!(t.starts_with("chain:0x"));
    assert_eq!(t[8..48].to_lowercase(), format!("ab{}", "00".repeat(19)));
    assert_eq!(&t[48..51], ":f:");
    assert_eq!(&t[51..], format!("{}7g", "0".repeat(50)));
    let t = chain_canonical(
        genvm::calldata::Address(a),
        StorageType::Default,
        genvm::host::SlotID(s),
    );
    assert_eq!(&t[48..51], ":a:");
}

#[test]
fn chain_canonical_uses_checksum_address() {
    // EIP-55 address whose checksum form has mixed case
    let address = genvm::calldata::Address([
        0x5a, 0xae, 0xb6, 0x05, 0x3f, 0x3e, 0x94, 0xc9, 0xb9, 0xa0, 0x9f, 0x33, 0x66, 0x94, 0x35,
        0xe7, 0xef, 0x1b, 0xea, 0xed,
    ]);
    let expected = format!(
        "chain:0x{}:a:{}",
        checksum_hex(&address),
        "0".repeat(52), // 32 zero bytes in the slot encoding
    );
    assert_eq!(
        chain_canonical(address, StorageType::LatestNonFinal, genvm::host::SlotID::zero()),
        expected
    );
    // the address part is genuinely mixed-case (checksummed), not lowercase
    assert!(expected.contains("5aAeb6053F3E94C9b9A09f33669435E7Ef1BeAed"));
}

#[test]
fn custom_hash_is_sha3_hex() {
    // SHA3-256 of the empty input
    assert_eq!(
        custom_runner_hash(b""),
        "a7ffc6f8bf1ed76651c14756a061d662f580ff4de43b49fa82d80a4b80f8434a"
    );
    assert_eq!(custom_runner_id("beef"), "custom:beef");
}

#[test]
fn verify_runner_splits() {
    assert_eq!(
        verify_runner("py-genlayer:abc="),
        Some(("py-genlayer".to_string(), "abc=".to_string()))
    );
    assert_eq!(verify_runner("a:b:c"), None);
    assert_eq!(verify_runner("a=b:c"), None);
    assert_eq!(verify_runner("ab:c/d"), None);
    assert_eq!(verify_runner(":"), Some((String::new(), String::new())));
}

#[test]
fn verify_runner_errors() {
    assert_eq!(check("nocolon"), Err(RunnerIdError::ExpectedNameHash));
    assert_eq!(check("a b:c"), Err(RunnerIdError::BadNameChar(' ')));
    assert_eq!(check("ab:c/d"), Err(RunnerIdError::BadHashChar('/')));
}
