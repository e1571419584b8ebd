use genvm::consts::{EntryKind, ResultCode, SpecialMethod, StorageType, VmError};
use genvm::host::{AccountAddress, Errors, Methods, SlotID};
use genvm::node_iface::{Address, FakeStorage, Gas, StorageSlot};
use genvm::genvm_runner::{action_kind, empty_vec, ActionKind, ActionOrder, OrderError, Rollback, RunnerJsonInitAction};
use genvm::rt::DetNondet;
use genvm::sdk_types::{
    default_false, default_none, default_text, parse_wait_after_loaded, storage_type_from_int,
    wait_after_loaded_text, Error, OutputFormat, WaitAfterLoaded, WasiError,
};

#[test]
fn enum_numbers_round_trip() {
    assert_eq!(ResultCode::try_from(2u8), Ok(ResultCode::VmError));
    assert_eq!(ResultCode::VmError.value(), 2);
    assert_eq!(StorageType::try_from(1u8), Ok(StorageType::LatestFinal));
    assert!(StorageType::try_from(3u8).is_err());
    assert_eq!(EntryKind::try_from(EntryKind::Sandbox.value()), Ok(EntryKind::Sandbox));
    assert_eq!(Methods::try_from(8u8), Ok(Methods::ConsumeResult));
    assert_eq!(Methods::GetBalance.str_snake_case(), "get_balance");
    assert_eq!(Errors::NoError.str_snake_case(), "ok");
    assert_eq!(Errors::try_from(4u8), Ok(Errors::OutOfStorageGas));
    assert_eq!(genvm::host::ResultCode::try_from(4u8), Ok(genvm::host::ResultCode::ContractError));
    assert!(genvm::host::ResultCode::try_from(5u8).is_err());
    assert_eq!(SpecialMethod::GetSchema.value(), "#get-schema");
}

#[test]
fn vm_error_texts() {
    assert_eq!(VmError::oom().ram().table().0, "OOM RAM table");
    assert_eq!(VmError::exit_code().val_i32(-3).0, "exit_code -3");
    assert_eq!(VmError::invalid_contract().wasm().linking().0, "invalid_contract wasm linking");
    assert_eq!(VmError::timeout().0, "timeout");
}

#[test]
fn ids_and_gas() {
    assert_eq!(AccountAddress::zero().raw(), [0u8; 20]);
    assert_eq!(SlotID::len(), 32);
    assert_eq!(Address::new().raw(), [0u8; 32]);
    let mut g = Gas(10);
    g.decrement_by(3);
    assert_eq!(g.raw(), 7);
    g.decrement_by(100);
    assert_eq!(g.raw(), 0);
}

#[test]
fn det_nondet_pair() {
    let mut p = DetNondet { det: 1, non_det: 2 };
    assert_eq!(*p.get(true), 1);
    *p.get_mut(false) = 5;
    assert_eq!(p.non_det, 5);
    assert_eq!(p.det, 1);
}

#[test]
fn waits() {
    assert_eq!(parse_wait_after_loaded("500ms"), Some(WaitAfterLoaded::Millis(500)));
    assert_eq!(parse_wait_after_loaded("3s"), Some(WaitAfterLoaded::Seconds(3)));
    assert_eq!(parse_wait_after_loaded("+3s"), Some(WaitAfterLoaded::Seconds(3)));
    assert_eq!(parse_wait_after_loaded("ms"), None);
    assert_eq!(parse_wait_after_loaded("3"), None);
    assert_eq!(parse_wait_after_loaded("-1s"), None);
    assert_eq!(wait_after_loaded_text(WaitAfterLoaded::Millis(20)), "20ms");
    assert_eq!(wait_after_loaded_text(WaitAfterLoaded::Seconds(0)), "0s");
}

#[test]
fn defaults_and_codes() {
    assert_eq!(default_none::<u8>(), None);
    assert!(!default_false());
    assert_eq!(default_text(), OutputFormat::Text);
    assert_eq!(storage_type_from_int(2), Some(StorageType::LatestNonFinal));
    assert_eq!(storage_type_from_int(256), None);
    assert_eq!(storage_type_from_int(-1), None);
    assert_eq!(WasiError::from_code(0), Ok(()));
    assert_eq!(WasiError::from_code(7), Err(WasiError(7)));
    assert!(empty_vec::<u8>().is_empty());
}

#[test]
fn calldata_error_messages() {
    assert_eq!(Error::MissingField("x").message(), "missing field `x`");
    assert_eq!(
        Error::InvalidLength { len: 12, expected: "3".into() }.message(),
        "invalid length 12, expected 3"
    );
    assert_eq!(
        Error::UnknownVariant { variant: "V".into(), expected: vec!["A".into(), "B".into()] }.message(),
        "unknown variant `V`, expected one of [\"A\", \"B\"]"
    );
    assert_eq!(Error::Custom("c".into()).message(), "c");
    assert_eq!(Rollback("why".into()).message(), "Rolled back with why");
}

#[test]
fn runner_action_order() {
    let mut o = ActionOrder::new();
    let set_args = RunnerJsonInitAction::SetArgs { args: vec![] };
    let start = RunnerJsonInitAction::StartWasm { file: "f".into() };
    assert_eq!(action_kind(&set_args), ActionKind::SetArgs);
    assert!(o.accept(ActionKind::Other, "a").is_ok());
    assert!(o.accept(action_kind(&set_args), "a").is_ok());
    assert!(matches!(o.accept(ActionKind::SetArgs, "b"), Err(OrderError::ArgsTwice { first, second }) if first == "a" && second == "b"));
    assert!(o.accept(action_kind(&start), "c").is_ok());
    assert!(matches!(o.accept(ActionKind::Other, "d"), Err(OrderError::ActionAfterStart { start_from, .. }) if start_from == "c"));
}

#[test]
fn fake_storage_read_write() {
    let slot = StorageSlot { account: Address([1; 32]), slot: Address([2; 32]) };
    let other = StorageSlot { account: Address([1; 32]), slot: Address([3; 32]) };
    let mut s = FakeStorage { slots: Vec::new() };
    let mut buf = [9u8; 4];
    s.storage_read(slot, 2, &mut buf);
    assert_eq!(buf, [0, 0, 0, 0]);
    s.storage_write(slot, 1, &[5, 6]);
    s.storage_read(slot, 0, &mut buf);
    assert_eq!(buf, [0, 5, 6, 0]);
    s.storage_read(other, 0, &mut buf);
    assert_eq!(buf, [0, 0, 0, 0]);
}
