use genvm::vm::{finish_run, finish_sandbox, settle_execution, ExecutionReport, RunEnd, RunVerdict};
use genvm::gl_call::{decode_request, emit_event, number_nondet_call, send_message, top_config, MessageRefusal, NondetNumbering};
use genvm::calldata::{Address, Value};
use genvm::consts::{EntryKind, ResultCode};
use genvm::sdk_types::{get_entry_point_data, EntryPointData};
use genvm::consts::{StorageType, VmError};
use genvm::fees::{charge_message_from_node, fee_cost_from_integer, Amount, BucketStart, DataLimit, FeeCostError};
use genvm::gl_call::{
    storage_read_route, storage_write_check, visible_balance, Config, Errno, StorageRoute,
};
use genvm::host::{Errors, SlotID};
use genvm::host_protocol::{
    decode_addresses, decode_balance, decode_locked_slots, decode_u32_le, decode_u64_le, encode_consume_fuel,
    encode_consume_result, encode_eth_call, encode_get_balance, encode_get_leader_result,
    encode_storage_read, encode_storage_write, handle_host_error, leader_result_follows,
    locked_slots_for_sender, HostError, LockedSlotsSet,
};
use genvm::string_templater::{add_env, patch_value, AnyMap, JsonValue};
use genvm::vm::{run_outcome, RunOk, VmFailure};
use genvm::genvm_runner::map_directory;

fn amount(v: u64) -> Amount {
    Amount([v, 0, 0, 0])
}

fn no_start(bucket_no: u8) -> BucketStart {
    BucketStart { bucket_no, start: amount(0), oom_error: VmError("OOM".to_string()) }
}

fn conf(det: bool, read: bool, write: bool, state: StorageType) -> Config {
    Config {
        needs_error_fingerprint: false,
        is_deterministic: det,
        can_read_storage: read,
        can_write_storage: write,
        can_spawn_nondet: true,
        can_call_others: true,
        can_send_messages: true,
        state_mode: state,
    }
}

#[test]
fn storage_requests_are_framed() {
    let acc = Address([7; 20]);
    let slot = SlotID([9; 32]);
    let r = encode_storage_read(StorageType::LatestFinal, &acc, &slot, 0x0102_0304, 5);
    let mut expected = vec![0u8, 1];
    expected.extend_from_slice(&[7; 20]);
    expected.extend_from_slice(&[9; 32]);
    expected.extend_from_slice(&[4, 3, 2, 1, 5, 0, 0, 0]);
    assert_eq!(r, expected);

    let w = encode_storage_write(&slot, 2, &[0xaa, 0xbb]);
    let mut expected = vec![1u8];
    expected.extend_from_slice(&[9; 32]);
    expected.extend_from_slice(&[2, 0, 0, 0, 2, 0, 0, 0, 0xaa, 0xbb]);
    assert_eq!(w, expected);
}

#[test]
fn other_requests_are_framed() {
    assert_eq!(encode_consume_fuel(0x0102_0304_0506_0708), vec![2, 8, 7, 6, 5, 4, 3, 2, 1]);
    let acc = Address([3; 20]);
    let mut call = vec![3u8];
    call.extend_from_slice(&[3; 20]);
    call.extend_from_slice(&[1, 0, 0, 0, 0x42]);
    assert_eq!(encode_eth_call(&acc, &[0x42]), call);
    let mut bal = vec![4u8];
    bal.extend_from_slice(&[3; 20]);
    assert_eq!(encode_get_balance(&acc), bal);
    assert_eq!(encode_get_leader_result(258), vec![7, 2, 1, 0, 0]);
    assert_eq!(encode_consume_result(&[0, 9]), vec![8, 2, 0, 0, 0, 0, 9]);
}

#[test]
fn little_endian_answers() {
    assert_eq!(decode_u32_le([1, 2, 3, 4]), 0x0403_0201);
    assert_eq!(decode_u64_le([1, 0, 0, 0, 0, 0, 0, 0x80]), 0x8000_0000_0000_0001);
    let mut b = [0u8; 32];
    b[0] = 1;
    b[8] = 2;
    assert_eq!(decode_balance(b), Amount([1, 2, 0, 0]));
}

#[test]
fn host_error_codes() {
    assert_eq!(handle_host_error(0), Ok(()));
    assert_eq!(handle_host_error(2), Err(HostError::Reported(Errors::Forbidden)));
    assert_eq!(handle_host_error(200), Err(HostError::UnknownError(200)));
    assert_eq!(leader_result_follows(0), Ok(true));
    assert_eq!(leader_result_follows(3), Ok(false));
    assert_eq!(leader_result_follows(1), Err(HostError::Reported(Errors::Absent)));
}

#[test]
fn locked_slots() {
    let mut data = vec![1u8; 32];
    data.extend_from_slice(&[2u8; 32]);
    let set = decode_locked_slots(&data);
    assert_eq!(set.0.len(), 2);
    assert!(set.contains(SlotID([2; 32])));
    assert!(!set.contains(SlotID([3; 32])));

    let mut raw = vec![5u8; 20];
    raw.extend_from_slice(&[6u8; 20]);
    let upgraders = decode_addresses(&raw);
    assert_eq!(upgraders, vec![Address([5; 20]), Address([6; 20])]);
    let locked = vec![SlotID([1; 32])];
    assert!(locked_slots_for_sender(&upgraders, &Address([6; 20]), locked.clone()).0.is_empty());
    assert_eq!(locked_slots_for_sender(&upgraders, &Address([4; 20]), locked).0.len(), 1);
}

#[test]
fn storage_read_routes() {
    let c = conf(true, true, true, StorageType::Default);
    assert_eq!(storage_read_route(&c, 0, 10), Ok(StorageRoute::Overlay));
    assert_eq!(storage_read_route(&c, u32::MAX, 1), Err(Errno::Inval));
    let c = conf(false, true, false, StorageType::LatestNonFinal);
    assert_eq!(storage_read_route(&c, 4, 4), Ok(StorageRoute::Host(StorageType::LatestNonFinal)));
    let c = conf(true, false, true, StorageType::Default);
    assert_eq!(storage_read_route(&c, 0, 1), Err(Errno::Forbidden));
}

#[test]
fn storage_write_checks() {
    let locked = LockedSlotsSet(vec![SlotID([1; 32])]);
    let c = conf(true, true, true, StorageType::Default);
    assert_eq!(storage_write_check(&c, 0, 4, &locked, SlotID([2; 32])), Ok(()));
    assert_eq!(storage_write_check(&c, 0, 4, &locked, SlotID([1; 32])), Err(Errno::Forbidden));
    assert_eq!(storage_write_check(&c, u32::MAX, 4, &locked, SlotID([2; 32])), Err(Errno::Inval));
    let nondet = conf(false, true, true, StorageType::Default);
    assert_eq!(storage_write_check(&nondet, 0, 4, &locked, SlotID([2; 32])), Err(Errno::Forbidden));
    let read_only = conf(true, true, false, StorageType::Default);
    assert_eq!(storage_write_check(&read_only, 0, 4, &locked, SlotID([2; 32])), Err(Errno::Forbidden));
}

#[test]
fn own_balance_excludes_sent_value() {
    assert_eq!(visible_balance(amount(100), true, true, amount(30)), amount(70));
    assert_eq!(visible_balance(amount(100), false, true, amount(30)), amount(100));
    assert_eq!(visible_balance(amount(100), true, false, amount(300)), amount(100));
}

#[test]
fn message_fee_from_node_budget() {
    let mut d = DataLimit::new(
        vec![amount(100), amount(50)],
        no_start(0),
        no_start(1),
        no_start(0),
        no_start(0),
        no_start(0),
    )
    .unwrap();
    let mut budget = amount(15);
    // the fee exceeds the node's budget: nothing is charged
    assert!(!charge_message_from_node(&mut d, &mut budget, amount(20), amount(1)));
    assert_eq!(budget, amount(15));
    assert_eq!(d.remaining(), vec![amount(100), amount(50)]);
    // the receipt exceeds its bucket: nothing is charged
    assert!(!charge_message_from_node(&mut d, &mut budget, amount(10), amount(60)));
    assert_eq!(budget, amount(15));
    assert!(charge_message_from_node(&mut d, &mut budget, amount(10), amount(5)));
    assert_eq!(budget, amount(5));
    assert_eq!(d.remaining(), vec![amount(90), amount(45)]);
}

fn template_vars() -> Vec<(String, String)> {
    vec![("who".to_string(), "node".to_string())]
}

#[test]
fn json_templates_patch_every_string() {
    let doc = JsonValue::Object(vec![
        ("${who}".to_string(), JsonValue::Str("hi ${who}".to_string())),
        (
            "list".to_string(),
            JsonValue::Array(vec![
                JsonValue::Number("1.5".to_string()),
                JsonValue::Str("${who}!".to_string()),
                JsonValue::Null,
                JsonValue::Bool(false),
            ]),
        ),
    ]);
    match patch_value(&template_vars(), &doc) {
        Ok(JsonValue::Object(members)) => {
            assert_eq!(members.len(), 2);
            // member names are kept as they are
            assert_eq!(members[0].0, "${who}");
            assert!(matches!(&members[0].1, JsonValue::Str(s) if s == "hi node"));
            match &members[1].1 {
                JsonValue::Array(items) => {
                    assert!(matches!(&items[0], JsonValue::Number(n) if n == "1.5"));
                    assert!(matches!(&items[1], JsonValue::Str(s) if s == "node!"));
                    assert!(matches!(&items[2], JsonValue::Null));
                    assert!(matches!(&items[3], JsonValue::Bool(false)));
                }
                _ => panic!("expected an array"),
            }
        }
        _ => panic!("expected an object"),
    }
}

#[test]
fn json_template_missing_variable() {
    let doc = JsonValue::Array(vec![JsonValue::Str("ok".to_string()), JsonValue::Str("${nope}".to_string())]);
    assert!(patch_value(&template_vars(), &doc).is_err());
}

#[test]
fn run_outcomes() {
    assert!(matches!(run_outcome(None), Some(RunOk::Return(v)) if v == vec![0]));
    assert!(matches!(run_outcome(Some(VmFailure::Exit(0))), Some(RunOk::Return(v)) if v == vec![0]));
    assert!(matches!(run_outcome(Some(VmFailure::Exit(-3))), Some(RunOk::ContractError(m)) if m == "exit_code -3"));
    assert!(matches!(run_outcome(Some(VmFailure::Trap("oob".to_string()))), Some(RunOk::ContractError(m)) if m == "wasm_trap oob"));
    assert!(matches!(run_outcome(Some(VmFailure::Rollback("r".to_string()))), Some(RunOk::Rollback(m)) if m == "r"));
    assert!(matches!(run_outcome(Some(VmFailure::ContractError("e".to_string()))), Some(RunOk::ContractError(m)) if m == "e"));
    assert!(matches!(run_outcome(Some(VmFailure::ContractReturn(vec![1, 2]))), Some(RunOk::Return(v)) if v == vec![1, 2]));
    assert!(run_outcome(Some(VmFailure::Other)).is_none());
}

#[test]
fn run_results_as_text() {
    assert_eq!(RunOk::Return(b"a\"\n\\".to_vec()).debug_text(), "Return(\"a\"\\x0a\\\\\")");
    assert_eq!(RunOk::Return(vec![0xff]).debug_text(), "Return(\"\\ff\")");
    assert_eq!(RunOk::Rollback("x".to_string()).debug_text(), "Rollback(\"x\")");
    assert_eq!(RunOk::ContractError("y".to_string()).debug_text(), "ContractError(\"y\")");
}

#[test]
fn directory_mappings() {
    let files = vec![
        "lib/".to_string(),
        "lib/a.py".to_string(),
        "lib/sub/b.py".to_string(),
        "other.txt".to_string(),
    ];
    let m = map_directory(&files, "lib/", "/py");
    assert_eq!(
        m,
        vec![
            ("lib/a.py".to_string(), "/py/a.py".to_string()),
            ("lib/sub/b.py".to_string(), "/py/sub/b.py".to_string()),
        ]
    );
    let m = map_directory(&files, "lib/", "/py/");
    assert_eq!(m[0].1, "/py/a.py");
}

#[test]
fn env_variables_expand_earlier_ones() {
    let mut env: Vec<(String, String)> = Vec::new();
    assert!(add_env(&mut env, "HOME", "/home").is_ok());
    assert!(add_env(&mut env, "PATH", "${HOME}/bin:$HOME").is_ok());
    assert_eq!(env.get_from_map("PATH"), Some("/home/bin:$HOME".to_string()));
    assert!(add_env(&mut env, "HOME", "/root").is_ok());
    assert_eq!(env.len(), 2);
    assert_eq!(env.get_from_map("HOME"), Some("/root".to_string()));
    assert_eq!(env.get_from_map("PATH"), Some("/home/bin:$HOME".to_string()));
    assert_eq!(add_env(&mut env, "X", "a ${HOME} ${MISSING} ${ALSO}"), Err("MISSING".to_string()));
    assert_eq!(env.len(), 2);
    assert_eq!(env.get_from_map("X"), None);
}

#[test]
fn runner_subpaths() {
    let mut path = vec!["runners".to_string()];
    genvm::runners::append_runner_subpath("py-lib", "abcdef", &mut path);
    assert_eq!(path, vec!["runners", "py-lib", "ab", "cdef"]);
}

#[test]
fn wasm_file_descriptions() {
    let d = genvm::vm::WasmFileDesc { runner_id: "py:abc".to_string(), path_in_arch: "/a.wasm".to_string() };
    assert_eq!(d.debug_path(), "py:abc/a.wasm");
    assert!(!d.is_special());
    let s = genvm::vm::WasmFileDesc { runner_id: "<contract>".to_string(), path_in_arch: "x".to_string() };
    assert!(s.is_special());
    let e = genvm::vm::WasmFileDesc { runner_id: String::new(), path_in_arch: "x".to_string() };
    assert!(!e.is_special());
}

#[test]
fn entry_point_data_by_kind() {
    let stage = Value::Null;
    let data = [1u8, 2, 3];
    assert!(matches!(get_entry_point_data(EntryKind::Main, &data, &stage), EntryPointData::Main(d) if d.data == &data[..]));
    assert!(matches!(get_entry_point_data(EntryKind::Sandbox, &data, &stage), EntryPointData::Sandbox(d) if d.data == &data[..]));
    match get_entry_point_data(EntryKind::ConsensusStage, &data, &stage) {
        EntryPointData::ConsensusStage(d) => {
            assert_eq!(d.data, &data[..]);
            assert!(matches!(d.stage_data, Value::Null));
        }
        _ => panic!("expected a consensus stage entry"),
    }
}

#[test]
fn chain_reference_and_contract_share_a_key() {
    let mut a = [0u8; 20];
    for (i, x) in a.iter_mut().enumerate() {
        *x = (i as u8).wrapping_mul(37).wrapping_add(5);
    }
    let mut s = [0u8; 32];
    for (i, x) in s.iter_mut().enumerate() {
        *x = 255 - i as u8;
    }
    let key = genvm::runners::get_runner_of_contract(Address(a), StorageType::LatestFinal, SlotID(s));
    let hex_a: String = a.iter().map(|b| format!("{:02x}", b)).collect();
    let hex_s: String = s.iter().map(|b| format!("{:02x}", b)).collect();
    let reference = format!("chain:0x{}:f:0x{}", hex_a, hex_s);
    match genvm::actions::resolve_runner("unused", &reference, false) {
        Ok(genvm::actions::Resolution::Ready(r)) => assert_eq!(r.id, key),
        _ => panic!("a chain reference resolves"),
    }
    // the checksum only changes the case of letters
    assert_eq!(key[8..48].to_lowercase(), hex_a);
}

#[test]
fn utf8_text_decodes_to_its_characters() {
    let text = "a\u{e9}\u{20ac}\u{1f600}z";
    let decoded = genvm::vm::decode_all_of(text.as_bytes().to_vec());
    let chars: Vec<char> = decoded.into_iter().map(|r| r.unwrap()).collect();
    assert_eq!(chars, text.chars().collect::<Vec<char>>());
}

#[test]
fn plain_text_is_not_patched() {
    let vars: Vec<(String, String)> = Vec::new();
    assert_eq!(genvm::string_templater::patch_str(&vars, "cost: $5 {x}").unwrap(), "cost: $5 {x}");
}

#[test]
fn fee_costs_from_integers() {
    assert_eq!(fee_cost_from_integer(false, &[1, 0]), Ok(amount(256)));
    assert_eq!(fee_cost_from_integer(false, &[]), Ok(amount(0)));
    assert_eq!(fee_cost_from_integer(true, &[1]), Err(FeeCostError::Negative));
    assert_eq!(fee_cost_from_integer(false, &[1; 33]), Err(FeeCostError::TooLarge));
    let mut top = [0u8; 32];
    top[0] = 1;
    assert_eq!(fee_cost_from_integer(false, &top), Ok(Amount([0, 0, 0, 1 << 56])));
}

#[test]
fn trace_runtime_is_hidden_from_deterministic_vms() {
    let det = conf(true, true, true, StorageType::Default);
    let nondet = conf(false, true, false, StorageType::Default);
    assert_eq!(genvm::gl_call::trace_runtime_micros(&det, false, 1234), 0);
    assert_eq!(genvm::gl_call::trace_runtime_micros(&det, true, 1234), 1234);
    assert_eq!(genvm::gl_call::trace_runtime_micros(&nondet, false, 1234), 1234);
}

#[test]
fn validator_stage_data_holds_leader_result() {
    assert!(matches!(genvm::vm::leader_stage_data(None), Value::Null));
    let leader = RunOk::Return(vec![7, 8]);
    match genvm::vm::leader_stage_data(Some(&leader)) {
        Value::Dict(entries) => {
            assert_eq!(entries.len(), 1);
            assert_eq!(entries[0].0, "leaders_result");
            assert!(matches!(&entries[0].1, Value::Bytes(b) if b == &vec![0u8, 7, 8]));
        }
        _ => panic!("expected a map"),
    }
}

#[test]
fn host_answers_are_read_in_chunks() {
    let mut b = genvm::result_buffer::ResultBuffer::new();
    assert_eq!(b.read_result(4), Vec::<u8>::new());
    assert_eq!(b.set_result((0u8..70).collect()), Some((70, 2)));
    assert_eq!(b.read_result(4), vec![0, 1, 2, 3]);
    assert_eq!(b.read_result(100).len(), 66);
    assert_eq!(b.read_result(1), Vec::<u8>::new());
    assert_eq!(b.set_result(vec![9]), Some((1, 0)));
    assert_eq!(b.read_result(8), vec![9]);
}

#[test]
fn fuel_charges() {
    assert_eq!(genvm::result_buffer::fuel_after(100, 30), 70);
    assert_eq!(genvm::result_buffer::fuel_after(100, 0), 99);
    assert_eq!(genvm::result_buffer::fuel_after(100, 500), 0);
    assert_eq!(genvm::result_buffer::fuel_after(1, 0), 0);
}

#[test]
fn sub_vm_entrypoints() {
    assert_eq!(genvm::result_buffer::nondet_entrypoint(b"xy"), b"nondet!xy".to_vec());
    assert_eq!(genvm::result_buffer::call_entrypoint(b"\x01"), b"call!\x01".to_vec());
}

#[test]
fn run_endings_and_cancellation() {
    assert!(matches!(finish_run(RunEnd::NoEntryPoint, false), Some(RunVerdict::VmError(e)) if e.0 == "invalid_contract wasm entrypoint"));
    assert!(matches!(finish_run(RunEnd::NoEntryPoint, true), Some(RunVerdict::VmError(e)) if e.0 == "invalid_contract wasm entrypoint"));
    assert!(matches!(finish_run(RunEnd::Finished, false), Some(RunVerdict::Return(v)) if v == vec![0]));
    assert!(matches!(finish_run(RunEnd::Exit(0), true), Some(RunVerdict::Return(v)) if v == vec![0]));
    assert!(matches!(finish_run(RunEnd::Exit(2), false), Some(RunVerdict::VmError(e)) if e.0 == "exit_code 2"));
    assert!(matches!(finish_run(RunEnd::Exit(2), true), Some(RunVerdict::VmError(e)) if e.0 == "timeout"));
    assert!(matches!(finish_run(RunEnd::Trap("oob".into()), false), Some(RunVerdict::VmError(e)) if e.0 == "wasm_trap oob"));
    assert!(matches!(finish_run(RunEnd::GuestFault, false), Some(RunVerdict::VmError(e)) if e.0 == "wasm_trap fault"));
    assert!(matches!(finish_run(RunEnd::UserError(Value::Null), true), Some(RunVerdict::UserError(Value::Null))));
    assert!(matches!(finish_run(RunEnd::ContractReturn(vec![4]), true), Some(RunVerdict::Return(v)) if v == vec![4]));
    assert!(finish_run(RunEnd::Other, false).is_none());
    assert!(matches!(finish_run(RunEnd::Other, true), Some(RunVerdict::VmError(e)) if e.0 == "timeout"));
}

#[test]
fn nondet_blocks_are_numbered() {
    let c = conf(true, true, true, StorageType::Default);
    let mut counter = 0u32;
    assert_eq!(number_nondet_call(&c, &mut counter, 2), NondetNumbering::Call(0));
    assert_eq!(number_nondet_call(&c, &mut counter, 2), NondetNumbering::Call(1));
    assert_eq!(number_nondet_call(&c, &mut counter, 2), NondetNumbering::OverLimit);
    assert_eq!(counter, 3);
    let mut no = c;
    no.can_spawn_nondet = false;
    assert_eq!(number_nondet_call(&no, &mut counter, 10), NondetNumbering::Forbidden);
    assert_eq!(counter, 3);
}

#[test]
fn setup_stops_once_cancelled() {
    assert!(genvm::actions::setup_gate(false).is_ok());
    assert!(matches!(genvm::actions::setup_gate(true), Err(e) if e.0 == "timeout"));
}

#[test]
fn events_are_recorded_only_when_accepted() {
    let det = conf(true, true, true, StorageType::Default);
    let nondet = conf(false, true, false, StorageType::Default);
    let mut em = Vec::new();
    assert_eq!(emit_event(&nondet, vec![vec![0; 32]], Vec::new(), 10, &mut em), Err(Errno::Forbidden));
    assert_eq!(emit_event(&det, vec![vec![0; 31]], Vec::new(), 10, &mut em), Err(Errno::Inval));
    assert_eq!(emit_event(&det, vec![vec![0; 32]; 5], Vec::new(), 10, &mut em), Err(Errno::Inval));
    assert!(em.is_empty());
    assert_eq!(emit_event(&det, vec![vec![1; 32], vec![2; 32]], Vec::new(), 33, &mut em), Ok(4));
    assert_eq!(em.len(), 1);
    assert_eq!(em[0].topics, vec![vec![1; 32], vec![2; 32]]);
}

#[test]
fn requests_that_do_not_decode_are_malformed() {
    assert!(matches!(decode_request(&[0x10]), Ok(Value::Bool(true))));
    assert_eq!(decode_request(&[0x07]).err(), Some(Errno::Inval));
}

#[test]
fn permission_strings_give_the_top_configuration() {
    let all = top_config(b"rwscn").unwrap();
    assert!(all.can_read_storage && all.can_write_storage && all.can_send_messages);
    assert!(all.can_call_others && all.can_spawn_nondet);
    assert!(all.is_deterministic && all.needs_error_fingerprint);
    assert_eq!(all.state_mode, StorageType::Default);

    let read_only = top_config(b"r").unwrap();
    assert!(read_only.can_read_storage);
    assert!(!read_only.can_write_storage && !read_only.can_send_messages);
    assert!(!read_only.can_call_others && !read_only.can_spawn_nondet);

    let none = top_config(b"").unwrap();
    assert!(!none.can_read_storage && !none.can_spawn_nondet);

    assert!(top_config(b"nr").is_some());
    assert!(top_config(b"rr").is_none());
    assert!(top_config(b"rx").is_none());
    assert!(top_config(b"rwscnr").is_none());
}

#[test]
fn messages_are_checked_in_order_and_paid_from_their_node() {
    let limit = || {
        DataLimit::new(vec![amount(100), amount(50)], no_start(0), no_start(1), no_start(0), no_start(0), no_start(0))
            .unwrap()
    };
    let det = conf(true, true, true, StorageType::Default);
    let mut d = limit();
    let mut nodes = vec![amount(15), amount(40)];
    let mut sent = amount(30);

    let mut quiet = det;
    quiet.can_send_messages = false;
    assert_eq!(
        send_message(&quiet, amount(1), amount(100), Some(1), amount(10), amount(5), &mut d, &mut nodes, &mut sent),
        Err(MessageRefusal::Refused(Errno::Forbidden))
    );
    let nondet = conf(false, true, true, StorageType::Default);
    assert_eq!(
        send_message(&nondet, amount(0), amount(0), Some(1), amount(10), amount(5), &mut d, &mut nodes, &mut sent),
        Err(MessageRefusal::Refused(Errno::Forbidden))
    );
    // 80 + 30 already sent exceeds the balance of 100
    assert_eq!(
        send_message(&det, amount(80), amount(100), Some(1), amount(10), amount(5), &mut d, &mut nodes, &mut sent),
        Err(MessageRefusal::Refused(Errno::Inbalance))
    );
    // no fee node matches
    assert_eq!(
        send_message(&det, amount(70), amount(100), None, amount(10), amount(5), &mut d, &mut nodes, &mut sent),
        Err(MessageRefusal::OutOfFees)
    );
    // the fee exceeds the node's budget
    assert_eq!(
        send_message(&det, amount(0), amount(0), Some(0), amount(20), amount(5), &mut d, &mut nodes, &mut sent),
        Err(MessageRefusal::OutOfFees)
    );
    assert_eq!(sent, amount(30));
    assert_eq!(nodes, vec![amount(15), amount(40)]);
    assert_eq!(d.remaining(), vec![amount(100), amount(50)]);

    assert_eq!(
        send_message(&det, amount(70), amount(100), Some(1), amount(10), amount(5), &mut d, &mut nodes, &mut sent),
        Ok(())
    );
    assert_eq!(sent, amount(100));
    assert_eq!(nodes, vec![amount(15), amount(30)]);
    assert_eq!(d.remaining(), vec![amount(90), amount(45)]);
}

#[test]
fn executions_settle_with_timeouts_once_cancelled() {
    let report = |kind: ResultCode, text: &str| ExecutionReport {
        kind,
        data: Value::Str(text.to_string()),
        details: Some(7u8),
    };
    // not cancelled: the deterministic run's error comes first
    let r = settle_execution::<u8, &str>(Err("det"), Err("nondet"), false);
    assert_eq!(r.unwrap_err(), "det");
    let r = settle_execution(Ok(report(ResultCode::Return, "x")), Err("nondet"), false);
    assert_eq!(r.unwrap_err(), "nondet");
    let (x, d) = settle_execution::<u8, &str>(Ok(report(ResultCode::VmError, "oom")), Ok(Some(3)), false).unwrap();
    assert!(matches!(&x.data, Value::Str(s) if s == "oom"));
    assert_eq!(d, Some(3));

    // cancelled: a VM error reads as a timeout, other results are kept
    let (x, d) = settle_execution::<u8, &str>(Ok(report(ResultCode::VmError, "oom")), Ok(Some(3)), true).unwrap();
    assert_eq!(x.kind, ResultCode::VmError);
    assert!(matches!(&x.data, Value::Str(s) if s == "timeout"));
    assert_eq!(x.details, Some(7));
    assert_eq!(d, Some(3));
    let (x, _) = settle_execution::<u8, &str>(Ok(report(ResultCode::UserError, "no")), Ok(None), true).unwrap();
    assert!(matches!(&x.data, Value::Str(s) if s == "no"));
    // cancelled: an error gives a timeout report with no disagreement
    let (x, d) = settle_execution::<u8, &str>(Ok(report(ResultCode::Return, "x")), Err("nondet"), true).unwrap();
    assert_eq!(x.kind, ResultCode::VmError);
    assert!(matches!(&x.data, Value::Str(s) if s == "timeout"));
    assert_eq!(x.details, None);
    assert_eq!(d, None);
}

#[test]
fn sandbox_hands_back_state_and_result_bytes() {
    let mut storage = vec![1u8];
    let mut acc = (0u32, vec!["event"]);
    let r = finish_sandbox(
        &mut storage,
        &mut acc,
        vec![1u8, 2],
        (5u32, vec!["event", "child event"]),
        &RunVerdict::Return(vec![9, 8]),
        &[],
    );
    assert_eq!(r, vec![0, 9, 8]);
    assert_eq!(storage, vec![1, 2]);
    assert_eq!(acc, (5, vec!["event", "child event"]));

    assert_eq!(RunVerdict::UserError(Value::Str("no".to_string())).as_bytes(&[7]), vec![1, b'n', b'o']);
    assert_eq!(RunVerdict::UserError(Value::Null).as_bytes(&[7]), vec![1, 0, 0, 0, 0, 7]);
    assert_eq!(RunVerdict::VmError(VmError("oom".to_string())).as_bytes(&[]), vec![2, b'o', b'o', b'm']);
}
