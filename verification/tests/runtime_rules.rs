use genvm::calldata::Value;
use genvm::actions::{
    apply_step, ApplyStep, dir_map_step, first_visit, map_file_check, maps_into_vm, name_hash_id, plan_actions,
    resolve_runner, MapError, MapStep, Resolution, ResolveError, ResolvedKind,
};
use genvm::consts::StorageType;
use genvm::gl_call::{
    call_contract_config, check_event_topics, check_permission, check_prompt_images, check_value,
    decode_leader_result, event_storage_units, external_call_key, nondet_config, plan_nondet,
    sandbox_config, web_space, Config, Errno, LeaderResult, NondetError, NondetPlan, RequestKind,
};
use genvm::fees::Amount;
use genvm::memlimiter::Limiter;
use genvm::runner::{RunnerJsonInitAction, WasmMode};

fn det_conf() -> Config {
    Config {
        needs_error_fingerprint: false,
        is_deterministic: true,
        can_read_storage: true,
        can_write_storage: true,
        can_spawn_nondet: true,
        can_call_others: true,
        can_send_messages: false,
        state_mode: StorageType::Default,
    }
}

#[test]
fn permissions() {
    let c = det_conf();
    assert_eq!(check_permission(&c, RequestKind::EthCall), Ok(()));
    assert_eq!(check_permission(&c, RequestKind::PostMessage), Err(Errno::Forbidden));
    assert_eq!(check_permission(&c, RequestKind::WebRender), Err(Errno::Forbidden));
    assert_eq!(check_permission(&c, RequestKind::EmitEvent), Ok(()));
    let n = nondet_config(&c);
    assert_eq!(check_permission(&n, RequestKind::ExecPrompt), Ok(()));
    assert_eq!(check_permission(&n, RequestKind::RunNondet), Err(Errno::Forbidden));
    assert_eq!(check_permission(&n, RequestKind::Return), Ok(()));
}

#[test]
fn child_configs() {
    let c = det_conf();
    let called = call_contract_config(&c, StorageType::Default);
    assert_eq!(called.state_mode, StorageType::LatestNonFinal);
    assert!(!called.can_write_storage);
    assert!(called.needs_error_fingerprint);
    assert_eq!(call_contract_config(&c, StorageType::LatestFinal).state_mode, StorageType::LatestFinal);
    let n = nondet_config(&c);
    assert!(n.can_read_storage && !n.can_spawn_nondet && !n.is_deterministic);
    let s = sandbox_config(&c, false);
    assert!(!s.can_write_storage && s.can_read_storage);
    let s = sandbox_config(&c, true);
    assert!(s.can_write_storage && !s.can_send_messages);
}

#[test]
fn value_checks() {
    let a = |v: u64| Amount([v, 0, 0, 0]);
    assert_eq!(check_value(a(0), a(100), a(0)), Ok(()));
    assert_eq!(check_value(a(5), a(5), a(10)), Ok(()));
    assert_eq!(check_value(a(6), a(5), a(10)), Err(Errno::Inbalance));
}

#[test]
fn call_keys() {
    let k = external_call_key(&[1, 2, 3, 4, 5]);
    assert_eq!(&k[..4], &[1, 2, 3, 4]);
    assert_eq!(&k[4..], &[0u8; 28]);
    assert_eq!(external_call_key(&[1, 2, 3]), [0u8; 32]);
}

#[test]
fn event_checks() {
    assert_eq!(check_event_topics(&vec![vec![0u8; 32]; 4]), Ok(()));
    assert_eq!(check_event_topics(&vec![vec![0u8; 32]; 5]), Err(Errno::Inval));
    assert_eq!(check_event_topics(&vec![vec![0u8; 31]]), Err(Errno::Inval));
    assert_eq!(event_storage_units(2, 0), 2);
    assert_eq!(event_storage_units(2, 1), 3);
    assert_eq!(event_storage_units(0, 64), 2);
    assert_eq!(event_storage_units(4, 65), 7);
}

#[test]
fn web_and_prompt_limits() {
    assert_eq!(web_space(99, 100), None);
    assert_eq!(web_space(100, 100), Some(75));
    assert_eq!(web_space(u32::MAX, 0), Some(3221225471));
    assert_eq!(check_prompt_images(2), Ok(()));
    assert_eq!(check_prompt_images(3), Err(Errno::Inval));
}

#[test]
fn leader_results() {
    assert!(matches!(decode_leader_result(&[0, 1, 2]), Ok(LeaderResult::Return(v)) if v == vec![1, 2]));
    // a user error carried as calldata is decoded: 57 is the header of the integer 7, 16 of `true`
    assert!(matches!(decode_leader_result(&[1, 0, 0, 0, 0, 57]), Ok(LeaderResult::UserErrorValue(Value::Number(7)))));
    assert!(matches!(decode_leader_result(&[1, 0, 0, 0, 0, 16]), Ok(LeaderResult::UserErrorValue(Value::Bool(true)))));
    // calldata that does not decode is malformed
    assert_eq!(decode_leader_result(&[1, 0, 0, 0, 0, 7]).err(), Some(NondetError::BadCalldata));
    assert_eq!(decode_leader_result(&[1, 0, 0, 0, 0]).err(), Some(NondetError::BadCalldata));
    assert_eq!(decode_leader_result(&[1, 0, 0, 0, 0, 57, 57]).err(), Some(NondetError::BadCalldata));
    assert!(matches!(decode_leader_result(&[1, b'h', b'i']), Ok(LeaderResult::UserErrorText(s)) if s == "hi"));
    assert!(matches!(decode_leader_result(&[2, b'o', b'o', b'm']), Ok(LeaderResult::VmError(s)) if s == "oom"));
    assert_eq!(decode_leader_result(&[2, 0xff]).err(), Some(NondetError::NotUtf8));
    assert_eq!(decode_leader_result(&[9]).err(), Some(NondetError::BadResultCode(9)));
}

#[test]
fn nondet_plans() {
    assert!(matches!(plan_nondet(None, true, false), Ok(NondetPlan::RunAsLeader)));
    assert_eq!(plan_nondet(None, false, false).err(), Some(NondetError::AbsentLeaderResult));
    assert_eq!(plan_nondet(None, true, true).err(), Some(NondetError::AbsentInSync));
    assert!(matches!(
        plan_nondet(Some(&[0, 3]), false, false),
        Ok(NondetPlan::UseLeader { validate: true, .. })
    ));
    assert!(matches!(
        plan_nondet(Some(&[0, 3]), false, true),
        Ok(NondetPlan::UseLeader { validate: false, .. })
    ));
}

#[test]
fn vm_directory() {
    assert!(maps_into_vm("/vm/x"));
    assert!(maps_into_vm("vm"));
    assert!(maps_into_vm("//vm/"));
    assert!(!maps_into_vm("/vms/x"));
    assert!(!maps_into_vm("/a/vm"));
    assert!(!maps_into_vm(""));
}

#[test]
fn file_mapping_checks() {
    let mut l = Limiter::new("files");
    assert!(matches!(map_file_check("/vm/a", &mut l), Err(MapError::Forbidden(p)) if p == "/vm/a"));
    assert!(map_file_check("/lib/a", &mut l).is_ok());
    let mut small = Limiter::new("small");
    assert!(small.consume(u32::MAX - 10, false));
    assert!(matches!(map_file_check("/lib/a", &mut small), Err(MapError::OutOfMemory)));
}

#[test]
fn directory_mapping_steps() {
    let mut l = Limiter::new("dir");
    assert!(matches!(dir_map_step("lib/", "lib/", "/usr", &mut l), MapStep::Skip));
    assert!(matches!(dir_map_step("other/x", "lib/", "/usr", &mut l), MapStep::Stop));
    assert!(matches!(dir_map_step("lib/a.py", "lib/", "/usr", &mut l), MapStep::MapTo(p) if p == "/usr/a.py"));
    assert!(matches!(dir_map_step("lib/a.py", "lib/", "/usr/", &mut l), MapStep::MapTo(p) if p == "/usr/a.py"));
    assert!(matches!(dir_map_step("x", "", "/vm", &mut l), MapStep::Fail(MapError::Forbidden(p)) if p == "/vm/x"));
}

#[test]
fn runner_resolution() {
    assert!(matches!(
        resolve_runner("<contract>", "contract", false),
        Ok(Resolution::Ready(r)) if r.id == "<contract>" && matches!(r.kind, ResolvedKind::Preloaded)
    ));
    assert!(matches!(
        resolve_runner("c", "py:abc", false),
        Ok(Resolution::Ready(r)) if r.id == "py:abc"
    ));
    assert_eq!(resolve_runner("c", "py:latest", false).err(), Some(ResolveError::MalformedRunner));
    assert!(matches!(
        resolve_runner("c", "py:test", true),
        Ok(Resolution::NeedsLatest { name }) if name == "py"
    ));
    assert_eq!(resolve_runner("c", "bad id", true).err(), Some(ResolveError::MalformedRunner));
    assert!(matches!(
        resolve_runner("c", "custom:ff", false),
        Ok(Resolution::Ready(r)) if r.id == "custom:ff"
    ));
    assert_eq!(name_hash_id("a", "b"), "a:b");
}

#[test]
fn action_plans() {
    let tree = RunnerJsonInitAction::Sequence(vec![
        RunnerJsonInitAction::AddEnv { name: "A".into(), val: "1".into() },
        RunnerJsonInitAction::When {
            cond: WasmMode::Nondet,
            action: Box::new(RunnerJsonInitAction::Depends("x:y".into())),
        },
        RunnerJsonInitAction::When {
            cond: WasmMode::Det,
            action: Box::new(RunnerJsonInitAction::LinkWasm("a.wasm".into())),
        },
        RunnerJsonInitAction::StartWasm("main.wasm".into()),
        RunnerJsonInitAction::SetArgs(vec!["never".into()]),
    ]);
    let mut out = Vec::new();
    assert!(plan_actions(&tree, true, &mut out));
    assert_eq!(out.len(), 3);
    assert!(matches!(out[1], RunnerJsonInitAction::LinkWasm(p) if p == "a.wasm"));
    assert!(matches!(out[2], RunnerJsonInitAction::StartWasm(_)));
    let mut out = Vec::new();
    assert!(plan_actions(&tree, false, &mut out));
    assert!(matches!(out[1], RunnerJsonInitAction::Depends(d) if d == "x:y"));
    let empty = RunnerJsonInitAction::Sequence(vec![]);
    let mut out = Vec::new();
    assert!(!plan_actions(&empty, true, &mut out));
    assert!(out.is_empty());
}

#[test]
fn dependencies_visited_once() {
    let mut visited = Vec::new();
    assert!(first_visit(&mut visited, "a:1"));
    assert!(first_visit(&mut visited, "b:1"));
    assert!(!first_visit(&mut visited, "a:1"));
    assert_eq!(visited.len(), 2);
}

#[test]
fn every_setup_step_checks_for_cancellation() {
    let when_nondet = RunnerJsonInitAction::When {
        cond: WasmMode::Nondet,
        action: Box::new(RunnerJsonInitAction::LinkWasm("n.wasm".into())),
    };
    let seq = RunnerJsonInitAction::Sequence(vec![RunnerJsonInitAction::StartWasm("main.wasm".into())]);
    let leaf = RunnerJsonInitAction::Depends("x:y".into());

    for a in [&when_nondet, &seq, &leaf] {
        assert!(matches!(apply_step(a, true, true), Err(e) if e.0 == "timeout"));
    }
    assert!(matches!(apply_step(&when_nondet, true, false), Ok(ApplyStep::Skip)));
    assert!(matches!(
        apply_step(&when_nondet, false, false),
        Ok(ApplyStep::Enter(RunnerJsonInitAction::LinkWasm(f))) if f == "n.wasm"
    ));
    assert!(matches!(apply_step(&seq, true, false), Ok(ApplyStep::EachOf(v)) if v.len() == 1));
    assert!(matches!(apply_step(&leaf, true, false), Ok(ApplyStep::Perform(RunnerJsonInitAction::Depends(d))) if d == "x:y"));
}
