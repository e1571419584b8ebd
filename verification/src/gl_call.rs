//! The decisions a VM makes when a contract calls into GenLayer (`gl_call`):
//! which requests the VM's configuration allows, whether a transfer is
//! covered by the balance, how the configuration of a child VM (a called
//! contract, a non-deterministic block, a sandbox) derives from its parent's,
//! and how a leader's recorded non-deterministic result is decoded and used.
//!
//! The requests themselves — host calls, module calls, spawning VMs — are
//! carried out by the runtime around these functions.

use vstd::prelude::*;

use crate::calldata::utf8_to_string;
use crate::consts::{StorageType, EVENT_MAX_TOPICS};
use crate::fees::{amount_sub, charge_message_from_node, debit_message, Amount, DataLimit};
use crate::host::SlotID;
use crate::host_protocol::LockedSlotsSet;

verus! {

/// When a message to another contract is delivered.
#[derive(Debug, Clone, Copy, PartialEq, Eq, Structural)]
pub enum On {
    Finalized,
    Accepted,
}

/// What a VM may do.
#[derive(Debug, Clone, Copy, PartialEq, Eq, Structural)]
pub struct Config {
    pub needs_error_fingerprint: bool,
    pub is_deterministic: bool,
    pub can_read_storage: bool,
    pub can_write_storage: bool,
    pub can_spawn_nondet: bool,
    pub can_call_others: bool,
    pub can_send_messages: bool,
    pub state_mode: StorageType,
}

/// The kinds of `gl_call` request.
#[derive(Debug, Clone, Copy, PartialEq, Eq, Structural)]
pub enum RequestKind {
    EthSend,
    EthCall,
    CallContract,
    EmitEvent,
    PostMessage,
    DeployContract,
    WebRender,
    WebRequest,
    ExecPrompt,
    ExecPromptTemplate,
    RunNondet,
    Sandbox,
    Rollback,
    UserError,
    Return,
    Trace,
}

/// Why a request is refused.
#[derive(Debug, Clone, Copy, PartialEq, Eq, Structural)]
pub enum Errno {
    /// The request is malformed.
    Inval,
    /// The VM's configuration does not allow the request.
    Forbidden,
    /// The contract's balance does not cover the value sent.
    Inbalance,
}

/// Whether a VM with configuration `c` may make a request of kind `k`:
/// messages need a deterministic VM that may send them, calls one that may
/// call others, events a deterministic VM, web and prompt requests a
/// non-deterministic one, and non-deterministic blocks a VM that may spawn
/// them.
pub open spec fn allowed(c: Config, k: RequestKind) -> bool {
    match k {
        RequestKind::EthSend | RequestKind::PostMessage | RequestKind::DeployContract => c.is_deterministic
            && c.can_send_messages,
        RequestKind::EthCall | RequestKind::CallContract => c.is_deterministic && c.can_call_others,
        RequestKind::EmitEvent => c.is_deterministic,
        RequestKind::WebRender | RequestKind::WebRequest | RequestKind::ExecPrompt
        | RequestKind::ExecPromptTemplate => !c.is_deterministic,
        RequestKind::RunNondet => c.can_spawn_nondet,
        _ => true,
    }
}

/// Running a non-deterministic block needs the right to spawn one and
/// nothing else: a deterministic VM without that right is refused, and a
/// non-deterministic VM with it is allowed.
pub proof fn run_nondet_needs_spawn_right(c: Config)
    ensures
        allowed(c, RequestKind::RunNondet) == c.can_spawn_nondet,
        allowed(Config { is_deterministic: !c.is_deterministic, ..c }, RequestKind::RunNondet) == allowed(
            c,
            RequestKind::RunNondet,
        ),
{
}

/// Refuses a request the configuration does not allow.
pub fn check_permission(conf: &Config, kind: RequestKind) -> (r: Result<(), Errno>)
    ensures
        r is Ok <==> allowed(*conf, kind),
        r matches Err(e) ==> e == Errno::Forbidden,
        kind == RequestKind::RunNondet ==> (r is Ok <==> conf.can_spawn_nondet),
{
    let ok = match kind {
        RequestKind::EthSend | RequestKind::PostMessage | RequestKind::DeployContract => conf.is_deterministic
            && conf.can_send_messages,
        RequestKind::EthCall | RequestKind::CallContract => conf.is_deterministic && conf.can_call_others,
        RequestKind::EmitEvent => conf.is_deterministic,
        RequestKind::WebRender | RequestKind::WebRequest | RequestKind::ExecPrompt
        | RequestKind::ExecPromptTemplate => !conf.is_deterministic,
        RequestKind::RunNondet => conf.can_spawn_nondet,
        _ => true,
    };
    if ok {
        Ok(())
    } else {
        Err(Errno::Forbidden)
    }
}

/// `U256 + U256` where no overflow can occur.
#[verifier::external_body]
fn amount_add(a: Amount, b: Amount) -> (r: Amount)
    requires
        a.value() + b.value() <= crate::fees::amount_max(),
    ensures
        r.value() == a.value() + b.value(),
{
    Amount((primitive_types::U256(a.0) + primitive_types::U256(b.0)).0)
}

/// `U256 > U256`: numeric order.
#[verifier::external_body]
fn amount_gt(a: Amount, b: Amount) -> (r: bool)
    ensures
        r == (a.value() > b.value()),
{
    primitive_types::U256(a.0) > primitive_types::U256(b.0)
}

/// `U256::is_zero`.
#[verifier::external_body]
fn amount_is_zero(a: Amount) -> (r: bool)
    ensures
        r == (a.value() == 0),
{
    primitive_types::U256(a.0).is_zero()
}

/// Refuses to send `value` when, with what this execution already sent
/// (`sent`), it exceeds the contract's balance. Sending nothing is always
/// allowed; the balance is then not needed.
pub fn check_value(value: Amount, sent: Amount, balance: Amount) -> (r: Result<(), Errno>)
    requires
        value.value() + sent.value() <= crate::fees::amount_max(),
    ensures
        r is Ok <==> (value.value() == 0 || value.value() + sent.value() <= balance.value()),
        r matches Err(e) ==> e == Errno::Inbalance,
{
    if !amount_is_zero(value) {
        if amount_gt(amount_add(value, sent), balance) {
            return Err(Errno::Inbalance);
        }
    }
    Ok(())
}

/// The call key of a message to an external contract: the first four bytes
/// of its calldata (the method selector), zero-padded to 32 bytes; all zero
/// when the calldata is shorter than four bytes.
pub fn external_call_key(calldata: &[u8]) -> (r: [u8; 32])
    ensures
        forall|i: int| 4 <= i < 32 ==> r@[i] == 0,
        forall|i: int| 0 <= i < 4 ==> r@[i] == if calldata@.len() < 4 { 0u8 } else { calldata@[i] },
{
    let mut key = [0u8; 32];
    if calldata.len() >= 4 {
        key[0] = calldata[0];
        key[1] = calldata[1];
        key[2] = calldata[2];
        key[3] = calldata[3];
    }
    key
}

/// Whether every capability of `child` is one `parent` has.
pub open spec fn no_escalation(child: Config, parent: Config) -> bool {
    &&& child.can_read_storage ==> parent.can_read_storage
    &&& child.can_write_storage ==> parent.can_write_storage
    &&& child.can_spawn_nondet ==> parent.can_spawn_nondet
    &&& child.can_call_others ==> parent.can_call_others
    &&& child.can_send_messages ==> parent.can_send_messages
}

/// The configuration of a contract called from a VM with configuration
/// `conf`, reading `state` (the default state means the latest non-final
/// one): deterministic, never writing storage, otherwise as its caller.
pub fn call_contract_config(conf: &Config, state: StorageType) -> (r: Config)
    ensures
        r == (Config {
            needs_error_fingerprint: true,
            is_deterministic: true,
            can_read_storage: conf.can_read_storage,
            can_write_storage: false,
            can_spawn_nondet: conf.can_spawn_nondet,
            can_call_others: conf.can_call_others,
            can_send_messages: conf.can_send_messages,
            state_mode: if state == StorageType::Default { StorageType::LatestNonFinal } else { state },
        }),
{
    let state = match state {
        StorageType::Default => StorageType::LatestNonFinal,
        s => s,
    };
    Config {
        needs_error_fingerprint: true,
        is_deterministic: true,
        can_read_storage: conf.can_read_storage,
        can_write_storage: false,
        can_spawn_nondet: conf.can_spawn_nondet,
        can_call_others: conf.can_call_others,
        can_send_messages: conf.can_send_messages,
        state_mode: state,
    }
}

/// The configuration of a non-deterministic block spawned from a VM with
/// configuration `conf`: it may at most read storage.
pub fn nondet_config(conf: &Config) -> (r: Config)
    ensures
        r == (Config {
            needs_error_fingerprint: false,
            is_deterministic: false,
            can_read_storage: conf.can_read_storage,
            can_write_storage: false,
            can_spawn_nondet: false,
            can_call_others: false,
            can_send_messages: false,
            state_mode: StorageType::Default,
        }),
{
    Config {
        needs_error_fingerprint: false,
        is_deterministic: false,
        can_read_storage: conf.can_read_storage,
        can_write_storage: false,
        can_spawn_nondet: false,
        can_call_others: false,
        can_send_messages: false,
        state_mode: StorageType::Default,
    }
}

/// The configuration of a sandbox run from a VM with configuration `conf`:
/// it writes and sends only if both the parent may and the sandbox was asked
/// to allow it, and it never spawns or calls.
pub fn sandbox_config(conf: &Config, allow_write_ops: bool) -> (r: Config)
    ensures
        r == (Config {
            needs_error_fingerprint: false,
            is_deterministic: conf.is_deterministic,
            can_read_storage: conf.can_read_storage,
            can_write_storage: conf.can_write_storage && allow_write_ops,
            can_spawn_nondet: false,
            can_call_others: false,
            can_send_messages: conf.can_send_messages && allow_write_ops,
            state_mode: conf.state_mode,
        }),
{
    Config {
        needs_error_fingerprint: false,
        is_deterministic: conf.is_deterministic,
        can_read_storage: conf.can_read_storage,
        can_write_storage: conf.can_write_storage && allow_write_ops,
        can_spawn_nondet: false,
        can_call_others: false,
        can_send_messages: conf.can_send_messages && allow_write_ops,
        state_mode: conf.state_mode,
    }
}

/// A VM never grants a child more than it has: a called contract, a
/// non-deterministic block or a sandbox has no capability its parent lacks.
pub proof fn child_configs_never_escalate(parent: Config, state: StorageType, allow_write_ops: bool)
    ensures
        no_escalation(
            Config {
                needs_error_fingerprint: true,
                is_deterministic: true,
                can_read_storage: parent.can_read_storage,
                can_write_storage: false,
                can_spawn_nondet: parent.can_spawn_nondet,
                can_call_others: parent.can_call_others,
                can_send_messages: parent.can_send_messages,
                state_mode: state,
            },
            parent,
        ),
        no_escalation(
            Config {
                needs_error_fingerprint: false,
                is_deterministic: false,
                can_read_storage: parent.can_read_storage,
                can_write_storage: false,
                can_spawn_nondet: false,
                can_call_others: false,
                can_send_messages: false,
                state_mode: StorageType::Default,
            },
            parent,
        ),
        no_escalation(
            Config {
                needs_error_fingerprint: false,
                is_deterministic: parent.is_deterministic,
                can_read_storage: parent.can_read_storage,
                can_write_storage: parent.can_write_storage && allow_write_ops,
                can_spawn_nondet: false,
                can_call_others: false,
                can_send_messages: parent.can_send_messages && allow_write_ops,
                state_mode: parent.state_mode,
            },
            parent,
        ),
{
}

/// A contract called through `gl_call` runs in a deterministic VM, as its
/// caller must: calling is only allowed from one.
pub proof fn called_contract_is_deterministic(parent: Config)
    requires
        allowed(parent, RequestKind::CallContract),
    ensures
        parent.is_deterministic,
{
}

/// Checks the topics of an event: at most [`EVENT_MAX_TOPICS`] of them,
/// each of 32 bytes.
pub fn check_event_topics(topics: &Vec<Vec<u8>>) -> (r: Result<(), Errno>)
    ensures
        r is Ok <==> (topics@.len() <= EVENT_MAX_TOPICS && forall|i: int| 0 <= i < topics@.len() ==> #[trigger] topics@[i]@.len() == 32),
        r matches Err(e) ==> e == Errno::Inval,
{
    if topics.len() > EVENT_MAX_TOPICS as usize {
        return Err(Errno::Inval);
    }
    let mut i: usize = 0;
    while i < topics.len()
        invariant
            i <= topics@.len(),
            forall|j: int| 0 <= j < i ==> #[trigger] topics@[j]@.len() == 32,
        decreases topics@.len() - i,
    {
        if topics[i].len() != 32 {
            return Err(Errno::Inval);
        }
        i = i + 1;
    }
    Ok(())
}

/// The storage an event takes, in 32-byte units: one per topic and the
/// encoded blob rounded up to whole units.
pub fn event_storage_units(topics_count: usize, blob_encoded_len: usize) -> (r: u64)
    requires
        topics_count <= EVENT_MAX_TOPICS,
    ensures
        r == topics_count + (blob_encoded_len + 31) / 32,
{
    let units = blob_encoded_len / 32 + if blob_encoded_len % 32 == 0 { 0 } else { 1 };
    (topics_count as u64) + (units as u64)
}

/// The memory a web request may use: refused (`None`) when less than
/// `min_space` remains, else three quarters of what remains.
pub fn web_space(space_left: u32, min_space: u32) -> (r: Option<u32>)
    ensures
        space_left < min_space ==> r is None,
        space_left >= min_space ==> r == Some(((space_left as int) * 3 / 4) as u32),
{
    if space_left < min_space {
        return None;
    }
    Some(((space_left as u64) * 3 / 4) as u32)
}

/// Checks a prompt's images: at most two.
pub fn check_prompt_images(count: usize) -> (r: Result<(), Errno>)
    ensures
        r is Ok <==> count <= 2,
        r matches Err(e) ==> e == Errno::Inval,
{
    if count > 2 {
        Err(Errno::Inval)
    } else {
        Ok(())
    }
}

/// A leader's recorded result of a non-deterministic block.
#[derive(Debug)]
pub enum LeaderResult {
    /// The block returned these calldata bytes.
    Return(Vec<u8>),
    /// The block failed with a user error carried as calldata, decoded.
    UserErrorValue(crate::calldata::Value),
    /// The block failed with a user error carried as text.
    UserErrorText(String),
    /// The VM failed with this error.
    VmError(String),
}

/// Why a leader's recorded result could not be used.
#[derive(Debug, Clone, PartialEq, Eq)]
pub enum NondetError {
    /// The result starts with an unknown result code.
    BadResultCode(u8),
    /// A text part is not UTF-8.
    NotUtf8,
    /// A user error's calldata does not decode.
    BadCalldata,
    /// A validator has no leader result for the block.
    AbsentLeaderResult,
    /// A synchronous run has no leader result for the block.
    AbsentInSync,
}

/// The plain form of a leader result.
pub enum LeaderModel {
    Return(Seq<u8>),
    UserError(crate::calldata::SpecValue),
    UserErrorText(Seq<char>),
    VmError(Seq<char>),
}

/// What decoding a leader's recorded result gives: a result code byte (0
/// return, 1 user error, 2 VM error) and the rest. A user error whose rest
/// starts with four zero bytes carries calldata after them, which must
/// decode as one value; else it carries text.
pub open spec fn spec_decode_leader(data: Seq<u8>) -> Result<LeaderModel, NondetError> {
    let code = data[0];
    let rest = data.skip(1);
    if code == 0 {
        Ok(LeaderModel::Return(rest))
    } else if code == 1 {
        if rest.len() >= 4 && rest.take(4) == seq![0u8, 0u8, 0u8, 0u8] {
            match crate::calldata::spec_parse(rest.skip(4)) {
                crate::calldata::Step::Done(v, _) => Ok(LeaderModel::UserError(v)),
                _ => Err(NondetError::BadCalldata),
            }
        } else if vstd::utf8::valid_utf8(rest) {
            Ok(LeaderModel::UserErrorText(vstd::utf8::decode_utf8(rest)))
        } else {
            Err(NondetError::NotUtf8)
        }
    } else if code == 2 {
        if vstd::utf8::valid_utf8(rest) {
            Ok(LeaderModel::VmError(vstd::utf8::decode_utf8(rest)))
        } else {
            Err(NondetError::NotUtf8)
        }
    } else {
        Err(NondetError::BadResultCode(code))
    }
}

/// The plain form of a leader result.
pub open spec fn leader_view(r: LeaderResult) -> LeaderModel {
    match r {
        LeaderResult::Return(v) => LeaderModel::Return(v@),
        LeaderResult::UserErrorValue(v) => LeaderModel::UserError(v@),
        LeaderResult::UserErrorText(s) => LeaderModel::UserErrorText(s@),
        LeaderResult::VmError(s) => LeaderModel::VmError(s@),
    }
}

/// The bytes of `s` from `from` on.
fn tail(s: &[u8], from: usize) -> (r: Vec<u8>)
    requires
        from <= s@.len(),
    ensures
        r@ == s@.skip(from as int),
{
    let mut v: Vec<u8> = Vec::new();
    let mut i = from;
    while i < s.len()
        invariant
            from <= i <= s@.len(),
            v@ == s@.subrange(from as int, i as int),
        decreases s@.len() - i,
    {
        v.push(s[i]);
        assert(s@.subrange(from as int, i + 1) =~= s@.subrange(from as int, i as int).push(s@[i as int]));
        i = i + 1;
    }
    v
}

/// Decodes a leader's recorded result (see [`spec_decode_leader`]). The
/// calldata of a user error is decoded with [`crate::calldata::parse_checked`];
/// bytes it refuses, or cannot go on with, are malformed.
pub fn decode_leader_result(data: &[u8]) -> (r: Result<LeaderResult, NondetError>)
    requires
        data@.len() >= 1,
    ensures
        r matches Ok(v) ==> spec_decode_leader(data@) == Ok::<LeaderModel, NondetError>(leader_view(v)),
        r matches Err(e) ==> spec_decode_leader(data@) == Err::<LeaderModel, NondetError>(e),
{
    let code = data[0];
    let rest = tail(data, 1);
    if code == 0 {
        Ok(LeaderResult::Return(rest))
    } else if code == 1 {
        if rest.len() >= 4 && rest[0] == 0 && rest[1] == 0 && rest[2] == 0 && rest[3] == 0 {
            assert(rest@.take(4) =~= seq![0u8, 0u8, 0u8, 0u8]);
            let body = tail(rest.as_slice(), 4);
            match crate::calldata::parse_checked(body.as_slice()) {
                Some(Ok(v)) => Ok(LeaderResult::UserErrorValue(v)),
                _ => Err(NondetError::BadCalldata),
            }
        } else {
            proof {
                if rest@.len() >= 4 && rest@.take(4) == seq![0u8, 0u8, 0u8, 0u8] {
                    assert(rest@[0] == rest@.take(4)[0]);
                    assert(rest@[1] == rest@.take(4)[1]);
                    assert(rest@[2] == rest@.take(4)[2]);
                    assert(rest@[3] == rest@.take(4)[3]);
                }
            }
            match utf8_to_string(rest.as_slice()) {
                Some(s) => Ok(LeaderResult::UserErrorText(s)),
                None => Err(NondetError::NotUtf8),
            }
        }
    } else if code == 2 {
        match utf8_to_string(rest.as_slice()) {
            Some(s) => Ok(LeaderResult::VmError(s)),
            None => Err(NondetError::NotUtf8),
        }
    } else {
        Err(NondetError::BadResultCode(code))
    }
}

/// What to do for a non-deterministic block.
#[derive(Debug)]
pub enum NondetPlan {
    /// Run the block as the leader and record its result.
    RunAsLeader,
    /// Use the leader's result; `validate` asks for the block to be run
    /// again as a validator, in the background.
    UseLeader { result: LeaderResult, validate: bool },
}

/// Decides how to handle a non-deterministic block, given the leader's
/// recorded result for it (if any), whether this node is the leader, and
/// whether the run is synchronous (replaying the leader's results only).
pub fn plan_nondet(leader_result: Option<&[u8]>, is_leader: bool, is_sync: bool) -> (r: Result<NondetPlan, NondetError>)
    requires
        leader_result matches Some(d) ==> d@.len() >= 1,
    ensures
        leader_result is None && !is_leader ==> r == Err::<NondetPlan, NondetError>(NondetError::AbsentLeaderResult),
        leader_result is None && is_leader && is_sync ==> r == Err::<NondetPlan, NondetError>(NondetError::AbsentInSync),
        leader_result is None && is_leader && !is_sync ==> r matches Ok(NondetPlan::RunAsLeader),
        leader_result matches Some(d) ==> match spec_decode_leader(d@) {
            Ok(v) => r matches Ok(NondetPlan::UseLeader { result, validate }) && leader_view(result) == v
                && validate == !is_sync,
            Err(e) => r == Err::<NondetPlan, NondetError>(e),
        },
{
    match leader_result {
        None => {
            if !is_leader {
                return Err(NondetError::AbsentLeaderResult);
            }
            if is_sync {
                return Err(NondetError::AbsentInSync);
            }
            Ok(NondetPlan::RunAsLeader)
        },
        Some(data) => {
            let res = decode_leader_result(data)?;
            Ok(NondetPlan::UseLeader { result: res, validate: !is_sync })
        },
    }
}


/// Where a storage read is served from.
#[derive(Debug, Clone, Copy, PartialEq, Eq, Structural)]
pub enum StorageRoute {
    /// The execution's own storage, with its pending writes.
    Overlay,
    /// The host, at the given state.
    Host(StorageType),
}

/// Checks a contract's request to read `len` bytes of a slot from `index`,
/// and says where the read is served from: refused when the VM may not
/// read storage, malformed when the range passes `u32::MAX`; a VM on the
/// default state reads its own storage, any other state is read from the
/// host.
pub fn storage_read_route(conf: &Config, index: u32, len: u32) -> (r: Result<StorageRoute, Errno>)
    ensures
        !conf.can_read_storage ==> r == Err::<StorageRoute, Errno>(Errno::Forbidden),
        conf.can_read_storage && index + len > u32::MAX ==> r == Err::<StorageRoute, Errno>(Errno::Inval),
        conf.can_read_storage && index + len <= u32::MAX ==> r == Ok::<StorageRoute, Errno>(
            if conf.state_mode == StorageType::Default {
                StorageRoute::Overlay
            } else {
                StorageRoute::Host(conf.state_mode)
            },
        ),
{
    if !conf.can_read_storage {
        return Err(Errno::Forbidden);
    }
    if index.checked_add(len).is_none() {
        return Err(Errno::Inval);
    }
    match conf.state_mode {
        StorageType::Default => Ok(StorageRoute::Overlay),
        other => Ok(StorageRoute::Host(other)),
    }
}

/// Checks a contract's request to write `len` bytes to `slot` from `index`:
/// refused unless the VM is deterministic and may write storage, malformed
/// when the range passes `u32::MAX`, refused when the slot is locked
/// against the message's sender.
pub fn storage_write_check(conf: &Config, index: u32, len: u32, locked: &LockedSlotsSet, slot: SlotID) -> (r: Result<(), Errno>)
    ensures
        !conf.is_deterministic || !conf.can_write_storage ==> r == Err::<(), Errno>(Errno::Forbidden),
        conf.is_deterministic && conf.can_write_storage && index + len > u32::MAX ==> r == Err::<(), Errno>(Errno::Inval),
        conf.is_deterministic && conf.can_write_storage && index + len <= u32::MAX ==> (r is Ok <==> !(exists|i: int|
            0 <= i < locked.0@.len() && #[trigger] locked.0@[i].0@ == slot.0@)),
        r matches Err(e) ==> e == Errno::Forbidden || e == Errno::Inval,
{
    if !conf.is_deterministic {
        return Err(Errno::Forbidden);
    }
    if !conf.can_write_storage {
        return Err(Errno::Forbidden);
    }
    if index.checked_add(len).is_none() {
        return Err(Errno::Inval);
    }
    if locked.contains(slot) {
        return Err(Errno::Forbidden);
    }
    Ok(())
}

/// The balance a contract sees: for its own balance in a main VM, what the
/// messages it already sent took away is subtracted.
pub fn visible_balance(balance: Amount, is_self: bool, is_main: bool, sent: Amount) -> (r: Amount)
    requires
        is_self && is_main ==> sent.value() <= balance.value(),
    ensures
        is_self && is_main ==> r.value() == balance.value() - sent.value(),
        !(is_self && is_main) ==> r == balance,
{
    if is_self && is_main {
        amount_sub(balance, sent)
    } else {
        balance
    }
}


/// The run time a contract's trace request reports: hidden (zero) from a
/// deterministic VM unless the node runs in debug mode, where the
/// measured microseconds are shown.
pub fn trace_runtime_micros(conf: &Config, debug_mode: bool, elapsed_micros: u64) -> (r: u64)
    ensures
        r == if conf.is_deterministic && !debug_mode {
            0
        } else {
            elapsed_micros
        },
{
    if conf.is_deterministic && !debug_mode {
        0
    } else {
        elapsed_micros
    }
}


/// What numbering a non-deterministic block gives.
#[derive(Debug, Clone, Copy, PartialEq, Eq, Structural)]
pub enum NondetNumbering {
    /// The VM may not spawn non-deterministic blocks.
    Forbidden,
    /// The execution already ran as many blocks as it may: out of memory.
    OverLimit,
    /// The block's number.
    Call(u32),
}

/// Numbers a non-deterministic block: refused, with the counter unchanged,
/// when the VM may not spawn one; else the block takes the counter's value
/// as its number and the counter moves on (wrapping at `u32::MAX`), and a
/// number at or past `limit` is out of memory.
pub fn number_nondet_call(conf: &Config, counter: &mut u32, limit: u32) -> (r: NondetNumbering)
    ensures
        !conf.can_spawn_nondet ==> r == NondetNumbering::Forbidden && *final(counter) == *old(counter),
        conf.can_spawn_nondet ==> *final(counter) == (if *old(counter) == u32::MAX {
            0
        } else {
            *old(counter) + 1
        }),
        conf.can_spawn_nondet && *old(counter) >= limit ==> r == NondetNumbering::OverLimit,
        conf.can_spawn_nondet && *old(counter) < limit ==> r == NondetNumbering::Call(*old(counter)),
{
    if !conf.can_spawn_nondet {
        return NondetNumbering::Forbidden;
    }
    let call_no = *counter;
    *counter = call_no.wrapping_add(1);
    if call_no >= limit {
        NondetNumbering::OverLimit
    } else {
        NondetNumbering::Call(call_no)
    }
}


/// An event a contract emitted: its topics and its data.
#[derive(Debug)]
pub struct EventEmission {
    pub topics: Vec<Vec<u8>>,
    pub blob: Vec<(String, crate::calldata::Value)>,
}

/// Handles a contract's request to emit an event whose data encodes to
/// `blob_encoded_len` bytes: refused unless the VM is deterministic,
/// malformed unless the topics are at most [`EVENT_MAX_TOPICS`] of 32 bytes
/// each; a refused event is not recorded. Otherwise the event is recorded
/// and the storage it takes, in 32-byte units, is returned to be charged.
pub fn emit_event(
    conf: &Config,
    topics: Vec<Vec<u8>>,
    blob: Vec<(String, crate::calldata::Value)>,
    blob_encoded_len: usize,
    emissions: &mut Vec<EventEmission>,
) -> (r: Result<u64, Errno>)
    ensures
        !conf.is_deterministic ==> r == Err::<u64, Errno>(Errno::Forbidden),
        conf.is_deterministic && !(topics@.len() <= EVENT_MAX_TOPICS && forall|i: int|
            0 <= i < topics@.len() ==> #[trigger] topics@[i]@.len() == 32) ==> r == Err::<u64, Errno>(Errno::Inval),
        r is Err ==> final(emissions)@ == old(emissions)@,
        r matches Ok(units) ==> units == topics@.len() + (blob_encoded_len + 31) / 32 && final(emissions)@.len()
            == old(emissions)@.len() + 1 && final(emissions)@.drop_last() == old(emissions)@
            && final(emissions)@.last().topics == topics && final(emissions)@.last().blob == blob,
        r is Ok <==> conf.is_deterministic && topics@.len() <= EVENT_MAX_TOPICS && forall|i: int|
            0 <= i < topics@.len() ==> #[trigger] topics@[i]@.len() == 32,
{
    if !conf.is_deterministic {
        return Err(Errno::Forbidden);
    }
    match check_event_topics(&topics) {
        Ok(()) => {},
        Err(e) => return Err(e),
    }
    let units = event_storage_units(topics.len(), blob_encoded_len);
    emissions.push(EventEmission { topics, blob });
    assert(emissions@.drop_last() =~= old(emissions)@);
    Ok(units)
}

/// The value of a `gl_call` request: its calldata decoded; a request that
/// does not decode is malformed. The decoder is this library's calldata
/// parser ([`crate::calldata::parse`]), the one decoder whose source this
/// project has; its `requires` leaves out the inputs that parser cannot go
/// on with (see [`crate::calldata::Step::Panics`]).
pub fn decode_request(request: &[u8]) -> (r: Result<crate::calldata::Value, Errno>)
    requires
        !(crate::calldata::spec_parse(request@) is Panics),
    ensures
        r matches Ok(v) ==> (crate::calldata::spec_parse(request@) matches crate::calldata::Step::Done(sv, _)
            && v@ == sv),
        r is Err <==> crate::calldata::spec_parse(request@) is Fail,
        r matches Err(e) ==> e == Errno::Inval,
{
    match crate::calldata::parse(request) {
        Ok(v) => Ok(v),
        Err(_) => Err(Errno::Inval),
    }
}


/// Whether byte `b` occurs in `s`.
pub open spec fn has_byte(s: Seq<u8>, b: u8) -> bool {
    exists|i: int| 0 <= i < s.len() && s[i] == b
}

/// How many of the permission letters `r`, `w`, `s`, `c`, `n` occur in `s`.
pub open spec fn letters_present(s: Seq<u8>) -> int {
    (if has_byte(s, 0x72) { 1int } else { 0int }) + (if has_byte(s, 0x77) { 1int } else { 0int })
        + (if has_byte(s, 0x73) { 1int } else { 0int }) + (if has_byte(s, 0x63) { 1int } else { 0int })
        + (if has_byte(s, 0x6e) { 1int } else { 0int })
}

fn contains_byte(s: &[u8], b: u8) -> (r: bool)
    ensures
        r == has_byte(s@, b),
{
    let mut i: usize = 0;
    while i < s.len()
        invariant
            i <= s.len(),
            forall|j: int| 0 <= j < i ==> s@[j] != b,
        decreases s.len() - i,
    {
        if s[i] == b {
            return true;
        }
        i = i + 1;
    }
    false
}

/// The configuration of the topmost VM, from a permission string such as
/// `"rwscn"` (read storage, write storage, send messages, call contracts,
/// spawn non-deterministic blocks). The string is accepted only when every
/// one of its bytes is a distinct permission letter: the number of letters
/// present must equal its length. The topmost VM is deterministic, asks for
/// error fingerprints and reads the default state.
pub fn top_config(permissions: &[u8]) -> (r: Option<Config>)
    ensures
        r is Some <==> letters_present(permissions@) == permissions@.len(),
        r is Some ==> r.unwrap() == (Config {
            needs_error_fingerprint: true,
            is_deterministic: true,
            can_read_storage: has_byte(permissions@, 0x72),
            can_write_storage: has_byte(permissions@, 0x77),
            can_spawn_nondet: has_byte(permissions@, 0x6e),
            can_call_others: has_byte(permissions@, 0x63),
            can_send_messages: has_byte(permissions@, 0x73),
            state_mode: StorageType::Default,
        }),
{
    let r = contains_byte(permissions, 0x72);
    let w = contains_byte(permissions, 0x77);
    let s = contains_byte(permissions, 0x73);
    let c = contains_byte(permissions, 0x63);
    let n = contains_byte(permissions, 0x6e);
    let mut present: usize = 0;
    if r { present = present + 1; }
    if w { present = present + 1; }
    if s { present = present + 1; }
    if c { present = present + 1; }
    if n { present = present + 1; }
    if present != permissions.len() {
        return None;
    }
    Some(Config {
        needs_error_fingerprint: true,
        is_deterministic: true,
        can_read_storage: r,
        can_write_storage: w,
        can_spawn_nondet: n,
        can_call_others: c,
        can_send_messages: s,
        state_mode: StorageType::Default,
    })
}

/// Why a message to another contract (or a deployment) was not sent.
#[derive(Debug, Clone, Copy, PartialEq, Eq, Structural)]
pub enum MessageRefusal {
    /// Refused with an error the contract sees.
    Refused(Errno),
    /// No fee-allocation node matches the message, or its fees cannot be
    /// paid: out of memory (fees).
    OutOfFees,
}

/// Whether a message's fees can be paid from node budget `budget` and the
/// execution's buckets `buckets` (kinds `kinds` of the data limit).
pub open spec fn fees_payable(buckets: Seq<nat>, kinds: (u8, u8, u8, u8, u8), budget: Amount, fee: Amount, receipt: Amount) -> bool {
    fee.value() <= budget.value() && debit_message(buckets, kinds.3 as int, kinds.1 as int, fee.value(), receipt.value()) is Some
}

/// Sends a message (or a deployment) carrying `value`, given the contract's
/// `balance`, the index of the first fee-allocation node that matches the
/// message (`None` when none does), and the message's fee and receipt cost.
/// In this order: refused unless the VM is deterministic and may send
/// messages; refused for want of balance when the value is not zero and,
/// with what the execution already sent, exceeds the balance; out of fees
/// when no node matches, or the node's budget or the buckets cannot pay.
/// A message that is sent pays its fee out of the node's budget and its
/// fee and receipt out of the buckets, and its value adds to what was sent.
/// A message that is not sent changes nothing.
pub fn send_message(
    conf: &Config,
    value: Amount,
    balance: Amount,
    matched: Option<usize>,
    fee_cost: Amount,
    receipt_cost: Amount,
    limit: &mut DataLimit,
    node_budgets: &mut Vec<Amount>,
    sent: &mut Amount,
) -> (r: Result<(), MessageRefusal>)
    requires
        old(limit).well_formed(),
        value.value() + old(sent).value() <= crate::fees::amount_max(),
        matched matches Some(i) ==> i < old(node_budgets).len(),
    ensures
        !(conf.is_deterministic && conf.can_send_messages) ==> r == Err::<(), MessageRefusal>(
            MessageRefusal::Refused(Errno::Forbidden),
        ),
        conf.is_deterministic && conf.can_send_messages && value.value() != 0 && value.value() + old(sent).value()
            > balance.value() ==> r == Err::<(), MessageRefusal>(MessageRefusal::Refused(Errno::Inbalance)),
        conf.is_deterministic && conf.can_send_messages && (value.value() == 0 || value.value() + old(sent).value()
            <= balance.value()) ==> match matched {
            None => r == Err::<(), MessageRefusal>(MessageRefusal::OutOfFees),
            Some(i) => (r is Ok <==> fees_payable(
                old(limit).remaining_values(),
                old(limit).kinds(),
                old(node_budgets)@[i as int],
                fee_cost,
                receipt_cost,
            )) && (r is Err ==> r == Err::<(), MessageRefusal>(MessageRefusal::OutOfFees)),
        },
        r is Ok ==> matched is Some && final(sent).value() == old(sent).value() + value.value()
            && final(node_budgets)@.len() == old(node_budgets)@.len()
            && final(node_budgets)@[matched.unwrap() as int].value() == old(node_budgets)@[matched.unwrap() as int].value()
            - fee_cost.value()
            && (forall|j: int| 0 <= j < old(node_budgets)@.len() && j != matched.unwrap() ==> #[trigger] final(node_budgets)@[j]
                == old(node_budgets)@[j])
            && Some(final(limit).remaining_values()) == debit_message(
                old(limit).remaining_values(),
                old(limit).kinds().3 as int,
                old(limit).kinds().1 as int,
                fee_cost.value(),
                receipt_cost.value(),
            ),
        r is Err ==> *final(sent) == *old(sent) && final(node_budgets)@ == old(node_budgets)@
            && final(limit).remaining_values() == old(limit).remaining_values(),
        final(limit).kinds() == old(limit).kinds(),
        final(limit).well_formed(),
{
    if !(conf.is_deterministic && conf.can_send_messages) {
        return Err(MessageRefusal::Refused(Errno::Forbidden));
    }
    match check_value(value, *sent, balance) {
        Ok(()) => {},
        Err(e) => return Err(MessageRefusal::Refused(e)),
    }
    let i = match matched {
        Some(i) => i,
        None => return Err(MessageRefusal::OutOfFees),
    };
    let mut budget = node_budgets[i];
    if !charge_message_from_node(limit, &mut budget, fee_cost, receipt_cost) {
        return Err(MessageRefusal::OutOfFees);
    }
    node_budgets.set(i, budget);
    *sent = amount_add(value, *sent);
    Ok(())
}

} // verus!
