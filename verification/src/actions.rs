//! Setting up a runner: which of the actions of a `runner.json` a VM runs
//! and in what order, how runner ids resolve to cache keys, and the checks
//! made when files of a runner archive are mapped into the VM's file system.

use vstd::prelude::*;
use vstd::string::*;

use crate::consts::FILE_MAPPING;
use crate::memlimiter::{consume_result, Limiter};
use crate::runner::{RunnerJsonInitAction, WasmMode};
use crate::runners::{custom_prefix, parse_runner_id, spec_chain_canonical, spec_parse_runner_id, split_chars, split_on, RunnerId, RunnerIdModel};
use crate::text::{chars_starts_with, concat_str, is_prefix, str_chars, string_from_chars};

verus! {

/// The first non-empty piece of a list, if any.
pub open spec fn first_nonempty(parts: Seq<Seq<char>>) -> Option<Seq<char>>
    decreases parts.len(),
{
    if parts.len() == 0 {
        None
    } else if parts[0].len() > 0 {
        Some(parts[0])
    } else {
        first_nonempty(parts.skip(1))
    }
}

/// `vm`.
pub open spec fn vm_dir() -> Seq<char> {
    seq!['v', 'm']
}

/// Whether a path lies in the VM's reserved `/vm` directory: its first
/// non-empty component is `vm`.
pub open spec fn spec_maps_into_vm(to: Seq<char>) -> bool {
    first_nonempty(split_on(to, '/')) == Some(vm_dir())
}

/// Whether a path lies in the VM's reserved `/vm` directory.
pub fn maps_into_vm(to: &str) -> (r: bool)
    ensures
        r == spec_maps_into_vm(to@),
{
    let cs = str_chars(to);
    let parts = split_chars(cs.as_slice(), '/');
    let ghost ps = split_on(cs@, '/');
    let mut i: usize = 0;
    assert(ps.skip(0) =~= ps);
    while i < parts.len()
        invariant
            i <= parts@.len(),
            cs@ == to@,
            ps == split_on(to@, '/'),
            parts@.len() == ps.len(),
            forall|j: int| 0 <= j < parts@.len() ==> #[trigger] parts@[j]@ == ps[j],
            first_nonempty(ps) == first_nonempty(ps.skip(i as int)),
        decreases parts@.len() - i,
    {
        assert(ps.skip(i as int)[0] == ps[i as int]);
        assert(ps.skip(i as int).skip(1) =~= ps.skip(i + 1));
        let p = parts[i].as_slice();
        if p.len() > 0 {
            let r = p.len() == 2 && p[0] == 'v' && p[1] == 'm';
            proof {
                assert(p@ == ps[i as int]);
                assert(first_nonempty(ps.skip(i as int)) == Some(ps[i as int]));
                if p@ == vm_dir() {
                    assert(p@[0] == 'v' && p@[1] == 'm');
                }
                if r {
                    assert(p@ =~= vm_dir());
                }
                assert(r == (first_nonempty(ps) == Some(vm_dir())));
                assert(cs@ == to@);
            }
            return r;
        }
        i = i + 1;
    }
    false
}

/// Why mapping a file into the VM failed.
#[derive(Debug)]
pub enum MapError {
    /// The target lies in `/vm`.
    Forbidden(String),
    /// The memory budget does not cover the mapping.
    OutOfMemory,
}

/// What to do with one archive entry while a directory is mapped.
#[derive(Debug)]
pub enum MapStep {
    /// A directory entry: nothing to map.
    Skip,
    /// Past the mapped directory: stop.
    Stop,
    /// Map the entry to this path.
    MapTo(String),
    /// Refuse the whole mapping.
    Fail(MapError),
}

/// The path an archive entry `name` under `prefix` gets when the directory
/// is mapped to `to`.
pub open spec fn mapped_path(to: Seq<char>, name: Seq<char>, prefix_len: int) -> Seq<char> {
    let base = if to.len() > 0 && to.last() == '/' { to } else { to.push('/') };
    base + name.skip(prefix_len)
}

/// The memory a mapping to a path of `bytes` bytes costs.
pub open spec fn mapping_cost(bytes: nat) -> nat {
    (FILE_MAPPING + bytes) as nat
}

/// Maps a single archive file to `to`: refused when `to` lies in `/vm` or
/// the memory budget cannot pay for it.
pub fn map_file_check(to: &str, limiter: &mut Limiter) -> (r: Result<(), MapError>)
    requires
        FILE_MAPPING + to.spec_bytes().len() <= u32::MAX,
    ensures
        spec_maps_into_vm(to@) ==> (r matches Err(MapError::Forbidden(p)) && p@ == to@) && final(limiter).remaining() == old(limiter).remaining(),
        !spec_maps_into_vm(to@) ==> {
            let (ok, rem) = consume_result(old(limiter).remaining(), (FILE_MAPPING + to.spec_bytes().len()) as u32);
            &&& r is Ok == ok
            &&& final(limiter).remaining() == rem
            &&& !ok ==> r matches Err(MapError::OutOfMemory)
        },
        final(limiter).name() == old(limiter).name(),
{
    if maps_into_vm(to) {
        return Err(MapError::Forbidden(String::from_str(to)));
    }
    let n = to.len();
    if !limiter.consume(FILE_MAPPING + n as u32, false) {
        return Err(MapError::OutOfMemory);
    }
    Ok(())
}

/// Whether a text ends with `/`.
pub open spec fn ends_with_slash(s: Seq<char>) -> bool {
    s.len() > 0 && s.last() == '/'
}

/// Decides what to do with archive entry `name` while the directory
/// `prefix` of a runner archive is mapped to `to`, paying for each mapping
/// from the memory budget. Entries come in sorted order, so the first one
/// outside the directory ends the mapping.
pub fn dir_map_step(name: &str, prefix: &str, to: &str, limiter: &mut Limiter) -> (r: MapStep)
    requires
        FILE_MAPPING + vstd::utf8::encode_utf8(mapped_path(to@, name@, prefix@.len() as int)).len() <= u32::MAX,
    ensures
        final(limiter).name() == old(limiter).name(),
        ends_with_slash(name@) ==> r is Skip && final(limiter).remaining() == old(limiter).remaining(),
        !ends_with_slash(name@) && !is_prefix(prefix@, name@) ==> r is Stop && final(limiter).remaining()
            == old(limiter).remaining(),
        !ends_with_slash(name@) && is_prefix(prefix@, name@) ==> {
            let p = mapped_path(to@, name@, prefix@.len() as int);
            let (ok, rem) = consume_result(
                old(limiter).remaining(),
                mapping_cost(vstd::utf8::encode_utf8(p).len()) as u32,
            );
            &&& spec_maps_into_vm(p) ==> (r matches MapStep::Fail(MapError::Forbidden(q)) && q@ == p)
                && final(limiter).remaining() == old(limiter).remaining()
            &&& !spec_maps_into_vm(p) && ok ==> (r matches MapStep::MapTo(q) && q@ == p)
                && final(limiter).remaining() == rem
            &&& !spec_maps_into_vm(p) && !ok ==> (r matches MapStep::Fail(MapError::OutOfMemory))
                && final(limiter).remaining() == rem
        },
{
    let ncs = str_chars(name);
    if ncs.len() > 0 && ncs[ncs.len() - 1] == '/' {
        return MapStep::Skip;
    }
    let pcs = str_chars(prefix);
    if !chars_starts_with(ncs.as_slice(), pcs.as_slice()) {
        return MapStep::Stop;
    }
    let tcs = str_chars(to);
    let base = if tcs.len() > 0 && tcs[tcs.len() - 1] == '/' {
        String::from_str(to)
    } else {
        concat_str(to, "/")
    };
    proof {
        reveal_strlit("/");
    }
    let rest = string_from_chars(&ncs.as_slice()[pcs.len()..ncs.len()]);
    let path = concat_str(base.as_str(), rest.as_str());
    assert(path@ =~= mapped_path(to@, name@, prefix@.len() as int));
    if maps_into_vm(path.as_str()) {
        return MapStep::Fail(MapError::Forbidden(path));
    }
    let n = path.as_str().len();
    if !limiter.consume(FILE_MAPPING + n as u32, false) {
        return MapStep::Fail(MapError::OutOfMemory);
    }
    MapStep::MapTo(path)
}

/// How a runner id resolved: its cache key and how its archive is loaded.
#[derive(Debug)]
pub enum ResolvedKind {
    /// A packaged runner from the runners directory.
    Disk { name: String, hash: String },
    /// The current contract's runner, loaded beforehand.
    Preloaded,
    /// Runner code read from a storage slot.
    Chain { address: crate::calldata::Address, on: crate::consts::StorageType, slot: crate::host::SlotID },
    /// A runner registered at run time.
    Custom { hash: String },
}

/// A runner id resolved to its cache key and load strategy.
#[derive(Debug)]
pub struct Resolved {
    pub id: String,
    pub kind: ResolvedKind,
}

/// The outcome of resolving a runner id.
#[derive(Debug)]
pub enum Resolution {
    /// Resolved.
    Ready(Resolved),
    /// A `name:test` or `name:latest` id in debug mode: the runner's latest
    /// hash must be looked up first, then [`name_hash_id`] gives its key.
    NeedsLatest { name: String },
}

/// Why a runner id did not resolve.
#[derive(Debug, Clone, Copy, PartialEq, Eq, Structural)]
pub enum ResolveError {
    /// The id is not of any runner id form, or asks for `test`/`latest`
    /// outside debug mode.
    MalformedRunner,
}

/// Whether a hash asks for the runner's latest version.
pub open spec fn is_latest_alias(h: Seq<char>) -> bool {
    h == seq!['t', 'e', 's', 't'] || h == seq!['l', 'a', 't', 'e', 's', 't']
}

/// The cache key of a packaged runner: `name:hash`.
pub open spec fn spec_name_hash_id(name: Seq<char>, hash: Seq<char>) -> Seq<char> {
    name + seq![':'] + hash
}

/// The cache key of a packaged runner: `name:hash`.
pub fn name_hash_id(name: &str, hash: &str) -> (r: String)
    ensures
        r@ == spec_name_hash_id(name@, hash@),
{
    proof {
        reveal_strlit(":");
    }
    let a = concat_str(name, ":");
    let r = concat_str(a.as_str(), hash);
    assert(r@ =~= spec_name_hash_id(name@, hash@));
    r
}

/// Resolves runner id `id` (met while running contract `contract_id`).
pub fn resolve_runner(contract_id: &str, id: &str, debug_mode: bool) -> (r: Result<Resolution, ResolveError>)
    ensures
        spec_parse_runner_id(id@) is None ==> r == Err::<Resolution, ResolveError>(ResolveError::MalformedRunner),
        spec_parse_runner_id(id@) matches Some(RunnerIdModel::Contract) ==> (r matches Ok(Resolution::Ready(res))
            && res.id@ == contract_id@ && res.kind is Preloaded),
        spec_parse_runner_id(id@) matches Some(RunnerIdModel::NameHash(n, h)) ==> if is_latest_alias(h) {
            if debug_mode {
                r matches Ok(Resolution::NeedsLatest { name }) && name@ == n
            } else {
                r == Err::<Resolution, ResolveError>(ResolveError::MalformedRunner)
            }
        } else {
            r matches Ok(Resolution::Ready(res)) && res.id@ == spec_name_hash_id(n, h) && (res.kind matches ResolvedKind::Disk { name, hash } && name@ == n && hash@ == h)
        },
        spec_parse_runner_id(id@) matches Some(RunnerIdModel::Chain(a, on, sl)) ==> (r matches Ok(Resolution::Ready(res))
            && res.id@ == spec_chain_canonical(a, on, sl) && (res.kind matches ResolvedKind::Chain { address, on: o, slot } && address.0@ == a && o == on && slot.0@ == sl)),
        spec_parse_runner_id(id@) matches Some(RunnerIdModel::Custom(h)) ==> (r matches Ok(Resolution::Ready(res))
            && res.id@ == custom_prefix() + h && (res.kind matches ResolvedKind::Custom { hash } && hash@ == h)),
{
    let parsed = match parse_runner_id(id) {
        Some(p) => p,
        None => return Err(ResolveError::MalformedRunner),
    };
    match parsed {
        RunnerId::Contract => Ok(Resolution::Ready(Resolved { id: String::from_str(contract_id), kind: ResolvedKind::Preloaded })),
        RunnerId::NameHash { name, hash } => {
            proof {
                reveal_strlit("test");
                reveal_strlit("latest");
            }
            let is_test = crate::text::str_eq(hash.as_str(), "test");
            let is_latest = crate::text::str_eq(hash.as_str(), "latest");
            if is_test || is_latest {
                proof {
                    if is_test {
                        assert(hash@ =~= seq!['t', 'e', 's', 't']);
                    } else {
                        assert(hash@ =~= seq!['l', 'a', 't', 'e', 's', 't']);
                    }
                }
                if !debug_mode {
                    return Err(ResolveError::MalformedRunner);
                }
                return Ok(Resolution::NeedsLatest { name });
            }
            proof {
                assert(!is_latest_alias(hash@)) by {
                    if hash@ == seq!['t', 'e', 's', 't'] {
                        assert("test"@ =~= hash@);
                    }
                    if hash@ == seq!['l', 'a', 't', 'e', 's', 't'] {
                        assert("latest"@ =~= hash@);
                    }
                }
            }
            let key = name_hash_id(name.as_str(), hash.as_str());
            Ok(Resolution::Ready(Resolved { id: key, kind: ResolvedKind::Disk { name, hash } }))
        },
        RunnerId::Chain { address, on, slot } => {
            let key = crate::runners::chain_canonical(address, on, slot);
            Ok(Resolution::Ready(Resolved { id: key, kind: ResolvedKind::Chain { address, on, slot } }))
        },
        RunnerId::Custom { hash } => {
            let key = crate::runners::custom_runner_id(hash.as_str());
            Ok(Resolution::Ready(Resolved { id: key, kind: ResolvedKind::Custom { hash } }))
        },
    }
}

/// The leaf actions (everything but `When` and `Seq`) a VM in deterministic
/// mode `det` performs for `a`, in order, and whether a `StartWasm` among
/// them ends the setup (nothing after it runs).
pub open spec fn leaves(a: RunnerJsonInitAction, det: bool) -> (Seq<RunnerJsonInitAction>, bool)
    decreases a,
{
    match a {
        RunnerJsonInitAction::When { cond, action } => if (cond == WasmMode::Det) != det {
            (Seq::empty(), false)
        } else {
            leaves(*action, det)
        },
        RunnerJsonInitAction::Sequence(v) => leaves_seq(v@, det),
        RunnerJsonInitAction::StartWasm(_) => (seq![a], true),
        _ => (seq![a], false),
    }
}

/// The leaf actions of a list of actions, run one after the other until one
/// starts the VM.
pub open spec fn leaves_seq(v: Seq<RunnerJsonInitAction>, det: bool) -> (Seq<RunnerJsonInitAction>, bool)
    decreases v,
{
    if v.len() == 0 {
        (Seq::empty(), false)
    } else {
        let (l, started) = leaves(v[0], det);
        if started {
            (l, true)
        } else {
            let (l2, s2) = leaves_seq(v.skip(1), det);
            (l + l2, s2)
        }
    }
}

/// Every action other than `When` and `Sequence` is planned as itself, and
/// only `StartWasm` ends the setup: a `With` keeps the runner it names (its
/// action runs against that runner's archive), a `Depends` stays a
/// dependency, whatever mode the VM is in.
pub proof fn other_actions_are_planned_as_themselves(a: RunnerJsonInitAction, det: bool)
    requires
        !(a is When),
        !(a is Sequence),
    ensures
        leaves(a, det) == (seq![a], a is StartWasm),
{
}

/// The actions a list of references points to.
pub open spec fn deref_all(v: Seq<&RunnerJsonInitAction>) -> Seq<RunnerJsonInitAction> {
    Seq::new(v.len(), |i: int| *v[i])
}

/// Appends to `out` the leaf actions a VM in mode `det` performs for
/// `action`; `true` when a `StartWasm` among them ends the setup.
/// `With` and `Depends` are leaves: they run their own actions in another
/// runner's context, and may start the VM themselves.
pub fn plan_actions<'a>(action: &'a RunnerJsonInitAction, det: bool, out: &mut Vec<&'a RunnerJsonInitAction>) -> (started: bool)
    ensures
        deref_all(final(out)@) == deref_all(old(out)@) + leaves(*action, det).0,
        started == leaves(*action, det).1,
    decreases action,
{
    match action {
        RunnerJsonInitAction::When { cond, action: inner } => {
            let is_det_cond = match cond {
                WasmMode::Det => true,
                WasmMode::Nondet => false,
            };
            if is_det_cond != det {
                assert(deref_all(out@) =~= deref_all(out@) + Seq::<RunnerJsonInitAction>::empty());
                return false;
            }
            plan_actions(&**inner, det, out)
        },
        RunnerJsonInitAction::Sequence(v) => {
            let mut i: usize = 0;
            let ghost start = deref_all(out@);
            assert(v@.skip(0) =~= v@);
            assert(start =~= start + Seq::<RunnerJsonInitAction>::empty());
            while i < v.len()
                invariant
                    i <= v@.len(),
                    *action == RunnerJsonInitAction::Sequence(*v),
                    leaves_seq(v@, det) == ({
                        let (l, s) = leaves_seq(v@.skip(i as int), det);
                        (deref_all(out@).skip(start.len() as int) + l, s)
                    }),
                    deref_all(out@).len() >= start.len(),
                    start == deref_all(old(out)@),
                    deref_all(out@).subrange(0, start.len() as int) == start,
                decreases v@.len() - i,
            {
                let ghost before = deref_all(out@);
                let ghost rest = v@.skip(i as int);
                assert(rest[0] == v@[i as int]);
                assert(rest.skip(1) =~= v@.skip(i + 1));
                assert(decreases_to!(*action => (*action)->Sequence_0));
                assert((*action)->Sequence_0 == *v);
                assert(decreases_to!(*v => v@));
                assert(decreases_to!(v@ => v@[i as int]));
                assert(decreases_to!(*action => v@[i as int]));
                let started = plan_actions(&v[i], det, out);
                proof {
                    let (l0, s0) = leaves(v@[i as int], det);
                    assert(deref_all(out@) =~= before + l0);
                    assert(deref_all(out@).subrange(0, start.len() as int) =~= start);
                    if !s0 {
                        let (l2, s2) = leaves_seq(v@.skip(i + 1), det);
                        assert(before.skip(start.len() as int) + (l0 + l2) =~= deref_all(out@).skip(start.len() as int) + l2);
                    } else {
                        assert(deref_all(out@).skip(start.len() as int) =~= before.skip(start.len() as int) + l0);
                    }
                }
                if started {
                    proof {
                        let (l0, s0) = leaves(v@[i as int], det);
                        assert(leaves_seq(rest, det) == (l0, true));
                        assert(leaves(*action, det) == leaves_seq(v@, det));
                        assert(deref_all(out@) =~= start + deref_all(out@).skip(start.len() as int));
                    }
                    return true;
                }
                i = i + 1;
            }
            proof {
                assert(deref_all(out@) =~= start + deref_all(out@).skip(start.len() as int));
                assert(deref_all(out@).skip(start.len() as int) + Seq::<RunnerJsonInitAction>::empty() =~= deref_all(out@).skip(start.len() as int));
            }
            false
        },
        RunnerJsonInitAction::StartWasm(_) => {
            out.push(action);
            assert(deref_all(out@) =~= deref_all(old(out)@) + seq![*action]);
            true
        },
        _ => {
            out.push(action);
            assert(deref_all(out@) =~= deref_all(old(out)@) + seq![*action]);
            false
        },
    }
}

/// Whether a dependency still has to be set up: each runner a VM depends on
/// is set up once, the first time it is named.
pub fn first_visit(visited: &mut Vec<String>, id: &str) -> (r: bool)
    ensures
        r == !(exists|i: int| 0 <= i < old(visited)@.len() && #[trigger] old(visited)@[i]@ == id@),
        r ==> final(visited)@.len() == old(visited)@.len() + 1 && final(visited)@.last()@ == id@
            && final(visited)@.drop_last() == old(visited)@,
        !r ==> final(visited)@ == old(visited)@,
{
    let mut i: usize = 0;
    while i < visited.len()
        invariant
            i <= visited@.len(),
            visited@ == old(visited)@,
            forall|j: int| 0 <= j < i ==> #[trigger] visited@[j]@ != id@,
        decreases visited@.len() - i,
    {
        if crate::text::str_eq(visited[i].as_str(), id) {
            return false;
        }
        i = i + 1;
    }
    visited.push(String::from_str(id));
    assert(visited@.drop_last() =~= old(visited)@);
    true
}

/// The VM starts at most once, and last: a `StartWasm` among the planned
/// leaf actions is the final one, and there is one exactly when the plan
/// says the setup ends with a start.
pub proof fn start_is_last(a: RunnerJsonInitAction, det: bool)
    ensures
        ({
            let (l, started) = leaves(a, det);
            &&& forall|i: int| 0 <= i < l.len() && #[trigger] l[i] is StartWasm ==> started && i == l.len() - 1
            &&& started ==> l.len() > 0 && l.last() is StartWasm
        }),
    decreases a,
{
    match a {
        RunnerJsonInitAction::When { cond, action } => {
            if (cond == WasmMode::Det) == det {
                start_is_last(*action, det);
            }
        },
        RunnerJsonInitAction::Sequence(v) => {
            assert(decreases_to!(a => a->Sequence_0));
            assert(decreases_to!(v => v@));
            start_is_last_seq(v@, det);
        },
        _ => {},
    }
}

/// [`start_is_last`] for a list of actions run one after the other.
pub proof fn start_is_last_seq(v: Seq<RunnerJsonInitAction>, det: bool)
    ensures
        ({
            let (l, started) = leaves_seq(v, det);
            &&& forall|i: int| 0 <= i < l.len() && #[trigger] l[i] is StartWasm ==> started && i == l.len() - 1
            &&& started ==> l.len() > 0 && l.last() is StartWasm
        }),
    decreases v,
{
    if v.len() > 0 {
        assert(decreases_to!(v => v[0]));
        start_is_last(v[0], det);
        let (l0, s0) = leaves(v[0], det);
        if !s0 {
            assert(decreases_to!(v => v.skip(1)));
            start_is_last_seq(v.skip(1), det);
            let (l2, s2) = leaves_seq(v.skip(1), det);
            assert forall|i: int| 0 <= i < (l0 + l2).len() && #[trigger] (l0 + l2)[i] is StartWasm implies s2 && i == (l0 + l2).len() - 1 by {
                if i < l0.len() {
                    assert((l0 + l2)[i] == l0[i]);
                } else {
                    assert((l0 + l2)[i] == l2[i - l0.len()]);
                }
            }
            if s2 {
                assert((l0 + l2).last() == l2.last());
            }
        }
    }
}


/// The check made before each setup action, and before each action of a
/// sequence: once the execution is cancelled, setting up stops with a
/// timeout.
pub fn setup_gate(cancelled: bool) -> (r: Result<(), crate::consts::VmError>)
    ensures
        !cancelled ==> r is Ok,
        cancelled ==> (r matches Err(e) && e.0@ == "timeout"@),
{
    if cancelled {
        Err(crate::consts::VmError::timeout())
    } else {
        Ok(())
    }
}


/// What applying one setup action comes to.
#[derive(Debug)]
pub enum ApplyStep<'a> {
    /// A `When` for the other mode: nothing to do.
    Skip,
    /// A `When` for this mode: apply its action.
    Enter(&'a RunnerJsonInitAction),
    /// A `Sequence`: apply its actions in turn, until one starts the VM.
    EachOf(&'a Vec<RunnerJsonInitAction>),
    /// Any other action: carry it out.
    Perform(&'a RunnerJsonInitAction),
}

/// The first step of applying `action` in a VM of mode `det`: every
/// application, at every level of nesting, first stops with a timeout once
/// the execution is cancelled; then a `When` is skipped or entered by the
/// VM's mode, a `Sequence` is applied action by action, and any other action
/// is carried out.
pub fn apply_step<'a>(action: &'a RunnerJsonInitAction, det: bool, cancelled: bool) -> (r: Result<
    ApplyStep<'a>,
    crate::consts::VmError,
>)
    ensures
        cancelled ==> (r matches Err(e) && e.0@ == "timeout"@),
        !cancelled ==> match *action {
            RunnerJsonInitAction::When { cond, action: inner } => if (cond == WasmMode::Det) != det {
                r matches Ok(ApplyStep::Skip)
            } else {
                r matches Ok(ApplyStep::Enter(a)) && *a == *inner
            },
            RunnerJsonInitAction::Sequence(v) => r matches Ok(ApplyStep::EachOf(w)) && *w == v,
            _ => r matches Ok(ApplyStep::Perform(a)) && *a == *action,
        },
{
    match setup_gate(cancelled) {
        Ok(()) => {},
        Err(e) => return Err(e),
    }
    match action {
        RunnerJsonInitAction::When { cond, action: inner } => {
            let is_det_cond = match cond {
                WasmMode::Det => true,
                WasmMode::Nondet => false,
            };
            if is_det_cond != det {
                Ok(ApplyStep::Skip)
            } else {
                Ok(ApplyStep::Enter(&**inner))
            }
        },
        RunnerJsonInitAction::Sequence(v) => Ok(ApplyStep::EachOf(v)),
        _ => Ok(ApplyStep::Perform(action)),
    }
}

} // verus!
