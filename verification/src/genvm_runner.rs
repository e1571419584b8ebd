//! Runners of the older GenVM runtime: the `runner.json` format, the order
//! in which the actions of a runner and its dependencies may come, and the
//! files a directory mapping picks from a runner archive.

use vstd::prelude::*;

use crate::actions::{ends_with_slash, mapped_path};
use crate::text::{chars_starts_with, concat_str, is_prefix, str_chars, string_from_chars};

verus! {

/// One action of a `runner.json`.
#[derive(Debug, Clone)]
pub enum RunnerJsonInitAction {
    MapFile { to: String, file: String },
    MapCode { to: String },
    AddEnv { name: String, val: String },
    SetArgs { args: Vec<String> },
    LinkWasm { file: String },
    StartWasm { file: String },
}

/// An empty list, the default of the lists of a `runner.json`.
pub fn empty_vec<T>() -> (r: Vec<T>)
    ensures
        r@.len() == 0,
{
    Vec::new()
}

/// A `runner.json`: actions to run before the dependencies, the runners it
/// depends on, and its own actions.
#[derive(Debug, Clone)]
pub struct RunnerJsonFile {
    pub pre_actions: Vec<RunnerJsonInitAction>,
    pub depends: Vec<String>,
    pub actions: Vec<RunnerJsonInitAction>,
}

/// The runners a text contract names in its leading comment.
#[derive(Debug, Clone)]
pub struct RunnerComment {
    pub runner: Vec<String>,
}

/// The program a driver starts, with its arguments.
#[derive(Debug, Clone)]
pub struct DriverData {
    pub entrypoint: String,
    pub args: Vec<String>,
}

/// Version of a module's interface.
#[derive(Debug, Clone, Copy, PartialEq, Eq, Structural)]
pub struct Version {
    pub major: u32,
    pub minor: u32,
}

/// A contract rolled back with a message.
#[derive(Debug, Clone)]
pub struct Rollback(pub String);

impl Rollback {
    /// `Rolled back with <message>`.
    pub fn message(&self) -> (r: String)
        ensures
            r@ == "Rolled back with "@ + self.0@,
    {
        concat_str("Rolled back with ", self.0.as_str())
    }
}

/// What matters of an action for the order check.
#[derive(Debug, Clone, Copy, PartialEq, Eq, Structural)]
pub enum ActionKind {
    SetArgs,
    StartWasm,
    Other,
}

/// The kind of a `runner.json` action.
pub fn action_kind(a: &RunnerJsonInitAction) -> (r: ActionKind)
    ensures
        r == match a {
            RunnerJsonInitAction::SetArgs { .. } => ActionKind::SetArgs,
            RunnerJsonInitAction::StartWasm { .. } => ActionKind::StartWasm,
            _ => ActionKind::Other,
        },
{
    match a {
        RunnerJsonInitAction::SetArgs { .. } => ActionKind::SetArgs,
        RunnerJsonInitAction::StartWasm { .. } => ActionKind::StartWasm,
        _ => ActionKind::Other,
    }
}

/// Why the actions of runners cannot be combined.
#[derive(Debug, Clone)]
pub enum OrderError {
    /// An action comes after the VM was started.
    ActionAfterStart { start_from: String, new_from: String },
    /// Arguments are set a second time.
    ArgsTwice { first: String, second: String },
    /// The VM is started a second time.
    StartTwice { first: String, second: String },
}

/// The order check of combined runner actions: which runner set the
/// arguments and which started the VM, if any did yet.
#[derive(Debug)]
pub struct ActionOrder {
    pub was_args: Option<String>,
    pub was_start: Option<String>,
}

impl ActionOrder {
    /// Nothing seen yet.
    pub fn new() -> (r: Self)
        ensures
            r.was_args is None,
            r.was_start is None,
    {
        ActionOrder { was_args: None, was_start: None }
    }

    /// Accepts the next action, of kind `kind` from runner `runner_id`: no
    /// action may follow the start, and arguments and the start may each
    /// come once.
    pub fn accept(&mut self, kind: ActionKind, runner_id: &str) -> (r: Result<(), OrderError>)
        ensures
            old(self).was_start is Some ==> (r matches Err(OrderError::ActionAfterStart { start_from, new_from })
                && start_from@ == old(self).was_start.unwrap()@ && new_from@ == runner_id@),
            old(self).was_start is None && kind == ActionKind::SetArgs && old(self).was_args is Some ==> (r matches Err(
                OrderError::ArgsTwice { first, second },
            ) && first@ == old(self).was_args.unwrap()@ && second@ == runner_id@),
            r is Err ==> final(self).was_args == old(self).was_args && final(self).was_start == old(
                self,
            ).was_start,
            old(self).was_start is None && !(kind == ActionKind::SetArgs && old(self).was_args is Some) ==> r is Ok,
            r is Ok && kind == ActionKind::SetArgs ==> (final(self).was_args matches Some(a) && a@ == runner_id@)
                && final(self).was_start == old(self).was_start,
            r is Ok && kind == ActionKind::StartWasm ==> (final(self).was_start matches Some(s) && s@ == runner_id@)
                && final(self).was_args == old(self).was_args,
            r is Ok && kind == ActionKind::Other ==> final(self).was_args == old(self).was_args
                && final(self).was_start == old(self).was_start,
    {
        if let Some(start) = &self.was_start {
            return Err(OrderError::ActionAfterStart { start_from: start.clone(), new_from: String::from_str(runner_id) });
        }
        match kind {
            ActionKind::SetArgs => {
                if let Some(first) = &self.was_args {
                    return Err(OrderError::ArgsTwice { first: first.clone(), second: String::from_str(runner_id) });
                }
                self.was_args = Some(String::from_str(runner_id));
            },
            ActionKind::StartWasm => {
                self.was_start = Some(String::from_str(runner_id));
            },
            ActionKind::Other => {},
        }
        Ok(())
    }
}

/// The archive files a mapping of directory `dir` to `to` picks, in order:
/// the files (not directories) under `dir`, each with its target path.
pub open spec fn dir_mapping(files: Seq<Seq<char>>, dir: Seq<char>, to: Seq<char>) -> Seq<(Seq<char>, Seq<char>)>
    decreases files.len(),
{
    if files.len() == 0 {
        Seq::empty()
    } else {
        let f = files[0];
        let rest = dir_mapping(files.skip(1), dir, to);
        if !ends_with_slash(f) && is_prefix(dir, f) {
            seq![(f, mapped_path(to, f, dir.len() as int))] + rest
        } else {
            rest
        }
    }
}

/// The archive files a mapping of directory `dir` to `to` picks (see
/// [`dir_mapping`]), as (file, target path) pairs.
pub fn map_directory(files: &Vec<String>, dir: &str, to: &str) -> (r: Vec<(String, String)>)
    ensures
        r@.len() == dir_mapping(Seq::new(files@.len(), |i: int| files@[i]@), dir@, to@).len(),
        forall|i: int|
            0 <= i < r@.len() ==> (#[trigger] r@[i]).0@ == dir_mapping(Seq::new(files@.len(), |j: int| files@[j]@), dir@, to@)[i].0
                && r@[i].1@ == dir_mapping(Seq::new(files@.len(), |j: int| files@[j]@), dir@, to@)[i].1,
{
    let ghost names = Seq::new(files@.len(), |i: int| files@[i]@);
    let dcs = str_chars(dir);
    let tcs = str_chars(to);
    let base = if tcs.len() > 0 && tcs[tcs.len() - 1] == '/' {
        String::from_str(to)
    } else {
        concat_str(to, "/")
    };
    proof {
        reveal_strlit("/");
    }
    let mut out: Vec<(String, String)> = Vec::new();
    let mut i: usize = 0;
    assert(names.skip(0) =~= names);
    while i < files.len()
        invariant
            i <= files@.len(),
            names == Seq::new(files@.len(), |j: int| files@[j]@),
            dcs@ == dir@,
            base@ == if to@.len() > 0 && to@.last() == '/' { to@ } else { to@.push('/') },
            dir_mapping(names, dir@, to@) == pairs_view(out@) + dir_mapping(names.skip(i as int), dir@, to@),
        decreases files@.len() - i,
    {
        let f = &files[i];
        let fcs = str_chars(f.as_str());
        let ghost rest = names.skip(i as int);
        proof {
            assert(rest[0] == f@);
            assert(rest.skip(1) =~= names.skip(i + 1));
        }
        let is_dir = fcs.len() > 0 && fcs[fcs.len() - 1] == '/';
        if !is_dir && chars_starts_with(fcs.as_slice(), dcs.as_slice()) {
            let tail = string_from_chars(&fcs.as_slice()[dcs.len()..fcs.len()]);
            let target = concat_str(base.as_str(), tail.as_str());
            let name = f.clone();
            let ghost before = out@;
            out.push((name, target));
            proof {
                assert(target@ =~= mapped_path(to@, f@, dir@.len() as int));
                let e = (f@, mapped_path(to@, f@, dir@.len() as int));
                assert(pairs_view(out@) =~= pairs_view(before).push(e));
                assert(pairs_view(before) + (seq![e] + dir_mapping(names.skip(i + 1), dir@, to@)) =~= pairs_view(out@) + dir_mapping(names.skip(i + 1), dir@, to@));
            }
        } else {
            proof {
                assert(dir_mapping(rest, dir@, to@) == dir_mapping(names.skip(i + 1), dir@, to@));
            }
        }
        i = i + 1;
    }
    proof {
        assert(pairs_view(out@) + Seq::<(Seq<char>, Seq<char>)>::empty() =~= pairs_view(out@));
    }
    out
}

/// Pairs of strings as plain values.
pub open spec fn pairs_view(v: Seq<(String, String)>) -> Seq<(Seq<char>, Seq<char>)> {
    Seq::new(v.len(), |i: int| (v[i].0@, v[i].1@))
}

} // verus!
