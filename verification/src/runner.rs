//! Packaged runners: the `<name>:<hash>` check of their ids and the actions a
//! runner's `runner.json` lists.

use vstd::prelude::*;

use crate::runners::{all_hash_chars, all_name_chars, is_name_char, spec_is_hash_char, split_on};
use crate::text::{str_chars, string_from_chars};

verus! {

/// The VM a runner action applies to.
#[derive(Debug, Clone, Copy, PartialEq, Eq, Structural)]
pub enum WasmMode {
    Det,
    Nondet,
}

/// One step of setting up a runner, as `runner.json` writes it.
#[derive(Debug)]
pub enum RunnerJsonInitAction {
    MapFile { to: String, file: String },
    AddEnv { name: String, val: String },
    SetArgs(Vec<String>),
    Depends(String),
    LinkWasm(String),
    StartWasm(String),
    When { cond: WasmMode, action: Box<RunnerJsonInitAction> },
    Sequence(Vec<RunnerJsonInitAction>),
    With { runner: String, action: Box<RunnerJsonInitAction> },
}

/// Why a `<name>:<hash>` runner id was refused.
#[derive(Debug, Clone, Copy, PartialEq, Eq, Structural)]
pub enum RunnerIdError {
    /// The id is not two parts separated by one `:`.
    ExpectedNameHash,
    /// This character may not stand in a runner's name.
    BadNameChar(char),
    /// This character may not stand in a runner's hash.
    BadHashChar(char),
}

/// The first character of `s` that may not stand in a name, if any.
pub open spec fn first_bad_name_char(s: Seq<char>) -> Option<char>
    decreases s.len(),
{
    if s.len() == 0 {
        None
    } else if !is_name_char(s[0]) {
        Some(s[0])
    } else {
        first_bad_name_char(s.skip(1))
    }
}

/// The first character of `s` that may not stand in a hash, if any.
pub open spec fn first_bad_hash_char(s: Seq<char>) -> Option<char>
    decreases s.len(),
{
    if s.len() == 0 {
        None
    } else if !spec_is_hash_char(s[0]) {
        Some(s[0])
    } else {
        first_bad_hash_char(s.skip(1))
    }
}

/// What checking a `<name>:<hash>` runner id gives.
pub open spec fn spec_verify_runner(s: Seq<char>) -> Result<(Seq<char>, Seq<char>), RunnerIdError> {
    let parts = split_on(s, ':');
    if parts.len() != 2 {
        Err(RunnerIdError::ExpectedNameHash)
    } else if let Some(c) = first_bad_name_char(parts[0]) {
        Err(RunnerIdError::BadNameChar(c))
    } else if let Some(c) = first_bad_hash_char(parts[1]) {
        Err(RunnerIdError::BadHashChar(c))
    } else {
        Ok((parts[0], parts[1]))
    }
}

/// No bad name character means every character may stand in a name.
pub proof fn lemma_no_bad_name_char(s: Seq<char>)
    ensures
        first_bad_name_char(s) is None <==> all_name_chars(s),
    decreases s.len(),
{
    if s.len() > 0 {
        lemma_no_bad_name_char(s.skip(1));
        if all_name_chars(s) {
            assert forall|i: int| 0 <= i < s.skip(1).len() implies #[trigger] is_name_char(s.skip(1)[i]) by {
                assert(s.skip(1)[i] == s[i + 1]);
            }
        }
        if !is_name_char(s[0]) {
        } else if all_name_chars(s.skip(1)) {
            assert forall|i: int| 0 <= i < s.len() implies #[trigger] is_name_char(s[i]) by {
                if i > 0 {
                    assert(s[i] == s.skip(1)[i - 1]);
                }
            }
        }
    }
}

/// No bad hash character means every character may stand in a hash.
pub proof fn lemma_no_bad_hash_char(s: Seq<char>)
    ensures
        first_bad_hash_char(s) is None <==> all_hash_chars(s),
    decreases s.len(),
{
    if s.len() > 0 {
        lemma_no_bad_hash_char(s.skip(1));
        if all_hash_chars(s) {
            assert forall|i: int| 0 <= i < s.skip(1).len() implies #[trigger] spec_is_hash_char(s.skip(1)[i]) by {
                assert(s.skip(1)[i] == s[i + 1]);
            }
        }
        if !spec_is_hash_char(s[0]) {
        } else if all_hash_chars(s.skip(1)) {
            assert forall|i: int| 0 <= i < s.len() implies #[trigger] spec_is_hash_char(s[i]) by {
                if i > 0 {
                    assert(s[i] == s.skip(1)[i - 1]);
                }
            }
        }
    }
}

/// The first character of `s` that may not stand in a name, if any.
fn find_bad_name_char(s: &[char]) -> (r: Option<char>)
    ensures
        r == first_bad_name_char(s@),
{
    let mut i: usize = 0;
    assert(s@.skip(0) =~= s@);
    while i < s.len()
        invariant
            i <= s@.len(),
            first_bad_name_char(s@) == first_bad_name_char(s@.skip(i as int)),
        decreases s@.len() - i,
    {
        let c = s[i];
        assert(s@.skip(i as int)[0] == c);
        assert(s@.skip(i as int).skip(1) =~= s@.skip(i + 1));
        if !(('0' <= c && c <= '9') || ('a' <= c && c <= 'z') || ('A' <= c && c <= 'Z') || c == '-'
            || c == '_') {
            return Some(c);
        }
        i = i + 1;
    }
    None
}

/// The first character of `s` that may not stand in a hash, if any.
fn find_bad_hash_char(s: &[char]) -> (r: Option<char>)
    ensures
        r == first_bad_hash_char(s@),
{
    let mut i: usize = 0;
    assert(s@.skip(0) =~= s@);
    while i < s.len()
        invariant
            i <= s@.len(),
            first_bad_hash_char(s@) == first_bad_hash_char(s@.skip(i as int)),
        decreases s@.len() - i,
    {
        let c = s[i];
        assert(s@.skip(i as int)[0] == c);
        assert(s@.skip(i as int).skip(1) =~= s@.skip(i + 1));
        if !crate::runners::is_hash_char(c) {
            return Some(c);
        }
        i = i + 1;
    }
    None
}

/// Splits a `<name>:<hash>` runner id into its name and hash, checking the
/// characters of each.
pub fn verify_runner(runner_id: &str) -> (r: Result<(String, String), RunnerIdError>)
    ensures
        r matches Ok((n, h)) ==> spec_verify_runner(runner_id@) == Ok::<(Seq<char>, Seq<char>), RunnerIdError>((n@, h@)),
        r matches Err(e) ==> spec_verify_runner(runner_id@) == Err::<(Seq<char>, Seq<char>), RunnerIdError>(e),
{
    let s = str_chars(runner_id);
    let parts = crate::runners::split_chars(s.as_slice(), ':');
    if parts.len() != 2 {
        return Err(RunnerIdError::ExpectedNameHash);
    }
    match find_bad_name_char(parts[0].as_slice()) {
        Some(c) => return Err(RunnerIdError::BadNameChar(c)),
        None => {},
    }
    match find_bad_hash_char(parts[1].as_slice()) {
        Some(c) => return Err(RunnerIdError::BadHashChar(c)),
        None => {},
    }
    Ok((string_from_chars(parts[0].as_slice()), string_from_chars(parts[1].as_slice())))
}

/// A `<name>:<hash>` id passes the check exactly when its name and hash are
/// non-empty only of allowed characters — the check never looks at lengths.
pub proof fn verify_runner_accepts(s: Seq<char>)
    ensures
        spec_verify_runner(s) is Ok <==> (split_on(s, ':').len() == 2 && all_name_chars(
            split_on(s, ':')[0],
        ) && all_hash_chars(split_on(s, ':')[1])),
{
    let parts = split_on(s, ':');
    if parts.len() == 2 {
        lemma_no_bad_name_char(parts[0]);
        lemma_no_bad_hash_char(parts[1]);
    }
}

} // verus!
