//! What a contract's code turns into before it runs: a wasm module is run
//! directly; a text contract names its runner in a leading comment, whose
//! lines (after the comment marker) together form the runner's
//! `runner.json`.

use vstd::prelude::*;

use crate::calldata::utf8_to_string;
use crate::runners::split_on;
use crate::text::{chars_starts_with, is_prefix, str_chars, string_from_chars};

verus! {

/// The comment markers a text contract may start with, in the order they
/// are tried.
pub open spec fn comment_markers() -> Seq<Seq<char>> {
    seq![seq!['/', '/'], seq!['#'], seq!['-', '-']]
}

/// The marker a text starts with, if any.
pub open spec fn spec_comment_marker(s: Seq<char>) -> Option<Seq<char>> {
    if is_prefix(comment_markers()[0], s) {
        Some(comment_markers()[0])
    } else if is_prefix(comment_markers()[1], s) {
        Some(comment_markers()[1])
    } else if is_prefix(comment_markers()[2], s) {
        Some(comment_markers()[2])
    } else {
        None
    }
}

/// A line without the `\r` of a `\r\n` ending.
pub open spec fn strip_cr(l: Seq<char>) -> Seq<char> {
    if l.len() > 0 && l.last() == '\r' {
        l.drop_last()
    } else {
        l
    }
}

/// The lines of a text as `str::lines` gives them: split at `\n`, a `\r`
/// before the `\n` dropped, and no empty last line after a final `\n`.
pub open spec fn text_lines(s: Seq<char>) -> Seq<Seq<char>> {
    let p = split_on(s, '\n');
    let init = Seq::new((p.len() - 1) as nat, |i: int| strip_cr(p[i]));
    if p.last().len() == 0 {
        init
    } else {
        init.push(p.last())
    }
}

/// The leading lines that start with `marker`, without it, joined.
pub open spec fn comment_of(ls: Seq<Seq<char>>, marker: Seq<char>) -> Seq<char>
    decreases ls.len(),
{
    if ls.len() == 0 || !is_prefix(marker, ls[0]) {
        Seq::empty()
    } else {
        ls[0].skip(marker.len() as int) + comment_of(ls.skip(1), marker)
    }
}

/// The runner comment is every leading line that starts with the marker,
/// each without the marker, joined in order, up to the first line that does
/// not start with it. A line that is the bare marker adds nothing and does
/// not end the comment.
pub proof fn comment_joins_marked_lines(ls: Seq<Seq<char>>, rest: Seq<Seq<char>>, marker: Seq<char>)
    requires
        forall|i: int|
            0 <= i < ls.len() ==> marker.len() <= #[trigger] ls[i].len() && ls[i].subrange(0, marker.len() as int)
                == marker,
        rest.len() == 0 || !(marker.len() <= rest[0].len() && rest[0].subrange(0, marker.len() as int) == marker),
    ensures
        comment_of(ls + rest, marker) == ls.map_values(|l: Seq<char>| l.skip(marker.len() as int)).flatten(),
    decreases ls.len(),
{
    let f = |l: Seq<char>| l.skip(marker.len() as int);
    if ls.len() == 0 {
        assert(ls + rest =~= rest);
        assert(ls.map_values(f) =~= Seq::<Seq<char>>::empty());
    } else {
        let tl = ls.drop_first();
        comment_joins_marked_lines(tl, rest, marker);
        assert((ls + rest).skip(1) =~= tl + rest);
        assert((ls + rest)[0] == ls[0]);
        assert(ls.map_values(f).drop_first() =~= tl.map_values(f));
        assert(ls.map_values(f).first() == ls[0].skip(marker.len() as int));
    }
}

/// Why a contract's code cannot be set up.
#[derive(Debug, Clone, Copy, PartialEq, Eq, Structural)]
pub enum ContractCodeError {
    /// The code is neither a wasm module nor UTF-8 text.
    InvalidContract,
    /// The text does not start with a comment naming its runner.
    NoRunnerComment,
}

/// The runner comment of a text contract (see [`comment_of`]).
pub fn runner_comment(code: &str) -> (r: Result<String, ContractCodeError>)
    ensures
        spec_comment_marker(code@) is None ==> r == Err::<String, ContractCodeError>(ContractCodeError::NoRunnerComment),
        spec_comment_marker(code@) matches Some(m) ==> (r matches Ok(c) && c@ == comment_of(text_lines(code@), m)),
{
    let cs = str_chars(code);
    let slash = str_chars("//");
    let hash = str_chars("#");
    let dash = str_chars("--");
    proof {
        reveal_strlit("//");
        reveal_strlit("#");
        reveal_strlit("--");
        assert(slash@ =~= comment_markers()[0]);
        assert(hash@ =~= comment_markers()[1]);
        assert(dash@ =~= comment_markers()[2]);
    }
    let marker = if chars_starts_with(cs.as_slice(), slash.as_slice()) {
        slash
    } else if chars_starts_with(cs.as_slice(), hash.as_slice()) {
        hash
    } else if chars_starts_with(cs.as_slice(), dash.as_slice()) {
        dash
    } else {
        return Err(ContractCodeError::NoRunnerComment);
    };
    let ghost m = marker@;
    assert(spec_comment_marker(code@) == Some(m));
    let parts = crate::runners::split_chars(cs.as_slice(), '\n');
    let ghost p = split_on(cs@, '\n');
    let ghost ls = text_lines(cs@);
    proof {
        crate::runners::lemma_split_on_len(cs@, '\n');
    }
    let n = parts.len();
    let last_empty = parts[n - 1].len() == 0;
    let count = if last_empty {
        n - 1
    } else {
        n
    };
    assert(count == ls.len());
    let mut out: Vec<char> = Vec::new();
    let mut i: usize = 0;
    assert(ls.skip(0) =~= ls);
    while i < count
        invariant
            i <= count,
            n == p.len(),
            n >= 1,
            count == ls.len(),
            ls == text_lines(cs@),
            p == split_on(cs@, '\n'),
            cs@ == code@,
            m == marker@,
            spec_comment_marker(code@) == Some(m),
            parts@.len() == n,
            forall|j: int| 0 <= j < n ==> #[trigger] parts@[j]@ == p[j],
            comment_of(ls, m) == out@ + comment_of(ls.skip(i as int), m),
        decreases count - i,
    {
        let part = parts[i].as_slice();
        let pl = part.len();
        let line: &[char] = if i + 1 < n && pl > 0 && part[pl - 1] == '\r' {
            &part[0..pl - 1]
        } else {
            part
        };
        proof {
            assert(ls[i as int] == line@) by {
                if i + 1 < n {
                    assert(ls[i as int] == strip_cr(p[i as int]));
                    if pl > 0 && part@[pl - 1] == '\r' {
                        assert(line@ =~= p[i as int].drop_last());
                    }
                } else {
                    assert(ls[i as int] == p.last());
                }
            }
            assert(ls.skip(i as int)[0] == ls[i as int]);
            assert(ls.skip(i as int).skip(1) =~= ls.skip(i + 1));
        }
        if !chars_starts_with(line, marker.as_slice()) {
            proof {
                assert(comment_of(ls.skip(i as int), m) == Seq::<char>::empty());
                assert(out@ + Seq::<char>::empty() =~= out@);
            }
            let r = string_from_chars(out.as_slice());
            return Ok(r);
        }
        let ghost out0 = out@;
        let mut k = marker.len();
        while k < line.len()
            invariant
                marker@.len() <= k <= line@.len(),
                out@ == out0 + line@.subrange(marker@.len() as int, k as int),
            decreases line@.len() - k,
        {
            out.push(line[k]);
            assert(line@.subrange(marker@.len() as int, k + 1) =~= line@.subrange(marker@.len() as int, k as int).push(line@[k as int]));
            k = k + 1;
        }
        proof {
            assert(line@.subrange(marker@.len() as int, line@.len() as int) =~= line@.skip(marker@.len() as int));
            assert(out0 + (line@.skip(m.len() as int) + comment_of(ls.skip(i + 1), m)) =~= out@ + comment_of(ls.skip(i + 1), m));
        }
        i = i + 1;
    }
    proof {
        assert(comment_of(ls.skip(i as int), m) == Seq::<char>::empty());
        assert(out@ + Seq::<char>::empty() =~= out@);
    }
    Ok(string_from_chars(out.as_slice()))
}

/// The `runner.json` a bare wasm module gets: start it.
pub open spec fn wasm_runner_json() -> Seq<char> {
    "{ \"StartWasm\": \"file.wasm\" }"@
}

/// One file of a contract's archive.
#[derive(Debug)]
pub struct ArchiveFile {
    pub name: String,
    pub contents: Vec<u8>,
}

/// The files of the archive a contract's code becomes when it is not
/// already an archive: a wasm module (`is_core_wasm`) with a `runner.json`
/// that starts it, or a text contract with its runner comment as
/// `runner.json`.
pub fn contract_files(code: &[u8], is_core_wasm: bool) -> (r: Result<Vec<ArchiveFile>, ContractCodeError>)
    ensures
        is_core_wasm ==> (r matches Ok(v) && v@.len() == 2 && v@[0].name@ == "runner.json"@
            && v@[0].contents@ == vstd::utf8::encode_utf8(wasm_runner_json()) && v@[1].name@ == "file.wasm"@
            && v@[1].contents@ == code@),
        !is_core_wasm && !vstd::utf8::valid_utf8(code@) ==> r == Err::<Vec<ArchiveFile>, ContractCodeError>(ContractCodeError::InvalidContract),
        !is_core_wasm && vstd::utf8::valid_utf8(code@) ==> match spec_comment_marker(vstd::utf8::decode_utf8(code@)) {
            None => r == Err::<Vec<ArchiveFile>, ContractCodeError>(ContractCodeError::NoRunnerComment),
            Some(m) => (r matches Ok(v) && v@.len() == 2 && v@[0].name@ == "runner.json"@
                && v@[0].contents@ == vstd::utf8::encode_utf8(comment_of(text_lines(vstd::utf8::decode_utf8(code@)), m))
                && v@[1].name@ == "file"@ && v@[1].contents@ == code@),
        },
{
    let mut files: Vec<ArchiveFile> = Vec::new();
    if is_core_wasm {
        let json = "{ \"StartWasm\": \"file.wasm\" }";
        files.push(ArchiveFile { name: String::from_str("runner.json"), contents: slice_to_vec(json.as_bytes()) });
        files.push(ArchiveFile { name: String::from_str("file.wasm"), contents: slice_to_vec(code) });
        return Ok(files);
    }
    let text = match utf8_to_string(code) {
        Some(t) => t,
        None => return Err(ContractCodeError::InvalidContract),
    };
    let comment = runner_comment(text.as_str())?;
    proof {
        vstd::utf8::decode_utf8_encode_utf8(code@);
    }
    files.push(ArchiveFile { name: String::from_str("runner.json"), contents: slice_to_vec(comment.as_str().as_bytes()) });
    files.push(ArchiveFile { name: String::from_str("file"), contents: slice_to_vec(text.as_str().as_bytes()) });
    Ok(files)
}

/// A vector holding the bytes of a slice.
fn slice_to_vec(s: &[u8]) -> (r: Vec<u8>)
    ensures
        r@ == s@,
{
    let mut v: Vec<u8> = Vec::new();
    let mut i: usize = 0;
    while i < s.len()
        invariant
            i <= s@.len(),
            v@ == s@.take(i as int),
        decreases s@.len() - i,
    {
        v.push(s[i]);
        assert(s@.take(i + 1) =~= s@.take(i as int).push(s@[i as int]));
        i = i + 1;
    }
    assert(s@.take(i as int) =~= s@);
    v
}

} // verus!
