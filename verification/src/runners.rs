//! Runner identifiers.
//!
//! A runner id is one of
//!
//! - `name:hash` — a packaged runner, by its name and content hash;
//! - `contract` — the runner of the contract being executed;
//! - `chain:<address>:<a|f>:<slot>` — runner code kept in a storage slot of a
//!   contract: a 20-byte hex address and a 32-byte hex slot id, each with an
//!   optional `0x` prefix, and `a`/`f` for the accepted or finalized state;
//! - `custom:<hash>` — a runner registered at run time, by its hash.

use vstd::prelude::*;
use vstd::string::*;
use vstd::utf8::*;

use vstd::arithmetic::power2::{lemma2_to64, pow2};

use crate::caching::{data_bit, group_value};
use crate::calldata::Address;
use crate::consts::StorageType;
use crate::host::SlotID;
use crate::runner::{spec_verify_runner, RunnerIdError};
use crate::text::{chars_eq, chars_starts_with, concat_str, is_prefix, str_chars, string_from_chars};

verus! {

/// A parsed runner id.
#[derive(Debug)]
pub enum RunnerId {
    NameHash { name: String, hash: String },
    Contract,
    Chain { address: Address, on: StorageType, slot: SlotID },
    Custom { hash: String },
}

/// A runner id as plain values.
pub enum RunnerIdModel {
    NameHash(Seq<char>, Seq<char>),
    Contract,
    Chain(Seq<u8>, StorageType, Seq<u8>),
    Custom(Seq<char>),
}

impl RunnerId {
    pub open spec fn model(self) -> RunnerIdModel {
        match self {
            RunnerId::NameHash { name, hash } => RunnerIdModel::NameHash(name@, hash@),
            RunnerId::Contract => RunnerIdModel::Contract,
            RunnerId::Chain { address, on, slot } => RunnerIdModel::Chain(address.0@, on, slot.0@),
            RunnerId::Custom { hash } => RunnerIdModel::Custom(hash@),
        }
    }
}

/// An ASCII letter or digit.
pub open spec fn is_alnum(c: char) -> bool {
    ('0' <= c && c <= '9') || ('a' <= c && c <= 'z') || ('A' <= c && c <= 'Z')
}

/// A character allowed in a runner's name.
pub open spec fn is_name_char(c: char) -> bool {
    is_alnum(c) || c == '-' || c == '_'
}

/// A character allowed in a runner's hash.
pub open spec fn spec_is_hash_char(c: char) -> bool {
    is_alnum(c) || c == '-' || c == '_' || c == '='
}

/// Whether every character of `s` may stand in a name.
pub open spec fn all_name_chars(s: Seq<char>) -> bool {
    forall|i: int| 0 <= i < s.len() ==> #[trigger] is_name_char(s[i])
}

/// Whether every character of `s` may stand in a hash.
pub open spec fn all_hash_chars(s: Seq<char>) -> bool {
    forall|i: int| 0 <= i < s.len() ==> #[trigger] spec_is_hash_char(s[i])
}

/// The pieces of `s` between occurrences of `sep` (one more than there are
/// separators; empty pieces included).
pub open spec fn split_on(s: Seq<char>, sep: char) -> Seq<Seq<char>>
    decreases s.len(),
{
    if s.len() == 0 {
        seq![Seq::<char>::empty()]
    } else {
        let init = split_on(s.drop_last(), sep);
        if s.last() == sep {
            init.push(Seq::<char>::empty())
        } else {
            init.update(init.len() - 1, init.last().push(s.last()))
        }
    }
}

/// The piece lengths of a split, with one for each separator, add up to the
/// length of the text; there is always at least one piece.
pub proof fn lemma_split_on_len(s: Seq<char>, sep: char)
    ensures
        split_on(s, sep).len() >= 1,
        split_on(s, sep)[0].len() <= s.len(),
        split_on(s, sep).len() >= 2 ==> split_on(s, sep)[0].len() < s.len(),
    decreases s.len(),
{
    if s.len() > 0 {
        lemma_split_on_len(s.drop_last(), sep);
    }
}

/// The text after the `0x` prefix, if it has one.
pub open spec fn strip_0x(s: Seq<char>) -> Seq<char> {
    if is_prefix(seq!['0', 'x'], s) {
        s.skip(2)
    } else {
        s
    }
}

/// A byte that is an ASCII hex digit.
pub open spec fn is_hex_digit(b: u8) -> bool {
    (48 <= b && b <= 57) || (65 <= b && b <= 70) || (97 <= b && b <= 102)
}

/// The value of an ASCII hex digit.
pub open spec fn hex_val(b: u8) -> int {
    if 48 <= b && b <= 57 {
        b - 48
    } else if 65 <= b && b <= 70 {
        b - 55
    } else {
        b - 87
    }
}

/// The `n` bytes that `2 * n` hex digits stand for; `None` for any other text.
pub open spec fn hex_decode_spec(b: Seq<u8>, n: nat) -> Option<Seq<u8>> {
    if b.len() == 2 * n && forall|i: int| 0 <= i < b.len() ==> #[trigger] is_hex_digit(b[i]) {
        Some(Seq::new(n, |i: int| (hex_val(b[2 * i]) * 16 + hex_val(b[2 * i + 1])) as u8))
    } else {
        None
    }
}

/// The lowercase hex digit of a value below 16.
pub open spec fn hex_digit(v: int) -> char {
    if v < 10 {
        (48 + v) as char
    } else {
        (87 + v) as char
    }
}

/// Two lowercase hex digits per byte.
pub open spec fn hex_encode_spec(b: Seq<u8>) -> Seq<char>
    decreases b.len(),
{
    if b.len() == 0 {
        Seq::empty()
    } else {
        hex_encode_spec(b.drop_last()) + seq![hex_digit(b.last() as int / 16), hex_digit(b.last() as int % 16)]
    }
}

/// `hex::decode_to_slice` into a buffer of `n` bytes: succeeds exactly when
/// `data` is `2 * n` hex digits (either case), each pair giving one byte,
/// high digit first.
#[verifier::external_body]
fn hex_decode(data: &[u8], n: usize) -> (r: Option<Vec<u8>>)
    ensures
        r matches Some(v) ==> hex_decode_spec(data@, n as nat) == Some(v@),
        r is None ==> hex_decode_spec(data@, n as nat) is None,
{
    let mut out = vec![0u8; n];
    match hex::decode_to_slice(data, &mut out) {
        Ok(()) => Some(out),
        Err(_) => None,
    }
}

/// `hex::encode`: two lowercase hex digits per byte.
#[verifier::external_body]
fn hex_encode(data: &[u8]) -> (r: String)
    ensures
        r@ == hex_encode_spec(data@),
{
    hex::encode(data)
}

/// The SHA3-256 digest of some bytes.
pub uninterp spec fn sha3_256(data: Seq<u8>) -> Seq<u8>;

/// `sha3::Sha3_256`: the 32-byte digest of `data`.
#[verifier::external_body]
fn sha3_256_digest(data: &[u8]) -> (r: Vec<u8>)
    ensures
        r@ == sha3_256(data@),
        r@.len() == 32,
{
    let mut digest = <sha3::Sha3_256 as sha3::Digest>::new();
    sha3::Digest::update(&mut digest, data);
    sha3::Digest::finalize(digest).to_vec()
}

/// The bytes a fixed-size hex field stands for: `n` bytes written as `2 * n`
/// hex digits, after an optional `0x`.
pub open spec fn spec_hex_fixed(s: Seq<char>, n: nat) -> Option<Seq<u8>> {
    hex_decode_spec(encode_utf8(strip_0x(s)), n)
}

/// The storage state an `a`/`f` field selects.
pub open spec fn spec_on(s: Seq<char>) -> Option<StorageType> {
    if s == seq!['a'] {
        Some(StorageType::LatestNonFinal)
    } else if s == seq!['f'] {
        Some(StorageType::LatestFinal)
    } else {
        None
    }
}

/// The `chain:` prefix.
pub open spec fn chain_prefix() -> Seq<char> {
    seq!['c', 'h', 'a', 'i', 'n', ':']
}

/// The `custom:` prefix.
pub open spec fn custom_prefix() -> Seq<char> {
    seq!['c', 'u', 's', 't', 'o', 'm', ':']
}

/// The `contract` id.
pub open spec fn contract_id() -> Seq<char> {
    seq!['c', 'o', 'n', 't', 'r', 'a', 'c', 't']
}

/// The runner id a text stands for, if any.
pub open spec fn spec_parse_runner_id(s: Seq<char>) -> Option<RunnerIdModel> {
    if s == contract_id() {
        Some(RunnerIdModel::Contract)
    } else if is_prefix(chain_prefix(), s) {
        let parts = split_on(s.skip(6), ':');
        if parts.len() != 3 {
            None
        } else {
            match (spec_hex_fixed(parts[0], 20), spec_on(parts[1]), spec_hex_fixed(parts[2], 32)) {
                (Some(a), Some(on), Some(slot)) => Some(RunnerIdModel::Chain(a, on, slot)),
                _ => None,
            }
        }
    } else if is_prefix(custom_prefix(), s) {
        let rest = s.skip(7);
        if rest.len() == 0 || !all_hash_chars(rest) {
            None
        } else {
            Some(RunnerIdModel::Custom(rest))
        }
    } else {
        let parts = split_on(s, ':');
        if parts.len() < 2 {
            None
        } else {
            let name = parts[0];
            let hash = s.skip(name.len() + 1 as int);
            if name.len() == 0 || hash.len() == 0 || !all_name_chars(name) || !all_hash_chars(hash) {
                None
            } else {
                Some(RunnerIdModel::NameHash(name, hash))
            }
        }
    }
}

/// An ASCII letter or digit.
fn is_alnum_char(c: char) -> (r: bool)
    ensures
        r == is_alnum(c),
{
    ('0' <= c && c <= '9') || ('a' <= c && c <= 'z') || ('A' <= c && c <= 'Z')
}

/// A character allowed in a runner's hash.
pub fn is_hash_char(c: char) -> (r: bool)
    ensures
        r == spec_is_hash_char(c),
{
    is_alnum_char(c) || c == '-' || c == '_' || c == '='
}

/// Whether every character of `s` from `from` on may stand in a hash.
fn all_hash_chars_from(s: &[char], from: usize) -> (r: bool)
    requires
        from <= s@.len(),
    ensures
        r == all_hash_chars(s@.skip(from as int)),
{
    let mut i = from;
    while i < s.len()
        invariant
            from <= i <= s@.len(),
            all_hash_chars(s@.skip(from as int).take(i - from)),
        decreases s@.len() - i,
    {
        if !is_hash_char(s[i]) {
            assert(s@.skip(from as int)[i - from] == s@[i as int]);
            return false;
        }
        assert(s@.skip(from as int).take(i + 1 - from) =~= s@.skip(from as int).take(i - from).push(
            s@[i as int],
        ));
        i = i + 1;
    }
    assert(s@.skip(from as int).take(i - from) =~= s@.skip(from as int));
    true
}

/// Whether every character of `s` may stand in a name.
fn all_name_chars_exec(s: &[char]) -> (r: bool)
    ensures
        r == all_name_chars(s@),
{
    let mut i: usize = 0;
    while i < s.len()
        invariant
            i <= s@.len(),
            forall|j: int| 0 <= j < i ==> #[trigger] is_name_char(s@[j]),
        decreases s@.len() - i,
    {
        let c = s[i];
        if !(is_alnum_char(c) || c == '-' || c == '_') {
            assert(!is_name_char(s@[i as int]));
            return false;
        }
        i = i + 1;
    }
    true
}

/// The pieces of `s` between occurrences of `sep`.
pub fn split_chars(s: &[char], sep: char) -> (r: Vec<Vec<char>>)
    ensures
        r@.len() == split_on(s@, sep).len(),
        forall|i: int| 0 <= i < r@.len() ==> #[trigger] r@[i]@ == split_on(s@, sep)[i],
{
    let mut parts: Vec<Vec<char>> = Vec::new();
    let mut cur: Vec<char> = Vec::new();
    let mut i: usize = 0;
    while i < s.len()
        invariant
            i <= s@.len(),
            parts@.len() + 1 == split_on(s@.take(i as int), sep).len(),
            forall|j: int| 0 <= j < parts@.len() ==> #[trigger] parts@[j]@ == split_on(s@.take(i as int), sep)[j],
            cur@ == split_on(s@.take(i as int), sep).last(),
        decreases s@.len() - i,
    {
        proof {
            let t = s@.take(i + 1);
            assert(t.drop_last() =~= s@.take(i as int));
            assert(t.last() == s@[i as int]);
        }
        let c = s[i];
        if c == sep {
            parts.push(cur);
            cur = Vec::new();
        } else {
            cur.push(c);
        }
        i = i + 1;
    }
    assert(s@.take(i as int) =~= s@);
    parts.push(cur);
    parts
}

/// The `n` bytes a fixed-size hex field stands for (see [`spec_hex_fixed`]).
pub fn parse_hex_fixed(s: &[char], n: usize) -> (r: Option<Vec<u8>>)
    requires
        n <= 32,
    ensures
        r matches Some(v) ==> spec_hex_fixed(s@, n as nat) == Some(v@),
        r is None ==> spec_hex_fixed(s@, n as nat) is None,
{
    let digits = if s.len() >= 2 && s[0] == '0' && s[1] == 'x' {
        assert(is_prefix(seq!['0', 'x'], s@)) by {
            assert(s@.subrange(0, 2) =~= seq!['0', 'x']);
        }
        string_from_chars(&s[2..s.len()])
    } else {
        proof {
            if is_prefix(seq!['0', 'x'], s@) {
                assert(s@.subrange(0, 2)[0] == s@[0]);
                assert(s@.subrange(0, 2)[1] == s@[1]);
            }
        }
        string_from_chars(s)
    };
    assert(digits@ == strip_0x(s@));
    let bytes = digits.as_str().as_bytes();
    if bytes.len() != n * 2 {
        return None;
    }
    hex_decode(bytes, n)
}

/// A 20-byte array holding the bytes of `v`.
fn to_array_20(v: &Vec<u8>) -> (r: [u8; 20])
    requires
        v@.len() == 20,
    ensures
        r@ == v@,
{
    let mut a = [0u8; 20];
    let mut i: usize = 0;
    while i < 20
        invariant
            i <= 20,
            v@.len() == 20,
            forall|j: int| 0 <= j < i ==> a@[j] == v@[j],
        decreases 20 - i,
    {
        a[i] = v[i];
        i = i + 1;
    }
    assert(a@ =~= v@);
    a
}

/// A 32-byte array holding the bytes of `v`.
fn to_array_32(v: &Vec<u8>) -> (r: [u8; 32])
    requires
        v@.len() == 32,
    ensures
        r@ == v@,
{
    let mut a = [0u8; 32];
    let mut i: usize = 0;
    while i < 32
        invariant
            i <= 32,
            v@.len() == 32,
            forall|j: int| 0 <= j < i ==> a@[j] == v@[j],
        decreases 32 - i,
    {
        a[i] = v[i];
        i = i + 1;
    }
    assert(a@ =~= v@);
    a
}

/// Parses a runner id (see the module's documentation for the forms).
pub fn parse_runner_id(id: &str) -> (r: Option<RunnerId>)
    ensures
        r matches Some(v) ==> spec_parse_runner_id(id@) == Some(v.model()),
        r is None ==> spec_parse_runner_id(id@) is None,
{
    let s = str_chars(id);
    let contract = str_chars("contract");
    let chain = str_chars("chain:");
    let custom = str_chars("custom:");
    proof {
        reveal_strlit("contract");
        reveal_strlit("chain:");
        reveal_strlit("custom:");
        assert(contract@ =~= contract_id());
        assert(chain@ =~= chain_prefix());
        assert(custom@ =~= custom_prefix());
    }
    if chars_eq(s.as_slice(), contract.as_slice()) {
        return Some(RunnerId::Contract);
    }
    if chars_starts_with(s.as_slice(), chain.as_slice()) {
        let rest = &s.as_slice()[6..s.len()];
        assert(rest@ =~= s@.skip(6));
        let parts = split_chars(rest, ':');
        if parts.len() != 3 {
            return None;
        }
        let address = match parse_hex_fixed(parts[0].as_slice(), 20) {
            Some(a) => a,
            None => return None,
        };
        let p1 = parts[1].as_slice();
        let on = if p1.len() == 1 && p1[0] == 'a' {
            assert(p1@ =~= seq!['a']);
            StorageType::LatestNonFinal
        } else if p1.len() == 1 && p1[0] == 'f' {
            assert(p1@ =~= seq!['f']);
            StorageType::LatestFinal
        } else {
            proof {
                if p1@ == seq!['a'] || p1@ == seq!['f'] {
                    assert(p1@[0] == p1@[0]);
                }
            }
            return None;
        };
        let slot = match parse_hex_fixed(parts[2].as_slice(), 32) {
            Some(v) => v,
            None => return None,
        };
        let address = Address(to_array_20(&address));
        let slot = SlotID(to_array_32(&slot));
        return Some(RunnerId::Chain { address, on, slot });
    }
    if chars_starts_with(s.as_slice(), custom.as_slice()) {
        if s.len() == 7 || !all_hash_chars_from(s.as_slice(), 7) {
            return None;
        }
        let hash = string_from_chars(&s.as_slice()[7..s.len()]);
        assert(hash@ =~= s@.skip(7));
        return Some(RunnerId::Custom { hash });
    }
    let parts = split_chars(s.as_slice(), ':');
    proof {
        lemma_split_on_len(s@, ':');
    }
    if parts.len() < 2 {
        return None;
    }
    let name = parts[0].as_slice();
    let name_len = name.len();
    assert(name@ == split_on(s@, ':')[0]);
    let slen = s.len();
    assert(name_len < slen);
    if name_len == 0 || name_len + 1 == slen {
        return None;
    }
    if !all_name_chars_exec(name) {
        return None;
    }
    if !all_hash_chars_from(s.as_slice(), name_len + 1) {
        return None;
    }
    let name = string_from_chars(name);
    let hash = string_from_chars(&s.as_slice()[name_len + 1..s.len()]);
    assert(hash@ =~= s@.skip(name_len + 1));
    Some(RunnerId::NameHash { name, hash })
}

/// The Keccak-256 digest of some bytes.
pub uninterp spec fn keccak256(data: Seq<u8>) -> Seq<u8>;

/// `sha3::Keccak256`: the 32-byte Keccak-256 digest of `data`.
#[verifier::external_body]
fn keccak256_digest(data: &[u8]) -> (r: Vec<u8>)
    ensures
        r@ == keccak256(data@),
        r@.len() == 32,
{
    let mut hasher = <sha3::Keccak256 as sha3::Digest>::new();
    sha3::Digest::update(&mut hasher, data);
    sha3::Digest::finalize(hasher).to_vec()
}

/// A lowercase hex letter in upper case; any other character as it is.
pub open spec fn upper_hex_letter(c: char) -> char {
    if c == 'a' {
        'A'
    } else if c == 'b' {
        'B'
    } else if c == 'c' {
        'C'
    } else if c == 'd' {
        'D'
    } else if c == 'e' {
        'E'
    } else if c == 'f' {
        'F'
    } else {
        c
    }
}

/// An upper-case hex letter in lower case; any other character as it is.
pub open spec fn lower_hex_letter(c: char) -> char {
    if c == 'A' {
        'a'
    } else if c == 'B' {
        'b'
    } else if c == 'C' {
        'c'
    } else if c == 'D' {
        'd'
    } else if c == 'E' {
        'e'
    } else if c == 'F' {
        'f'
    } else {
        c
    }
}

/// Hex digit `i` of a byte string: the high half of byte `i / 2` for even
/// `i`, the low half for odd `i`.
pub open spec fn nibble(h: Seq<u8>, i: int) -> int {
    if i % 2 == 0 {
        h[i / 2] as int / 16
    } else {
        h[i / 2] as int % 16
    }
}

/// The EIP-55 checksummed hex of an address: its lowercase hex, with each
/// letter in upper case where the matching hex digit of the Keccak-256
/// digest of that lowercase text is 8 or more.
pub open spec fn checksum_hex_spec(address: Seq<u8>) -> Seq<char> {
    let lower = hex_encode_spec(address);
    let h = keccak256(encode_utf8(lower));
    Seq::new(
        lower.len(),
        |i: int|
            if nibble(h, i) >= 8 {
                upper_hex_letter(lower[i])
            } else {
                lower[i]
            },
    )
}

/// A letter of lowercase hex text in upper case.
fn upper_hex_char(c: char) -> (r: char)
    ensures
        r == upper_hex_letter(c),
{
    match c {
        'a' => 'A',
        'b' => 'B',
        'c' => 'C',
        'd' => 'D',
        'e' => 'E',
        'f' => 'F',
        _ => c,
    }
}

/// The EIP-55 checksummed hex of an address (without `0x`).
pub fn checksum_hex(address: &Address) -> (r: String)
    ensures
        r@ == checksum_hex_spec(address.0@),
{
    let lower = hex_encode(&address.0);
    let h = keccak256_digest(lower.as_str().as_bytes());
    let cs = str_chars(lower.as_str());
    proof {
        lemma_hex_encode_digits(address.0@);
    }
    let mut out: Vec<char> = Vec::new();
    let mut i: usize = 0;
    while i < cs.len()
        invariant
            cs@ == hex_encode_spec(address.0@),
            cs@.len() == 40,
            h@ == keccak256(encode_utf8(cs@)),
            h@.len() == 32,
            i <= cs@.len(),
            out@.len() == i,
            forall|t: int| 0 <= t < i ==> #[trigger] out@[t] == checksum_hex_spec(address.0@)[t],
        decreases cs@.len() - i,
    {
        let b = h[i / 2];
        let nib = if i % 2 == 0 {
            b / 16
        } else {
            b % 16
        };
        let c = cs[i];
        if nib >= 8 {
            out.push(upper_hex_char(c));
        } else {
            out.push(c);
        }
        i = i + 1;
    }
    assert(out@ =~= checksum_hex_spec(address.0@));
    string_from_chars(out.as_slice())
}

/// The digit of a value below 32 in the slot encoding: `0`-`9`, then `a`-`v`.
pub open spec fn gvm32_digit(v: int) -> char {
    if v < 10 {
        (48 + v) as char
    } else {
        (87 + v) as char
    }
}

/// The slot encoding of some bytes: one digit per five bits, most
/// significant first, the last group filled up with zero bits; no padding.
pub open spec fn gvm32_spec(b: Seq<u8>) -> Seq<char> {
    Seq::new(((8 * b.len() + 4) / 5) as nat, |j: int| gvm32_digit(group_value(b, j)))
}

/// Bit `i` of a byte string, most significant bit of each byte first, zero
/// past the end.
fn bit_at(b: &[u8], i: usize) -> (r: u8)
    requires
        b@.len() < 0x1000_0000,
        i < 0x1_0000_0000,
    ensures
        r == data_bit(b@, i as int),
{
    if i >= 8 * b.len() {
        return 0;
    }
    let powers: [u8; 8] = [1, 2, 4, 8, 16, 32, 64, 128];
    let k = 7 - i % 8;
    proof {
        lemma2_to64();
        assert(powers@[k as int] == pow2(k as nat));
    }
    (b[i / 8] / powers[k]) % 2
}

/// The slot encoding of some bytes (see [`gvm32_spec`]).
pub fn gvm32(b: &[u8]) -> (r: String)
    requires
        b@.len() < 0x1000_0000,
    ensures
        r@ == gvm32_spec(b@),
{
    let n: usize = (8 * b.len() + 4) / 5;
    let digits = [
        '0', '1', '2', '3', '4', '5', '6', '7', '8', '9', 'a', 'b', 'c', 'd', 'e', 'f', 'g', 'h', 'i', 'j',
        'k', 'l', 'm', 'n', 'o', 'p', 'q', 'r', 's', 't', 'u', 'v',
    ];
    proof {
        assert forall|v: int| 0 <= v < 32 implies #[trigger] digits@[v] == gvm32_digit(v) by {
            assert(v == 0 || v == 1 || v == 2 || v == 3 || v == 4 || v == 5 || v == 6 || v == 7 || v == 8 || v
                == 9 || v == 10 || v == 11 || v == 12 || v == 13 || v == 14 || v == 15 || v == 16 || v == 17 || v
                == 18 || v == 19 || v == 20 || v == 21 || v == 22 || v == 23 || v == 24 || v == 25 || v == 26 || v
                == 27 || v == 28 || v == 29 || v == 30 || v == 31);
        }
    }
    let mut out: Vec<char> = Vec::new();
    let mut j: usize = 0;
    while j < n
        invariant
            n == (8 * b@.len() + 4) / 5,
            b@.len() < 0x1000_0000,
            j <= n,
            out@.len() == j,
            forall|v: int| 0 <= v < 32 ==> #[trigger] digits@[v] == gvm32_digit(v),
            forall|t: int| 0 <= t < j ==> #[trigger] out@[t] == gvm32_digit(group_value(b@, t)),
        decreases n - j,
    {
        let v = 16 * bit_at(b, 5 * j) + 8 * bit_at(b, 5 * j + 1) + 4 * bit_at(b, 5 * j + 2) + 2 * bit_at(b, 5 * j + 3)
            + bit_at(b, 5 * j + 4);
        out.push(digits[v as usize]);
        j = j + 1;
    }
    assert(out@ =~= gvm32_spec(b@));
    string_from_chars(out.as_slice())
}

/// The `chain:0x<address>:<a|f>:<slot>` text: the address EIP-55
/// checksummed, any state other than the finalized one written `a`, the
/// slot in the slot encoding.
pub open spec fn spec_chain_canonical(address: Seq<u8>, on: StorageType, slot: Seq<u8>) -> Seq<char> {
    seq!['c', 'h', 'a', 'i', 'n', ':', '0', 'x'] + checksum_hex_spec(address) + seq![
        ':',
        if on == StorageType::LatestFinal { 'f' } else { 'a' },
        ':',
    ] + gvm32_spec(slot)
}

/// Canonical text of a chain runner id, used as its cache key.
pub fn chain_canonical(address: Address, on: StorageType, slot: SlotID) -> (r: String)
    ensures
        r@ == spec_chain_canonical(address.0@, on, slot.0@),
{
    let a = checksum_hex(&address);
    let sl = gvm32(&slot.0);
    let mid = match on {
        StorageType::LatestFinal => ":f:",
        _ => ":a:",
    };
    proof {
        reveal_strlit(":f:");
        reveal_strlit(":a:");
        reveal_strlit("chain:0x");
    }
    let head = concat_str("chain:0x", a.as_str());
    let head = concat_str(head.as_str(), mid);
    let r = concat_str(head.as_str(), sl.as_str());
    assert(r@ =~= spec_chain_canonical(address.0@, on, slot.0@));
    r
}

/// The cache key of the runner of a contract: the canonical id of its code
/// slot, at the given state. An explicit `chain:` reference to the same
/// account, state and slot resolves to this same key.
pub fn get_runner_of_contract(address: Address, state: StorageType, code_slot: SlotID) -> (r: String)
    ensures
        r@ == spec_chain_canonical(address.0@, state, code_slot.0@),
{
    chain_canonical(address, state, code_slot)
}

/// The hash part of a `custom:<hash>` runner id: the lowercase hex SHA3-256
/// digest of the runner's code.
pub fn custom_runner_hash(code: &[u8]) -> (r: String)
    ensures
        r@ == hex_encode_spec(sha3_256(code@)),
{
    let digest = sha3_256_digest(code);
    hex_encode(digest.as_slice())
}

/// The `custom:<hash>` runner id of a hash.
pub fn custom_runner_id(hash: &str) -> (r: String)
    ensures
        r@ == custom_prefix() + hash@,
{
    proof {
        reveal_strlit("custom:");
    }
    let r = concat_str("custom:", hash);
    assert(r@ =~= custom_prefix() + hash@);
    r
}

/// Splits a `<name>:<hash>` runner id into its name and hash; `None` when
/// it is not of that form or holds a character that is not allowed.
pub fn verify_runner(runner_id: &str) -> (r: Option<(String, String)>)
    ensures
        r matches Some((n, h)) ==> spec_verify_runner(runner_id@) == Ok::<(Seq<char>, Seq<char>), RunnerIdError>((n@, h@)),
        r is None ==> spec_verify_runner(runner_id@) is Err,
{
    match crate::runner::verify_runner(runner_id) {
        Ok(p) => Some(p),
        Err(_) => None,
    }
}


/// Appends to `path` the components under which runner `id` with content
/// hash `hash` is stored: the id, the hash's first two characters, and the
/// rest of the hash.
pub fn append_runner_subpath(id: &str, hash: &str, path: &mut Vec<String>)
    requires
        hash@.len() >= 2,
        (hash@[0] as u32) < 128,
        (hash@[1] as u32) < 128,
    ensures
        final(path)@.len() == old(path)@.len() + 3,
        forall|i: int| 0 <= i < old(path)@.len() ==> #[trigger] final(path)@[i] == old(path)@[i],
        final(path)@[old(path)@.len() as int]@ == id@,
        final(path)@[old(path)@.len() + 1int]@ == hash@.subrange(0, 2),
        final(path)@[old(path)@.len() + 2int]@ == hash@.skip(2),
{
    let cs = str_chars(hash);
    path.push(String::from_str(id));
    path.push(string_from_chars(&cs.as_slice()[0..2]));
    path.push(string_from_chars(&cs.as_slice()[2..cs.len()]));
    assert(cs@.subrange(2, cs@.len() as int) =~= hash@.skip(2));
}


/// The hex digits of a byte string: two per byte, high digit first.
proof fn lemma_hex_encode_digits(b: Seq<u8>)
    ensures
        hex_encode_spec(b).len() == 2 * b.len(),
        forall|i: int| 0 <= i < b.len() ==> hex_encode_spec(b)[2 * i] == hex_digit(#[trigger] b[i] as int / 16)
            && hex_encode_spec(b)[2 * i + 1] == hex_digit(b[i] as int % 16),
    decreases b.len(),
{
    if b.len() > 0 {
        lemma_hex_encode_digits(b.drop_last());
        assert forall|i: int| 0 <= i < b.len() implies hex_encode_spec(b)[2 * i] == hex_digit(#[trigger] b[i] as int / 16)
            && hex_encode_spec(b)[2 * i + 1] == hex_digit(b[i] as int % 16) by {
            if i < b.len() - 1 {
                assert(b.drop_last()[i] == b[i]);
            }
        }
    }
}

/// A hex digit is an ASCII character, not `:`, whose byte decodes back to
/// the digit's value.
proof fn lemma_hex_digit(v: int)
    requires
        0 <= v < 16,
    ensures
        (hex_digit(v) as u32) < 128,
        hex_digit(v) != ':',
        is_hex_digit((hex_digit(v) as u32) as u8),
        hex_val((hex_digit(v) as u32) as u8) == v,
{
}



/// The checksummed hex of an address differs from its lowercase hex only
/// in the case of letters.
pub proof fn checksum_changes_only_case(address: Seq<u8>)
    ensures
        checksum_hex_spec(address).len() == hex_encode_spec(address).len(),
        forall|i: int|
            0 <= i < checksum_hex_spec(address).len() ==> lower_hex_letter(#[trigger] checksum_hex_spec(address)[i])
                == hex_encode_spec(address)[i],
{
    lemma_hex_encode_digits(address);
    assert forall|i: int| 0 <= i < checksum_hex_spec(address).len() implies lower_hex_letter(
        #[trigger] checksum_hex_spec(address)[i],
    ) == hex_encode_spec(address)[i] by {
        let j = i / 2;
        if i % 2 == 0 {
            assert(i == 2 * j);
            assert(hex_encode_spec(address)[i] == hex_digit(address[j] as int / 16));
        } else {
            assert(i == 2 * j + 1);
            assert(hex_encode_spec(address)[i] == hex_digit(address[j] as int % 16));
        }
    }
}

} // verus!
