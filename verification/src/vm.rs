//! Lenient UTF-8 decoding of contract output, and the byte form of a
//! contract's result.
//!
//! The decoder reads one character at a time. A byte sequence that is not a
//! well-formed character (a stray continuation byte, a sequence cut short, an
//! overlong form, a surrogate or a value past `U+10FFFF`) comes out as an
//! [`InvalidSequence`] holding the bytes it consumed; decoding then goes on
//! after them. Old-style five- and six-byte headers are read in full and
//! then refused.

use vstd::prelude::*;

use crate::host::ResultCode;

verus! {

/// Bytes that do not form a character.
#[derive(Debug, PartialEq, Eq)]
pub struct InvalidSequence(pub Vec<u8>);

/// A byte of the form `10xxxxxx`.
pub open spec fn is_cont(b: u8) -> bool {
    128 <= b && b < 192
}

/// Number of leading one bits of a byte.
pub open spec fn lead_ones(b: u8) -> nat {
    if b < 0x80 {
        0
    } else if b < 0xC0 {
        1
    } else if b < 0xE0 {
        2
    } else if b < 0xF0 {
        3
    } else if b < 0xF8 {
        4
    } else if b < 0xFC {
        5
    } else if b < 0xFE {
        6
    } else if b < 0xFF {
        7
    } else {
        8
    }
}

/// `2^(7 - l)`: the payload of a header byte with `l` leading ones is the
/// byte modulo this.
pub open spec fn header_modulus(l: nat) -> nat {
    if l == 2 {
        32
    } else if l == 3 {
        16
    } else if l == 4 {
        8
    } else if l == 5 {
        4
    } else {
        2
    }
}

/// How many of the first `max` bytes of `s` are continuation bytes, in a row.
pub open spec fn count_cont(s: Seq<u8>, max: nat) -> nat
    decreases max,
{
    if max == 0 || s.len() == 0 || !is_cont(s[0]) {
        0
    } else {
        1 + count_cont(s.skip(1), (max - 1) as nat)
    }
}

/// The code point a header payload and continuation bytes make: six bits
/// per continuation byte.
pub open spec fn accumulate(init: nat, cs: Seq<u8>) -> nat
    decreases cs.len(),
{
    if cs.len() == 0 {
        init
    } else {
        accumulate(init, cs.drop_last()) * 64 + (cs.last() % 64) as nat
    }
}

/// Whether a number is a Unicode scalar value.
pub open spec fn is_scalar(x: nat) -> bool {
    x < 0xD800 || (0xE000 <= x && x <= 0x10FFFF)
}

/// Number of bytes UTF-8 takes for a scalar value.
pub open spec fn utf8_len(x: nat) -> nat {
    if x < 0x80 {
        1
    } else if x < 0x800 {
        2
    } else if x < 0x10000 {
        3
    } else {
        4
    }
}

/// What decoding the front of `s` gives, and how many bytes it consumes.
pub open spec fn decode_one(s: Seq<u8>) -> (Result<char, Seq<u8>>, nat)
    recommends
        s.len() > 0,
{
    let b = s[0];
    if b < 0x80 {
        (Ok(b as char), 1)
    } else {
        let l = lead_ones(b);
        if l < 2 || l > 6 {
            (Err(seq![b]), 1)
        } else {
            let k = count_cont(s.skip(1), (l - 1) as nat);
            if k < l - 1 {
                (Err(s.take(1 + k as int)), 1 + k)
            } else {
                let x = accumulate((b as nat) % header_modulus(l), s.subrange(1, l as int));
                if is_scalar(x) && utf8_len(x) == l {
                    (Ok(x as char), l)
                } else {
                    (Err(s.take(l as int)), l)
                }
            }
        }
    }
}

/// Everything decoding `s` gives, in order.
pub open spec fn decode_all(s: Seq<u8>) -> Seq<Result<char, Seq<u8>>>
    decreases s.len(),
{
    if s.len() == 0 {
        Seq::empty()
    } else {
        let (r, n) = decode_one(s);
        if 1 <= n <= s.len() {
            seq![r] + decode_all(s.skip(n as int))
        } else {
            seq![r]
        }
    }
}

/// A run of continuation bytes is never longer than asked or than there is.
pub proof fn lemma_count_cont(s: Seq<u8>, max: nat)
    ensures
        count_cont(s, max) <= max,
        count_cont(s, max) <= s.len(),
        forall|i: int| 0 <= i < count_cont(s, max) ==> #[trigger] is_cont(s[i]),
        count_cont(s, max) < max && count_cont(s, max) < s.len() ==> !is_cont(s[count_cont(s, max) as int]),
    decreases max,
{
    if !(max == 0 || s.len() == 0 || !is_cont(s[0])) {
        lemma_count_cont(s.skip(1), (max - 1) as nat);
        assert forall|i: int| 0 <= i < count_cont(s, max) implies #[trigger] is_cont(s[i]) by {
            if i > 0 {
                assert(s[i] == s.skip(1)[i - 1]);
            }
        }
    }
}

/// Decoding one character consumes at least one byte and no more than there are.
pub proof fn lemma_decode_one_len(s: Seq<u8>)
    requires
        s.len() > 0,
    ensures
        1 <= decode_one(s).1 <= s.len(),
{
    let b = s[0];
    if b >= 0x80 {
        let l = lead_ones(b);
        if 2 <= l <= 6 {
            lemma_count_cont(s.skip(1), (l - 1) as nat);
        }
    }
}

/// `char::from_u32`: the character with code `x`, if `x` is a Unicode scalar
/// value (not a surrogate, at most `U+10FFFF`).
#[verifier::external_body]
fn char_from_u32(x: u32) -> (r: Option<char>)
    ensures
        is_scalar(x as nat) ==> r == Some(x as char),
        !is_scalar(x as nat) ==> r is None,
{
    char::from_u32(x)
}

/// Number of leading one bits of a byte.
fn leading_ones(b: u8) -> (r: usize)
    ensures
        r == lead_ones(b),
{
    if b < 0x80 {
        0
    } else if b < 0xC0 {
        1
    } else if b < 0xE0 {
        2
    } else if b < 0xF0 {
        3
    } else if b < 0xF8 {
        4
    } else if b < 0xFC {
        5
    } else if b < 0xFE {
        6
    } else if b < 0xFF {
        7
    } else {
        8
    }
}

/// Upper bound on the code point after `k` continuation bytes.
pub open spec fn acc_bound(k: nat) -> nat {
    if k == 0 {
        32
    } else if k == 1 {
        2048
    } else if k == 2 {
        131072
    } else if k == 3 {
        8388608
    } else if k == 4 {
        536870912
    } else {
        34359738368
    }
}

/// A UTF-8 decoder over a byte buffer, one character per [`DecodeUtf8::next`].
#[derive(Debug, Clone)]
pub struct DecodeUtf8 {
    bytes: Vec<u8>,
    pos: usize,
}

/// A decoder over `bytes`, at its start.
pub fn decode_utf8(bytes: Vec<u8>) -> (r: DecodeUtf8)
    ensures
        r.rest() == bytes@,
        r.wf(),
{
    let r = DecodeUtf8 { bytes, pos: 0 };
    assert(r.rest() =~= bytes@);
    r
}

impl DecodeUtf8 {
    /// The bytes not decoded yet.
    pub closed spec fn rest(&self) -> Seq<u8> {
        self.bytes@.skip(self.pos as int)
    }

    /// Whether the position is within the buffer.
    pub closed spec fn wf(&self) -> bool {
        self.pos <= self.bytes@.len()
    }

    /// Decodes the next character; `None` once the bytes are used up.
    pub fn next(&mut self) -> (r: Option<Result<char, InvalidSequence>>)
        requires
            old(self).wf(),
        ensures
            final(self).wf(),
            old(self).rest().len() == 0 ==> r is None && final(self).rest() == old(self).rest(),
            old(self).rest().len() > 0 ==> r is Some && match r.unwrap() {
                Ok(c) => decode_one(old(self).rest()).0 == Ok::<char, Seq<u8>>(c),
                Err(e) => decode_one(old(self).rest()).0 == Err::<char, Seq<u8>>(e.0@),
            } && final(self).rest() == old(self).rest().skip(decode_one(old(self).rest()).1 as int),
    {
        let ghost s = self.rest();
        let n = self.bytes.len();
        if self.pos >= n {
            return None;
        }
        proof {
            lemma_decode_one_len(s);
        }
        let start = self.pos;
        let b = self.bytes[start];
        assert(s[0] == b);
        self.pos = start + 1;
        let mut on_err: Vec<u8> = Vec::new();
        on_err.push(b);
        if b < 0x80 {
            assert(self.rest() =~= s.skip(1));
            return Some(Ok(b as char));
        }
        let l = leading_ones(b);
        if l < 2 || l > 6 {
            assert(self.rest() =~= s.skip(1));
            assert(on_err@ =~= seq![b]);
            return Some(Err(InvalidSequence(on_err)));
        }
        let ghost k = count_cont(s.skip(1), (l - 1) as nat);
        proof {
            lemma_count_cont(s.skip(1), (l - 1) as nat);
        }
        let modulus: u64 = if l == 2 {
            32
        } else if l == 3 {
            16
        } else if l == 4 {
            8
        } else if l == 5 {
            4
        } else {
            2
        };
        let mut x: u64 = (b as u64) % modulus;
        let mut i: usize = 0;
        while i < l - 1
            invariant
                2 <= l <= 6,
                l == lead_ones(b),
                b == s[0],
                n == self.bytes@.len(),
                self.pos == start + 1 + i,
                start < n,
                s == self.bytes@.skip(start as int),
                k == count_cont(s.skip(1), (l - 1) as nat),
                s == old(self).rest(),
                s.len() == n - start,
                self.bytes@ == old(self).bytes@,
                k <= l - 1,
                k <= s.len() - 1,
                forall|j: int| 0 <= j < k ==> #[trigger] is_cont(s.skip(1)[j]),
                k < l - 1 && k < s.len() - 1 ==> !is_cont(s.skip(1)[k as int]),
                i <= k,
                i <= l - 1,
                on_err@ == s.take(1 + i),
                x == accumulate((b as nat) % header_modulus(l as nat), s.subrange(1, 1 + i)),
                x < acc_bound(i as nat),
                modulus == header_modulus(l as nat),
            decreases l - 1 - i,
        {
            let p = self.pos;
            if p < n && self.bytes[p] >= 128 && self.bytes[p] < 192 {
                let c = self.bytes[p];
                assert(s.skip(1)[i as int] == c);
                on_err.push(c);
                self.pos = p + 1;
                proof {
                    assert(s.subrange(1, 2 + i).drop_last() =~= s.subrange(1, 1 + i));
                    assert(s.take(2 + i) =~= s.take(1 + i).push(c));
                }
                x = x * 64 + (c as u64) % 64;
                i = i + 1;
            } else {
                proof {
                    if p < n {
                        assert(s.skip(1)[i as int] == self.bytes@[p as int]);
                        assert(!is_cont(s.skip(1)[i as int]));
                    }
                    assert(i == k);
                    assert(self.rest() =~= s.skip(1 + k as int));
                }
                return Some(Err(InvalidSequence(on_err)));
            }
        }
        assert(i == l - 1);
        assert(self.rest() =~= s.skip(l as int));
        assert(on_err@ =~= s.take(l as int));
        let code: Option<char> = if x <= 0x10FFFF {
            char_from_u32(x as u32)
        } else {
            None
        };
        match code {
            Some(ch) => {
                let len: usize = if x < 0x80 {
                    1
                } else if x < 0x800 {
                    2
                } else if x < 0x10000 {
                    3
                } else {
                    4
                };
                if l == len {
                    Some(Ok(ch))
                } else {
                    Some(Err(InvalidSequence(on_err)))
                }
            },
            None => Some(Err(InvalidSequence(on_err))),
        }
    }
}

/// Decodes a whole buffer: one entry per character or invalid sequence.
pub fn decode_all_of(bytes: Vec<u8>) -> (r: Vec<Result<char, InvalidSequence>>)
    ensures
        r@.len() == decode_all(bytes@).len(),
        forall|i: int|
            0 <= i < r@.len() ==> match #[trigger] r@[i] {
                Ok(c) => decode_all(bytes@)[i] == Ok::<char, Seq<u8>>(c),
                Err(e) => decode_all(bytes@)[i] == Err::<char, Seq<u8>>(e.0@),
            },
{
    let ghost all = bytes@;
    let mut d = decode_utf8(bytes);
    let mut out: Vec<Result<char, InvalidSequence>> = Vec::new();
    loop
        invariant
            d.wf(),
            decode_all(all) == decoded_view(out@) + decode_all(d.rest()),
        ensures
            d.rest().len() == 0,
            decode_all(all) == decoded_view(out@) + decode_all(d.rest()),
        decreases d.rest().len(),
    {
        let ghost before = d.rest();
        match d.next() {
            None => {
                assert(decode_all(before) =~= Seq::<Result<char, Seq<u8>>>::empty());
                break;
            },
            Some(item) => {
                proof {
                    lemma_decode_one_len(before);
                    let (r0, n0) = decode_one(before);
                    assert(decode_all(before) == seq![r0] + decode_all(before.skip(n0 as int)));
                    assert(decoded_view(out@.push(item)) =~= decoded_view(out@).push(r0));
                    assert(decoded_view(out@) + decode_all(before) =~= decoded_view(out@.push(item)) + decode_all(before.skip(n0 as int)));
                }
                out.push(item);
            },
        }
    }
    proof {
        assert(decoded_view(out@) + decode_all(d.rest()) =~= decoded_view(out@));
        assert(decode_all(all) =~= decoded_view(out@));
        assert forall|i: int| 0 <= i < out@.len() implies match #[trigger] out@[i] {
            Ok(c) => decode_all(all)[i] == Ok::<char, Seq<u8>>(c),
            Err(e) => decode_all(all)[i] == Err::<char, Seq<u8>>(e.0@),
        } by {
            assert(decoded_view(out@)[i] == decode_all(all)[i]);
        }
    }
    out
}

/// The plain values of decoded entries.
pub open spec fn decoded_view(v: Seq<Result<char, InvalidSequence>>) -> Seq<Result<char, Seq<u8>>> {
    Seq::new(
        v.len(),
        |i: int|
            match v[i] {
                Ok(c) => Ok(c),
                Err(e) => Err(e.0@),
            },
    )
}

/// Whether a character is a control character (general category Cc).
pub open spec fn is_control(c: char) -> bool {
    (c as u32) <= 0x1F || (0x7F <= (c as u32) && (c as u32) <= 0x9F)
}

/// Two lowercase hex digits of a byte.
pub open spec fn hex2(v: int) -> Seq<char> {
    seq![crate::runners::hex_digit(v / 16), crate::runners::hex_digit(v % 16)]
}

/// How one decoded entry is shown: a backslash doubled, a control character
/// as `\xNN`, an invalid byte as `\NN`, any other character as itself.
pub open spec fn escape_item(r: Result<char, Seq<u8>>) -> Seq<char> {
    match r {
        Ok(c) => if c == '\\' {
            seq!['\\', '\\']
        } else if is_control(c) {
            seq!['\\', 'x'] + hex2((c as u32) as int)
        } else {
            seq![c]
        },
        Err(bytes) => escape_bytes(bytes),
    }
}

/// Invalid bytes shown as `\NN` each.
pub open spec fn escape_bytes(b: Seq<u8>) -> Seq<char>
    decreases b.len(),
{
    if b.len() == 0 {
        Seq::empty()
    } else {
        escape_bytes(b.drop_last()) + seq!['\\'] + hex2(b.last() as int)
    }
}

/// The shown form of all decoded entries, one after the other.
pub open spec fn escape_all(items: Seq<Result<char, Seq<u8>>>) -> Seq<char>
    decreases items.len(),
{
    if items.len() == 0 {
        Seq::empty()
    } else {
        escape_all(items.drop_last()) + escape_item(items.last())
    }
}

/// The lowercase hex digit of a value below 16.
fn hex_char(v: u32) -> (r: char)
    requires
        v < 16,
    ensures
        r == crate::runners::hex_digit(v as int),
{
    let digits = ['0', '1', '2', '3', '4', '5', '6', '7', '8', '9', 'a', 'b', 'c', 'd', 'e', 'f'];
    proof {
        assert(crate::runners::hex_digit(v as int) == digits@[v as int]) by {
            assert(v == 0 || v == 1 || v == 2 || v == 3 || v == 4 || v == 5 || v == 6 || v == 7 || v == 8
                || v == 9 || v == 10 || v == 11 || v == 12 || v == 13 || v == 14 || v == 15);
        }
    }
    digits[v as usize]
}

/// Shows returned bytes as text: `Return("...")` with the bytes decoded as
/// UTF-8 and escaped (see [`escape_item`]).
pub fn escape_return(bytes: &[u8]) -> (r: String)
    ensures
        r@ == seq!['R', 'e', 't', 'u', 'r', 'n', '(', '"'] + escape_all(decode_all(bytes@)) + seq!['"', ')'],
{
    let mut v: Vec<u8> = Vec::new();
    let mut k: usize = 0;
    while k < bytes.len()
        invariant
            k <= bytes@.len(),
            v@ == bytes@.take(k as int),
        decreases bytes@.len() - k,
    {
        v.push(bytes[k]);
        assert(bytes@.take(k + 1) =~= bytes@.take(k as int).push(bytes@[k as int]));
        k = k + 1;
    }
    assert(bytes@.take(k as int) =~= bytes@);
    let items = decode_all_of(v);
    let ghost all = decode_all(bytes@);
    let mut out: Vec<char> = Vec::new();
    out.push('R');
    out.push('e');
    out.push('t');
    out.push('u');
    out.push('r');
    out.push('n');
    out.push('(');
    out.push('"');
    let ghost head = out@;
    assert(head =~= seq!['R', 'e', 't', 'u', 'r', 'n', '(', '"']);
    let mut i: usize = 0;
    while i < items.len()
        invariant
            i <= items@.len(),
            items@.len() == all.len(),
            forall|j: int|
                0 <= j < items@.len() ==> match #[trigger] items@[j] {
                    Ok(c) => all[j] == Ok::<char, Seq<u8>>(c),
                    Err(e) => all[j] == Err::<char, Seq<u8>>(e.0@),
                },
            out@ == head + escape_all(all.take(i as int)),
        decreases items@.len() - i,
    {
        let ghost before = out@;
        let ghost item = items@[i as int];
        assert(match item {
            Ok(c) => all[i as int] == Ok::<char, Seq<u8>>(c),
            Err(e) => all[i as int] == Err::<char, Seq<u8>>(e.0@),
        });
        assert(all.take(i + 1).drop_last() =~= all.take(i as int));
        match &items[i] {
            Ok(c) => {
                let c = *c;
                if c == '\\' {
                    out.push('\\');
                    out.push('\\');
                } else if {
                    let n = c as u32;
                    n <= 0x1F || (0x7F <= n && n <= 0x9F)
                } {
                    let n = c as u32;
                    out.push('\\');
                    out.push('x');
                    out.push(hex_char(n / 16));
                    out.push(hex_char(n % 16));
                } else {
                    out.push(c);
                }
                assert(out@ =~= before + escape_item(all[i as int]));
            },
            Err(e) => {
                let bs = &e.0;
                let mut j: usize = 0;
                assert(bs@.take(0) =~= Seq::<u8>::empty());
                while j < bs.len()
                    invariant
                        j <= bs@.len(),
                        out@ == before + escape_bytes(bs@.take(j as int)),
                    decreases bs@.len() - j,
                {
                    let b = bs[j];
                    out.push('\\');
                    out.push(hex_char((b / 16) as u32));
                    out.push(hex_char((b % 16) as u32));
                    assert(bs@.take(j + 1).drop_last() =~= bs@.take(j as int));
                    assert(out@ =~= before + escape_bytes(bs@.take(j + 1)));
                    j = j + 1;
                }
                assert(bs@.take(j as int) =~= bs@);
                assert(out@ =~= before + escape_item(all[i as int]));
            },
        }
        assert(out@ =~= head + escape_all(all.take(i + 1)));
        i = i + 1;
    }
    assert(all.take(i as int) =~= all);
    out.push('"');
    out.push(')');
    let r = crate::text::string_from_chars(out.as_slice());
    assert(r@ =~= seq!['R', 'e', 't', 'u', 'r', 'n', '(', '"'] + escape_all(all) + seq!['"', ')']);
    r
}

/// How a contract run ended.
#[derive(Debug)]
pub enum RunOk {
    Return(Vec<u8>),
    Rollback(String),
    ContractError(String),
}

impl RunOk {
    /// A return of the calldata `null` (the single byte 0).
    pub fn empty_return() -> (r: Self)
        ensures
            r matches RunOk::Return(v) && v@ == seq![0u8],
    {
        let mut v: Vec<u8> = Vec::new();
        v.push(0u8);
        RunOk::Return(v)
    }

    /// The result as the host receives it: the result code, then the
    /// returned bytes or the UTF-8 of the message.
    pub open spec fn spec_bytes(self) -> Seq<u8> {
        match self {
            RunOk::Return(v) => seq![ResultCode::Return.spec_value()] + v@,
            RunOk::Rollback(s) => seq![ResultCode::Rollback.spec_value()] + vstd::utf8::encode_utf8(s@),
            RunOk::ContractError(s) => seq![ResultCode::ContractError.spec_value()] + vstd::utf8::encode_utf8(s@),
        }
    }

    /// How the result is shown: returned bytes as escaped text, messages
    /// quoted (see [`escape_return`]).
    pub fn debug_text(&self) -> (r: String)
        ensures
            r@ == match self {
                RunOk::Return(v) => seq!['R', 'e', 't', 'u', 'r', 'n', '(', '"'] + escape_all(decode_all(v@)) + seq!['"', ')'],
                RunOk::Rollback(s) => "Rollback("@ + crate::text::debug_str(s@) + ")"@,
                RunOk::ContractError(s) => "ContractError("@ + crate::text::debug_str(s@) + ")"@,
            },
    {
        match self {
            RunOk::Return(v) => escape_return(v.as_slice()),
            RunOk::Rollback(s) => {
                let d = crate::text::debug_string(s.as_str());
                let a = crate::text::concat_str("Rollback(", d.as_str());
                crate::text::concat_str(a.as_str(), ")")
            },
            RunOk::ContractError(s) => {
                let d = crate::text::debug_string(s.as_str());
                let a = crate::text::concat_str("ContractError(", d.as_str());
                crate::text::concat_str(a.as_str(), ")")
            },
        }
    }

    /// The bytes [`RunOk::spec_bytes`] describes.
    pub fn as_bytes(&self) -> (r: Vec<u8>)
        ensures
            r@ == self.spec_bytes(),
    {
        let (code, body): (u8, &[u8]) = match self {
            RunOk::Return(v) => (ResultCode::Return.value(), v.as_slice()),
            RunOk::Rollback(s) => (ResultCode::Rollback.value(), s.as_str().as_bytes()),
            RunOk::ContractError(s) => (ResultCode::ContractError.value(), s.as_str().as_bytes()),
        };
        let mut out: Vec<u8> = Vec::new();
        out.push(code);
        let mut i: usize = 0;
        while i < body.len()
            invariant
                i <= body@.len(),
                out@ == seq![code] + body@.take(i as int),
            decreases body@.len() - i,
        {
            out.push(body[i]);
            assert(body@.take(i + 1) =~= body@.take(i as int).push(body@[i as int]));
            i = i + 1;
        }
        assert(body@.take(body@.len() as int) =~= body@);
        proof {
            match self {
                RunOk::Return(v) => {},
                RunOk::Rollback(s) => {},
                RunOk::ContractError(s) => {},
            }
        }
        out
    }
}

/// Why a contract's entry point did not return normally, as far as the
/// result depends on it.
#[derive(Debug)]
pub enum VmFailure {
    /// The contract exited with this code.
    Exit(i32),
    /// The wasm code trapped; the trap as text.
    Trap(String),
    /// The contract failed with this message.
    ContractError(String),
    /// The contract rolled back with this message.
    Rollback(String),
    /// The contract returned these bytes.
    ContractReturn(Vec<u8>),
    /// Anything else: an error of the runtime itself.
    Other,
}

/// What a run gives when its entry point finished normally (`None`) or
/// failed: exit code 0 is a return of `null`, another exit code or a trap a
/// contract error naming it, and the contract's own outcomes stay as they
/// are. `None` for a failure of the runtime, which is not a result.
pub fn run_outcome(failure: Option<VmFailure>) -> (r: Option<RunOk>)
    ensures
        failure is None ==> (r matches Some(RunOk::Return(v)) && v@ == seq![0u8]),
        failure matches Some(VmFailure::Exit(c)) ==> if c == 0 {
            r matches Some(RunOk::Return(v)) && v@ == seq![0u8]
        } else {
            r matches Some(RunOk::ContractError(m)) && m@ == "exit_code "@ + crate::consts::decimal_i32(c)
        },
        failure matches Some(VmFailure::Trap(t)) ==> (r matches Some(RunOk::ContractError(m)) && m@ == "wasm_trap "@ + t@),
        failure matches Some(VmFailure::ContractError(e)) ==> (r matches Some(RunOk::ContractError(m)) && m@ == e@),
        failure matches Some(VmFailure::Rollback(e)) ==> (r matches Some(RunOk::Rollback(m)) && m@ == e@),
        failure matches Some(VmFailure::ContractReturn(b)) ==> (r matches Some(RunOk::Return(v)) && v@ == b@),
        failure matches Some(VmFailure::Other) ==> r is None,
{
    match failure {
        None => Some(RunOk::empty_return()),
        Some(VmFailure::Exit(c)) => {
            if c == 0 {
                Some(RunOk::empty_return())
            } else {
                let e = crate::consts::VmError::exit_code().val_i32(c);
                Some(RunOk::ContractError(e.0))
            }
        },
        Some(VmFailure::Trap(t)) => {
            let e = crate::consts::VmError::wasm_trap().val_str(t.as_str());
            Some(RunOk::ContractError(e.0))
        },
        Some(VmFailure::ContractError(e)) => Some(RunOk::ContractError(e)),
        Some(VmFailure::Rollback(e)) => Some(RunOk::Rollback(e)),
        Some(VmFailure::ContractReturn(b)) => Some(RunOk::Return(b)),
        Some(VmFailure::Other) => None,
    }
}


/// A wasm file of a runner: the runner's id and the file's path in its
/// archive.
#[derive(Debug, Clone)]
pub struct WasmFileDesc {
    pub runner_id: String,
    pub path_in_arch: String,
}

impl WasmFileDesc {
    /// The runner id and the path, joined, as shown in messages.
    pub fn debug_path(&self) -> (r: String)
        ensures
            r@ == self.runner_id@ + self.path_in_arch@,
    {
        crate::text::concat_str(self.runner_id.as_str(), self.path_in_arch.as_str())
    }

    /// Whether the file belongs to a built-in runner, whose id starts with
    /// `<`.
    pub fn is_special(&self) -> (r: bool)
        ensures
            r == (self.runner_id@.len() > 0 && self.runner_id@[0] == '<'),
    {
        let cs = crate::text::str_chars(self.runner_id.as_str());
        cs.len() > 0 && cs[0] == '<'
    }
}


/// Decoding the UTF-8 form of a character gives the character back, and
/// consumes exactly its bytes, whatever follows.
proof fn lemma_decode_encoded_char(c: char, rest: Seq<u8>)
    ensures
        ({
            let e = vstd::utf8::encode_scalar(c as u32);
            &&& 1 <= e.len() <= 4
            &&& decode_one(e + rest) == (Ok::<char, Seq<u8>>(c), e.len())
        }),
{
    let x = c as u32;
    vstd::utf8::char_is_scalar(c);
    let e = vstd::utf8::encode_scalar(x);
    let s = e + rest;
    if vstd::utf8::has_width_1_encoding(x) {
        assert(vstd::utf8::leading_byte_width_1(x) as u32 == x) by (bit_vector)
            requires
                x <= 0x7F,
        ;
        assert(s[0] == e[0]);
        assert((s[0] as char) == c);
    } else if vstd::utf8::has_width_2_encoding(x) {
        let b0 = vstd::utf8::leading_byte_width_2(x);
        let b1 = vstd::utf8::last_continuation_byte(x);
        assert(0xC0 <= b0 && b0 < 0xE0 && 0x80 <= b1 && b1 < 0xC0 && ((b0 as u32) % 32) * 64 + (b1 as u32) % 64
            == x) by (bit_vector)
            requires
                0x80 <= x <= 0x7FF,
                b0 == vstd::utf8::leading_byte_width_2(x),
                b1 == vstd::utf8::last_continuation_byte(x),
        ;
        assert(s[0] == b0 && s[1] == b1);
        assert(s.skip(1)[0] == b1);
        assert(count_cont(s.skip(1).skip(1), 0) == 0);
        assert(count_cont(s.skip(1), 1) == 1);
        assert(s.subrange(1, 2) =~= seq![b1]);
        assert(seq![b1].drop_last() =~= Seq::<u8>::empty());
        let h = (b0 as nat) % 32;
        assert(e =~= seq![b0, b1]);
        assert(accumulate(h, Seq::<u8>::empty()) == h);
        assert(accumulate(h, seq![b1]) == h * 64 + (b1 % 64) as nat);
        let x2 = accumulate(h, s.subrange(1, 2));
        assert(x2 == x);
        assert((x2 as char) == c);
    } else if vstd::utf8::has_width_3_encoding(x) {
        let b0 = vstd::utf8::leading_byte_width_3(x);
        let b1 = vstd::utf8::second_last_continuation_byte(x);
        let b2 = vstd::utf8::last_continuation_byte(x);
        assert(0xE0 <= b0 && b0 < 0xF0 && 0x80 <= b1 && b1 < 0xC0 && 0x80 <= b2 && b2 < 0xC0 && (((b0 as u32) % 16)
            * 64 + (b1 as u32) % 64) * 64 + (b2 as u32) % 64 == x) by (bit_vector)
            requires
                0x800 <= x <= 0xFFFF,
                b0 == vstd::utf8::leading_byte_width_3(x),
                b1 == vstd::utf8::second_last_continuation_byte(x),
                b2 == vstd::utf8::last_continuation_byte(x),
        ;
        assert(e =~= seq![b0, b1, b2]);
        assert(s[0] == b0 && s[1] == b1 && s[2] == b2);
        assert(s.skip(1)[0] == b1 && s.skip(1).skip(1)[0] == b2);
        assert(count_cont(s.skip(1).skip(1).skip(1), 0) == 0);
        assert(count_cont(s.skip(1).skip(1), 1) == 1);
        assert(count_cont(s.skip(1), 2) == 2);
        assert(s.subrange(1, 3) =~= seq![b1, b2]);
        assert(seq![b1, b2].drop_last() =~= seq![b1]);
        assert(seq![b1].drop_last() =~= Seq::<u8>::empty());
        let h = (b0 as nat) % 16;
        assert(accumulate(h, Seq::<u8>::empty()) == h);
        assert(accumulate(h, seq![b1]) == h * 64 + (b1 % 64) as nat);
        assert(accumulate(h, seq![b1, b2]) == (h * 64 + (b1 % 64) as nat) * 64 + (b2 % 64) as nat);
        let x2 = accumulate(h, s.subrange(1, 3));
        assert(x2 == x);
        assert((x2 as char) == c);
    } else {
        let b0 = vstd::utf8::leading_byte_width_4(x);
        let b1 = vstd::utf8::third_last_continuation_byte(x);
        let b2 = vstd::utf8::second_last_continuation_byte(x);
        let b3 = vstd::utf8::last_continuation_byte(x);
        assert(0xF0 <= b0 && b0 < 0xF8 && 0x80 <= b1 && b1 < 0xC0 && 0x80 <= b2 && b2 < 0xC0 && 0x80 <= b3 && b3
            < 0xC0 && ((((b0 as u32) % 8) * 64 + (b1 as u32) % 64) * 64 + (b2 as u32) % 64) * 64 + (b3 as u32) % 64
            == x) by (bit_vector)
            requires
                0x10000 <= x <= 0x10FFFF,
                b0 == vstd::utf8::leading_byte_width_4(x),
                b1 == vstd::utf8::third_last_continuation_byte(x),
                b2 == vstd::utf8::second_last_continuation_byte(x),
                b3 == vstd::utf8::last_continuation_byte(x),
        ;
        assert(e =~= seq![b0, b1, b2, b3]);
        assert(s[0] == b0 && s[1] == b1 && s[2] == b2 && s[3] == b3);
        assert(s.skip(1)[0] == b1 && s.skip(1).skip(1)[0] == b2 && s.skip(1).skip(1).skip(1)[0] == b3);
        assert(count_cont(s.skip(1).skip(1).skip(1).skip(1), 0) == 0);
        assert(count_cont(s.skip(1).skip(1).skip(1), 1) == 1);
        assert(count_cont(s.skip(1).skip(1), 2) == 2);
        assert(count_cont(s.skip(1), 3) == 3);
        assert(s.subrange(1, 4) =~= seq![b1, b2, b3]);
        assert(seq![b1, b2, b3].drop_last() =~= seq![b1, b2]);
        assert(seq![b1, b2].drop_last() =~= seq![b1]);
        assert(seq![b1].drop_last() =~= Seq::<u8>::empty());
        let h = (b0 as nat) % 8;
        assert(accumulate(h, Seq::<u8>::empty()) == h);
        assert(accumulate(h, seq![b1]) == h * 64 + (b1 % 64) as nat);
        assert(accumulate(h, seq![b1, b2]) == (h * 64 + (b1 % 64) as nat) * 64 + (b2 % 64) as nat);
        assert(accumulate(h, seq![b1, b2, b3]) == ((h * 64 + (b1 % 64) as nat) * 64 + (b2 % 64) as nat) * 64 + (b3
            % 64) as nat);
        let x2 = accumulate(h, s.subrange(1, 4));
        assert(x2 == x);
        assert((x2 as char) == c);
    }
}

/// Decoding the UTF-8 form of any text gives back its characters, in
/// order, with no invalid sequence among them.
pub proof fn decode_utf8_of_text(cs: Seq<char>)
    ensures
        decode_all(vstd::utf8::encode_utf8(cs)) == cs.map_values(|c: char| Ok::<char, Seq<u8>>(c)),
    decreases cs.len(),
{
    if cs.len() == 0 {
        assert(vstd::utf8::encode_utf8(cs) =~= Seq::<u8>::empty());
        assert(cs.map_values(|c: char| Ok::<char, Seq<u8>>(c)) =~= Seq::<Result<char, Seq<u8>>>::empty());
    } else {
        let e = vstd::utf8::encode_scalar(cs[0] as u32);
        let rest = vstd::utf8::encode_utf8(cs.drop_first());
        lemma_decode_encoded_char(cs[0], rest);
        decode_utf8_of_text(cs.drop_first());
        assert(vstd::utf8::encode_utf8(cs) == e + rest);
        assert((e + rest).skip(e.len() as int) =~= rest);
        assert(cs.map_values(|c: char| Ok::<char, Seq<u8>>(c)) =~= seq![Ok::<char, Seq<u8>>(cs[0])]
            + cs.drop_first().map_values(|c: char| Ok::<char, Seq<u8>>(c)));
    }
}


/// The consensus-stage data a validator's run of a message gets: `null`
/// for the leader, else a map whose one entry `leaders_result` holds the
/// leader's result as the host receives it.
pub fn leader_stage_data(leader: Option<&RunOk>) -> (r: crate::calldata::Value)
    ensures
        leader is None ==> r is Null,
        leader matches Some(l) ==> (r matches crate::calldata::Value::Dict(entries) && entries@.len() == 1
            && entries@[0].0@ == "leaders_result"@ && entries@[0].1 is Bytes && entries@[0].1->Bytes_0@
            == l.spec_bytes()),
{
    match leader {
        None => crate::calldata::Value::Null,
        Some(l) => {
            let mut entries: Vec<(String, crate::calldata::Value)> = Vec::new();
            entries.push((String::from_str("leaders_result"), crate::calldata::Value::Bytes(l.as_bytes())));
            proof {
                reveal_strlit("leaders_result");
            }
            crate::calldata::Value::Dict(entries)
        },
    }
}


/// The result of a run as the supervisor keeps it: returned bytes, a user
/// error with its value, or a VM error.
#[derive(Debug)]
pub enum RunVerdict {
    Return(Vec<u8>),
    UserError(crate::calldata::Value),
    VmError(crate::consts::VmError),
}

/// How a run of a contract's entry point ended.
#[derive(Debug)]
pub enum RunEnd {
    /// The module exports neither `""` nor `_start`.
    NoEntryPoint,
    /// The entry point returned.
    Finished,
    /// The contract exited with this code.
    Exit(i32),
    /// The wasm code trapped; the trap as text.
    Trap(String),
    /// The contract passed a bad pointer to a host call.
    GuestFault,
    /// The runtime stopped the contract with this VM error.
    VmError(crate::consts::VmError),
    /// The contract failed with this user error.
    UserError(crate::calldata::Value),
    /// The contract returned these bytes.
    ContractReturn(Vec<u8>),
    /// Anything else: an error of the runtime itself.
    Other,
}

/// The result of a run, from how it ended and whether the execution was
/// cancelled meanwhile. A missing entry point is an invalid contract. A
/// cancelled run keeps a return or a user error; any VM error, and any
/// error of the runtime, becomes a timeout. `None` passes an error of the
/// runtime on.
pub fn finish_run(end: RunEnd, cancelled: bool) -> (r: Option<RunVerdict>)
    ensures
        end is NoEntryPoint ==> (r matches Some(RunVerdict::VmError(e)) && e.0@
            == "invalid_contract wasm entrypoint"@),
        (end is Finished || end == RunEnd::Exit(0)) ==> (r matches Some(RunVerdict::Return(v)) && v@ == seq![0u8]),
        end matches RunEnd::ContractReturn(b) ==> (r matches Some(RunVerdict::Return(v)) && v@ == b@),
        end matches RunEnd::UserError(u) ==> r == Some(RunVerdict::UserError(u)),
        cancelled && !(end is NoEntryPoint) && !(end is Finished || end == RunEnd::Exit(0))
            && !(end is ContractReturn) && !(end is UserError) ==> (r matches Some(RunVerdict::VmError(e)) && e.0@
            == "timeout"@),
        !cancelled ==> (end matches RunEnd::Exit(c) ==> (c != 0 ==> (r matches Some(RunVerdict::VmError(e))
            && e.0@ == "exit_code "@ + crate::consts::decimal_i32(c)))),
        !cancelled ==> (end matches RunEnd::Trap(t) ==> (r matches Some(RunVerdict::VmError(e)) && e.0@
            == "wasm_trap "@ + t@)),
        !cancelled ==> (end is GuestFault ==> (r matches Some(RunVerdict::VmError(e)) && e.0@ == "wasm_trap fault"@)),
        !cancelled ==> (end matches RunEnd::VmError(v) ==> r == Some(RunVerdict::VmError(v))),
        !cancelled ==> (end is Other ==> r is None),
{
    let base = match end {
        RunEnd::NoEntryPoint => {
            return Some(RunVerdict::VmError(crate::consts::VmError::invalid_contract().wasm().entrypoint()));
        },
        RunEnd::Finished => Some(RunVerdict::Return(vec![0u8])),
        RunEnd::Exit(c) => {
            if c == 0 {
                Some(RunVerdict::Return(vec![0u8]))
            } else {
                Some(RunVerdict::VmError(crate::consts::VmError::exit_code().val_i32(c)))
            }
        },
        RunEnd::Trap(t) => Some(RunVerdict::VmError(crate::consts::VmError::wasm_trap().val_str(t.as_str()))),
        RunEnd::GuestFault => {
            let e = crate::consts::VmError::wasm_trap().val_str("fault");
            proof {
                reveal_strlit("fault");
                reveal_strlit("wasm_trap ");
                reveal_strlit("wasm_trap fault");
                assert(e.0@ =~= "wasm_trap fault"@);
            }
            Some(RunVerdict::VmError(e))
        },
        RunEnd::VmError(e) => Some(RunVerdict::VmError(e)),
        RunEnd::UserError(u) => Some(RunVerdict::UserError(u)),
        RunEnd::ContractReturn(b) => Some(RunVerdict::Return(b)),
        RunEnd::Other => None,
    };
    if !cancelled {
        return base;
    }
    match base {
        Some(RunVerdict::Return(b)) => Some(RunVerdict::Return(b)),
        Some(RunVerdict::UserError(u)) => Some(RunVerdict::UserError(u)),
        _ => Some(RunVerdict::VmError(crate::consts::VmError::timeout())),
    }
}


/// The bytes a decoded entry stands for: the UTF-8 of a character, or the
/// invalid bytes themselves.
pub open spec fn item_bytes(r: Result<char, Seq<u8>>) -> Seq<u8> {
    match r {
        Ok(c) => vstd::utf8::encode_scalar(c as u32),
        Err(b) => b,
    }
}

/// The bytes a list of decoded entries stands for, one after the other.
pub open spec fn items_bytes(items: Seq<Result<char, Seq<u8>>>) -> Seq<u8>
    decreases items.len(),
{
    if items.len() == 0 {
        Seq::empty()
    } else {
        item_bytes(items[0]) + items_bytes(items.skip(1))
    }
}

/// What decoding one entry gives stands for exactly the bytes it consumed,
/// and an invalid sequence is never empty.
proof fn lemma_decode_one_bytes(s: Seq<u8>)
    requires
        s.len() > 0,
    ensures
        item_bytes(decode_one(s).0) == s.take(decode_one(s).1 as int),
        decode_one(s).0 matches Err(b) ==> b.len() > 0,
{
    lemma_decode_one_len(s);
    let b0 = s[0];
    if b0 < 0x80 {
        let c = b0 as char;
        assert((c as u32) == b0 as u32);
        let x = b0 as u32;
        assert(vstd::utf8::leading_byte_width_1(x) == b0) by (bit_vector)
            requires
                x == b0 as u32,
                b0 < 0x80,
        ;
        assert(vstd::utf8::encode_scalar(x) =~= s.take(1));
    } else {
        let l = lead_ones(b0);
        if 2 <= l <= 6 {
            lemma_count_cont(s.skip(1), (l - 1) as nat);
            let k = count_cont(s.skip(1), (l - 1) as nat);
            if k == l - 1 {
                let x = accumulate((b0 as nat) % header_modulus(l), s.subrange(1, l as int));
                if is_scalar(x) && utf8_len(x) == l {
                    let xc = x as u32;
                    assert((x as char) as u32 == xc);
                    if l == 2 {
                        let b1 = s[1];
                        assert(is_cont(s.skip(1)[0]));
                        assert(s.subrange(1, 2) =~= seq![b1]);
                        assert(seq![b1].drop_last() =~= Seq::<u8>::empty());
                        let h = (b0 as nat) % 32;
                        assert(accumulate(h, Seq::<u8>::empty()) == h);
                        assert(x == h * 64 + (b1 % 64) as nat);
                        assert(vstd::utf8::leading_byte_width_2(xc) == b0 && vstd::utf8::last_continuation_byte(xc)
                            == b1) by (bit_vector)
                            requires
                                0xC0 <= b0 < 0xE0,
                                0x80 <= b1 < 0xC0,
                                xc == ((b0 as u32) % 32) * 64 + (b1 as u32) % 64,
                        ;
                        assert(vstd::utf8::encode_scalar(xc) =~= s.take(2));
                    } else if l == 3 {
                        let b1 = s[1];
                        let b2 = s[2];
                        assert(is_cont(s.skip(1)[0]) && is_cont(s.skip(1)[1]));
                        assert(s.subrange(1, 3) =~= seq![b1, b2]);
                        assert(seq![b1, b2].drop_last() =~= seq![b1]);
                        assert(seq![b1].drop_last() =~= Seq::<u8>::empty());
                        let h = (b0 as nat) % 16;
                        assert(accumulate(h, Seq::<u8>::empty()) == h);
                        assert(accumulate(h, seq![b1]) == h * 64 + (b1 % 64) as nat);
                        assert(x == (h * 64 + (b1 % 64) as nat) * 64 + (b2 % 64) as nat);
                        assert(vstd::utf8::leading_byte_width_3(xc) == b0 && vstd::utf8::second_last_continuation_byte(
                            xc,
                        ) == b1 && vstd::utf8::last_continuation_byte(xc) == b2) by (bit_vector)
                            requires
                                0xE0 <= b0 < 0xF0,
                                0x80 <= b1 < 0xC0,
                                0x80 <= b2 < 0xC0,
                                xc == (((b0 as u32) % 16) * 64 + (b1 as u32) % 64) * 64 + (b2 as u32) % 64,
                        ;
                        assert(vstd::utf8::encode_scalar(xc) =~= s.take(3));
                    } else {
                        assert(l == 4);
                        let b1 = s[1];
                        let b2 = s[2];
                        let b3 = s[3];
                        assert(is_cont(s.skip(1)[0]) && is_cont(s.skip(1)[1]) && is_cont(s.skip(1)[2]));
                        assert(s.subrange(1, 4) =~= seq![b1, b2, b3]);
                        assert(seq![b1, b2, b3].drop_last() =~= seq![b1, b2]);
                        assert(seq![b1, b2].drop_last() =~= seq![b1]);
                        assert(seq![b1].drop_last() =~= Seq::<u8>::empty());
                        let h = (b0 as nat) % 8;
                        assert(accumulate(h, Seq::<u8>::empty()) == h);
                        assert(accumulate(h, seq![b1]) == h * 64 + (b1 % 64) as nat);
                        assert(accumulate(h, seq![b1, b2]) == (h * 64 + (b1 % 64) as nat) * 64 + (b2 % 64) as nat);
                        assert(x == ((h * 64 + (b1 % 64) as nat) * 64 + (b2 % 64) as nat) * 64 + (b3 % 64) as nat);
                        assert(vstd::utf8::leading_byte_width_4(xc) == b0 && vstd::utf8::third_last_continuation_byte(
                            xc,
                        ) == b1 && vstd::utf8::second_last_continuation_byte(xc) == b2
                            && vstd::utf8::last_continuation_byte(xc) == b3) by (bit_vector)
                            requires
                                0xF0 <= b0 < 0xF8,
                                0x80 <= b1 < 0xC0,
                                0x80 <= b2 < 0xC0,
                                0x80 <= b3 < 0xC0,
                                xc == ((((b0 as u32) % 8) * 64 + (b1 as u32) % 64) * 64 + (b2 as u32) % 64) * 64
                                    + (b3 as u32) % 64,
                        ;
                        assert(vstd::utf8::encode_scalar(xc) =~= s.take(4));
                    }
                }
            }
        }
    }
}

/// Decoding loses no byte: the bytes the decoded entries stand for, one
/// after the other, are the input; no invalid sequence is empty; and there
/// are at most as many entries as bytes.
pub proof fn decode_utf8_keeps_bytes(s: Seq<u8>)
    ensures
        items_bytes(decode_all(s)) == s,
        forall|i: int| 0 <= i < decode_all(s).len() ==> (#[trigger] decode_all(s)[i] matches Err(b) ==> b.len() > 0),
        decode_all(s).len() <= s.len(),
    decreases s.len(),
{
    if s.len() == 0 {
        assert(items_bytes(decode_all(s)) =~= s);
    } else {
        lemma_decode_one_len(s);
        lemma_decode_one_bytes(s);
        let (r, n) = decode_one(s);
        decode_utf8_keeps_bytes(s.skip(n as int));
        let d = decode_all(s);
        assert(d == seq![r] + decode_all(s.skip(n as int)));
        assert(d.skip(1) =~= decode_all(s.skip(n as int)));
        assert(d[0] == r);
        assert(s.take(n as int) + s.skip(n as int) =~= s);
        assert forall|i: int| 0 <= i < d.len() implies (#[trigger] d[i] matches Err(b) ==> b.len() > 0) by {
            if i > 0 {
                assert(d[i] == decode_all(s.skip(n as int))[i - 1]);
            }
        }
    }
}


/// What an execution reports: the kind of its result, the result's data,
/// and the rest of what it produced (`None` for a timeout that produced
/// nothing).
#[derive(Debug)]
pub struct ExecutionReport<X> {
    pub kind: crate::consts::ResultCode,
    pub data: crate::calldata::Value,
    pub details: Option<X>,
}

/// The report of an execution that timed out before producing anything.
pub open spec fn is_timeout_report<X>(x: ExecutionReport<X>) -> bool {
    &&& x.kind == crate::consts::ResultCode::VmError
    &&& x.data matches crate::calldata::Value::Str(s) && s@ == "timeout"@
    &&& x.details is None
}

/// Settles an execution from the result of its deterministic run, that of
/// its non-deterministic blocks (the block the validators disagreed on, if
/// any), and whether it was cancelled. The deterministic run's error comes
/// first, then the blocks'. Once cancelled, a VM error is reported as a
/// timeout, and any error gives a timeout report with no disagreement.
pub fn settle_execution<X, E>(
    det: Result<ExecutionReport<X>, E>,
    nondet: Result<Option<u32>, E>,
    cancelled: bool,
) -> (r: Result<(ExecutionReport<X>, Option<u32>), E>)
    ensures
        !cancelled ==> match (det, nondet) {
            (Err(a), _) => r == Err::<(ExecutionReport<X>, Option<u32>), E>(a),
            (Ok(_), Err(b)) => r == Err::<(ExecutionReport<X>, Option<u32>), E>(b),
            (Ok(x), Ok(c)) => r == Ok::<(ExecutionReport<X>, Option<u32>), E>((x, c)),
        },
        cancelled ==> match (det, nondet) {
            (Ok(x), Ok(c)) => r matches Ok((y, d)) && d == c && y.kind == x.kind && y.details == x.details && if x.kind
                == crate::consts::ResultCode::VmError {
                y.data matches crate::calldata::Value::Str(s) && s@ == "timeout"@
            } else {
                y.data == x.data
            },
            _ => r matches Ok((y, d)) && d is None && is_timeout_report(y),
        },
{
    let merged = match (det, nondet) {
        (Err(a), _) => Err(a),
        (Ok(_), Err(b)) => Err(b),
        (Ok(x), Ok(c)) => Ok((x, c)),
    };
    if !cancelled {
        return merged;
    }
    match merged {
        Ok((x, c)) => {
            if x.kind == crate::consts::ResultCode::VmError {
                let t = crate::consts::VmError::timeout();
                Ok((ExecutionReport { kind: x.kind, data: crate::calldata::Value::Str(t.0), details: x.details }, c))
            } else {
                Ok((x, c))
            }
        },
        Err(_) => {
            let t = crate::consts::VmError::timeout();
            Ok((ExecutionReport { kind: crate::consts::ResultCode::VmError, data: crate::calldata::Value::Str(t.0), details: None }, None))
        },
    }
}


/// The bytes a run's result is handed on as: its result code, then a
/// return's bytes, a text user error's UTF-8, a VM error's UTF-8 text, or
/// four zero bytes and `encoded` (the calldata encoding of any other user
/// error).
pub open spec fn verdict_bytes(v: RunVerdict, encoded: Seq<u8>) -> Seq<u8> {
    match v {
        RunVerdict::Return(b) => seq![crate::consts::ResultCode::Return.spec_value()] + b@,
        RunVerdict::UserError(val) => seq![crate::consts::ResultCode::UserError.spec_value()] + match val {
            crate::calldata::Value::Str(t) => vstd::utf8::encode_utf8(t@),
            _ => seq![0u8, 0u8, 0u8, 0u8] + encoded,
        },
        RunVerdict::VmError(e) => seq![crate::consts::ResultCode::VmError.spec_value()] + vstd::utf8::encode_utf8(e.0@),
    }
}

impl RunVerdict {
    /// The result as bytes (see [`verdict_bytes`]); `encoded` is the
    /// calldata encoding of the user error, used when it is not text.
    pub fn as_bytes(&self, encoded: &[u8]) -> (r: Vec<u8>)
        ensures
            r@ == verdict_bytes(*self, encoded@),
    {
        let mut out: Vec<u8> = Vec::new();
        match self {
            RunVerdict::Return(b) => {
                out.push(0u8);
                crate::host_protocol::push_all(&mut out, b.as_slice());
            },
            RunVerdict::UserError(val) => {
                out.push(1u8);
                match val {
                    crate::calldata::Value::Str(t) => {
                        crate::host_protocol::push_all(&mut out, t.as_str().as_bytes());
                    },
                    _ => {
                        let zeros: [u8; 4] = [0u8; 4];
                        crate::host_protocol::push_all(&mut out, zeros.as_slice());
                        crate::host_protocol::push_all(&mut out, encoded);
                        assert(zeros@ =~= seq![0u8, 0u8, 0u8, 0u8]);
                    },
                }
            },
            RunVerdict::VmError(e) => {
                out.push(2u8);
                crate::host_protocol::push_all(&mut out, e.0.as_str().as_bytes());
            },
        }
        proof {
            match self {
                RunVerdict::UserError(val) => {
                    match val {
                        crate::calldata::Value::Str(t) => {},
                        _ => {
                            assert(out@ =~= verdict_bytes(*self, encoded@));
                        },
                    }
                },
                _ => {},
            }
        }
        out
    }
}

/// Ends a sandbox: the caller takes over the storage and the accumulator
/// (emissions, value sent, fee budgets) the sandboxed run left, and gets
/// back that run's result as bytes (see [`verdict_bytes`]).
pub fn finish_sandbox<S, A>(
    storage: &mut S,
    accumulator: &mut A,
    child_storage: S,
    child_accumulator: A,
    verdict: &RunVerdict,
    encoded_user_error: &[u8],
) -> (r: Vec<u8>)
    ensures
        *final(storage) == child_storage,
        *final(accumulator) == child_accumulator,
        r@ == verdict_bytes(*verdict, encoded_user_error@),
{
    *storage = child_storage;
    *accumulator = child_accumulator;
    verdict.as_bytes(encoded_user_error)
}

} // verus!
