//! The calldata wire format: a tree of values (null, booleans, addresses,
//! integers, byte strings, text, arrays and maps with ordered text keys)
//! encoded as ULEB-style headers followed by payloads.
//!
//! A header's low three bits give the value's type, the rest its size or
//! magnitude. The functions here decode a byte buffer into a [`Value`].

use vstd::prelude::*;
use vstd::utf8::*;

verus! {

/// Number of bytes in an account address.
pub const ADDRESS_SIZE: usize = 20;

/// An account address.
#[derive(Clone, Copy, PartialEq, Eq, Debug)]
pub struct Address(pub [u8; ADDRESS_SIZE]);

/// A decoded calldata value. Map entries are kept in the order their keys
/// appear on the wire, which the decoder requires to be strictly ascending.
#[derive(Debug)]
pub enum Value {
    Null,
    Address(Address),
    Bool(bool),
    Str(String),
    Bytes(Vec<u8>),
    Number(i128),
    Dict(Vec<(String, Value)>),
    Array(Vec<Value>),
}

/// Mathematical model of a calldata value.
pub enum SpecValue {
    Null,
    Address(Seq<u8>),
    Bool(bool),
    Str(Seq<char>),
    Bytes(Seq<u8>),
    Number(int),
    Dict(Seq<(Seq<char>, SpecValue)>),
    Array(Seq<SpecValue>),
}

impl Value {
    /// The model of a value.
    pub open spec fn model(self) -> SpecValue
        decreases self,
    {
        match self {
            Value::Null => SpecValue::Null,
            Value::Address(a) => SpecValue::Address(a.0@),
            Value::Bool(b) => SpecValue::Bool(b),
            Value::Str(s) => SpecValue::Str(s@),
            Value::Bytes(b) => SpecValue::Bytes(b@),
            Value::Number(n) => SpecValue::Number(n as int),
            Value::Dict(m) => SpecValue::Dict(entries_model(m@)),
            Value::Array(a) => SpecValue::Array(values_model(a@)),
        }
    }
}

/// The models of a sequence of values.
pub open spec fn values_model(a: Seq<Value>) -> Seq<SpecValue>
    decreases a,
{
    Seq::new(a.len(), |i: int| if 0 <= i < a.len() { a[i].model() } else { SpecValue::Null })
}

/// The models of a sequence of map entries.
pub open spec fn entries_model(m: Seq<(String, Value)>) -> Seq<(Seq<char>, SpecValue)>
    decreases m,
{
    Seq::new(
        m.len(),
        |i: int|
            if 0 <= i < m.len() {
                (m[i].0@, m[i].1.model())
            } else {
                (Seq::empty(), SpecValue::Null)
            },
    )
}

impl View for Value {
    type V = SpecValue;

    open spec fn view(&self) -> SpecValue {
        self.model()
    }
}

/// Why decoding failed.
#[derive(Debug, Clone, Copy, PartialEq, Eq, Structural)]
pub enum CalldataError {
    /// The input ended inside a ULEB header.
    UnterminatedUleb,
    /// A size does not fit in 32 bits, or too few bytes are left for a payload.
    InvalidSize,
    /// A special value's header carries more than eight bits.
    InvalidSpecialValue,
    /// An address needs twenty bytes and fewer are left.
    InvalidAddress,
    /// A special value's header names no known special value.
    InvalidSpecial,
    /// Text is not valid UTF-8.
    NotUtf8,
    /// Map keys are not strictly ascending.
    InvalidOrdering,
    /// The header's type bits name no known type.
    InvalidType,
    /// Bytes are left after the value.
    PartiallyUnparsed,
}

/// Outcome of decoding a prefix of a buffer: a result and the number of bytes
/// it takes, a rejection, or an input on which decoding cannot proceed because
/// it would index past the buffer or read the digits of a zero header.
pub enum Step<T> {
    Done(T, nat),
    Fail(CalldataError),
    Panics,
}

/// Type tags held in the low three bits of a header.
pub const TYPE_SPECIAL: u8 = 0;
pub const TYPE_PINT: u8 = 1;
pub const TYPE_NINT: u8 = 2;
pub const TYPE_BYTES: u8 = 3;
pub const TYPE_STR: u8 = 4;
pub const TYPE_ARR: u8 = 5;
pub const TYPE_MAP: u8 = 6;

/// Low bytes of the special-value headers.
pub const SPECIAL_NULL: u8 = 0;
pub const SPECIAL_FALSE: u8 = 8;
pub const SPECIAL_TRUE: u8 = 16;
pub const SPECIAL_ADDR: u8 = 24;

/// A ULEB header at the front of `s`: the bytes up to and including the first
/// one below 128. Its value is the sum of the low seven bits of those bytes;
/// the result also gives how many bytes the header takes.
pub open spec fn spec_uleb(s: Seq<u8>) -> Option<(nat, nat)>
    decreases s.len(),
{
    if s.len() == 0 {
        None
    } else if s[0] < 128 {
        Some(((s[0] % 128) as nat, 1))
    } else {
        match spec_uleb(s.drop_first()) {
            Some((v, n)) => Some((v + (s[0] % 128) as nat, n + 1)),
            None => None,
        }
    }
}

/// A header value read as a size: zero cannot be read, values of 2^32 and
/// above are too large.
pub open spec fn spec_size(v: nat) -> Step<nat> {
    if v == 0 {
        Step::Panics
    } else if v >= 0x1_0000_0000 {
        Step::Fail(CalldataError::InvalidSize)
    } else {
        Step::Done(v, 0)
    }
}

/// Taking `le` bytes from the front of `s`: refused when fewer than twenty
/// bytes are left, impossible when fewer than `le` are.
pub open spec fn spec_take(s: Seq<u8>, le: nat) -> Step<Seq<u8>> {
    if s.len() < ADDRESS_SIZE {
        Step::Fail(CalldataError::InvalidSize)
    } else if le > s.len() {
        Step::Panics
    } else {
        Step::Done(s.take(le as int), le)
    }
}

/// Strict lexicographic order on byte strings.
pub open spec fn bytes_lt(a: Seq<u8>, b: Seq<u8>) -> bool
    decreases a.len(),
{
    if b.len() == 0 {
        false
    } else if a.len() == 0 {
        true
    } else if a[0] != b[0] {
        a[0] < b[0]
    } else {
        bytes_lt(a.drop_first(), b.drop_first())
    }
}

/// Adds `n` header bytes to what a decoding step took.
pub open spec fn shift<T>(n: nat, st: Step<T>) -> Step<T> {
    match st {
        Step::Done(x, m) => Step::Done(x, n + m),
        Step::Fail(e) => Step::Fail(e),
        Step::Panics => Step::Panics,
    }
}

/// Wraps decoded items into an array value.
pub open spec fn as_array(st: Step<Seq<SpecValue>>) -> Step<SpecValue> {
    match st {
        Step::Done(xs, m) => Step::Done(SpecValue::Array(xs), m),
        Step::Fail(e) => Step::Fail(e),
        Step::Panics => Step::Panics,
    }
}

/// Wraps decoded entries into a map value.
pub open spec fn as_dict(st: Step<Seq<(Seq<char>, SpecValue)>>) -> Step<SpecValue> {
    match st {
        Step::Done(xs, m) => Step::Done(SpecValue::Dict(xs), m),
        Step::Fail(e) => Step::Fail(e),
        Step::Panics => Step::Panics,
    }
}

/// The payload, at the front of `r`, of a value whose non-zero header `v` is
/// neither an array's nor a map's: a special value, a byte string, text, or
/// an integer.
pub open spec fn spec_scalar(v: nat, r: Seq<u8>) -> Step<SpecValue> {
    let low = v % 256;
    let typ = low % 8;
    let x = v / 8;
    if typ == TYPE_SPECIAL {
        if x >= 256 {
            Step::Fail(CalldataError::InvalidSpecialValue)
        } else if low == SPECIAL_NULL {
            Step::Done(SpecValue::Null, 0)
        } else if low == SPECIAL_TRUE {
            Step::Done(SpecValue::Bool(true), 0)
        } else if low == SPECIAL_FALSE {
            Step::Done(SpecValue::Bool(true), 0)
        } else if low == SPECIAL_ADDR {
            if r.len() < ADDRESS_SIZE {
                Step::Fail(CalldataError::InvalidAddress)
            } else {
                Step::Done(SpecValue::Address(r.take(ADDRESS_SIZE as int)), ADDRESS_SIZE as nat)
            }
        } else {
            Step::Fail(CalldataError::InvalidSpecial)
        }
    } else if typ == TYPE_BYTES || typ == TYPE_STR {
        match spec_size(x) {
            Step::Done(size, _) => match spec_take(r, size) {
                Step::Done(b, m) => if typ == TYPE_BYTES {
                    Step::Done(SpecValue::Bytes(b), m)
                } else if valid_utf8(b) {
                    Step::Done(SpecValue::Str(decode_utf8(b)), m)
                } else {
                    Step::Fail(CalldataError::NotUtf8)
                },
                Step::Fail(e) => Step::Fail(e),
                Step::Panics => Step::Panics,
            },
            Step::Fail(e) => Step::Fail(e),
            Step::Panics => Step::Panics,
        }
    } else if typ == TYPE_NINT {
        Step::Done(SpecValue::Number(-(x + 1)), 0)
    } else if typ == TYPE_PINT {
        Step::Done(SpecValue::Number(x as int), 0)
    } else {
        Step::Fail(CalldataError::InvalidType)
    }
}

/// The value encoded at the front of `s`: a header, then the payload its
/// low three bits call for.
pub open spec fn spec_val(s: Seq<u8>) -> Step<SpecValue>
    decreases s.len(), 0nat,
{
    match spec_uleb(s) {
        None => Step::Fail(CalldataError::UnterminatedUleb),
        Some((v, n)) => {
            proof {
                lemma_uleb_takes_bytes(s);
            }
            let typ = (v % 256) % 8;
            let x = v / 8;
            let r = s.skip(n as int);
            if v == 0 {
                Step::Panics
            } else if typ == TYPE_ARR {
                match spec_size(x) {
                    Step::Done(size, _) => shift(n, as_array(spec_items(r, size))),
                    Step::Fail(e) => Step::Fail(e),
                    Step::Panics => Step::Panics,
                }
            } else if typ == TYPE_MAP {
                match spec_size(x) {
                    Step::Done(size, _) => shift(n, as_dict(spec_entries(r, size, None))),
                    Step::Fail(e) => Step::Fail(e),
                    Step::Panics => Step::Panics,
                }
            } else {
                shift(n, spec_scalar(v, r))
            }
        },
    }
}

/// `count` values encoded one after another at the front of `s`.
pub open spec fn spec_items(s: Seq<u8>, count: nat) -> Step<Seq<SpecValue>>
    decreases s.len(), count + 1,
{
    if count == 0 {
        Step::Done(Seq::empty(), 0)
    } else {
        match spec_val(s) {
            Step::Done(v, m) => if m == 0 || m > s.len() {
                Step::Panics
            } else {
                match spec_items(s.skip(m as int), (count - 1) as nat) {
                    Step::Done(vs, k) => Step::Done(seq![v] + vs, m + k),
                    Step::Fail(e) => Step::Fail(e),
                    Step::Panics => Step::Panics,
                }
            },
            Step::Fail(e) => Step::Fail(e),
            Step::Panics => Step::Panics,
        }
    }
}

/// One map entry at the front of `s`: the key's length as a header, the key
/// as UTF-8 text greater than `prev`, then the value. The result holds the
/// key as text, the value, and the key's bytes.
pub open spec fn spec_entry(s: Seq<u8>, prev: Option<Seq<u8>>) -> Step<
    (Seq<char>, SpecValue, Seq<u8>),
>
    decreases s.len(), 1nat,
{
    match spec_uleb(s) {
        None => Step::Fail(CalldataError::UnterminatedUleb),
        Some((k, n)) => {
            proof {
                lemma_uleb_takes_bytes(s);
            }
            let r1 = s.skip(n as int);
            if k == 0 {
                Step::Panics
            } else if k >= 0x1_0000_0000 {
                Step::Fail(CalldataError::InvalidSize)
            } else if r1.len() < ADDRESS_SIZE {
                Step::Fail(CalldataError::InvalidSize)
            } else if k > r1.len() {
                Step::Panics
            } else {
                let key = r1.take(k as int);
                let r2 = r1.skip(k as int);
                if !valid_utf8(key) {
                    Step::Fail(CalldataError::NotUtf8)
                } else if prev is Some && !bytes_lt(prev->0, key) {
                    Step::Fail(CalldataError::InvalidOrdering)
                } else {
                    match spec_val(r2) {
                        Step::Done(v, m) => Step::Done((decode_utf8(key), v, key), n + k + m),
                        Step::Fail(e) => Step::Fail(e),
                        Step::Panics => Step::Panics,
                    }
                }
            }
        },
    }
}

/// `count` map entries encoded one after another at the front of `s`; each
/// key must be greater than the one before it, the first greater than `prev`.
pub open spec fn spec_entries(s: Seq<u8>, count: nat, prev: Option<Seq<u8>>) -> Step<
    Seq<(Seq<char>, SpecValue)>,
>
    decreases s.len(), count + 1,
{
    if count == 0 {
        Step::Done(Seq::empty(), 0)
    } else {
        match spec_entry(s, prev) {
            Step::Done((kc, v, kb), m) => if m == 0 || m > s.len() {
                Step::Panics
            } else {
                match spec_entries(s.skip(m as int), (count - 1) as nat, Some(kb)) {
                    Step::Done(es, j) => Step::Done(seq![(kc, v)] + es, m + j),
                    Step::Fail(e) => Step::Fail(e),
                    Step::Panics => Step::Panics,
                }
            },
            Step::Fail(e) => Step::Fail(e),
            Step::Panics => Step::Panics,
        }
    }
}

/// The value a whole buffer encodes: one value and nothing after it.
pub open spec fn spec_parse(s: Seq<u8>) -> Step<SpecValue> {
    match spec_val(s) {
        Step::Done(v, n) => if n == s.len() {
            Step::Done(v, n)
        } else {
            Step::Fail(CalldataError::PartiallyUnparsed)
        },
        Step::Fail(e) => Step::Fail(e),
        Step::Panics => Step::Panics,
    }
}

/// A ULEB header takes at least one byte and no more than the buffer holds,
/// and its value is at most 127 per byte it takes.
pub proof fn lemma_uleb_takes_bytes(s: Seq<u8>)
    ensures
        spec_uleb(s) matches Some((v, n)) ==> 1 <= n <= s.len() && v <= 127 * n,
    decreases s.len(),
{
    if s.len() > 0 && s[0] >= 128 {
        lemma_uleb_takes_bytes(s.drop_first());
    }
}

/// A decoded value takes at least one byte and no more than the buffer holds;
/// runs of items and of map entries take no more than the buffer holds.
pub proof fn lemma_val_takes_bytes(s: Seq<u8>)
    ensures
        spec_val(s) matches Step::Done(v, m) ==> 1 <= m <= s.len(),
    decreases s.len(), 0nat,
{
    lemma_uleb_takes_bytes(s);
    if let Some((v, n)) = spec_uleb(s) {
        let x = v / 8;
        let r = s.skip(n as int);
        if let Step::Done(size, _) = spec_size(x) {
            lemma_items_take_bytes(r, size);
            lemma_entries_take_bytes(r, size, None);
        }
        if v != 0 {
            lemma_scalar_takes_bytes(v, r);
        }
    }
}

pub proof fn lemma_scalar_takes_bytes(v: nat, r: Seq<u8>)
    ensures
        spec_scalar(v, r) matches Step::Done(x, m) ==> m <= r.len(),
{
}

pub proof fn lemma_items_take_bytes(s: Seq<u8>, count: nat)
    ensures
        spec_items(s, count) matches Step::Done(v, m) ==> m <= s.len(),
    decreases s.len(), count + 1,
{
    if count > 0 {
        lemma_val_takes_bytes(s);
        if let Step::Done(v, m) = spec_val(s) {
            if 0 < m <= s.len() {
                lemma_items_take_bytes(s.skip(m as int), (count - 1) as nat);
            }
        }
    }
}

pub proof fn lemma_entry_takes_bytes(s: Seq<u8>, prev: Option<Seq<u8>>)
    ensures
        spec_entry(s, prev) matches Step::Done(v, m) ==> 1 <= m <= s.len(),
    decreases s.len(), 1nat,
{
    lemma_uleb_takes_bytes(s);
    if let Some((k, n)) = spec_uleb(s) {
        let r1 = s.skip(n as int);
        if 0 < k <= r1.len() {
            lemma_val_takes_bytes(r1.skip(k as int));
        }
    }
}

pub proof fn lemma_entries_take_bytes(s: Seq<u8>, count: nat, prev: Option<Seq<u8>>)
    ensures
        spec_entries(s, count, prev) matches Step::Done(v, m) ==> m <= s.len(),
    decreases s.len(), count + 1,
{
    if count > 0 {
        lemma_entry_takes_bytes(s, prev);
        if let Step::Done((kc, v, kb), m) = spec_entry(s, prev) {
            if 0 < m <= s.len() {
                lemma_entries_take_bytes(s.skip(m as int), (count - 1) as nat, Some(kb));
            }
        }
    }
}

/// `std::str::from_utf8`: the text the bytes encode, if they are valid UTF-8.
#[verifier::external_body]
pub(crate) fn utf8_to_string(bytes: &[u8]) -> (r: Option<String>)
    ensures
        r is Some <==> valid_utf8(bytes@),
        r matches Some(s) ==> s@ == decode_utf8(bytes@),
{
    match std::str::from_utf8(bytes) {
        Ok(s) => Some(s.to_owned()),
        Err(_) => None,
    }
}

/// Strict lexicographic comparison of two byte strings.
fn bytes_less(a: &[u8], b: &[u8]) -> (r: bool)
    ensures
        r == bytes_lt(a@, b@),
{
    let mut i: usize = 0;
    assert(a@.skip(0) == a@);
    assert(b@.skip(0) == b@);
    while i < a.len() && i < b.len() && a[i] == b[i]
        invariant
            i <= a@.len(),
            i <= b@.len(),
            bytes_lt(a@, b@) == bytes_lt(a@.skip(i as int), b@.skip(i as int)),
        decreases a@.len() - i,
    {
        assert(a@.skip(i as int).drop_first() == a@.skip(i + 1));
        assert(b@.skip(i as int).drop_first() == b@.skip(i + 1));
        i = i + 1;
    }
    if i == b.len() {
        false
    } else if i == a.len() {
        true
    } else {
        a[i] < b[i]
    }
}

/// Why decoding stopped: the decoder's rejection, or an input it cannot go on
/// with (see [`Step::Panics`]).
#[derive(Debug, Clone, Copy, PartialEq, Eq, Structural)]
pub enum Fault {
    Error(CalldataError),
    WouldPanic,
}

/// Relates an executable decoding result to its specification.
pub open spec fn agrees<T, U>(r: Result<T, Fault>, s: Step<U>, f: spec_fn(T) -> U) -> bool {
    match s {
        Step::Done(v, _) => r matches Ok(x) && f(x) == v,
        Step::Fail(e) => r == Err::<T, Fault>(Fault::Error(e)),
        Step::Panics => r == Err::<T, Fault>(Fault::WouldPanic),
    }
}

/// Prepends already decoded items, which took `used` bytes, to the outcome of
/// decoding the rest.
pub open spec fn prepend<T>(front: Seq<T>, used: nat, st: Step<Seq<T>>) -> Step<Seq<T>> {
    match st {
        Step::Done(xs, k) => Step::Done(front + xs, used + k),
        Step::Fail(e) => Step::Fail(e),
        Step::Panics => Step::Panics,
    }
}

/// A cursor over the bytes still to be decoded.
#[derive(Clone, Copy)]
struct Parser<'a>(&'a [u8]);

impl<'a> Parser<'a> {
    /// Reads a ULEB header.
    fn fetch_uleb(&mut self) -> (r: Result<u128, CalldataError>)
        ensures
            match spec_uleb(old(self).0@) {
                Some((v, n)) => (r matches Ok(x) && x == v) && final(self).0@ == old(self).0@.skip(n as int),
                None => r == Err::<u128, CalldataError>(CalldataError::UnterminatedUleb),
            },
    {
        let ghost orig = self.0@;
        let ghost mut k: nat = 0;
        let mut res: u128 = 0;
        let total = self.0.len();
        assert(orig.skip(0) == orig);
        loop
            invariant
                k <= orig.len(),
                orig == old(self).0@,
                self.0@ == orig.skip(k as int),
                res <= 127 * k,
                orig.len() == total,
                spec_uleb(orig) == match spec_uleb(self.0@) {
                    Some((v, n)) => Some(((v + res) as nat, n + k)),
                    None => None::<(nat, nat)>,
                },
            decreases self.0@.len(),
        {
            if self.0.is_empty() {
                return Err(CalldataError::UnterminatedUleb);
            }
            let byte = self.0[0];
            let ghost cur = self.0@;
            self.0 = &self.0[1..self.0.len()];
            assert(byte & 0x7f == byte % 128 && ((byte & 0x80 == 0) == (byte < 128))) by (bit_vector);
            assert(cur.drop_first() == self.0@);
            assert(self.0@ == orig.skip(k + 1 as int));
            assert(spec_uleb(cur) == if byte < 128 {
                Some(((byte % 128) as nat, 1nat))
            } else {
                match spec_uleb(self.0@) {
                    Some((v, n)) => Some((v + (byte % 128) as nat, n + 1)),
                    None => None,
                }
            });
            res = res + (byte & 0x7f) as u128;
            proof {
                k = k + 1;
            }
            if byte & 0x80 == 0 {
                assert(spec_uleb(orig) == Some((res as nat, k)));
                return Ok(res);
            }
        }
    }

    /// Takes `le` bytes; refused when fewer than twenty bytes are left.
    fn fetch_slice(&mut self, le: usize) -> (r: Result<&'a [u8], CalldataError>)
        requires
            le <= old(self).0@.len() || old(self).0@.len() < ADDRESS_SIZE,
        ensures
            match spec_take(old(self).0@, le as nat) {
                Step::Done(b, m) => r matches Ok(x) && x@ == b && final(self).0@ == old(self).0@.skip(m as int),
                Step::Fail(e) => r == Err::<&[u8], CalldataError>(e) && final(self).0@ == old(self).0@,
                Step::Panics => false,
            },
    {
        if self.0.len() < ADDRESS_SIZE {
            return Err(CalldataError::InvalidSize);
        }
        let ret = &self.0[0..le];
        self.0 = &self.0[le..self.0.len()];
        Ok(ret)
    }

    /// Decodes one value.
    fn fetch_val(&mut self) -> (r: Result<Value, Fault>)
        ensures
            agrees(r, spec_val(old(self).0@), |x: Value| x@),
            spec_val(old(self).0@) matches Step::Done(_, n) ==> final(self).0@ == old(self).0@.skip(n as int),
        decreases old(self).0@.len(), 1nat,
    {
        let ghost s0 = self.0@;
        proof {
            lemma_uleb_takes_bytes(s0);
        }
        let v = match self.fetch_uleb() {
            Ok(v) => v,
            Err(e) => return Err(Fault::Error(e)),
        };
        let ghost n0 = (spec_uleb(s0)->0).1;
        let ghost r0 = self.0@;
        assert(spec_uleb(s0) == Some((v as nat, n0)));
        assert(r0 == s0.skip(n0 as int));
        if v == 0 {
            return Err(Fault::WouldPanic);
        }
        let typ: u128 = (v % 256) % 8;
        let x: u128 = v / 8;
        if typ == TYPE_ARR as u128 || typ == TYPE_MAP as u128 {
            if x == 0 {
                return Err(Fault::WouldPanic);
            }
            let size = match Self::map_to_size(x) {
                Ok(s) => s,
                Err(e) => return Err(Fault::Error(e)),
            };
            if typ == TYPE_ARR as u128 {
                let res = self.fetch_array(size);
                proof {
                    if let Step::Done(_, m) = spec_items(r0, size as nat) {
                        lemma_items_take_bytes(r0, size as nat);
                        assert(r0.skip(m as int) == s0.skip((n0 + m) as int));
                    }
                }
                match res {
                    Ok(items) => Ok(Value::Array(items)),
                    Err(f) => Err(f),
                }
            } else {
                let res = self.fetch_map(size);
                proof {
                    if let Step::Done(_, m) = spec_entries(r0, size as nat, None) {
                        lemma_entries_take_bytes(r0, size as nat, None);
                        assert(r0.skip(m as int) == s0.skip((n0 + m) as int));
                    }
                }
                match res {
                    Ok(entries) => Ok(Value::Dict(entries)),
                    Err(f) => Err(f),
                }
            }
        } else {
            let res = self.fetch_scalar(v);
            proof {
                if let Step::Done(_, m) = spec_scalar(v as nat, r0) {
                    lemma_scalar_takes_bytes(v as nat, r0);
                    assert(r0.skip(m as int) == s0.skip((n0 + m) as int));
                }
            }
            res
        }
    }

    /// Decodes the payload of a value whose non-zero header `v` is neither an
    /// array's nor a map's.
    fn fetch_scalar(&mut self, v: u128) -> (r: Result<Value, Fault>)
        requires
            v != 0,
            (v % 256) % 8 != TYPE_ARR as u128,
            (v % 256) % 8 != TYPE_MAP as u128,
        ensures
            agrees(r, spec_scalar(v as nat, old(self).0@), |x: Value| x@),
            spec_scalar(v as nat, old(self).0@) matches Step::Done(_, n) ==> final(self).0@ == old(self).0@.skip(n as int),
    {
        let low: u128 = v % 256;
        let typ: u128 = low % 8;
        let x: u128 = v / 8;
        if typ == TYPE_SPECIAL as u128 {
            if x >= 256 {
                Err(Fault::Error(CalldataError::InvalidSpecialValue))
            } else if low == SPECIAL_NULL as u128 {
                assert(self.0@.skip(0) == self.0@);
                Ok(Value::Null)
            } else if low == SPECIAL_TRUE as u128 {
                assert(self.0@.skip(0) == self.0@);
                Ok(Value::Bool(true))
            } else if low == SPECIAL_FALSE as u128 {
                assert(self.0@.skip(0) == self.0@);
                Ok(Value::Bool(true))
            } else if low == SPECIAL_ADDR as u128 {
                if self.0.len() < ADDRESS_SIZE {
                    return Err(Fault::Error(CalldataError::InvalidAddress));
                }
                let addr_slice = match self.fetch_slice(ADDRESS_SIZE) {
                    Ok(b) => b,
                    Err(e) => return Err(Fault::Error(e)),
                };
                let mut addr = [0u8; ADDRESS_SIZE];
                let mut i: usize = 0;
                while i < ADDRESS_SIZE
                    invariant
                        i <= ADDRESS_SIZE,
                        addr_slice@.len() == ADDRESS_SIZE,
                        forall|j: int| 0 <= j < i ==> addr@[j] == addr_slice@[j],
                    decreases ADDRESS_SIZE - i,
                {
                    addr[i] = addr_slice[i];
                    i = i + 1;
                }
                assert(addr@ =~= addr_slice@);
                Ok(Value::Address(Address(addr)))
            } else {
                Err(Fault::Error(CalldataError::InvalidSpecial))
            }
        } else if typ == TYPE_BYTES as u128 || typ == TYPE_STR as u128 {
            if x == 0 {
                return Err(Fault::WouldPanic);
            }
            let size = match Self::map_to_size(x) {
                Ok(s) => s,
                Err(e) => return Err(Fault::Error(e)),
            };
            if self.0.len() >= ADDRESS_SIZE && size > self.0.len() {
                return Err(Fault::WouldPanic);
            }
            let slice = match self.fetch_slice(size) {
                Ok(b) => b,
                Err(e) => return Err(Fault::Error(e)),
            };
            if typ == TYPE_BYTES as u128 {
                Ok(Value::Bytes(vstd::slice::slice_to_vec(slice)))
            } else {
                match utf8_to_string(slice) {
                    Some(text) => Ok(Value::Str(text)),
                    None => Err(Fault::Error(CalldataError::NotUtf8)),
                }
            }
        } else if typ == TYPE_NINT as u128 {
            assert(self.0@.skip(0) == self.0@);
            Ok(Value::Number(-((x as i128) + 1)))
        } else if typ == TYPE_PINT as u128 {
            assert(self.0@.skip(0) == self.0@);
            Ok(Value::Number(x as i128))
        } else {
            Err(Fault::Error(CalldataError::InvalidType))
        }
    }

    /// Decodes `size` values one after another.
    fn fetch_array(&mut self, size: usize) -> (r: Result<Vec<Value>, Fault>)
        ensures
            agrees(r, spec_items(old(self).0@, size as nat), |x: Vec<Value>| values_model(x@)),
            spec_items(old(self).0@, size as nat) matches Step::Done(_, n) ==> final(self).0@
                == old(self).0@.skip(n as int),
        decreases old(self).0@.len(), 2nat,
    {
        let ghost r0 = self.0@;
        let mut ret: Vec<Value> = Vec::new();
        let mut i: usize = 0;
        assert(r0.skip(0) == r0);
        assert(values_model(ret@) + Seq::empty() =~= Seq::<SpecValue>::empty());
        while i < size
            invariant
                i <= size,
                r0 == old(self).0@,
                self.0@.len() <= r0.len(),
                self.0@ == r0.skip(r0.len() - self.0@.len()),
                spec_items(r0, size as nat) == prepend(
                    values_model(ret@),
                    (r0.len() - self.0@.len()) as nat,
                    spec_items(self.0@, (size - i) as nat),
                ),
            decreases size - i,
        {
            let ghost cur = self.0@;
            proof {
                lemma_val_takes_bytes(cur);
            }
            let item = match self.fetch_val() {
                Ok(v) => v,
                Err(f) => return Err(f),
            };
            let ghost m = spec_val(cur)->Done_1;
            let ghost before = values_model(ret@);
            ret.push(item);
            assert(values_model(ret@) =~= before.push(item@));
            assert(cur.skip(m as int) == r0.skip(r0.len() - self.0@.len()));
            i = i + 1;
            proof {
                let rest = spec_items(self.0@, (size - i) as nat);
                match rest {
                    Step::Done(vs, k) => {
                        assert(before + (seq![item@] + vs) =~= before.push(item@) + vs);
                    },
                    _ => {},
                }
            }
        }
        assert(values_model(ret@) + Seq::<SpecValue>::empty() =~= values_model(ret@));
        Ok(ret)
    }

    /// Decodes one map entry whose key must be greater than `prev`; returns
    /// the key, the value and the key's bytes.
    fn fetch_entry(&mut self, prev: Option<&[u8]>) -> (r: Result<(String, Value, &'a [u8]), Fault>)
        ensures
            agrees(
                r,
                spec_entry(
                    old(self).0@,
                    match prev {
                        Some(p) => Some(p@),
                        None => None,
                    },
                ),
                |x: (String, Value, &'a [u8])| (x.0@, x.1@, x.2@),
            ),
            spec_entry(
                old(self).0@,
                match prev {
                    Some(p) => Some(p@),
                    None => None,
                },
            ) matches Step::Done(_, n) ==> final(self).0@ == old(self).0@.skip(n as int),
        decreases old(self).0@.len(), 1nat,
    {
        let ghost cur = self.0@;
        proof {
            lemma_uleb_takes_bytes(cur);
        }
        let ksz = match self.fetch_uleb() {
            Ok(k) => k,
            Err(e) => return Err(Fault::Error(e)),
        };
        let ghost n1 = (spec_uleb(cur)->0).1;
        let ghost r1 = self.0@;
        if ksz == 0 {
            return Err(Fault::WouldPanic);
        }
        let ksize = match Self::map_to_size(ksz) {
            Ok(s) => s,
            Err(e) => return Err(Fault::Error(e)),
        };
        if self.0.len() >= ADDRESS_SIZE && ksize > self.0.len() {
            return Err(Fault::WouldPanic);
        }
        let key_bytes = match self.fetch_slice(ksize) {
            Ok(b) => b,
            Err(e) => return Err(Fault::Error(e)),
        };
        let key = match utf8_to_string(key_bytes) {
            Some(k) => k,
            None => return Err(Fault::Error(CalldataError::NotUtf8)),
        };
        match prev {
            Some(p) => {
                if !bytes_less(p, key_bytes) {
                    return Err(Fault::Error(CalldataError::InvalidOrdering));
                }
            },
            None => {},
        }
        let ghost r2 = self.0@;
        let val = match self.fetch_val() {
            Ok(v) => v,
            Err(f) => return Err(f),
        };
        proof {
            if let Step::Done(_, m) = spec_val(r2) {
                lemma_val_takes_bytes(r2);
                assert(r2.skip(m as int) == cur.skip((n1 + ksize + m) as int));
            }
        }
        Ok((key, val, key_bytes))
    }

    /// Decodes `size` map entries one after another; keys must ascend.
    fn fetch_map(&mut self, size: usize) -> (r: Result<Vec<(String, Value)>, Fault>)
        ensures
            agrees(
                r,
                spec_entries(old(self).0@, size as nat, None),
                |x: Vec<(String, Value)>| entries_model(x@),
            ),
            spec_entries(old(self).0@, size as nat, None) matches Step::Done(_, n) ==> final(self).0@ == old(self).0@.skip(n as int),
        decreases old(self).0@.len(), 2nat,
    {
        let ghost r0 = self.0@;
        let mut ret: Vec<(String, Value)> = Vec::new();
        let mut prev: Option<&[u8]> = None;
        let mut i: usize = 0;
        assert(r0.skip(0) == r0);
        assert(entries_model(ret@) + Seq::empty() =~= Seq::<(Seq<char>, SpecValue)>::empty());
        while i < size
            invariant
                i <= size,
                r0 == old(self).0@,
                self.0@.len() <= r0.len(),
                self.0@ == r0.skip(r0.len() - self.0@.len()),
                spec_entries(r0, size as nat, None) == prepend(
                    entries_model(ret@),
                    (r0.len() - self.0@.len()) as nat,
                    spec_entries(
                        self.0@,
                        (size - i) as nat,
                        match prev {
                            Some(p) => Some(p@),
                            None => None,
                        },
                    ),
                ),
            decreases size - i,
        {
            let ghost cur = self.0@;
            let ghost pm = match prev {
                Some(p) => Some(p@),
                None => None::<Seq<u8>>,
            };
            proof {
                lemma_entry_takes_bytes(cur, pm);
            }
            let (key, val, key_bytes) = match self.fetch_entry(prev) {
                Ok(e) => e,
                Err(f) => return Err(f),
            };
            let ghost m = spec_entry(cur, pm)->Done_1;
            let ghost before = entries_model(ret@);
            let ghost entry = (key@, val@);
            ret.push((key, val));
            assert(entries_model(ret@) =~= before.push(entry));
            assert(cur.skip(m as int) == r0.skip(r0.len() - self.0@.len()));
            prev = Some(key_bytes);
            i = i + 1;
            proof {
                let rest = spec_entries(self.0@, (size - i) as nat, Some(key_bytes@));
                match rest {
                    Step::Done(es, j) => {
                        assert(before + (seq![entry] + es) =~= before.push(entry) + es);
                    },
                    _ => {},
                }
            }
        }
        assert(entries_model(ret@) + Seq::<(Seq<char>, SpecValue)>::empty() =~= entries_model(
            ret@,
        ));
        Ok(ret)
    }

    /// Reads a header value as a size; refused from 2^32 on.
    fn map_to_size(size: u128) -> (r: Result<usize, CalldataError>)
        requires
            size != 0,
        ensures
            spec_size(size as nat) matches Step::Done(v, _) ==> r == Ok::<usize, CalldataError>(
                v as usize,
            ),
            spec_size(size as nat) matches Step::Fail(e) ==> r == Err::<usize, CalldataError>(e),
    {
        if size >= 0x1_0000_0000 {
            Err(CalldataError::InvalidSize)
        } else {
            Ok(size as usize)
        }
    }
}

/// Relates the outcome of decoding a whole buffer to its specification.
pub open spec fn parse_agrees(r: Result<Value, CalldataError>, s: Step<SpecValue>) -> bool {
    match s {
        Step::Done(v, _) => r matches Ok(x) && x@ == v,
        Step::Fail(e) => r == Err::<Value, CalldataError>(e),
        Step::Panics => true,
    }
}

/// Decodes a whole buffer as one value, nothing after it. Returns `None`
/// exactly on the inputs that the decoder cannot go on with (see
/// [`Step::Panics`]).
pub fn parse_checked(data: &[u8]) -> (r: Option<Result<Value, CalldataError>>)
    ensures
        r is None <==> spec_parse(data@) is Panics,
        r matches Some(x) ==> parse_agrees(x, spec_parse(data@)),
{
    let mut parser = Parser(data);
    let ret = parser.fetch_val();
    match ret {
        Err(Fault::WouldPanic) => None,
        Err(Fault::Error(e)) => Some(Err(e)),
        Ok(v) => {
            if parser.0.len() != 0 {
                proof {
                    lemma_val_takes_bytes(data@);
                }
                Some(Err(CalldataError::PartiallyUnparsed))
            } else {
                proof {
                    lemma_val_takes_bytes(data@);
                }
                Some(Ok(v))
            }
        },
    }
}

/// Decodes a whole buffer as one value, nothing after it.
pub fn parse(data: &[u8]) -> (r: Result<Value, CalldataError>)
    requires
        !(spec_parse(data@) is Panics),
    ensures
        parse_agrees(r, spec_parse(data@)),
{
    match parse_checked(data) {
        Some(r) => r,
        None => Err(CalldataError::PartiallyUnparsed),
    }
}


/// An address value, `0x18` and twenty bytes, decodes to that address.
proof fn lemma_address_val(addr: Seq<u8>)
    requires
        addr.len() == 20,
    ensures
        spec_val(seq![0x18u8] + addr) == Step::Done(SpecValue::Address(addr), 21),
{
    let s = seq![0x18u8] + addr;
    assert(spec_uleb(s) == Some((24nat, 1nat)));
    assert(s.skip(1) =~= addr);
    assert(addr.take(20) =~= addr);
}

/// A one-byte header `8 * n + 1` decodes to the integer `n`, whatever follows.
proof fn lemma_small_int_val(n: u8, rest: Seq<u8>)
    requires
        n < 16,
    ensures
        spec_val(seq![(8 * n + 1) as u8] + rest) == Step::Done(SpecValue::Number(n as int), 1),
{
    let s = seq![(8 * n + 1) as u8] + rest;
    assert(s[0] == (8 * n + 1) as u8);
    assert(spec_uleb(s) == Some(((8 * n + 1) as nat, 1nat)));
}

/// One map entry whose key has a one-byte length header.
proof fn lemma_entry_step(key: Seq<u8>, after: Seq<u8>, prev: Option<Seq<u8>>)
    requires
        0 < key.len() < 128,
        valid_utf8(key),
        after.len() + key.len() >= 20,
    ensures
        spec_entry(seq![key.len() as u8] + key + after, prev) == if prev is Some && !bytes_lt(prev->0, key) {
            Step::Fail(CalldataError::InvalidOrdering)
        } else {
            match spec_val(after) {
                Step::Done(v, m) => Step::Done((decode_utf8(key), v, key), 1 + key.len() + m),
                Step::Fail(e) => Step::Fail(e),
                Step::Panics => Step::Panics,
            }
        },
{
    let e = seq![key.len() as u8] + key + after;
    assert(e[0] == key.len() as u8);
    assert(spec_uleb(e) == Some((key.len() as nat, 1nat)));
    assert(e.skip(1) =~= key + after);
    assert((key + after).take(key.len() as int) =~= key);
    assert((key + after).skip(key.len() as int) =~= after);
}

/// Map keys must ascend. A map of two entries — `k1` holding the integer
/// `n`, then `k2` holding an address — decodes to those two entries, in that
/// order, whenever `k1` comes before `k2` (here: its first byte is smaller);
/// when `k1` comes after `k2`, or equals it, the map is refused as
/// misordered.
pub proof fn map_keys_must_ascend(k1: Seq<u8>, n: u8, k2: Seq<u8>, addr: Seq<u8>)
    requires
        0 < k1.len() < 128,
        0 < k2.len() < 128,
        valid_utf8(k1),
        valid_utf8(k2),
        n < 16,
        addr.len() == 20,
    ensures
        ({
            let buf = seq![0x16u8, k1.len() as u8] + k1 + seq![(8 * n + 1) as u8, k2.len() as u8] + k2 + seq![0x18u8]
                + addr;
            &&& k1[0] < k2[0] ==> spec_parse(buf) == Step::Done(
                SpecValue::Dict(
                    seq![(decode_utf8(k1), SpecValue::Number(n as int)), (decode_utf8(k2), SpecValue::Address(addr))],
                ),
                buf.len(),
            )
            &&& (k2[0] < k1[0] || k1 == k2) ==> spec_parse(buf) == Step::Fail::<SpecValue>(
                CalldataError::InvalidOrdering,
            )
        }),
{
    let buf = seq![0x16u8, k1.len() as u8] + k1 + seq![(8 * n + 1) as u8, k2.len() as u8] + k2 + seq![0x18u8] + addr;
    let tail = seq![0x18u8] + addr;
    let e2 = seq![k2.len() as u8] + k2 + tail;
    let v1 = seq![(8 * n + 1) as u8] + e2;
    let e1 = seq![k1.len() as u8] + k1 + v1;
    let d1 = (decode_utf8(k1), SpecValue::Number(n as int));
    let d2 = (decode_utf8(k2), SpecValue::Address(addr));
    assert(buf =~= seq![0x16u8] + e1);
    lemma_small_int_val(n, e2);
    lemma_entry_step(k1, v1, None);
    let m1 = (k1.len() + 2) as nat;
    assert(e1.skip(m1 as int) =~= e2);
    lemma_address_val(addr);
    lemma_entry_step(k2, tail, Some(k1));
    let m2 = (k2.len() + 22) as nat;
    let r = if k1[0] < k2[0] {
        assert(bytes_lt(k1, k2));
        assert(e2.skip(m2 as int) =~= Seq::<u8>::empty());
        assert(spec_entries(e2.skip(m2 as int), 0, Some(k2)) == Step::Done(Seq::<(Seq<char>, SpecValue)>::empty(), 0));
        assert(spec_entries(e2, 1, Some(k1)) == Step::Done(seq![d2], m2)) by {
            assert(seq![d2] + Seq::<(Seq<char>, SpecValue)>::empty() =~= seq![d2]);
        }
        assert(seq![d1] + seq![d2] =~= seq![d1, d2]);
        assert(spec_entries(e1, 2, None) == Step::Done(seq![d1, d2], m1 + m2));
        Step::Done(seq![d1, d2], m1 + m2)
    } else if k2[0] < k1[0] || k1 == k2 {
        lemma_bytes_lt_not_back(k1, k2);
        assert(spec_entries(e2, 1, Some(k1)) == Step::Fail::<Seq<(Seq<char>, SpecValue)>>(CalldataError::InvalidOrdering));
        assert(spec_entries(e1, 2, None) == Step::Fail::<Seq<(Seq<char>, SpecValue)>>(CalldataError::InvalidOrdering));
        Step::Fail(CalldataError::InvalidOrdering)
    } else {
        spec_entries(e1, 2, None)
    };
    assert(r == spec_entries(e1, 2, None));
    lemma_map_header(e1, r);
}

/// A map of two entries: the `0x16` header, then the entries.
proof fn lemma_map_header(e: Seq<u8>, r: Step<Seq<(Seq<char>, SpecValue)>>)
    requires
        r == spec_entries(e, 2, None),
    ensures
        spec_parse(seq![0x16u8] + e) == match r {
            Step::Done(es, m) => if 1 + m == e.len() + 1 {
                Step::Done(SpecValue::Dict(es), 1 + m)
            } else {
                Step::Fail(CalldataError::PartiallyUnparsed)
            },
            Step::Fail(x) => Step::Fail(x),
            Step::Panics => Step::Panics,
        },
{
    let buf = seq![0x16u8] + e;
    assert(buf[0] == 0x16u8);
    assert(spec_uleb(buf) == Some((22nat, 1nat)));
    assert(buf.skip(1) =~= e);
}

/// No byte string comes before itself, nor before one whose first byte is
/// smaller.
proof fn lemma_bytes_lt_not_back(a: Seq<u8>, b: Seq<u8>)
    requires
        a.len() > 0,
        b.len() > 0,
        b[0] < a[0] || a == b,
    ensures
        !bytes_lt(a, b),
    decreases a.len(),
{
    if a == b && a.len() > 1 {
        lemma_bytes_lt_not_back(a.drop_first(), b.drop_first());
    }
    if a == b && a.len() == 1 {
        assert(a.drop_first().len() == 0);
        assert(!bytes_lt(a.drop_first(), b.drop_first()));
    }
}

/// The type bits decide between text and bytes. In a two-item array whose
/// first item has a one-byte header and a payload `t` of one to fifteen
/// bytes (and whose second is an address, so that enough bytes follow the
/// payload), type 4 gives the text `t` encodes (refused when `t` is not
/// UTF-8), and type 3 gives the bytes of `t`, whatever they hold.
pub proof fn text_and_bytes_payloads(t: Seq<u8>, addr: Seq<u8>)
    requires
        0 < t.len() < 16,
        addr.len() == 20,
    ensures
        valid_utf8(t) ==> spec_parse(seq![0x15u8, (8 * t.len() + 4) as u8] + t + seq![0x18u8] + addr) == Step::Done(
            SpecValue::Array(seq![SpecValue::Str(decode_utf8(t)), SpecValue::Address(addr)]),
            t.len() + 23,
        ),
        !valid_utf8(t) ==> spec_parse(seq![0x15u8, (8 * t.len() + 4) as u8] + t + seq![0x18u8] + addr)
            == Step::Fail::<SpecValue>(CalldataError::NotUtf8),
        spec_parse(seq![0x15u8, (8 * t.len() + 3) as u8] + t + seq![0x18u8] + addr) == Step::Done(
            SpecValue::Array(seq![SpecValue::Bytes(t), SpecValue::Address(addr)]),
            t.len() + 23,
        ),
{
    lemma_text_or_bytes(t, addr, 4);
    lemma_text_or_bytes(t, addr, 3);
}

/// What a one-byte text or byte-string header `8 * t.len() + typ` followed
/// by the payload `t` decodes to, when at least twenty bytes follow it.
pub open spec fn payload_item(t: Seq<u8>, typ: u8) -> Step<SpecValue> {
    if typ == 3 {
        Step::Done(SpecValue::Bytes(t), t.len() + 1)
    } else if valid_utf8(t) {
        Step::Done(SpecValue::Str(decode_utf8(t)), t.len() + 1)
    } else {
        Step::Fail(CalldataError::NotUtf8)
    }
}

proof fn lemma_payload_val(t: Seq<u8>, tail: Seq<u8>, typ: u8)
    requires
        0 < t.len() < 16,
        tail.len() >= 20,
        typ == 3 || typ == 4,
    ensures
        spec_val(seq![(8 * t.len() + typ) as u8] + t + tail) == payload_item(t, typ),
{
    let h = (8 * t.len() + typ) as u8;
    let first = seq![h] + t + tail;
    assert(first[0] == h);
    assert(spec_uleb(first) == Some((h as nat, 1nat)));
    assert(first.skip(1) =~= t + tail);
    assert((t + tail).take(t.len() as int) =~= t);
    assert(h as nat % 256 % 8 == typ);
    assert(h as nat / 8 == t.len());
    assert(spec_take(t + tail, t.len()) == Step::Done(t, t.len()));
}

proof fn lemma_two_items(first: Seq<u8>, tail: Seq<u8>, addr: Seq<u8>, v: SpecValue, m: nat)
    requires
        addr.len() == 20,
        tail == seq![0x18u8] + addr,
        spec_val(first) == Step::Done(v, m),
        0 < m <= first.len(),
        first.skip(m as int) == tail,
    ensures
        spec_items(first, 2) == Step::Done(seq![v, SpecValue::Address(addr)], m + 21),
{
    lemma_address_val(addr);
    assert(tail.skip(21) =~= Seq::<u8>::empty());
    assert(spec_items(tail.skip(21), 0) == Step::Done(Seq::<SpecValue>::empty(), 0));
    assert(seq![SpecValue::Address(addr)] + Seq::<SpecValue>::empty() =~= seq![SpecValue::Address(addr)]);
    assert(spec_items(tail, 1) == Step::Done(seq![SpecValue::Address(addr)], 21));
    assert(seq![v] + seq![SpecValue::Address(addr)] =~= seq![v, SpecValue::Address(addr)]);
}

/// An array of two items: the `0x15` header, then the items.
proof fn lemma_array_header(e: Seq<u8>)
    ensures
        spec_parse(seq![0x15u8] + e) == match spec_items(e, 2) {
            Step::Done(xs, m) => if 1 + m == e.len() + 1 {
                Step::Done(SpecValue::Array(xs), 1 + m)
            } else {
                Step::Fail(CalldataError::PartiallyUnparsed)
            },
            Step::Fail(x) => Step::Fail(x),
            Step::Panics => Step::Panics,
        },
{
    let buf = seq![0x15u8] + e;
    assert(buf[0] == 0x15u8);
    assert(spec_uleb(buf) == Some((21nat, 1nat)));
    assert(buf.skip(1) =~= e);
}

proof fn lemma_text_or_bytes(t: Seq<u8>, addr: Seq<u8>, typ: u8)
    requires
        0 < t.len() < 16,
        addr.len() == 20,
        typ == 3 || typ == 4,
    ensures
        spec_parse(seq![0x15u8, (8 * t.len() + typ) as u8] + t + seq![0x18u8] + addr) == match payload_item(t, typ) {
            Step::Done(v, _) => Step::Done(SpecValue::Array(seq![v, SpecValue::Address(addr)]), t.len() + 23),
            Step::Fail(e) => Step::Fail(e),
            Step::Panics => Step::Panics,
        },
{
    let h = (8 * t.len() + typ) as u8;
    let tail = seq![0x18u8] + addr;
    let first = seq![h] + t + tail;
    assert(seq![0x15u8, h] + t + seq![0x18u8] + addr =~= seq![0x15u8] + first);
    lemma_payload_val(t, tail, typ);
    lemma_array_header(first);
    if let Step::Done(v, m) = payload_item(t, typ) {
        assert(first.skip(m as int) =~= tail);
        lemma_two_items(first, tail, addr, v, m);
        assert(first.len() == t.len() + 22);
    } else {
        assert(spec_items(first, 2) == Step::Fail::<Seq<SpecValue>>(CalldataError::NotUtf8));
    }
}

} // verus!
