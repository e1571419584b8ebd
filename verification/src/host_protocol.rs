//! The bytes the executor and its host exchange: each request is a method
//! number followed by its fields (integers little-endian, byte strings
//! prefixed by their 32-bit length), and most answers start with an error
//! number. The socket itself is driven by the embedding program; these
//! functions build the requests and read the answers.

use vstd::prelude::*;

use crate::calldata::Address;
use crate::consts::StorageType;
use crate::fees::Amount;
use crate::host::{Errors, Methods, SlotID};

verus! {

/// The four little-endian bytes of a `u32`.
pub open spec fn le32(v: u32) -> Seq<u8> {
    seq![
        (v % 256) as u8,
        ((v / 256) % 256) as u8,
        ((v / 65536) % 256) as u8,
        (v / 16777216) as u8,
    ]
}

/// The eight little-endian bytes of a `u64`.
pub open spec fn le64(v: u64) -> Seq<u8> {
    le32((v % 0x1_0000_0000) as u32) + le32((v / 0x1_0000_0000) as u32)
}

/// Appends the little-endian bytes of a `u32`.
fn push_le32(out: &mut Vec<u8>, v: u32)
    ensures
        final(out)@ == old(out)@ + le32(v),
{
    out.push((v % 256) as u8);
    out.push(((v / 256) % 256) as u8);
    out.push(((v / 65536) % 256) as u8);
    out.push((v / 16777216) as u8);
    assert(out@ =~= old(out)@ + le32(v));
}

/// Appends bytes.
pub(crate) fn push_all(out: &mut Vec<u8>, data: &[u8])
    ensures
        final(out)@ == old(out)@ + data@,
{
    let mut i: usize = 0;
    while i < data.len()
        invariant
            i <= data@.len(),
            out@ == old(out)@ + data@.take(i as int),
        decreases data@.len() - i,
    {
        out.push(data[i]);
        assert(data@.take(i + 1) =~= data@.take(i as int).push(data@[i as int]));
        i = i + 1;
    }
    assert(data@.take(i as int) =~= data@);
}

/// A storage read request: the method, the state, the account, the slot,
/// the first byte and the number of bytes.
pub fn encode_storage_read(mode: StorageType, account: &Address, slot: &SlotID, index: u32, len: u32) -> (r: Vec<u8>)
    ensures
        r@ == seq![Methods::StorageRead.spec_value(), mode.spec_value()] + account.0@ + slot.0@ + le32(index) + le32(len),
{
    let mut out: Vec<u8> = Vec::new();
    out.push(Methods::StorageRead.value());
    out.push(mode.value());
    push_all(&mut out, &account.0);
    push_all(&mut out, &slot.0);
    push_le32(&mut out, index);
    push_le32(&mut out, len);
    assert(out@ =~= seq![Methods::StorageRead.spec_value(), mode.spec_value()] + account.0@ + slot.0@ + le32(index) + le32(len));
    out
}

/// A storage write request: the method, the slot, the first byte, then the
/// data with its length.
pub fn encode_storage_write(slot: &SlotID, index: u32, data: &[u8]) -> (r: Vec<u8>)
    requires
        data@.len() <= u32::MAX,
    ensures
        r@ == seq![Methods::StorageWrite.spec_value()] + slot.0@ + le32(index) + le32(data@.len() as u32) + data@,
{
    let mut out: Vec<u8> = Vec::new();
    out.push(Methods::StorageWrite.value());
    push_all(&mut out, &slot.0);
    push_le32(&mut out, index);
    push_le32(&mut out, data.len() as u32);
    push_all(&mut out, data);
    assert(out@ =~= seq![Methods::StorageWrite.spec_value()] + slot.0@ + le32(index) + le32(data@.len() as u32) + data@);
    out
}

/// A request to charge fuel.
pub fn encode_consume_fuel(gas: u64) -> (r: Vec<u8>)
    ensures
        r@ == seq![Methods::ConsumeFuel.spec_value()] + le64(gas),
{
    let mut out: Vec<u8> = Vec::new();
    out.push(Methods::ConsumeFuel.value());
    push_le32(&mut out, (gas % 0x1_0000_0000) as u32);
    push_le32(&mut out, (gas / 0x1_0000_0000) as u32);
    assert(out@ =~= seq![Methods::ConsumeFuel.spec_value()] + le64(gas));
    out
}

/// A call of another chain's contract: the address, then the calldata with
/// its length.
pub fn encode_eth_call(address: &Address, calldata: &[u8]) -> (r: Vec<u8>)
    requires
        calldata@.len() <= u32::MAX,
    ensures
        r@ == seq![Methods::EthCall.spec_value()] + address.0@ + le32(calldata@.len() as u32) + calldata@,
{
    let mut out: Vec<u8> = Vec::new();
    out.push(Methods::EthCall.value());
    push_all(&mut out, &address.0);
    push_le32(&mut out, calldata.len() as u32);
    push_all(&mut out, calldata);
    assert(out@ =~= seq![Methods::EthCall.spec_value()] + address.0@ + le32(calldata@.len() as u32) + calldata@);
    out
}

/// A balance request for an address.
pub fn encode_get_balance(address: &Address) -> (r: Vec<u8>)
    ensures
        r@ == seq![Methods::GetBalance.spec_value()] + address.0@,
{
    let mut out: Vec<u8> = Vec::new();
    out.push(Methods::GetBalance.value());
    push_all(&mut out, &address.0);
    out
}

/// A request for the leader's result of non-deterministic block `call_no`.
pub fn encode_get_leader_result(call_no: u32) -> (r: Vec<u8>)
    ensures
        r@ == seq![Methods::GetLeaderNondetResult.spec_value()] + le32(call_no),
{
    let mut out: Vec<u8> = Vec::new();
    out.push(Methods::GetLeaderNondetResult.value());
    push_le32(&mut out, call_no);
    out
}

/// The final result of an execution, framed: the method, then the result's
/// bytes with their length.
pub fn encode_consume_result(result: &[u8]) -> (r: Vec<u8>)
    requires
        result@.len() <= u32::MAX,
    ensures
        r@ == seq![Methods::ConsumeResult.spec_value()] + le32(result@.len() as u32) + result@,
{
    let mut out: Vec<u8> = Vec::new();
    out.push(Methods::ConsumeResult.value());
    push_le32(&mut out, result.len() as u32);
    push_all(&mut out, result);
    assert(out@ =~= seq![Methods::ConsumeResult.spec_value()] + le32(result@.len() as u32) + result@);
    out
}

/// Splitting a number made of four bytes gives the bytes back.
proof fn lemma_bytes_of_u32(b0: int, b1: int, b2: int, b3: int)
    requires
        0 <= b0 < 256,
        0 <= b1 < 256,
        0 <= b2 < 256,
        0 <= b3 < 256,
    ensures
        ({
            let r = b0 + 256 * b1 + 65536 * b2 + 16777216 * b3;
            &&& r % 256 == b0
            &&& (r / 256) % 256 == b1
            &&& (r / 65536) % 256 == b2
            &&& r / 16777216 == b3
        }),
{
    let r = b0 + 256 * b1 + 65536 * b2 + 16777216 * b3;
    assert(r % 256 == b0 && r / 256 == b1 + 256 * b2 + 65536 * b3) by (nonlinear_arith)
        requires
            0 <= b0 < 256,
            r == b0 + 256 * (b1 + 256 * b2 + 65536 * b3),
            0 <= b1 + 256 * b2 + 65536 * b3,
    ;
    let r1 = b1 + 256 * b2 + 65536 * b3;
    assert(r1 % 256 == b1 && r1 / 256 == b2 + 256 * b3) by (nonlinear_arith)
        requires
            0 <= b1 < 256,
            r1 == b1 + 256 * (b2 + 256 * b3),
            0 <= b2 + 256 * b3,
    ;
    let r2 = b2 + 256 * b3;
    assert(r2 % 256 == b2 && r2 / 256 == b3) by (nonlinear_arith)
        requires
            0 <= b2 < 256,
            r2 == b2 + 256 * b3,
            0 <= b3,
    ;
    assert(r / 65536 == r2) by (nonlinear_arith)
        requires
            r / 256 == r1,
            r1 / 256 == r2,
            r >= 0,
    ;
    assert(r / 16777216 == b3) by (nonlinear_arith)
        requires
            r / 65536 == r2,
            r2 / 256 == b3,
            r >= 0,
    ;
}

/// The `u32` four little-endian bytes stand for.
pub fn decode_u32_le(b: [u8; 4]) -> (r: u32)
    ensures
        le32(r) == b@,
        r == b@[0] + 256 * b@[1] + 65536 * b@[2] + 16777216 * b@[3],
{
    let r = (b[0] as u32) + 256 * (b[1] as u32) + 65536 * (b[2] as u32) + 16777216 * (b[3] as u32);
    proof {
        lemma_bytes_of_u32(b@[0] as int, b@[1] as int, b@[2] as int, b@[3] as int);
    }
    assert(le32(r) =~= b@);
    r
}

/// The `u64` eight little-endian bytes stand for.
pub fn decode_u64_le(b: [u8; 8]) -> (r: u64)
    ensures
        le64(r) == b@,
{
    let lo = decode_u32_le([b[0], b[1], b[2], b[3]]);
    let hi = decode_u32_le([b[4], b[5], b[6], b[7]]);
    let r = (lo as u64) + 0x1_0000_0000 * (hi as u64);
    assert((r % 0x1_0000_0000) as u32 == lo);
    assert((r / 0x1_0000_0000) as u32 == hi);
    assert(le64(r) =~= b@);
    r
}

/// The number 32 little-endian bytes stand for.
pub open spec fn le_value(b: Seq<u8>) -> nat
    decreases b.len(),
{
    if b.len() == 0 {
        0
    } else {
        b[0] as nat + 256 * le_value(b.skip(1))
    }
}

/// `U256::from_little_endian`: the amount 32 little-endian bytes stand for.
#[verifier::external_body]
fn amount_from_le(b: [u8; 32]) -> (r: Amount)
    ensures
        r.value() == le_value(b@),
{
    Amount(primitive_types::U256::from_little_endian(&b).0)
}

/// A balance as the host sends it: 32 little-endian bytes.
pub fn decode_balance(b: [u8; 32]) -> (r: Amount)
    ensures
        r.value() == le_value(b@),
{
    amount_from_le(b)
}

/// Why an answer of the host is refused.
#[derive(Debug, Clone, PartialEq, Eq)]
pub enum HostError {
    /// The error number names no error.
    UnknownError(u8),
    /// The host reported this error.
    Reported(Errors),
}

/// Reads the error number that starts most answers: `Ok` for no error.
pub fn handle_host_error(code: u8) -> (r: Result<(), HostError>)
    ensures
        Errors::spec_from_u8(code) == Some(Errors::NoError) ==> r is Ok,
        Errors::spec_from_u8(code) matches Some(e) ==> (e != Errors::NoError ==> r == Err::<(), HostError>(HostError::Reported(e))),
        Errors::spec_from_u8(code) is None ==> r == Err::<(), HostError>(HostError::UnknownError(code)),
{
    match Errors::try_from(code) {
        Ok(Errors::NoError) => Ok(()),
        Ok(e) => Err(HostError::Reported(e)),
        Err(_) => Err(HostError::UnknownError(code)),
    }
}

/// Reads the error number of the answer to a leader-result request: the
/// result follows (`true`), this node is the leader (`false`), or an error.
pub fn leader_result_follows(code: u8) -> (r: Result<bool, HostError>)
    ensures
        Errors::spec_from_u8(code) == Some(Errors::NoError) ==> r == Ok::<bool, HostError>(true),
        Errors::spec_from_u8(code) == Some(Errors::IAmLeader) ==> r == Ok::<bool, HostError>(false),
        Errors::spec_from_u8(code) matches Some(e) ==> (e != Errors::NoError && e != Errors::IAmLeader ==> r
            == Err::<bool, HostError>(HostError::Reported(e))),
        Errors::spec_from_u8(code) is None ==> r == Err::<bool, HostError>(HostError::UnknownError(code)),
{
    match Errors::try_from(code) {
        Ok(Errors::NoError) => Ok(true),
        Ok(Errors::IAmLeader) => Ok(false),
        Ok(e) => Err(HostError::Reported(e)),
        Err(_) => Err(HostError::UnknownError(code)),
    }
}

/// Slots of a contract that a call may not write.
#[derive(Debug)]
pub struct LockedSlotsSet(pub Vec<SlotID>);

impl LockedSlotsSet {
    /// Whether `slot` is locked.
    pub fn contains(&self, slot: SlotID) -> (r: bool)
        ensures
            r == exists|i: int| 0 <= i < self.0@.len() && #[trigger] self.0@[i].0@ == slot.0@,
    {
        let mut i: usize = 0;
        while i < self.0.len()
            invariant
                i <= self.0@.len(),
                forall|j: int| 0 <= j < i ==> #[trigger] self.0@[j].0@ != slot.0@,
            decreases self.0@.len() - i,
        {
            if slot_eq(&self.0[i], &slot) {
                return true;
            }
            i = i + 1;
        }
        false
    }
}

/// The locked slots as the contract's storage holds them: `count` slot ids
/// of 32 bytes each, one after the other.
pub fn decode_locked_slots(data: &[u8]) -> (r: LockedSlotsSet)
    requires
        data@.len() % 32 == 0,
    ensures
        r.0@.len() == data@.len() / 32,
        forall|i: int| 0 <= i < r.0@.len() ==> #[trigger] r.0@[i].0@ == data@.subrange(32 * i, 32 * i + 32),
{
    let n: usize = data.len() / 32;
    let mut out: Vec<SlotID> = Vec::new();
    let mut k: usize = 0;
    while k < n
        invariant
            n == data@.len() / 32,
            data@.len() % 32 == 0,
            data@.len() <= usize::MAX,
            k <= n,
            out@.len() == k,
            forall|i: int| 0 <= i < k ==> #[trigger] out@[i].0@ == data@.subrange(32 * i, 32 * i + 32),
        decreases n - k,
    {
        assert(32 * k + 32 <= data@.len()) by (nonlinear_arith)
            requires
                k < n,
                n == data@.len() / 32,
                data@.len() % 32 == 0,
        ;
        let base: usize = 32 * k;
        let mut slot: [u8; 32] = [0u8; 32];
        let mut j: usize = 0;
        while j < 32
            invariant
                j <= 32,
                base + 32 <= data@.len(),
                data@.len() <= usize::MAX,
                forall|t: int| 0 <= t < j ==> slot@[t] == data@[base + t],
            decreases 32 - j,
        {
            slot[j] = data[base + j];
            j = j + 1;
        }
        assert(slot@ =~= data@.subrange(32 * k, 32 * k + 32));
        out.push(SlotID(slot));
        k = k + 1;
    }
    LockedSlotsSet(out)
}

/// The upgraders of a contract as its storage holds them: addresses of 20
/// bytes each, one after the other.
pub fn decode_addresses(data: &[u8]) -> (r: Vec<Address>)
    requires
        data@.len() % 20 == 0,
    ensures
        r@.len() == data@.len() / 20,
        forall|i: int| 0 <= i < r@.len() ==> #[trigger] r@[i].0@ == data@.subrange(20 * i, 20 * i + 20),
{
    let n: usize = data.len() / 20;
    let mut out: Vec<Address> = Vec::new();
    let mut k: usize = 0;
    while k < n
        invariant
            n == data@.len() / 20,
            data@.len() % 20 == 0,
            data@.len() <= usize::MAX,
            k <= n,
            out@.len() == k,
            forall|i: int| 0 <= i < k ==> #[trigger] out@[i].0@ == data@.subrange(20 * i, 20 * i + 20),
        decreases n - k,
    {
        assert(20 * k + 20 <= data@.len()) by (nonlinear_arith)
            requires
                k < n,
                n == data@.len() / 20,
                data@.len() % 20 == 0,
        ;
        let base: usize = 20 * k;
        let mut addr: [u8; 20] = [0u8; 20];
        let mut j: usize = 0;
        while j < 20
            invariant
                j <= 20,
                base + 20 <= data@.len(),
                data@.len() <= usize::MAX,
                forall|t: int| 0 <= t < j ==> addr@[t] == data@[base + t],
            decreases 20 - j,
        {
            addr[j] = data[base + j];
            j = j + 1;
        }
        assert(addr@ =~= data@.subrange(20 * k, 20 * k + 20));
        out.push(Address(addr));
        k = k + 1;
    }
    out
}

/// Whether two slot ids are equal.
fn slot_eq(a: &SlotID, b: &SlotID) -> (r: bool)
    ensures
        r == (a.0@ == b.0@),
{
    let mut i: usize = 0;
    while i < 32
        invariant
            i <= 32,
            forall|j: int| 0 <= j < i ==> a.0@[j] == b.0@[j],
        decreases 32 - i,
    {
        if a.0[i] != b.0[i] {
            return false;
        }
        i = i + 1;
    }
    assert(a.0@ =~= b.0@);
    true
}

/// The slots a sender may not write: none when the sender is one of the
/// contract's upgraders, else the contract's locked slots.
pub fn locked_slots_for_sender(upgraders: &Vec<Address>, sender: &Address, locked: Vec<SlotID>) -> (r: LockedSlotsSet)
    ensures
        (exists|i: int| 0 <= i < upgraders@.len() && #[trigger] upgraders@[i].0@ == sender.0@) ==> r.0@.len() == 0,
        !(exists|i: int| 0 <= i < upgraders@.len() && #[trigger] upgraders@[i].0@ == sender.0@) ==> r.0@ == locked@,
{
    let mut i: usize = 0;
    while i < upgraders.len()
        invariant
            i <= upgraders@.len(),
            forall|j: int| 0 <= j < i ==> #[trigger] upgraders@[j].0@ != sender.0@,
        decreases upgraders@.len() - i,
    {
        if address_eq(&upgraders[i], sender) {
            return LockedSlotsSet(Vec::new());
        }
        i = i + 1;
    }
    LockedSlotsSet(locked)
}

/// Whether two addresses are equal.
fn address_eq(a: &Address, b: &Address) -> (r: bool)
    ensures
        r == (a.0@ == b.0@),
{
    let mut i: usize = 0;
    while i < 20
        invariant
            i <= 20,
            forall|j: int| 0 <= j < i ==> a.0@[j] == b.0@[j],
        decreases 20 - i,
    {
        if a.0[i] != b.0[i] {
            return false;
        }
        i = i + 1;
    }
    assert(a.0@ =~= b.0@);
    true
}

/// Reading back a `u32` written little-endian gives the number.
pub proof fn le32_round_trip(v: u32)
    ensures
        le32(v)[0] + 256 * le32(v)[1] + 65536 * le32(v)[2] + 16777216 * le32(v)[3] == v,
{
}

} // verus!
