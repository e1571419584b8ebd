//! The interface between the older GenVM runtime and its node: 32-byte
//! addresses, storage slots, gas, run results, the node's storage and
//! non-determinism services, and an in-memory storage for tests and the
//! mock node.

use vstd::prelude::*;

pub use crate::vm::{decode_utf8, DecodeUtf8, InvalidSequence};

verus! {

/// A 32-byte account address or slot key.
#[derive(Debug, PartialEq, Eq, Clone, Copy, Hash)]
pub struct Address(pub [u8; 32]);

impl Address {
    pub fn raw(&self) -> (r: [u8; 32])
        ensures
            r == self.0,
    {
        self.0
    }

    /// The all-zero address.
    pub fn new() -> (r: Self)
        ensures
            forall|i: int| 0 <= i < 32 ==> r.0[i] == 0,
    {
        Address([0u8; 32])
    }

    pub fn len() -> (r: usize)
        ensures
            r == 32,
    {
        32
    }
}

/// A storage slot: the account and the slot's key.
#[derive(Debug, Clone, Copy)]
pub struct StorageSlot {
    pub account: Address,
    pub slot: Address,
}

/// Gas left.
#[derive(Debug)]
pub struct Gas(pub u64);

impl Gas {
    pub fn raw(&self) -> (r: u64)
        ensures
            r == self.0,
    {
        self.0
    }

    /// Takes `by` from the gas, stopping at zero.
    pub fn decrement_by(&mut self, by: u64)
        ensures
            final(self).0 == if by >= old(self).0 { 0 } else { old(self).0 - by },
    {
        if by >= self.0 {
            self.0 = 0
        } else {
            self.0 = self.0 - by
        }
    }
}

/// How a run ended.
#[derive(Debug)]
pub enum VMRunResult {
    Return(Vec<u8>),
    Rollback(String),
    Error(String),
}

impl VMRunResult {
    /// How the result is shown: returned bytes as escaped text, messages
    /// quoted.
    pub fn debug_text(&self) -> (r: String)
        ensures
            r@ == match self {
                VMRunResult::Return(v) => seq!['R', 'e', 't', 'u', 'r', 'n', '(', '"'] + crate::vm::escape_all(
                    crate::vm::decode_all(v@),
                ) + seq!['"', ')'],
                VMRunResult::Rollback(s) => "Rollback("@ + crate::text::debug_str(s@) + ")"@,
                VMRunResult::Error(s) => "Error("@ + crate::text::debug_str(s@) + ")"@,
            },
    {
        match self {
            VMRunResult::Return(v) => crate::vm::escape_return(v.as_slice()),
            VMRunResult::Rollback(s) => {
                let d = crate::text::debug_string(s.as_str());
                let a = crate::text::concat_str("Rollback(", d.as_str());
                crate::text::concat_str(a.as_str(), ")")
            },
            VMRunResult::Error(s) => {
                let d = crate::text::debug_string(s.as_str());
                let a = crate::text::concat_str("Error(", d.as_str());
                crate::text::concat_str(a.as_str(), ")")
            },
        }
    }
}

/// The language a runner is asked for.
#[derive(Debug)]
pub struct RunnerDescription {
    pub lang: String,
}

/// The node's storage, as a VM reads and writes it. Implemented by the node.
pub trait StorageApi {
    fn storage_read(&mut self, remaing_gas: &mut Gas, slot: StorageSlot, index: u32, buf: &mut [u8]) -> Result<(), String>;

    fn storage_write(&mut self, remaing_gas: &mut Gas, slot: StorageSlot, index: u32, buf: &[u8]) -> Result<(), String>;
}

/// The leader's results of non-deterministic blocks. Implemented by the node.
pub trait NondetSupportApi {
    fn get_leader_result(&mut self, call_no: u32) -> Result<Option<VMRunResult>, String>;
}

/// An account of the mock node: the path of its code, if it has any.
#[derive(Debug, Clone)]
pub struct FakeAccount {
    pub code: Option<String>,
}

/// The bytes of a slot after a write of `data` at `index`: the slot grown
/// with zeros to reach the end of the write, then overwritten there.
pub open spec fn slot_after_write(slot: Seq<u8>, index: int, data: Seq<u8>) -> Seq<u8> {
    let len = if index + data.len() > slot.len() { index + data.len() } else { slot.len() as int };
    Seq::new(
        len as nat,
        |i: int|
            if index <= i < index + data.len() {
                data[i - index]
            } else if i < slot.len() {
                slot[i]
            } else {
                0u8
            },
    )
}

/// The slot grown with zeros to at least `len` bytes.
pub open spec fn slot_grown(slot: Seq<u8>, len: int) -> Seq<u8> {
    if len > slot.len() {
        slot + Seq::new((len - slot.len()) as nat, |i: int| 0u8)
    } else {
        slot
    }
}

/// In-memory storage of the mock node: the bytes of each slot.
#[derive(Debug)]
pub struct FakeStorage {
    pub slots: Vec<(StorageSlot, Vec<u8>)>,
}

/// Grows `v` with zeros to `len` bytes.
fn grow(v: &mut Vec<u8>, len: usize)
    ensures
        final(v)@ == slot_grown(old(v)@, len as int),
{
    let ghost start = v@;
    while v.len() < len
        invariant
            v@.len() >= start.len(),
            v@.len() <= if len > start.len() { len as int } else { start.len() as int },
            v@.subrange(0, start.len() as int) == start,
            forall|i: int| start.len() <= i < v@.len() ==> v@[i] == 0u8,
        decreases len - v@.len(),
    {
        v.push(0u8);
    }
    assert(v@ =~= slot_grown(start, len as int));
}

/// Whether two storage slots are the same.
fn same_slot(a: &StorageSlot, b: &StorageSlot) -> (r: bool)
    ensures
        r == (a.account.0@ == b.account.0@ && a.slot.0@ == b.slot.0@),
{
    let mut i: usize = 0;
    while i < 32
        invariant
            i <= 32,
            forall|j: int| 0 <= j < i ==> a.account.0@[j] == b.account.0@[j] && a.slot.0@[j] == b.slot.0@[j],
        decreases 32 - i,
    {
        if a.account.0[i] != b.account.0[i] || a.slot.0[i] != b.slot.0[i] {
            return false;
        }
        i = i + 1;
    }
    assert(a.account.0@ =~= b.account.0@);
    assert(a.slot.0@ =~= b.slot.0@);
    true
}

impl FakeStorage {
    /// The bytes the storage holds for a slot (none if it never saw it).
    pub open spec fn slot_bytes(&self, slot: StorageSlot) -> Seq<u8>
        decreases self.slots@.len(),
    {
        slot_bytes_in(self.slots@, slot)
    }

    /// Index of the slot's entry, adding an empty one if there is none.
    fn entry(&mut self, slot: StorageSlot) -> (r: usize)
        ensures
            r < final(self).slots@.len(),
            final(self).slots@[r as int].0.account.0@ == slot.account.0@,
            final(self).slots@[r as int].0.slot.0@ == slot.slot.0@,
            final(self).slots@[r as int].1@ == slot_bytes_in(old(self).slots@, slot),
            forall|s: StorageSlot| #[trigger] slot_bytes_in(final(self).slots@, s) == slot_bytes_in(old(self).slots@, s),
            forall|i: int| 0 <= i < r ==> !same_key(final(self).slots@[i].0, slot),
    {
        let mut i: usize = 0;
        assert(self.slots@.skip(0) =~= self.slots@);
        while i < self.slots.len()
            invariant
                i <= self.slots@.len(),
                self.slots@ == old(self).slots@,
                forall|j: int| 0 <= j < i ==> !same_key(self.slots@[j].0, slot),
                slot_bytes_in(self.slots@, slot) == slot_bytes_in(self.slots@.skip(i as int), slot),
            decreases self.slots@.len() - i,
        {
            proof {
                assert(self.slots@.skip(i as int)[0] == self.slots@[i as int]);
                assert(self.slots@.skip(i as int).skip(1) =~= self.slots@.skip(i + 1));
            }
            if same_slot(&self.slots[i].0, &slot) {
                return i;
            }
            i = i + 1;
        }
        self.slots.push((slot, Vec::new()));
        proof {
            lemma_slot_bytes_push(old(self).slots@, self.slots@.last());
            assert(self.slots@ =~= old(self).slots@.push(self.slots@.last()));
        }
        i
    }

    /// Reads bytes `index ..` of a slot into `buf`; the slot grows with zeros
    /// to cover the read, as the mock node does.
    pub fn storage_read(&mut self, slot: StorageSlot, index: u32, buf: &mut [u8])
        requires
            index + old(buf)@.len() <= usize::MAX,
        ensures
            final(buf)@ == slot_grown(old(self).slot_bytes(slot), index + old(buf)@.len()).subrange(
                index as int,
                index + old(buf)@.len(),
            ),
    {
        let e = self.entry(slot);
        let n = buf.len();
        let end = index as usize + n;
        let mut bytes = self.slots[e].1.clone();
        grow(&mut bytes, end);
        let mut i: usize = 0;
        while i < n
            invariant
                i <= n,
                n == buf@.len(),
                end == index + n,
                bytes@.len() >= end,
                forall|j: int| 0 <= j < i ==> buf@[j] == bytes@[index + j],
            decreases n - i,
        {
            buf[i] = bytes[index as usize + i];
            i = i + 1;
        }
        let ghost b = bytes@;
        self.slots.set(e, (slot, bytes));
        assert(buf@ =~= b.subrange(index as int, index + n));
    }

    /// Writes `buf` at bytes `index ..` of a slot (see [`slot_after_write`]).
    pub fn storage_write(&mut self, slot: StorageSlot, index: u32, buf: &[u8])
        requires
            index + buf@.len() <= usize::MAX,
        ensures
            final(self).slot_bytes(slot) == slot_after_write(old(self).slot_bytes(slot), index as int, buf@),
    {
        let e = self.entry(slot);
        let ghost mid = self.slots@;
        let n = buf.len();
        let end = index as usize + n;
        let mut bytes = self.slots[e].1.clone();
        let ghost before = bytes@;
        grow(&mut bytes, end);
        let mut i: usize = 0;
        while i < n
            invariant
                i <= n,
                n == buf@.len(),
                end == index + n,
                bytes@.len() == slot_grown(before, end as int).len(),
                forall|j: int|
                    0 <= j < bytes@.len() ==> #[trigger] bytes@[j] == if index <= j < index + i {
                        buf@[j - index]
                    } else {
                        slot_grown(before, end as int)[j]
                    },
            decreases n - i,
        {
            bytes.set(index as usize + i, buf[i]);
            i = i + 1;
        }
        assert(bytes@ =~= slot_after_write(before, index as int, buf@));
        self.slots.set(e, (slot, bytes));
        proof {
            lemma_slot_bytes_set(mid, self.slots@, e as int, slot);
        }
    }
}

/// Whether two storage slots name the same bytes.
pub open spec fn same_key(a: StorageSlot, b: StorageSlot) -> bool {
    a.account.0@ == b.account.0@ && a.slot.0@ == b.slot.0@
}

/// The bytes of the first entry for a slot in a list of entries.
pub open spec fn slot_bytes_in(v: Seq<(StorageSlot, Vec<u8>)>, slot: StorageSlot) -> Seq<u8>
    decreases v.len(),
{
    if v.len() == 0 {
        Seq::empty()
    } else if same_key(v[0].0, slot) {
        v[0].1@
    } else {
        slot_bytes_in(v.skip(1), slot)
    }
}

/// Adding an empty entry at the end changes no slot's bytes.
pub proof fn lemma_slot_bytes_push(v: Seq<(StorageSlot, Vec<u8>)>, e: (StorageSlot, Vec<u8>))
    requires
        e.1@.len() == 0,
    ensures
        forall|s: StorageSlot| #[trigger] slot_bytes_in(v.push(e), s) == slot_bytes_in(v, s),
    decreases v.len(),
{
    if v.len() > 0 {
        lemma_slot_bytes_push(v.skip(1), e);
        assert(v.push(e).skip(1) =~= v.skip(1).push(e));
    }
    assert forall|s: StorageSlot| #[trigger] slot_bytes_in(v.push(e), s) == slot_bytes_in(v, s) by {
        if v.len() > 0 {
            assert(v.push(e)[0] == v[0]);
            if same_key(v[0].0, s) {
                assert(slot_bytes_in(v.push(e), s) == v[0].1@);
            } else {
                assert(slot_bytes_in(v.push(e), s) == slot_bytes_in(v.push(e).skip(1), s));
                assert(slot_bytes_in(v.skip(1).push(e), s) == slot_bytes_in(v.skip(1), s));
            }
        } else {
            let single = v.push(e);
            assert(single.skip(1) =~= Seq::<(StorageSlot, Vec<u8>)>::empty());
            assert(e.1@ =~= Seq::<u8>::empty());
            assert(single[0] == e);
            assert(slot_bytes_in(single.skip(1), s) =~= Seq::<u8>::empty());
            assert(slot_bytes_in(single, s) =~= Seq::<u8>::empty());
            assert(slot_bytes_in(v, s) =~= Seq::<u8>::empty());
        }
    }
}

/// Replacing the bytes of the first entry for `slot` changes that slot's
/// bytes only.
pub proof fn lemma_slot_bytes_set(v: Seq<(StorageSlot, Vec<u8>)>, w: Seq<(StorageSlot, Vec<u8>)>, e: int, slot: StorageSlot)
    requires
        0 <= e < v.len(),
        w.len() == v.len(),
        same_key(w[e].0, slot),
        forall|i: int| 0 <= i < e ==> !same_key(v[i].0, slot),
        forall|i: int| 0 <= i < v.len() && i != e ==> w[i] == v[i],
    ensures
        slot_bytes_in(w, slot) == w[e].1@,
    decreases e,
{
    if e > 0 {
        assert(!same_key(w[0].0, slot)) by {
            assert(w[0] == v[0]);
        }
        lemma_slot_bytes_set(v.skip(1), w.skip(1), e - 1, slot);
    }
}

/// Read after write on the mock storage: reading the bytes just written
/// gives them back.
pub proof fn fake_read_after_write(slot: Seq<u8>, index: int, data: Seq<u8>)
    requires
        0 <= index,
    ensures
        slot_grown(slot_after_write(slot, index, data), index + data.len()).subrange(index, index + data.len())
            == data,
{
    let w = slot_after_write(slot, index, data);
    assert(slot_grown(w, index + data.len()) == w);
    assert(w.subrange(index, index + data.len()) =~= data);
}

} // verus!
