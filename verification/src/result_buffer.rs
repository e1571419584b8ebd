//! The buffer through which a contract receives the answer of a host call:
//! the answer is stored whole, then read in chunks from a cursor. Storing an
//! answer costs one unit of fuel per 32 bytes, and every fuel charge takes
//! at least one unit.

use vstd::prelude::*;

use crate::host_protocol::push_all;

verus! {

/// The answer of the last host call and how much of it was read.
#[derive(Debug)]
pub struct ResultBuffer {
    result: Vec<u8>,
    cursor: usize,
}

impl ResultBuffer {
    /// The stored answer.
    pub closed spec fn data(&self) -> Seq<u8> {
        self.result@
    }

    /// How many bytes of the answer were read.
    pub closed spec fn cursor(&self) -> nat {
        self.cursor as nat
    }

    /// The buffer's invariant: the cursor never passes the end.
    pub closed spec fn wf(&self) -> bool {
        self.cursor <= self.result@.len()
    }

    /// An empty buffer.
    pub fn new() -> (r: Self)
        ensures
            r.wf(),
            r.data().len() == 0,
            r.cursor() == 0,
    {
        ResultBuffer { result: Vec::new(), cursor: 0 }
    }

    /// Stores a new answer and rewinds the cursor. Gives the answer's length
    /// and the fuel storing it costs (a unit per 32 bytes); `None` when the
    /// length does not fit in 32 bits (the answer is stored all the same).
    pub fn set_result(&mut self, data: Vec<u8>) -> (r: Option<(u32, u64)>)
        ensures
            final(self).wf(),
            final(self).data() == data@,
            final(self).cursor() == 0,
            data@.len() <= u32::MAX ==> r == Some(((data@.len() as u32), (data@.len() / 32) as u64)),
            data@.len() > u32::MAX ==> r is None,
    {
        let len = data.len();
        self.result = data;
        self.cursor = 0;
        if len > 0xFFFF_FFFF {
            return None;
        }
        let n = len as u32;
        Some((n, (n / 32) as u64))
    }

    /// Reads up to `len` bytes of the answer from the cursor on, and moves
    /// the cursor past them.
    pub fn read_result(&mut self, len: u32) -> (r: Vec<u8>)
        requires
            old(self).wf(),
        ensures
            final(self).wf(),
            final(self).data() == old(self).data(),
            ({
                let left = old(self).data().len() - old(self).cursor();
                let n = if left < len { left } else { len as int };
                &&& r@ == old(self).data().subrange(old(self).cursor() as int, old(self).cursor() + n)
                &&& final(self).cursor() == old(self).cursor() + n
            }),
    {
        let left = self.result.len() - self.cursor;
        let n = if left < len as usize {
            left
        } else {
            len as usize
        };
        let mut out: Vec<u8> = Vec::new();
        let start = self.cursor;
        let mut i: usize = 0;
        while i < n
            invariant
                i <= n,
                start + n <= self.result@.len(),
                self.result@.len() <= usize::MAX,
                out@ == self.result@.subrange(start as int, start + i),
            decreases n - i,
        {
            out.push(self.result[start + i]);
            assert(self.result@.subrange(start as int, start + i + 1) =~= self.result@.subrange(
                start as int,
                start + i,
            ).push(self.result@[start + i]));
            i = i + 1;
        }
        self.cursor = start + n;
        out
    }
}

/// The fuel left after a charge of `gas`: the charge is capped at the fuel
/// there is and is at least one unit.
pub fn fuel_after(old_fuel: u64, gas: u64) -> (r: u64)
    requires
        old_fuel >= 1,
    ensures
        r == old_fuel - (if gas > old_fuel {
            old_fuel as int
        } else if gas < 1 {
            1
        } else {
            gas as int
        }),
{
    let capped = if gas < old_fuel {
        gas
    } else {
        old_fuel
    };
    let consumed = if capped > 1 {
        capped
    } else {
        1
    };
    old_fuel - consumed
}

/// The entry point of a non-deterministic block's VM: `nondet!` followed by
/// the block's data.
pub fn nondet_entrypoint(data: &[u8]) -> (r: Vec<u8>)
    ensures
        r@ == seq![110u8, 111u8, 110u8, 100u8, 101u8, 116u8, 33u8] + data@,
{
    let mut out: Vec<u8> = Vec::new();
    out.push(110u8);
    out.push(111u8);
    out.push(110u8);
    out.push(100u8);
    out.push(101u8);
    out.push(116u8);
    out.push(33u8);
    push_all(&mut out, data);
    out
}

/// The entry point of a called contract's VM: `call!` followed by the
/// calldata.
pub fn call_entrypoint(calldata: &[u8]) -> (r: Vec<u8>)
    ensures
        r@ == seq![99u8, 97u8, 108u8, 108u8, 33u8] + calldata@,
{
    let mut out: Vec<u8> = Vec::new();
    out.push(99u8);
    out.push(97u8);
    out.push(108u8);
    out.push(108u8);
    out.push(33u8);
    push_all(&mut out, calldata);
    out
}

} // verus!
