//! Accounting of the memory a VM may still allocate.
//!
//! A limiter starts with `u32::MAX` bytes; each allocation consumes from it
//! and fails, without consuming anything, once it would go below zero. The
//! remaining amount can be saved and restored, to undo what a rolled-back
//! call consumed.

use vstd::prelude::*;

verus! {

/// A memory budget. There is one budget per limiter value, and the type
/// cannot be cloned into a second one: everything that draws on the same
/// budget holds the same limiter (by reference, or behind whatever shared
/// handle its owner keeps), so every consumption and every restore is seen
/// by all of them.
#[derive(Debug)]
pub struct Limiter {
    id: &'static str,
    remaining_memory: u32,
}

/// The remaining amount of a limiter at the time it was saved.
#[derive(Debug, Clone, Copy)]
pub struct SaveTok {
    remaining_memory: u32,
}

impl SaveTok {
    /// The amount the token brings back.
    pub closed spec fn amount(self) -> u32 {
        self.remaining_memory
    }
}

/// What a consumption of `delta` does to `remaining`: whether it succeeds,
/// and what is left afterwards.
pub open spec fn consume_result(remaining: u32, delta: u32) -> (bool, u32) {
    if delta > remaining {
        (false, remaining)
    } else {
        (true, (remaining - delta) as u32)
    }
}

/// What a consumption of `delta * multiplier` does to `remaining`; a product
/// that does not fit in 32 bits fails.
pub open spec fn consume_mul_result(remaining: u32, delta: u32, multiplier: u32) -> (bool, u32) {
    if delta * multiplier > u32::MAX {
        (false, remaining)
    } else {
        consume_result(remaining, (delta * multiplier) as u32)
    }
}

impl Limiter {
    /// Bytes that may still be allocated.
    pub closed spec fn remaining(&self) -> u32 {
        self.remaining_memory
    }

    /// The limiter's name.
    pub closed spec fn name(&self) -> Seq<char> {
        self.id@
    }

    /// A limiter named `id` with the whole budget of `u32::MAX` bytes.
    pub fn new(id: &'static str) -> (r: Self)
        ensures
            r.remaining() == u32::MAX,
            r.name() == id@,
    {
        Limiter { id, remaining_memory: u32::MAX }
    }

    /// Remembers the remaining amount.
    pub fn save(&self) -> (tok: SaveTok)
        ensures
            tok.amount() == self.remaining(),
    {
        SaveTok { remaining_memory: self.remaining_memory }
    }

    /// Sets the remaining amount back to what `tok` remembers.
    pub fn restore(&mut self, tok: SaveTok)
        ensures
            final(self).remaining() == tok.amount(),
            final(self).name() == old(self).name(),
    {
        self.remaining_memory = tok.remaining_memory;
    }

    /// Consumes `delta * multiplier` bytes; `false`, with nothing consumed,
    /// when the product overflows or exceeds what remains.
    pub fn consume_mul(&mut self, delta: u32, multiplier: u32, is_permanent: bool) -> (r: bool)
        ensures
            (r, final(self).remaining()) == consume_mul_result(old(self).remaining(), delta, multiplier),
            final(self).name() == old(self).name(),
    {
        let delta = match delta.checked_mul(multiplier) {
            Some(delta) => delta,
            None => return false,
        };
        self.consume(delta, is_permanent)
    }

    /// Consumes `delta` bytes; `false`, with nothing consumed, when more than
    /// what remains is asked for.
    pub fn consume(&mut self, delta: u32, _is_permanent: bool) -> (r: bool)
        ensures
            (r, final(self).remaining()) == consume_result(old(self).remaining(), delta),
            final(self).name() == old(self).name(),
    {
        let remaining = self.remaining_memory;
        if delta > remaining {
            return false;
        }
        self.remaining_memory = remaining - delta;
        true
    }
}

/// Consuming never adds memory, and a refused consumption changes nothing.
pub proof fn consume_never_grows(remaining: u32, delta: u32)
    ensures
        consume_result(remaining, delta).1 <= remaining,
        !consume_result(remaining, delta).0 ==> consume_result(remaining, delta).1 == remaining,
        consume_result(remaining, delta).0 ==> consume_result(remaining, delta).1 == remaining - delta,
{
}

/// Consuming `a` and then `b` succeeds exactly when consuming `a + b` at once
/// does, and leaves the same amount.
pub proof fn consume_in_two_steps(remaining: u32, a: u32, b: u32)
    requires
        a + b <= u32::MAX,
    ensures
        ({
            let (ok1, r1) = consume_result(remaining, a);
            let (ok2, r2) = consume_result(r1, b);
            let (ok, r) = consume_result(remaining, (a + b) as u32);
            (ok1 && ok2) == ok && (ok ==> r2 == r)
        }),
{
}

/// Restoring the token a save gave brings the limiter back to the amount it
/// had at the save, whatever was consumed in between.
pub proof fn restore_undoes_consumption(at_save: Limiter, tok: SaveTok, restored: Limiter)
    requires
        tok.amount() == at_save.remaining(),
        restored.remaining() == tok.amount(),
    ensures
        restored.remaining() == at_save.remaining(),
{
}

} // verus!
