//! Fee accounting: a list of 256-bit budgets ("buckets"), each kind of charge
//! (storage, message receipts, non-deterministic output, message fees, events)
//! drawing on one of them.
//!
//! What a charge costs is computed elsewhere, from the host's fee
//! expressions; here a cost is given and the buckets are debited: a charge
//! that a bucket cannot cover is refused and debits nothing.

use vstd::prelude::*;

use crate::consts::VmError;

verus! {

/// A 256-bit unsigned amount: four 64-bit limbs, least significant first
/// (the layout of `primitive_types::U256`).
#[derive(Debug, Clone, Copy, PartialEq, Eq, Hash)]
pub struct Amount(pub [u64; 4]);

/// The number four little-endian 64-bit limbs stand for.
pub open spec fn limbs_value(l: [u64; 4]) -> nat {
    (l[0] as nat) + (l[1] as nat) * 0x1_0000_0000_0000_0000nat + (l[2] as nat)
        * 0x1_0000_0000_0000_0000_0000_0000_0000_0000nat + (l[3] as nat)
        * 0x1_0000_0000_0000_0000_0000_0000_0000_0000_0000_0000_0000_0000nat
}

/// The largest value an [`Amount`] holds, `2^256 - 1`.
pub open spec fn amount_max() -> nat {
    0xffff_ffff_ffff_ffff_ffff_ffff_ffff_ffff_ffff_ffff_ffff_ffff_ffff_ffff_ffff_ffffnat
}

impl Amount {
    /// The number the amount stands for.
    pub open spec fn value(self) -> nat {
        limbs_value(self.0)
    }
}

/// The values of a list of amounts.
pub open spec fn values(v: Seq<Amount>) -> Seq<nat> {
    Seq::new(v.len(), |i: int| v[i].value())
}

/// `U256::checked_sub`: `a - b`, or `None` when `b` exceeds `a`.
#[verifier::external_body]
fn amount_checked_sub(a: Amount, b: Amount) -> (r: Option<Amount>)
    ensures
        b.value() <= a.value() ==> r is Some && r.unwrap().value() == a.value() - b.value(),
        b.value() > a.value() ==> r is None,
{
    primitive_types::U256(a.0).checked_sub(primitive_types::U256(b.0)).map(|d| Amount(d.0))
}

/// `U256::checked_add`: `a + b`, or `None` when the sum exceeds `2^256 - 1`.
#[verifier::external_body]
fn amount_checked_add(a: Amount, b: Amount) -> (r: Option<Amount>)
    ensures
        a.value() + b.value() <= amount_max() ==> r is Some && r.unwrap().value() == a.value()
            + b.value(),
        a.value() + b.value() > amount_max() ==> r is None,
{
    primitive_types::U256(a.0).checked_add(primitive_types::U256(b.0)).map(|s| Amount(s.0))
}

/// `U256 <= U256`: numeric order.
#[verifier::external_body]
fn amount_le(a: Amount, b: Amount) -> (r: bool)
    ensures
        r == (a.value() <= b.value()),
{
    primitive_types::U256(a.0) <= primitive_types::U256(b.0)
}

/// `U256 - U256` where no underflow can occur.
#[verifier::external_body]
pub(crate) fn amount_sub(a: Amount, b: Amount) -> (r: Amount)
    requires
        b.value() <= a.value(),
    ensures
        r.value() == a.value() - b.value(),
{
    Amount((primitive_types::U256(a.0) - primitive_types::U256(b.0)).0)
}

/// The number big-endian bytes stand for.
pub open spec fn be_value(b: Seq<u8>) -> nat
    decreases b.len(),
{
    if b.len() == 0 {
        0
    } else {
        be_value(b.drop_last()) * 256 + b.last() as nat
    }
}

/// `U256::from_big_endian`: the amount at most 32 big-endian bytes stand
/// for (shorter input is taken as if padded with leading zeros).
#[verifier::external_body]
fn amount_from_be(b: &[u8]) -> (r: Amount)
    requires
        b@.len() <= 32,
    ensures
        r.value() == be_value(b@),
{
    Amount(primitive_types::U256::from_big_endian(b).0)
}

/// Why the value of a fee expression is no fee.
#[derive(Debug, Clone, Copy, PartialEq, Eq, Structural)]
pub enum FeeCostError {
    /// The value is negative.
    Negative,
    /// The value does not fit in 256 bits.
    TooLarge,
}

/// The fee an integer value of a fee expression stands for, the integer
/// given by its sign and its big-endian magnitude: negative values and
/// magnitudes longer than 32 bytes are refused.
pub fn fee_cost_from_integer(negative: bool, magnitude: &[u8]) -> (r: Result<Amount, FeeCostError>)
    ensures
        negative ==> r == Err::<Amount, FeeCostError>(FeeCostError::Negative),
        !negative && magnitude@.len() > 32 ==> r == Err::<Amount, FeeCostError>(FeeCostError::TooLarge),
        !negative && magnitude@.len() <= 32 ==> (r matches Ok(a) && a.value() == be_value(magnitude@)),
{
    if negative {
        return Err(FeeCostError::Negative);
    }
    if magnitude.len() > 32 {
        return Err(FeeCostError::TooLarge);
    }
    Ok(amount_from_be(magnitude))
}

/// Why setting up the buckets failed.
#[derive(Debug, Clone)]
pub enum FeeError {
    /// A charge names a bucket past the end of the list.
    BucketOutOfRange { bucket_no: u8, buckets: usize },
    /// The up-front cost of a charge exceeds its bucket: the VM is out of
    /// the resource named by the error.
    StartExceedsTotal { bucket_no: u8, error: VmError },
}

/// Takes the up-front cost `start` of a kind of charge from bucket
/// `bucket_no`.
pub fn charge_start(bucket_totals: &mut Vec<Amount>, bucket_no: u8, start: Amount, oom_error: VmError) -> (r: Result<(), FeeError>)
    ensures
        (bucket_no as int) < old(bucket_totals)@.len() && start.value() <= old(bucket_totals)@[bucket_no as int].value() ==> r is Ok,
        r is Ok ==> (bucket_no as int) < old(bucket_totals)@.len() && start.value() <= old(bucket_totals)@[bucket_no as int].value(),
        r is Ok ==> values(final(bucket_totals)@) == values(old(bucket_totals)@).update(
            bucket_no as int,
            (old(bucket_totals)@[bucket_no as int].value() - start.value()) as nat,
        ),
        r is Err ==> final(bucket_totals)@ == old(bucket_totals)@,
        r matches Err(FeeError::BucketOutOfRange { bucket_no: b, buckets: n }) ==> b == bucket_no && n
            == old(bucket_totals)@.len() && bucket_no >= old(bucket_totals)@.len(),
        r matches Err(FeeError::StartExceedsTotal { bucket_no: b, error: e }) ==> b == bucket_no && e
            == oom_error && bucket_no < old(bucket_totals)@.len() && start.value() > old(
            bucket_totals,
        )@[bucket_no as int].value(),
{
    let num_buckets = bucket_totals.len();
    let idx = bucket_no as usize;
    if idx >= num_buckets {
        return Err(FeeError::BucketOutOfRange { bucket_no, buckets: num_buckets });
    }
    match amount_checked_sub(bucket_totals[idx], start) {
        Some(rest) => {
            bucket_totals.set(idx, rest);
            assert(values(bucket_totals@) =~= values(old(bucket_totals)@).update(
                bucket_no as int,
                (old(bucket_totals)@[bucket_no as int].value() - start.value()) as nat,
            ));
            Ok(())
        },
        None => Err(FeeError::StartExceedsTotal { bucket_no, error: oom_error }),
    }
}

/// A kind of charge: which bucket it draws on.
#[derive(Debug, Clone, Copy, PartialEq, Eq, Structural)]
pub struct Bucket {
    pub bucket_no: u8,
}

/// What a kind of charge costs up front, and which bucket pays.
#[derive(Debug, Clone)]
pub struct BucketStart {
    pub bucket_no: u8,
    pub start: Amount,
    /// The error reported when the bucket cannot cover `start`.
    pub oom_error: VmError,
}

/// The buckets of one execution, and the bucket of each kind of charge.
#[derive(Debug)]
pub struct DataLimit {
    buckets: Vec<Amount>,
    storage: Bucket,
    message_receipt: Bucket,
    nondet_output: Bucket,
    message_fee: Bucket,
    event: Bucket,
}

/// What remains after debiting `cost` from bucket `no`, if it can cover it.
pub open spec fn debit(b: Seq<nat>, no: int, cost: nat) -> Option<Seq<nat>> {
    if 0 <= no < b.len() && cost <= b[no] {
        Some(b.update(no, (b[no] - cost) as nat))
    } else {
        None
    }
}

/// What remains after a message's fee and receipt are both debited, if they
/// can be: from one bucket the sum (which must fit in 256 bits), else each
/// from its own.
pub open spec fn debit_message(b: Seq<nat>, fee_no: int, receipt_no: int, fee: nat, receipt: nat) -> Option<Seq<nat>> {
    if fee_no == receipt_no {
        if fee + receipt > amount_max() {
            None
        } else {
            debit(b, fee_no, fee + receipt)
        }
    } else if fee <= b[fee_no] && receipt <= b[receipt_no] {
        Some(b.update(fee_no, (b[fee_no] - fee) as nat).update(receipt_no, (b[receipt_no] - receipt) as nat))
    } else {
        None
    }
}

/// The buckets after a kind of charge pays its up-front cost, if they
/// still can.
pub open spec fn start_step(b: Option<Seq<nat>>, s: BucketStart) -> Option<Seq<nat>> {
    match b {
        Some(x) => debit(x, s.bucket_no as int, s.start.value()),
        None => None,
    }
}

/// The error of an up-front cost that the buckets `b` cannot pay.
pub open spec fn start_error(b: Seq<nat>, s: BucketStart) -> FeeError {
    if s.bucket_no >= b.len() {
        FeeError::BucketOutOfRange { bucket_no: s.bucket_no, buckets: b.len() as usize }
    } else {
        FeeError::StartExceedsTotal { bucket_no: s.bucket_no, error: s.oom_error }
    }
}

impl DataLimit {
    /// What every bucket still holds.
    pub closed spec fn remaining_values(&self) -> Seq<nat> {
        values(self.buckets@)
    }

    /// The bucket of each kind of charge: storage, message receipt,
    /// non-deterministic output, message fee, event.
    pub closed spec fn kinds(&self) -> (u8, u8, u8, u8, u8) {
        (
            self.storage.bucket_no,
            self.message_receipt.bucket_no,
            self.nondet_output.bucket_no,
            self.message_fee.bucket_no,
            self.event.bucket_no,
        )
    }

    /// Whether every kind of charge names an existing bucket.
    pub closed spec fn well_formed(&self) -> bool {
        &&& (self.storage.bucket_no as int) < self.buckets@.len()
        &&& (self.message_receipt.bucket_no as int) < self.buckets@.len()
        &&& (self.nondet_output.bucket_no as int) < self.buckets@.len()
        &&& (self.message_fee.bucket_no as int) < self.buckets@.len()
        &&& (self.event.bucket_no as int) < self.buckets@.len()
    }

    /// Sets up the buckets: each kind of charge, in the order storage,
    /// message receipt, non-deterministic output, message fee, event, pays
    /// its up-front cost from its bucket; the first that cannot fails the
    /// whole.
    pub fn new(
        bucket_totals: Vec<Amount>,
        storage: BucketStart,
        message_receipt: BucketStart,
        nondet_output: BucketStart,
        message_fee: BucketStart,
        event: BucketStart,
    ) -> (r: Result<DataLimit, FeeError>)
        ensures
            ({
                let b0 = values(bucket_totals@);
                let b1 = start_step(Some(b0), storage);
                let b2 = start_step(b1, message_receipt);
                let b3 = start_step(b2, nondet_output);
                let b4 = start_step(b3, message_fee);
                let b5 = start_step(b4, event);
                &&& r is Ok <==> b5 is Some
                &&& r matches Ok(d) ==> d.well_formed() && d.kinds() == (
                    storage.bucket_no,
                    message_receipt.bucket_no,
                    nondet_output.bucket_no,
                    message_fee.bucket_no,
                    event.bucket_no,
                ) && Some(d.remaining_values()) == b5
                &&& r matches Err(e) ==> e == if b1 is None {
                    start_error(b0, storage)
                } else if b2 is None {
                    start_error(b1.unwrap(), message_receipt)
                } else if b3 is None {
                    start_error(b2.unwrap(), nondet_output)
                } else if b4 is None {
                    start_error(b3.unwrap(), message_fee)
                } else {
                    start_error(b4.unwrap(), event)
                }
            }),
    {
        let mut totals = bucket_totals;
        let ghost b0 = values(totals@);
        match charge_start(&mut totals, storage.bucket_no, storage.start, storage.oom_error) {
            Ok(()) => {},
            Err(e) => return Err(e),
        }
        let ghost b1 = values(totals@);
        assert(debit(b0, storage.bucket_no as int, storage.start.value()) == Some(b1));
        match charge_start(&mut totals, message_receipt.bucket_no, message_receipt.start, message_receipt.oom_error) {
            Ok(()) => {},
            Err(e) => return Err(e),
        }
        let ghost b2 = values(totals@);
        assert(debit(b1, message_receipt.bucket_no as int, message_receipt.start.value()) == Some(b2));
        match charge_start(&mut totals, nondet_output.bucket_no, nondet_output.start, nondet_output.oom_error) {
            Ok(()) => {},
            Err(e) => return Err(e),
        }
        let ghost b3 = values(totals@);
        assert(debit(b2, nondet_output.bucket_no as int, nondet_output.start.value()) == Some(b3));
        match charge_start(&mut totals, message_fee.bucket_no, message_fee.start, message_fee.oom_error) {
            Ok(()) => {},
            Err(e) => return Err(e),
        }
        let ghost b4 = values(totals@);
        assert(debit(b3, message_fee.bucket_no as int, message_fee.start.value()) == Some(b4));
        match charge_start(&mut totals, event.bucket_no, event.start, event.oom_error) {
            Ok(()) => {},
            Err(e) => return Err(e),
        }
        let ghost b5 = values(totals@);
        assert(debit(b4, event.bucket_no as int, event.start.value()) == Some(b5));
        assert(b5.len() == b0.len());
        assert(totals@.len() == b5.len());
        Ok(DataLimit {
            buckets: totals,
            storage: Bucket { bucket_no: storage.bucket_no },
            message_receipt: Bucket { bucket_no: message_receipt.bucket_no },
            nondet_output: Bucket { bucket_no: nondet_output.bucket_no },
            message_fee: Bucket { bucket_no: message_fee.bucket_no },
            event: Bucket { bucket_no: event.bucket_no },
        })
    }

    /// What every bucket still holds.
    pub fn remaining(&self) -> (r: Vec<Amount>)
        ensures
            values(r@) == self.remaining_values(),
    {
        self.buckets.clone()
    }

    /// Debits `cost` from `bucket`; `false`, debiting nothing, when the
    /// bucket does not exist or cannot cover it.
    pub fn consume_bucket_raw(&mut self, bucket: Bucket, cost: Amount) -> (r: bool)
        ensures
            r == debit(old(self).remaining_values(), bucket.bucket_no as int, cost.value()) is Some,
            r ==> Some(final(self).remaining_values()) == debit(
                old(self).remaining_values(),
                bucket.bucket_no as int,
                cost.value(),
            ),
            !r ==> final(self).remaining_values() == old(self).remaining_values(),
            final(self).well_formed() == old(self).well_formed(),
            final(self).kinds() == old(self).kinds(),
    {
        let idx = bucket.bucket_no as usize;
        if idx >= self.buckets.len() {
            return false;
        }
        let remaining = self.buckets[idx];
        if amount_le(cost, remaining) {
            let rest = amount_sub(remaining, cost);
            self.buckets.set(idx, rest);
            assert(values(self.buckets@) =~= values(old(self).buckets@).update(
                idx as int,
                (remaining.value() - cost.value()) as nat,
            ));
            true
        } else {
            false
        }
    }

    /// Charges an event that costs `cost`: the cost when the event bucket
    /// covered it, `None` (debiting nothing) when it did not.
    pub fn consume_event(&mut self, cost: Amount) -> (r: Option<Amount>)
        ensures
            r is Some == debit(old(self).remaining_values(), old(self).kinds().4 as int, cost.value()) is Some,
            r matches Some(c) ==> c == cost && Some(final(self).remaining_values()) == debit(
                old(self).remaining_values(),
                old(self).kinds().4 as int,
                cost.value(),
            ),
            r is None ==> final(self).remaining_values() == old(self).remaining_values(),
            final(self).well_formed() == old(self).well_formed(),
            final(self).kinds() == old(self).kinds(),
    {
        let ev = self.event;
        if self.consume_bucket_raw(ev, cost) {
            Some(cost)
        } else {
            None
        }
    }

    /// Charges the storage bucket for changed pages costing `cost`;
    /// nothing is debited when the bucket cannot cover it.
    pub fn consume_storage_pages(&mut self, cost: Amount) -> (r: bool)
        ensures
            r == debit(old(self).remaining_values(), old(self).kinds().0 as int, cost.value()) is Some,
            r ==> Some(final(self).remaining_values()) == debit(
                old(self).remaining_values(),
                old(self).kinds().0 as int,
                cost.value(),
            ),
            !r ==> final(self).remaining_values() == old(self).remaining_values(),
            final(self).well_formed() == old(self).well_formed(),
            final(self).kinds() == old(self).kinds(),
    {
        let b = self.storage;
        self.consume_bucket_raw(b, cost)
    }

    /// Charges the non-deterministic output bucket for output costing
    /// `cost`; nothing is debited when the bucket cannot cover it.
    pub fn consume_nondet_output(&mut self, cost: Amount) -> (r: bool)
        ensures
            r == debit(old(self).remaining_values(), old(self).kinds().2 as int, cost.value()) is Some,
            r ==> Some(final(self).remaining_values()) == debit(
                old(self).remaining_values(),
                old(self).kinds().2 as int,
                cost.value(),
            ),
            !r ==> final(self).remaining_values() == old(self).remaining_values(),
            final(self).well_formed() == old(self).well_formed(),
            final(self).kinds() == old(self).kinds(),
    {
        let b = self.nondet_output;
        self.consume_bucket_raw(b, cost)
    }

    /// Debits a message's fee and receipt together: both or neither.
    pub fn consume_message_fee(&mut self, cost_fee: Amount, cost_receipt: Amount) -> (r: bool)
        requires
            old(self).well_formed(),
        ensures
            r == debit_message(
                old(self).remaining_values(),
                old(self).kinds().3 as int,
                old(self).kinds().1 as int,
                cost_fee.value(),
                cost_receipt.value(),
            ) is Some,
            r ==> Some(final(self).remaining_values()) == debit_message(
                old(self).remaining_values(),
                old(self).kinds().3 as int,
                old(self).kinds().1 as int,
                cost_fee.value(),
                cost_receipt.value(),
            ),
            !r ==> final(self).remaining_values() == old(self).remaining_values(),
            final(self).well_formed(),
            final(self).kinds() == old(self).kinds(),
    {
        let fee_no = self.message_fee.bucket_no as usize;
        let receipt_no = self.message_receipt.bucket_no as usize;
        if fee_no == receipt_no {
            let sum = match amount_checked_add(cost_fee, cost_receipt) {
                Some(s) => s,
                None => return false,
            };
            let b = self.message_fee;
            return self.consume_bucket_raw(b, sum);
        }
        if !amount_le(cost_fee, self.buckets[fee_no]) {
            return false;
        }
        if !amount_le(cost_receipt, self.buckets[receipt_no]) {
            return false;
        }
        let ghost b0 = values(self.buckets@);
        let f = amount_sub(self.buckets[fee_no], cost_fee);
        self.buckets.set(fee_no, f);
        let rcp = amount_sub(self.buckets[receipt_no], cost_receipt);
        self.buckets.set(receipt_no, rcp);
        assert(values(self.buckets@) =~= b0.update(fee_no as int, (b0[fee_no as int] - cost_fee.value()) as nat).update(
            receipt_no as int,
            (b0[receipt_no as int] - cost_receipt.value()) as nat,
        ));
        true
    }
}

/// Pays a message's fee out of the budget of the message-fee allocation node
/// it is sent from, and its fee and receipt out of the execution's buckets.
/// Nothing is paid when the fee exceeds the node's budget or the buckets
/// cannot cover both; else the buckets are debited and the fee leaves the
/// node's budget.
pub fn charge_message_from_node(
    limit: &mut DataLimit,
    node_budget: &mut Amount,
    fee_cost: Amount,
    receipt_cost: Amount,
) -> (r: bool)
    requires
        old(limit).well_formed(),
    ensures
        r <==> (fee_cost.value() <= old(node_budget).value() && debit_message(
            old(limit).remaining_values(),
            old(limit).kinds().3 as int,
            old(limit).kinds().1 as int,
            fee_cost.value(),
            receipt_cost.value(),
        ) is Some),
        r ==> Some(final(limit).remaining_values()) == debit_message(
            old(limit).remaining_values(),
            old(limit).kinds().3 as int,
            old(limit).kinds().1 as int,
            fee_cost.value(),
            receipt_cost.value(),
        ),
        r ==> final(node_budget).value() == old(node_budget).value() - fee_cost.value(),
        !r ==> final(limit).remaining_values() == old(limit).remaining_values(),
        !r ==> *final(node_budget) == *old(node_budget),
        final(limit).kinds() == old(limit).kinds(),
        final(limit).well_formed(),
{
    if !amount_le(fee_cost, *node_budget) {
        return false;
    }
    if !limit.consume_message_fee(fee_cost, receipt_cost) {
        return false;
    }
    *node_budget = amount_sub(*node_budget, fee_cost);
    true
}

/// A charge never adds to a bucket, and it takes from no bucket but its own.
pub proof fn debit_only_takes(b: Seq<nat>, no: int, cost: nat)
    requires
        debit(b, no, cost) is Some,
    ensures
        debit(b, no, cost).unwrap().len() == b.len(),
        forall|i: int| 0 <= i < b.len() && i != no ==> debit(b, no, cost).unwrap()[i] == b[i],
        debit(b, no, cost).unwrap()[no] + cost == b[no],
{
}

/// Two charges on one bucket succeed exactly when one charge of their sum
/// does, and leave the same amounts.
pub proof fn debit_in_two_steps(b: Seq<nat>, no: int, a: nat, c: nat)
    ensures
        (debit(b, no, a) is Some && debit(debit(b, no, a).unwrap(), no, c) is Some) == debit(b, no, a + c) is Some,
        debit(b, no, a + c) is Some ==> debit(debit(b, no, a).unwrap(), no, c) == debit(b, no, a + c),
{
    if debit(b, no, a + c) is Some {
        assert(debit(debit(b, no, a).unwrap(), no, c).unwrap() =~= debit(b, no, a + c).unwrap());
    }
}

/// A message whose fee and receipt are paid from two buckets is charged
/// as the two charges one after the other.
pub proof fn message_fee_is_two_charges(b: Seq<nat>, fee_no: int, receipt_no: int, fee: nat, receipt: nat)
    requires
        fee_no != receipt_no,
        0 <= fee_no < b.len(),
        0 <= receipt_no < b.len(),
    ensures
        debit_message(b, fee_no, receipt_no, fee, receipt) == (match debit(b, fee_no, fee) {
            Some(b1) => debit(b1, receipt_no, receipt),
            None => None,
        }),
{
    if debit(b, fee_no, fee) is Some && debit(debit(b, fee_no, fee).unwrap(), receipt_no, receipt) is Some {
        assert(debit_message(b, fee_no, receipt_no, fee, receipt).unwrap() =~= debit(
            debit(b, fee_no, fee).unwrap(),
            receipt_no,
            receipt,
        ).unwrap());
    }
}

} // verus!
