//! The executor's side of the host protocol: request and error numbers,
//! the host's result codes, and the fixed-size identifiers of accounts and
//! storage slots.

use vstd::prelude::*;

verus! {

/// Requests the executor sends to its host.
#[derive(Debug, PartialEq, Eq, Structural, Clone, Copy)]
pub enum Methods {
    StorageRead,
    StorageWrite,
    ConsumeFuel,
    EthCall,
    GetBalance,
    RemainingFuelAsGen,
    NotifyNondetDisagreement,
    GetLeaderNondetResult,
    ConsumeResult,
}

impl Methods {
    /// Wire number of each variant.
    pub open spec fn spec_value(self) -> u8 {
        match self {
            Methods::StorageRead => 0,
            Methods::StorageWrite => 1,
            Methods::ConsumeFuel => 2,
            Methods::EthCall => 3,
            Methods::GetBalance => 4,
            Methods::RemainingFuelAsGen => 5,
            Methods::NotifyNondetDisagreement => 6,
            Methods::GetLeaderNondetResult => 7,
            Methods::ConsumeResult => 8,
        }
    }

    /// Snake-case name of each variant.
    pub open spec fn spec_snake_case(self) -> Seq<char> {
        match self {
            Methods::StorageRead => "storage_read"@,
            Methods::StorageWrite => "storage_write"@,
            Methods::ConsumeFuel => "consume_fuel"@,
            Methods::EthCall => "eth_call"@,
            Methods::GetBalance => "get_balance"@,
            Methods::RemainingFuelAsGen => "remaining_fuel_as_gen"@,
            Methods::NotifyNondetDisagreement => "notify_nondet_disagreement"@,
            Methods::GetLeaderNondetResult => "get_leader_nondet_result"@,
            Methods::ConsumeResult => "consume_result"@,
        }
    }

    /// Variant with a given wire number, if there is one.
    pub open spec fn spec_from_u8(v: u8) -> Option<Methods> {
        if v == 0 {
            Some(Methods::StorageRead)
        } else if v == 1 {
            Some(Methods::StorageWrite)
        } else if v == 2 {
            Some(Methods::ConsumeFuel)
        } else if v == 3 {
            Some(Methods::EthCall)
        } else if v == 4 {
            Some(Methods::GetBalance)
        } else if v == 5 {
            Some(Methods::RemainingFuelAsGen)
        } else if v == 6 {
            Some(Methods::NotifyNondetDisagreement)
        } else if v == 7 {
            Some(Methods::GetLeaderNondetResult)
        } else if v == 8 {
            Some(Methods::ConsumeResult)
        } else {
            None
        }
    }

    pub fn value(self) -> (r: u8)
        ensures
            r == self.spec_value(),
    {
        match self {
            Methods::StorageRead => 0,
            Methods::StorageWrite => 1,
            Methods::ConsumeFuel => 2,
            Methods::EthCall => 3,
            Methods::GetBalance => 4,
            Methods::RemainingFuelAsGen => 5,
            Methods::NotifyNondetDisagreement => 6,
            Methods::GetLeaderNondetResult => 7,
            Methods::ConsumeResult => 8,
        }
    }

    pub fn str_snake_case(self) -> (r: &'static str)
        ensures
            r@ == self.spec_snake_case(),
    {
        match self {
            Methods::StorageRead => "storage_read",
            Methods::StorageWrite => "storage_write",
            Methods::ConsumeFuel => "consume_fuel",
            Methods::EthCall => "eth_call",
            Methods::GetBalance => "get_balance",
            Methods::RemainingFuelAsGen => "remaining_fuel_as_gen",
            Methods::NotifyNondetDisagreement => "notify_nondet_disagreement",
            Methods::GetLeaderNondetResult => "get_leader_nondet_result",
            Methods::ConsumeResult => "consume_result",
        }
    }
}

impl TryFrom<u8> for Methods {
    type Error = ();

    fn try_from(value: u8) -> (r: Result<Self, ()>) {
        match value {
            0 => Ok(Methods::StorageRead),
            1 => Ok(Methods::StorageWrite),
            2 => Ok(Methods::ConsumeFuel),
            3 => Ok(Methods::EthCall),
            4 => Ok(Methods::GetBalance),
            5 => Ok(Methods::RemainingFuelAsGen),
            6 => Ok(Methods::NotifyNondetDisagreement),
            7 => Ok(Methods::GetLeaderNondetResult),
            8 => Ok(Methods::ConsumeResult),
            _ => Err(()),
        }
    }
}

impl vstd::std_specs::convert::TryFromSpecImpl<u8> for Methods {
    open spec fn obeys_try_from_spec() -> bool {
        true
    }

    open spec fn try_from_spec(v: u8) -> Result<Self, ()> {
        match Methods::spec_from_u8(v) {
            Some(c) => Ok(c),
            None => Err(()),
        }
    }
}

/// Status codes the host answers with.
#[derive(Debug, PartialEq, Eq, Structural, Clone, Copy)]
pub enum Errors {
    NoError,
    Absent,
    Forbidden,
    IAmLeader,
    OutOfStorageGas,
}

impl Errors {
    /// Wire number of each variant.
    pub open spec fn spec_value(self) -> u8 {
        match self {
            Errors::NoError => 0,
            Errors::Absent => 1,
            Errors::Forbidden => 2,
            Errors::IAmLeader => 3,
            Errors::OutOfStorageGas => 4,
        }
    }

    /// Snake-case name of each variant.
    pub open spec fn spec_snake_case(self) -> Seq<char> {
        match self {
            Errors::NoError => "ok"@,
            Errors::Absent => "absent"@,
            Errors::Forbidden => "forbidden"@,
            Errors::IAmLeader => "i_am_leader"@,
            Errors::OutOfStorageGas => "out_of_storage_gas"@,
        }
    }

    /// Variant with a given wire number, if there is one.
    pub open spec fn spec_from_u8(v: u8) -> Option<Errors> {
        if v == 0 {
            Some(Errors::NoError)
        } else if v == 1 {
            Some(Errors::Absent)
        } else if v == 2 {
            Some(Errors::Forbidden)
        } else if v == 3 {
            Some(Errors::IAmLeader)
        } else if v == 4 {
            Some(Errors::OutOfStorageGas)
        } else {
            None
        }
    }

    pub fn value(self) -> (r: u8)
        ensures
            r == self.spec_value(),
    {
        match self {
            Errors::NoError => 0,
            Errors::Absent => 1,
            Errors::Forbidden => 2,
            Errors::IAmLeader => 3,
            Errors::OutOfStorageGas => 4,
        }
    }

    pub fn str_snake_case(self) -> (r: &'static str)
        ensures
            r@ == self.spec_snake_case(),
    {
        match self {
            Errors::NoError => "ok",
            Errors::Absent => "absent",
            Errors::Forbidden => "forbidden",
            Errors::IAmLeader => "i_am_leader",
            Errors::OutOfStorageGas => "out_of_storage_gas",
        }
    }
}

impl TryFrom<u8> for Errors {
    type Error = ();

    fn try_from(value: u8) -> (r: Result<Self, ()>) {
        match value {
            0 => Ok(Errors::NoError),
            1 => Ok(Errors::Absent),
            2 => Ok(Errors::Forbidden),
            3 => Ok(Errors::IAmLeader),
            4 => Ok(Errors::OutOfStorageGas),
            _ => Err(()),
        }
    }
}

impl vstd::std_specs::convert::TryFromSpecImpl<u8> for Errors {
    open spec fn obeys_try_from_spec() -> bool {
        true
    }

    open spec fn try_from_spec(v: u8) -> Result<Self, ()> {
        match Errors::spec_from_u8(v) {
            Some(c) => Ok(c),
            None => Err(()),
        }
    }
}


/// How a call into the host ended, as the host reports it.
#[derive(Debug, PartialEq, Eq, Structural, Clone, Copy)]
pub enum ResultCode {
    Return,
    Rollback,
    Nothing,
    Error,
    ContractError,
}

impl ResultCode {
    /// Wire number of each variant.
    pub open spec fn spec_value(self) -> u8 {
        match self {
            ResultCode::Return => 0,
            ResultCode::Rollback => 1,
            ResultCode::Nothing => 2,
            ResultCode::Error => 3,
            ResultCode::ContractError => 4,
        }
    }

    /// Variant with a given wire number, if there is one.
    pub open spec fn spec_from_u8(v: u8) -> Option<ResultCode> {
        if v == 0 {
            Some(ResultCode::Return)
        } else if v == 1 {
            Some(ResultCode::Rollback)
        } else if v == 2 {
            Some(ResultCode::Nothing)
        } else if v == 3 {
            Some(ResultCode::Error)
        } else if v == 4 {
            Some(ResultCode::ContractError)
        } else {
            None
        }
    }

    pub fn value(self) -> (r: u8)
        ensures
            r == self.spec_value(),
    {
        match self {
            ResultCode::Return => 0,
            ResultCode::Rollback => 1,
            ResultCode::Nothing => 2,
            ResultCode::Error => 3,
            ResultCode::ContractError => 4,
        }
    }
}

impl TryFrom<u8> for ResultCode {
    type Error = ();

    fn try_from(value: u8) -> (r: Result<Self, ()>) {
        match value {
            0 => Ok(ResultCode::Return),
            1 => Ok(ResultCode::Rollback),
            2 => Ok(ResultCode::Nothing),
            3 => Ok(ResultCode::Error),
            4 => Ok(ResultCode::ContractError),
            _ => Err(()),
        }
    }
}

impl vstd::std_specs::convert::TryFromSpecImpl<u8> for ResultCode {
    open spec fn obeys_try_from_spec() -> bool {
        true
    }

    open spec fn try_from_spec(v: u8) -> Result<Self, ()> {
        match ResultCode::spec_from_u8(v) {
            Some(c) => Ok(c),
            None => Err(()),
        }
    }
}

/// Number of bytes in an account address.
pub const ACCOUNT_ADDRESS_SIZE: usize = 20;

/// Number of bytes in a storage slot identifier.
pub const SLOT_ID_SIZE: usize = 32;

/// An account address as the host sends it.
#[derive(Debug, PartialEq, Eq, Clone, Copy, Hash)]
pub struct AccountAddress(pub [u8; 20]);

impl AccountAddress {
    pub fn raw(&self) -> (r: [u8; 20])
        ensures
            r == self.0,
    {
        self.0
    }

    pub fn zero() -> (r: Self)
        ensures
            forall|i: int| 0 <= i < 20 ==> r.0[i] == 0,
    {
        AccountAddress([0u8; 20])
    }

    pub fn len() -> (r: usize)
        ensures
            r == ACCOUNT_ADDRESS_SIZE,
    {
        ACCOUNT_ADDRESS_SIZE
    }
}

/// Identifier of a storage slot of a contract.
#[derive(Debug, PartialEq, Eq, Clone, Copy, Hash)]
pub struct SlotID(pub [u8; 32]);

impl SlotID {
    pub fn raw(&self) -> (r: [u8; 32])
        ensures
            r == self.0,
    {
        self.0
    }

    pub fn zero() -> (r: Self)
        ensures
            forall|i: int| 0 <= i < 32 ==> r.0[i] == 0,
    {
        SlotID([0u8; 32])
    }

    pub fn len() -> (r: usize)
        ensures
            r == SLOT_ID_SIZE,
    {
        SLOT_ID_SIZE
    }
}

} // verus!
