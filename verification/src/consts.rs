//! Constants of the contract ABI: result codes, storage kinds, entry kinds,
//! special method names and the textual VM error identifiers.

use vstd::prelude::*;
use vstd::string::*;

use crate::text::{concat_str, str_eq};

verus! {

/// Kind of the result a contract execution produced.
#[derive(Debug, PartialEq, Eq, Structural, Clone, Copy)]
pub enum ResultCode {
    Return,
    UserError,
    VmError,
    InternalError,
}

impl ResultCode {
    /// Wire number of each variant.
    pub open spec fn spec_value(self) -> u8 {
        match self {
            ResultCode::Return => 0,
            ResultCode::UserError => 1,
            ResultCode::VmError => 2,
            ResultCode::InternalError => 3,
        }
    }

    /// Snake-case name of each variant.
    pub open spec fn spec_snake_case(self) -> Seq<char> {
        match self {
            ResultCode::Return => "return"@,
            ResultCode::UserError => "user_error"@,
            ResultCode::VmError => "vm_error"@,
            ResultCode::InternalError => "internal_error"@,
        }
    }

    /// Variant with a given wire number, if there is one.
    pub open spec fn spec_from_u8(v: u8) -> Option<ResultCode> {
        if v == 0 {
            Some(ResultCode::Return)
        } else if v == 1 {
            Some(ResultCode::UserError)
        } else if v == 2 {
            Some(ResultCode::VmError)
        } else if v == 3 {
            Some(ResultCode::InternalError)
        } else {
            None
        }
    }

    pub fn value(self) -> (r: u8)
        ensures
            r == self.spec_value(),
    {
        match self {
            ResultCode::Return => 0,
            ResultCode::UserError => 1,
            ResultCode::VmError => 2,
            ResultCode::InternalError => 3,
        }
    }

    pub fn str_snake_case(self) -> (r: &'static str)
        ensures
            r@ == self.spec_snake_case(),
    {
        match self {
            ResultCode::Return => "return",
            ResultCode::UserError => "user_error",
            ResultCode::VmError => "vm_error",
            ResultCode::InternalError => "internal_error",
        }
    }
}

impl TryFrom<u8> for ResultCode {
    type Error = ();

    fn try_from(value: u8) -> (r: Result<Self, ()>) {
        match value {
            0 => Ok(ResultCode::Return),
            1 => Ok(ResultCode::UserError),
            2 => Ok(ResultCode::VmError),
            3 => Ok(ResultCode::InternalError),
            _ => Err(()),
        }
    }
}

impl vstd::std_specs::convert::TryFromSpecImpl<u8> for ResultCode {
    open spec fn obeys_try_from_spec() -> bool {
        true
    }

    open spec fn try_from_spec(v: u8) -> Result<Self, ()> {
        match ResultCode::spec_from_u8(v) {
            Some(c) => Ok(c),
            None => Err(()),
        }
    }
}

/// Which state of storage a read observes.
#[derive(Debug, PartialEq, Eq, Structural, Clone, Copy)]
pub enum StorageType {
    Default,
    LatestFinal,
    LatestNonFinal,
}

impl StorageType {
    /// Wire number of each variant.
    pub open spec fn spec_value(self) -> u8 {
        match self {
            StorageType::Default => 0,
            StorageType::LatestFinal => 1,
            StorageType::LatestNonFinal => 2,
        }
    }

    /// Snake-case name of each variant.
    pub open spec fn spec_snake_case(self) -> Seq<char> {
        match self {
            StorageType::Default => "default"@,
            StorageType::LatestFinal => "latest_final"@,
            StorageType::LatestNonFinal => "latest_non_final"@,
        }
    }

    /// Variant with a given wire number, if there is one.
    pub open spec fn spec_from_u8(v: u8) -> Option<StorageType> {
        if v == 0 {
            Some(StorageType::Default)
        } else if v == 1 {
            Some(StorageType::LatestFinal)
        } else if v == 2 {
            Some(StorageType::LatestNonFinal)
        } else {
            None
        }
    }

    pub fn value(self) -> (r: u8)
        ensures
            r == self.spec_value(),
    {
        match self {
            StorageType::Default => 0,
            StorageType::LatestFinal => 1,
            StorageType::LatestNonFinal => 2,
        }
    }

    pub fn str_snake_case(self) -> (r: &'static str)
        ensures
            r@ == self.spec_snake_case(),
    {
        match self {
            StorageType::Default => "default",
            StorageType::LatestFinal => "latest_final",
            StorageType::LatestNonFinal => "latest_non_final",
        }
    }
}

impl TryFrom<u8> for StorageType {
    type Error = ();

    fn try_from(value: u8) -> (r: Result<Self, ()>) {
        match value {
            0 => Ok(StorageType::Default),
            1 => Ok(StorageType::LatestFinal),
            2 => Ok(StorageType::LatestNonFinal),
            _ => Err(()),
        }
    }
}

impl vstd::std_specs::convert::TryFromSpecImpl<u8> for StorageType {
    open spec fn obeys_try_from_spec() -> bool {
        true
    }

    open spec fn try_from_spec(v: u8) -> Result<Self, ()> {
        match StorageType::spec_from_u8(v) {
            Some(c) => Ok(c),
            None => Err(()),
        }
    }
}

/// How a contract was entered.
#[derive(Debug, PartialEq, Eq, Structural, Clone, Copy)]
pub enum EntryKind {
    Main,
    Sandbox,
    ConsensusStage,
}

impl EntryKind {
    /// Wire number of each variant.
    pub open spec fn spec_value(self) -> u8 {
        match self {
            EntryKind::Main => 0,
            EntryKind::Sandbox => 1,
            EntryKind::ConsensusStage => 2,
        }
    }

    /// Snake-case name of each variant.
    pub open spec fn spec_snake_case(self) -> Seq<char> {
        match self {
            EntryKind::Main => "main"@,
            EntryKind::Sandbox => "sandbox"@,
            EntryKind::ConsensusStage => "consensus_stage"@,
        }
    }

    /// Variant with a given wire number, if there is one.
    pub open spec fn spec_from_u8(v: u8) -> Option<EntryKind> {
        if v == 0 {
            Some(EntryKind::Main)
        } else if v == 1 {
            Some(EntryKind::Sandbox)
        } else if v == 2 {
            Some(EntryKind::ConsensusStage)
        } else {
            None
        }
    }

    pub fn value(self) -> (r: u8)
        ensures
            r == self.spec_value(),
    {
        match self {
            EntryKind::Main => 0,
            EntryKind::Sandbox => 1,
            EntryKind::ConsensusStage => 2,
        }
    }

    pub fn str_snake_case(self) -> (r: &'static str)
        ensures
            r@ == self.spec_snake_case(),
    {
        match self {
            EntryKind::Main => "main",
            EntryKind::Sandbox => "sandbox",
            EntryKind::ConsensusStage => "consensus_stage",
        }
    }
}

impl TryFrom<u8> for EntryKind {
    type Error = ();

    fn try_from(value: u8) -> (r: Result<Self, ()>) {
        match value {
            0 => Ok(EntryKind::Main),
            1 => Ok(EntryKind::Sandbox),
            2 => Ok(EntryKind::ConsensusStage),
            _ => Err(()),
        }
    }
}

impl vstd::std_specs::convert::TryFromSpecImpl<u8> for EntryKind {
    open spec fn obeys_try_from_spec() -> bool {
        true
    }

    open spec fn try_from_spec(v: u8) -> Result<Self, ()> {
        match EntryKind::spec_from_u8(v) {
            Some(c) => Ok(c),
            None => Err(()),
        }
    }
}

/// Method names with a meaning reserved by the runtime.
#[derive(Debug, PartialEq, Eq, Structural, Clone, Copy)]
pub enum SpecialMethod {
    GetSchema,
    ErroredMessage,
}

impl SpecialMethod {
    /// Wire text of each variant.
    pub open spec fn spec_value(self) -> Seq<char> {
        match self {
            SpecialMethod::GetSchema => "#get-schema"@,
            SpecialMethod::ErroredMessage => "#error"@,
        }
    }

    /// Snake-case name of each variant.
    pub open spec fn spec_snake_case(self) -> Seq<char> {
        match self {
            SpecialMethod::GetSchema => "get_schema"@,
            SpecialMethod::ErroredMessage => "errored_message"@,
        }
    }

    pub fn value(self) -> (r: &'static str)
        ensures
            r@ == self.spec_value(),
    {
        match self {
            SpecialMethod::GetSchema => "#get-schema",
            SpecialMethod::ErroredMessage => "#error",
        }
    }

    pub fn str_snake_case(self) -> (r: &'static str)
        ensures
            r@ == self.spec_snake_case(),
    {
        match self {
            SpecialMethod::GetSchema => "get_schema",
            SpecialMethod::ErroredMessage => "errored_message",
        }
    }
}

impl SpecialMethod {
    /// Special method whose wire text is `v`, if there is one.
    pub open spec fn spec_from_text(v: Seq<char>) -> Option<SpecialMethod> {
        if v == "#get-schema"@ {
            Some(SpecialMethod::GetSchema)
        } else if v == "#error"@ {
            Some(SpecialMethod::ErroredMessage)
        } else {
            None
        }
    }
}

impl<'a> TryFrom<&'a str> for SpecialMethod {
    type Error = ();

    fn try_from(value: &'a str) -> (r: Result<Self, ()>) {
        if str_eq(value, "#get-schema") {
            Ok(SpecialMethod::GetSchema)
        } else if str_eq(value, "#error") {
            Ok(SpecialMethod::ErroredMessage)
        } else {
            Err(())
        }
    }
}

impl<'a> vstd::std_specs::convert::TryFromSpecImpl<&'a str> for SpecialMethod {
    open spec fn obeys_try_from_spec() -> bool {
        true
    }

    open spec fn try_from_spec(v: &'a str) -> Result<Self, ()> {
        match SpecialMethod::spec_from_text(v@) {
            Some(c) => Ok(c),
            None => Err(()),
        }
    }
}

/// Memory charged by the runtime's memory limiter for table entries.
pub const TABLE_ENTRY: u32 = 64;

/// Memory charged by the runtime's memory limiter for one mapped file.
pub const FILE_MAPPING: u32 = 256;

/// Memory charged by the runtime's memory limiter for one file descriptor.
pub const FD_ALLOCATION: u32 = 96;

/// Largest number of topics an emitted event may carry.
pub const EVENT_MAX_TOPICS: u32 = 4;

/// Version assumed for runners that do not declare one.
pub const ABSENT_VERSION: &'static str = "v0.1.0";

/// Offset of the slot that holds contract code.
pub const CODE_SLOT_OFFSET: u32 = 1;

/// Textual identifier of a VM error, as reported to the host.
#[derive(Debug, Clone, PartialEq, Eq)]
pub struct VmError(pub String);

/// A VM error whose identifier is the given text.
fn vm_error_of(s: &str) -> (e: VmError)
    ensures
        e.0@ == s@,
{
    VmError(String::from_str(s))
}

/// Builder of the out-of-RAM error identifiers.
pub struct OomRam;

impl OomRam {
    pub fn val(&self) -> (e: VmError)
        ensures
            e.0@ == "OOM RAM"@,
    {
        vm_error_of("OOM RAM")
    }

    pub fn table(&self) -> (e: VmError)
        ensures
            e.0@ == "OOM RAM table"@,
    {
        vm_error_of("OOM RAM table")
    }

    pub fn memory(&self) -> (e: VmError)
        ensures
            e.0@ == "OOM RAM memory"@,
    {
        vm_error_of("OOM RAM memory")
    }
}

/// Builder of the out-of-memory error identifiers.
pub struct Oom;

impl Oom {
    pub fn storage(&self) -> (e: VmError)
        ensures
            e.0@ == "OOM Storage"@,
    {
        vm_error_of("OOM Storage")
    }

    pub fn ram(&self) -> (r: OomRam) {
        OomRam
    }
}

/// Builder of the error identifiers for contracts whose wasm is invalid.
pub struct InvalidContractWasm;

impl InvalidContractWasm {
    pub fn validating(&self) -> (e: VmError)
        ensures
            e.0@ == "invalid_contract wasm validating"@,
    {
        vm_error_of("invalid_contract wasm validating")
    }

    pub fn linking(&self) -> (e: VmError)
        ensures
            e.0@ == "invalid_contract wasm linking"@,
    {
        vm_error_of("invalid_contract wasm linking")
    }

    pub fn entrypoint(&self) -> (e: VmError)
        ensures
            e.0@ == "invalid_contract wasm entrypoint"@,
    {
        vm_error_of("invalid_contract wasm entrypoint")
    }
}

/// Builder of the error identifiers for invalid contracts.
pub struct InvalidContract;

impl InvalidContract {
    pub fn val(&self) -> (e: VmError)
        ensures
            e.0@ == "invalid_contract"@,
    {
        vm_error_of("invalid_contract")
    }

    pub fn absent_runner_comment(&self) -> (e: VmError)
        ensures
            e.0@ == "invalid_contract absent_runner_comment"@,
    {
        vm_error_of("invalid_contract absent_runner_comment")
    }

    pub fn not_utf8_text(&self) -> (e: VmError)
        ensures
            e.0@ == "invalid_contract not_utf8_text"@,
    {
        vm_error_of("invalid_contract not_utf8_text")
    }

    pub fn malformed_runner(&self) -> (e: VmError)
        ensures
            e.0@ == "invalid_contract malformed_runner"@,
    {
        vm_error_of("invalid_contract malformed_runner")
    }

    pub fn wasm(&self) -> (r: InvalidContractWasm) {
        InvalidContractWasm
    }
}

/// Decimal rendering of a signed integer, as `i32`'s `Display` writes it.
pub open spec fn decimal_digits(n: nat) -> Seq<char>
    decreases n,
{
    if n < 10 {
        seq![(n + 48) as char]
    } else {
        decimal_digits(n / 10).push(((n % 10) + 48) as char)
    }
}

/// Decimal rendering of an `i32`: a minus sign for negative numbers, then the
/// digits of the absolute value.
pub open spec fn decimal_i32(v: i32) -> Seq<char> {
    if v < 0 {
        seq!['-'] + decimal_digits((-(v as int)) as nat)
    } else {
        decimal_digits(v as nat)
    }
}

/// `i32::to_string`: the decimal rendering of `v`.
#[verifier::external_body]
fn i32_to_decimal(v: i32) -> (s: String)
    ensures
        s@ == decimal_i32(v),
{
    v.to_string()
}

/// Builder of the error identifier for a non-zero process exit.
pub struct ExitCode;

impl ExitCode {
    pub fn val_i32(&self, v: i32) -> (e: VmError)
        ensures
            e.0@ == "exit_code "@ + decimal_i32(v),
    {
        let digits = i32_to_decimal(v);
        VmError(concat_str("exit_code ", digits.as_str()))
    }
}

/// Builder of the error identifier for a wasm trap.
pub struct WasmTrap;

impl WasmTrap {
    pub fn val_str(&self, v: &str) -> (e: VmError)
        ensures
            e.0@ == "wasm_trap "@ + v@,
    {
        VmError(concat_str("wasm_trap ", v))
    }
}

/// Builder of the error identifier for a failure reported by the host.
pub struct Host;

impl Host {
    pub fn val_str(&self, v: &str) -> (e: VmError)
        ensures
            e.0@ == "host "@ + v@,
    {
        VmError(concat_str("host ", v))
    }
}

impl VmError {
    pub fn timeout() -> (e: VmError)
        ensures
            e.0@ == "timeout"@,
    {
        vm_error_of("timeout")
    }

    pub fn exit_code() -> ExitCode {
        ExitCode
    }

    pub fn wasm_trap() -> WasmTrap {
        WasmTrap
    }

    pub fn oom() -> Oom {
        Oom
    }

    pub fn invalid_contract() -> InvalidContract {
        InvalidContract
    }

    pub fn host() -> Host {
        Host
    }
}

} // verus!
