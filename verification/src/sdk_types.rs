//! The payloads of the SDK's requests to GenLayer (web rendering and
//! requests, prompts, traces), the entry data a contract receives, the
//! SDK's host-call error, and the calldata decoding errors with their
//! messages.

use vstd::prelude::*;

use std::collections::BTreeMap;

use crate::consts::{decimal_digits, StorageType};
use crate::text::{concat_str, is_prefix, str_chars, string_from_chars};

verus! {

/// How a web page is rendered.
#[derive(Debug, Clone, Copy, PartialEq, Eq, Structural)]
pub enum RenderMode {
    Text,
    HTML,
    Screenshot,
}

/// How long to wait after a page has loaded.
#[derive(Debug, Clone, Copy, PartialEq, Eq, Structural)]
pub enum WaitAfterLoaded {
    Seconds(u64),
    Millis(u64),
}

/// What an unsigned decimal text stands for: an optional `+`, then at least
/// one ASCII digit, the value fitting in 64 bits (`u64::from_str`).
pub open spec fn digits_value(d: Seq<char>) -> int
    decreases d.len(),
{
    if d.len() == 0 {
        0
    } else {
        digits_value(d.drop_last()) * 10 + (d.last() as int - 48)
    }
}

/// Whether every character of a text is an ASCII digit.
pub open spec fn all_digits(d: Seq<char>) -> bool {
    forall|i: int| 0 <= i < d.len() ==> '0' <= #[trigger] d[i] && d[i] <= '9'
}

/// The `u64` an unsigned decimal text stands for, if any.
pub open spec fn spec_parse_u64(s: Seq<char>) -> Option<u64> {
    let d = if s.len() > 0 && s[0] == '+' { s.skip(1) } else { s };
    if d.len() > 0 && all_digits(d) && digits_value(d) <= u64::MAX {
        Some(digits_value(d) as u64)
    } else {
        None
    }
}

/// `str::parse::<u64>`: the number a text stands for (see [`spec_parse_u64`]).
#[verifier::external_body]
fn parse_u64(s: &str) -> (r: Option<u64>)
    ensures
        r == spec_parse_u64(s@),
{
    s.parse::<u64>().ok()
}

/// `u64::to_string`: the decimal digits of a number.
#[verifier::external_body]
fn u64_to_decimal(v: u64) -> (r: String)
    ensures
        r@ == decimal_digits(v as nat),
{
    v.to_string()
}

/// `usize::to_string`: the decimal digits of a number.
#[verifier::external_body]
fn usize_to_decimal(v: usize) -> (r: String)
    ensures
        r@ == decimal_digits(v as nat),
{
    v.to_string()
}

/// The wait a text such as `500ms` or `3s` stands for.
pub open spec fn spec_parse_wait(s: Seq<char>) -> Option<WaitAfterLoaded> {
    if s.len() >= 2 && s.subrange(s.len() - 2, s.len() as int) == seq!['m', 's'] {
        match spec_parse_u64(s.subrange(0, s.len() - 2)) {
            Some(v) => Some(WaitAfterLoaded::Millis(v)),
            None => None,
        }
    } else if s.len() >= 1 && s.last() == 's' {
        match spec_parse_u64(s.drop_last()) {
            Some(v) => Some(WaitAfterLoaded::Seconds(v)),
            None => None,
        }
    } else {
        None
    }
}

/// Reads a wait such as `500ms` or `3s`; `None` for any other text.
pub fn parse_wait_after_loaded(s: &str) -> (r: Option<WaitAfterLoaded>)
    ensures
        r == spec_parse_wait(s@),
{
    let cs = str_chars(s);
    let n = cs.len();
    if n >= 2 && cs[n - 2] == 'm' && cs[n - 1] == 's' {
        assert(s@.subrange(n - 2, n as int) =~= seq!['m', 's']);
        let head = string_from_chars(&cs.as_slice()[0..n - 2]);
        assert(head@ =~= s@.subrange(0, n - 2));
        return match parse_u64(head.as_str()) {
            Some(v) => Some(WaitAfterLoaded::Millis(v)),
            None => None,
        };
    }
    proof {
        if s@.len() >= 2 && s@.subrange(s@.len() - 2, s@.len() as int) == seq!['m', 's'] {
            assert(s@.subrange(s@.len() - 2, s@.len() as int)[0] == s@[n - 2]);
            assert(s@.subrange(s@.len() - 2, s@.len() as int)[1] == s@[n - 1]);
        }
    }
    if n >= 1 && cs[n - 1] == 's' {
        let head = string_from_chars(&cs.as_slice()[0..n - 1]);
        assert(head@ =~= s@.drop_last());
        return match parse_u64(head.as_str()) {
            Some(v) => Some(WaitAfterLoaded::Seconds(v)),
            None => None,
        };
    }
    None
}

/// The text form of a wait: the number, then `s` or `ms`.
pub fn wait_after_loaded_text(w: WaitAfterLoaded) -> (r: String)
    ensures
        r@ == match w {
            WaitAfterLoaded::Seconds(v) => decimal_digits(v as nat) + seq!['s'],
            WaitAfterLoaded::Millis(v) => decimal_digits(v as nat) + seq!['m', 's'],
        },
{
    proof {
        reveal_strlit("s");
        reveal_strlit("ms");
    }
    match w {
        WaitAfterLoaded::Seconds(v) => {
            let d = u64_to_decimal(v);
            concat_str(d.as_str(), "s")
        },
        WaitAfterLoaded::Millis(v) => {
            let d = u64_to_decimal(v);
            concat_str(d.as_str(), "ms")
        },
    }
}

/// A page to render.
#[derive(Debug)]
pub struct RenderPayload {
    pub mode: RenderMode,
    pub url: String,
    pub wait_after_loaded: WaitAfterLoaded,
}

/// An HTTP method.
#[derive(Debug, Clone, Copy, PartialEq, Eq, Structural)]
pub enum RequestMethod {
    GET,
    POST,
    HEAD,
    DELETE,
    OPTIONS,
    PATCH,
}

/// An HTTP response.
#[derive(Debug)]
pub struct Response {
    pub status: u16,
    pub headers: BTreeMap<String, Vec<u8>>,
    pub body: Vec<u8>,
}

/// The default of an optional field: absent.
pub fn default_none<T>() -> (r: Option<T>)
    ensures
        r is None,
{
    None
}

/// The default of a flag: off.
pub fn default_false() -> (r: bool)
    ensures
        !r,
{
    false
}

/// An HTTP request.
#[derive(Debug)]
pub struct RequestPayload {
    pub method: RequestMethod,
    pub url: String,
    pub headers: BTreeMap<String, Vec<u8>>,
    pub body: Option<Vec<u8>>,
    pub sign: bool,
}

/// The form a prompt's answer takes.
#[derive(Debug, Clone, Copy, PartialEq, Eq, Structural)]
pub enum OutputFormat {
    Text,
    JSON,
}

/// The default answer form: text.
pub fn default_text() -> (r: OutputFormat)
    ensures
        r == OutputFormat::Text,
{
    OutputFormat::Text
}

/// Variables of the comparative equivalence template.
#[derive(Debug)]
pub struct PromptIDVarsComparative {
    pub leader_answer: String,
    pub validator_answer: String,
    pub principle: String,
}

/// Variables of the non-comparative equivalence template, validator side.
#[derive(Debug)]
pub struct PromptIDVarsNonComparativeValidator {
    pub task: String,
    pub criteria: String,
    pub input: String,
    pub output: String,
}

/// Variables of the non-comparative equivalence template, leader side.
#[derive(Debug)]
pub struct PromptIDVarsNonComparativeLeader {
    pub task: String,
    pub criteria: String,
    pub input: String,
}

/// A prompt to a language model.
#[derive(Debug)]
pub struct PromptPayload {
    pub response_format: OutputFormat,
    pub prompt: String,
    pub images: Vec<Vec<u8>>,
}

/// The comparative equivalence template's payload.
#[derive(Debug)]
pub struct PromptEqComparativePayload {
    pub vars: PromptIDVarsComparative,
}

/// The non-comparative validator template's payload.
#[derive(Debug)]
pub struct PromptEqNonComparativeValidatorPayload {
    pub vars: PromptIDVarsNonComparativeValidator,
}

/// The non-comparative leader template's payload.
#[derive(Debug)]
pub struct PromptEqNonComparativeLeaderPayload {
    pub vars: PromptIDVarsNonComparativeLeader,
}

/// A prompt built from one of the equivalence templates.
#[derive(Debug)]
pub enum PromptTemplatePayload {
    EqComparative(PromptEqComparativePayload),
    EqNonComparativeValidator(PromptEqNonComparativeValidatorPayload),
    EqNonComparativeLeader(PromptEqNonComparativeLeaderPayload),
}

/// Whether the answer to a prompt of this kind is a boolean; the
/// non-comparative leader kind is answered with text.
pub fn expects_bool(p: &PromptTemplatePayload) -> (r: bool)
    ensures
        r == !(p is EqNonComparativeLeader),
{
    match p {
        PromptTemplatePayload::EqNonComparativeLeader(_) => false,
        _ => true,
    }
}

/// What a trace request asks for.
#[derive(Debug)]
pub enum TracePayload {
    Message(String),
    RuntimeMicroSec,
}

/// The storage state a number in a request selects: its wire number, which
/// must fit in a byte and name a state.
pub fn storage_type_from_int(v: i128) -> (r: Option<StorageType>)
    ensures
        0 <= v <= 255 ==> r == StorageType::spec_from_u8(v as u8),
        !(0 <= v <= 255) ==> r is None,
{
    if v < 0 || v > 255 {
        return None;
    }
    match StorageType::try_from(v as u8) {
        Ok(t) => Some(t),
        Err(_) => None,
    }
}

/// The data of a main entry: the method call, as calldata.
#[derive(Debug, Clone)]
pub struct MainEntryData<'a> {
    pub data: &'a [u8],
}

/// The data of a sandbox entry, for the contract to interpret.
#[derive(Debug, Clone)]
pub struct SandboxEntryData<'a> {
    pub data: &'a [u8],
}

/// The data of a consensus-stage entry: the payload, and the stage's data
/// (`null` for a leader, the leader's result for a validator).
#[derive(Debug, Clone)]
pub struct ConsensusStageEntryData<'a> {
    pub data: &'a [u8],
    pub stage_data: &'a crate::calldata::Value,
}

/// The data of an entry, by its kind.
#[derive(Debug, Clone)]
pub enum EntryPointData<'a> {
    Main(MainEntryData<'a>),
    Sandbox(SandboxEntryData<'a>),
    ConsensusStage(ConsensusStageEntryData<'a>),
}

/// The entry data of a message, viewed according to its entry kind.
pub fn get_entry_point_data<'a>(
    entry_kind: crate::consts::EntryKind,
    entry_data: &'a [u8],
    entry_stage_data: &'a crate::calldata::Value,
) -> (r: EntryPointData<'a>)
    ensures
        entry_kind == crate::consts::EntryKind::Main ==> (r matches EntryPointData::Main(d) && d.data@ == entry_data@),
        entry_kind == crate::consts::EntryKind::Sandbox ==> (r matches EntryPointData::Sandbox(d) && d.data@
            == entry_data@),
        entry_kind == crate::consts::EntryKind::ConsensusStage ==> (r matches EntryPointData::ConsensusStage(d)
            && d.data@ == entry_data@ && *d.stage_data == *entry_stage_data),
{
    match entry_kind {
        crate::consts::EntryKind::Main => EntryPointData::Main(MainEntryData { data: entry_data }),
        crate::consts::EntryKind::Sandbox => EntryPointData::Sandbox(SandboxEntryData { data: entry_data }),
        crate::consts::EntryKind::ConsensusStage => EntryPointData::ConsensusStage(
            ConsensusStageEntryData { data: entry_data, stage_data: entry_stage_data },
        ),
    }
}

/// A non-zero status of a host call.
#[derive(Debug, Clone, Copy, PartialEq, Eq, Structural)]
pub struct WasiError(pub u32);

impl WasiError {
    /// Success for status 0, the error otherwise.
    pub fn from_code(code: u32) -> (r: Result<(), WasiError>)
        ensures
            code == 0 ==> r is Ok,
            code != 0 ==> r == Err::<(), WasiError>(WasiError(code)),
    {
        if code == 0 {
            Ok(())
        } else {
            Err(WasiError(code))
        }
    }
}

/// Why calldata could not be turned into a value of a given type (or back).
#[derive(Debug)]
pub enum Error {
    InvalidType { unexpected: String, expected: String },
    InvalidValue { unexpected: String, expected: String },
    InvalidLength { len: usize, expected: String },
    DuplicateField(&'static str),
    MissingField(&'static str),
    UnknownField { field: String, expected: Vec<String> },
    UnknownVariant { variant: String, expected: Vec<String> },
    OnlyStringKeysSupported,
    NumberTooBig,
    FloatHasFractionalPart,
    FloatOutOfRange,
    CharsNotSupported,
    UnexpectedAddress { target_type: &'static str },
    Custom(String),
}

/// The `{:?}` texts of some names, separated by `, `.
pub open spec fn joined_debug(names: Seq<Seq<char>>) -> Seq<char>
    decreases names.len(),
{
    if names.len() == 0 {
        Seq::empty()
    } else if names.len() == 1 {
        crate::text::debug_str(names[0])
    } else {
        joined_debug(names.drop_last()) + seq![',', ' '] + crate::text::debug_str(names.last())
    }
}

/// The text `{:?}` gives for a list of names: each name as `{:?}` writes
/// it, separated by `, `, in brackets.
pub open spec fn debug_names(names: Seq<Seq<char>>) -> Seq<char> {
    seq!['['] + joined_debug(names) + seq![']']
}

/// The names of a list, as plain values.
pub open spec fn names_view(v: Seq<String>) -> Seq<Seq<char>> {
    Seq::new(v.len(), |i: int| v[i]@)
}

/// `format!("{:?}", names)`: the debug rendering of a list of names.
#[verifier::external_body]
fn debug_name_list(names: &Vec<String>) -> (r: String)
    ensures
        r@ == debug_names(names_view(names@)),
{
    format!("{:?}", names)
}

impl Error {
    /// The error's message.
    pub open spec fn spec_message(&self) -> Seq<char> {
        match self {
            Error::InvalidType { unexpected, expected } => "invalid type: "@ + unexpected@ + ", expected "@
                + expected@,
            Error::InvalidValue { unexpected, expected } => "invalid value: "@ + unexpected@
                + ", expected "@ + expected@,
            Error::InvalidLength { len, expected } => "invalid length "@ + decimal_digits(*len as nat)
                + ", expected "@ + expected@,
            Error::DuplicateField(field) => "duplicate field `"@ + field@ + "`"@,
            Error::MissingField(field) => "missing field `"@ + field@ + "`"@,
            Error::UnknownField { field, expected } => "unknown field `"@ + field@ + "`, expected one of "@
                + debug_names(names_view(expected@)),
            Error::UnknownVariant { variant, expected } => "unknown variant `"@ + variant@
                + "`, expected one of "@ + debug_names(names_view(expected@)),
            Error::OnlyStringKeysSupported => "only string keys are supported"@,
            Error::NumberTooBig => "number is too big"@,
            Error::FloatHasFractionalPart => "float has fractional part"@,
            Error::FloatOutOfRange => "float out of range for serialization"@,
            Error::CharsNotSupported => "chars are not supported"@,
            Error::UnexpectedAddress { target_type } => "unexpected address for "@ + target_type@,
            Error::Custom(msg) => msg@,
        }
    }

    /// The error's message (see [`Error::spec_message`]).
    pub fn message(&self) -> (r: String)
        ensures
            r@ == self.spec_message(),
    {
        match self {
            Error::InvalidType { unexpected, expected } => {
                let a = concat_str("invalid type: ", unexpected.as_str());
                let b = concat_str(a.as_str(), ", expected ");
                concat_str(b.as_str(), expected.as_str())
            },
            Error::InvalidValue { unexpected, expected } => {
                let a = concat_str("invalid value: ", unexpected.as_str());
                let b = concat_str(a.as_str(), ", expected ");
                concat_str(b.as_str(), expected.as_str())
            },
            Error::InvalidLength { len, expected } => {
                let d = usize_to_decimal(*len);
                let a = concat_str("invalid length ", d.as_str());
                let b = concat_str(a.as_str(), ", expected ");
                concat_str(b.as_str(), expected.as_str())
            },
            Error::DuplicateField(field) => {
                let a = concat_str("duplicate field `", field);
                concat_str(a.as_str(), "`")
            },
            Error::MissingField(field) => {
                let a = concat_str("missing field `", field);
                concat_str(a.as_str(), "`")
            },
            Error::UnknownField { field, expected } => {
                let a = concat_str("unknown field `", field.as_str());
                let b = concat_str(a.as_str(), "`, expected one of ");
                let l = debug_name_list(expected);
                concat_str(b.as_str(), l.as_str())
            },
            Error::UnknownVariant { variant, expected } => {
                let a = concat_str("unknown variant `", variant.as_str());
                let b = concat_str(a.as_str(), "`, expected one of ");
                let l = debug_name_list(expected);
                concat_str(b.as_str(), l.as_str())
            },
            Error::OnlyStringKeysSupported => String::from_str("only string keys are supported"),
            Error::NumberTooBig => String::from_str("number is too big"),
            Error::FloatHasFractionalPart => String::from_str("float has fractional part"),
            Error::FloatOutOfRange => String::from_str("float out of range for serialization"),
            Error::CharsNotSupported => String::from_str("chars are not supported"),
            Error::UnexpectedAddress { target_type } => concat_str("unexpected address for ", target_type),
            Error::Custom(msg) => msg.clone(),
        }
    }
}

} // verus!
