//! What errors say.
use vstd::prelude::*;
use vstd::string::*;

use crate::apply::{ApplyError, LeafSource};
use crate::config::{ConfigError, NumberSetting};
use crate::encoding::{hex_text, Base64Error, HashTextError, HexHashError};
use crate::events::{FieldError, FieldKind, FieldProblem, ValueError};
use crate::fetch::{FetchError, RangeError};
use crate::rpc_events::RpcEventError;
use crate::scval::DecodeError;
use crate::state_store::StoreError;
use crate::text::{decimal, NumberError};

verus! {

/// A number that is not read is told to be empty, to have a character that is no digit, or
/// to be too large.
pub proof fn number_errors_say(error: NumberError, out: &'static str)
    requires
        call_ensures(NumberError::message, (error,), out),
    ensures
        out@ == match error {
            NumberError::Empty => "cannot parse integer from empty string"@,
            NumberError::InvalidDigit => "invalid digit found in string"@,
            NumberError::TooLarge => "number too large to fit in target type"@,
        },
{
}

/// A text that is not base64 is told with the symbol and where it stands, or with its
/// length.
pub proof fn base64_errors_say(error: Base64Error, out: String)
    requires
        call_ensures(Base64Error::message, (&error,), out),
    ensures
        out@ == match error {
            Base64Error::InvalidByte(offset, byte) => "Invalid symbol "@ + decimal(byte as nat)
                + ", offset "@ + decimal(offset as nat) + "."@,
            Base64Error::InvalidLength(len) => "Invalid input length: "@ + decimal(len as nat),
            Base64Error::InvalidLastSymbol(offset, byte) => "Invalid last symbol "@ + decimal(
                byte as nat,
            ) + ", offset "@ + decimal(offset as nat) + "."@,
            Base64Error::InvalidPadding => "Invalid padding"@,
        },
{
}

/// A hash of another length is told with its length; one that is not decoded, as its
/// decoding is.
pub proof fn hash_errors_say(
    text: HashTextError,
    stored: HexHashError,
    base64: Base64Error,
    told: (String, String, String),
)
    requires
        call_ensures(HashTextError::message, (&text,), told.0),
        call_ensures(HexHashError::message, (&stored,), told.1),
        call_ensures(Base64Error::message, (&base64,), told.2),
    ensures
        match text {
            HashTextError::Length(n) => told.0@ == "expected 32-byte hash, got "@ + decimal(n as nat)
                + " bytes"@,
            HashTextError::Base64(why) => why == base64 ==> told.0@ == told.2@,
        },
        match stored {
            HexHashError::Length(n) => told.1@ == "expected 32-byte hash, got "@ + decimal(n as nat)
                + " bytes"@,
            HexHashError::NotHex(why) => told.1@ == why@,
        },
{
}

/// A value that is not what its field asks for is told by what it is not.
pub proof fn value_errors_say(error: ValueError, out: String)
    requires
        call_ensures(ValueError::message, (&error,), out),
    ensures
        match error {
            ValueError::NotU64 => out@ == "not a u64-compatible ScVal"@,
            ValueError::NotBytes => out@ == "not a bytes ScVal"@,
            ValueError::HashLength(n) => out@ == "expected 32-byte hash, got "@ + decimal(n as nat)
                + " bytes"@,
            ValueError::NotVec => out@ == "not a vec ScVal"@,
            ValueError::NotU64Json => out@ == "not a u64-compatible JSON value"@,
            ValueError::NumberText(why) => forall|told: &'static str| #[trigger]
                call_ensures(NumberError::message, (why,), told) ==> out@ == told@,
            ValueError::HashText(why) => forall|told: String| #[trigger]
                call_ensures(HashTextError::message, (&why,), told) ==> out@ == told@,
            ValueError::ByteNotNumber => out@ == "hash byte is not a number"@,
            ValueError::ByteOutOfRange => out@ == "hash byte is out of range"@,
            ValueError::NotHashJson => out@ == "not a hash JSON value"@,
            ValueError::NotHashVecObject => out@ == "not a hash vec JSON object"@,
            ValueError::NotHashVecJson => out@ == "not a hash vec JSON value"@,
        },
{
}

/// What a kind of field is called.
pub open spec fn kind_name(kind: FieldKind) -> Seq<char> {
    match kind {
        FieldKind::U64 => "u64"@,
        FieldKind::Hash => "hash"@,
        FieldKind::HashVec => "hash vec"@,
    }
}

/// A field that is missing is told with its kind and its names, one that is wrong also with
/// its value, where there is one to show, and with what is wrong.
pub proof fn field_errors_say(error: FieldError, out: String)
    requires
        call_ensures(FieldError::message, (&error,), out),
    ensures
        match error.problem {
            FieldProblem::Missing => out@ == "missing "@ + kind_name(error.kind) + " field "@
                + error.names@,
            FieldProblem::Invalid(why) => forall|told: String| #[trigger]
                call_ensures(ValueError::message, (&why,), told) ==> out@ == "invalid "@ + kind_name(
                    error.kind,
                ) + " field "@ + error.names@ + (match error.value {
                    Some(value) => ": "@ + value@,
                    None => Seq::empty(),
                }) + ": "@ + told@,
        },
{
    match error.problem {
        FieldProblem::Invalid(why) => {
            let front = "invalid "@ + kind_name(error.kind) + " field "@ + error.names@;
            match error.value {
                Some(value) => {
                    assert(front + (": "@ + value@) =~= front + ": "@ + value@);
                },
                None => {
                    assert(front + Seq::<char>::empty() =~= front);
                },
            }
        },
        FieldProblem::Missing => {},
    }
}

/// A contract value that is not decoded is told with why.
pub proof fn decode_errors_say(error: DecodeError, out: String)
    requires
        call_ensures(DecodeError::message, (&error,), out),
    ensures
        out@ == match error {
            DecodeError::Xdr(why) => "failed to decode Stellar ScVal base64 XDR: "@ + why@,
            DecodeError::Json(why) => "failed to convert Stellar ScVal to XDR-JSON: "@ + why@,
        },
{
}

/// A reported event that is not read is told with the part of it that is not, and why; its
/// value also with its id.
pub proof fn reported_event_errors_say(error: RpcEventError, out: String)
    requires
        call_ensures(RpcEventError::message, (&error,), out),
    ensures
        match error {
            RpcEventError::Topic(why) => forall|told: String| #[trigger]
                call_ensures(DecodeError::message, (&why,), told) ==> out@
                    == "failed to decode event topic XDR: "@ + told@,
            RpcEventError::Value { id, why } => forall|told: String| #[trigger]
                call_ensures(DecodeError::message, (&why,), told) ==> out@
                    == "failed to decode event value XDR for "@ + id@ + ": "@ + told@,
            RpcEventError::Field(why) => forall|told: String| #[trigger]
                call_ensures(FieldError::message, (&why,), told) ==> out@ == told@,
        },
{
}

/// A range of ledgers that cannot be asked for is told by the end that is too large.
pub proof fn range_errors_say(error: RangeError, out: &'static str)
    requires
        call_ensures(RangeError::message, (error,), out),
    ensures
        out@ == match error {
            RangeError::StartTooLarge =>
                "start ledger does not fit u32: out of range integral type conversion attempted"@,
            RangeError::EndTooLarge =>
                "end ledger does not fit u32: out of range integral type conversion attempted"@,
        },
{
}

/// Ledgers that were not read are told with the range and the service's own words, or with
/// the ledger and what was wrong with it.
pub proof fn fetch_errors_say(error: FetchError, out: String)
    requires
        call_ensures(FetchError::message, (&error,), out),
    ensures
        match error {
            FetchError::Rpc { start_ledger, end_ledger, code, message } => out@
                == "getLedgers RPC error for ledger range ["@ + decimal(start_ledger as nat) + ", "@
                + decimal(end_ledger as nat) + "): code="@ + (if code < 0 {
                "-"@ + decimal((-code) as nat)
            } else {
                decimal(code as nat)
            }) + ", message="@ + message@,
            FetchError::MissingResult => out@ == "getLedgers response missing result"@,
            FetchError::Decode { ledger, error } => out@
                == "failed to decode LedgerCloseMeta for ledger "@ + decimal(ledger as nat) + ": "@
                + error@,
            FetchError::Extract { ledger, why } => forall|told: String| #[trigger]
                call_ensures(FieldError::message, (&why,), told) ==> out@
                    == "failed to extract mixer events from LedgerCloseMeta for ledger "@ + decimal(
                    ledger as nat,
                ) + ": "@ + told@,
        },
{
}

/// What a kind of event is called.
pub open spec fn source_name(source: LeafSource) -> Seq<char> {
    match source {
        LeafSource::Deposit => "deposit"@,
        LeafSource::Withdraw => "withdraw"@,
        LeafSource::Transfer => "transfer"@,
    }
}

/// An event that was not applied is told with its kind and id, and with what the tree has
/// against what the event says.
pub proof fn apply_errors_say(error: ApplyError, out: String)
    requires
        call_ensures(ApplyError::message, (&error,), out),
    ensures
        match error {
            ApplyError::IndexMismatch { source, event_id, next, index } => out@ == source_name(
                source,
            ) + " index mismatch at event "@ + event_id@ + ": local next="@ + decimal(next as nat)
                + (if source == LeafSource::Transfer {
                ", event start_index="@
            } else {
                ", event index="@
            }) + decimal(index as nat),
            ApplyError::AppendMismatch { event_id, expected, got } => out@
                == "tree append index mismatch at event "@ + event_id@ + ": expected "@ + decimal(
                expected as nat,
            ) + ", got "@ + decimal(got as nat),
            ApplyError::RootMismatch { source, event_id, local, event } => out@ == source_name(
                source,
            ) + " root mismatch at event "@ + event_id@ + ": local="@ + hex_text(local@)
                + ", event="@ + hex_text(event@),
        },
{
}

/// A state that was refused is told with what is stored against what was expected.
pub proof fn store_errors_say(error: StoreError, out: String)
    requires
        call_ensures(StoreError::message, (&error,), out),
    ensures
        match error {
            StoreError::UnsupportedVersion(version) => out@ == "unsupported state version "@
                + decimal(version as nat),
            StoreError::WrongContract { stored, configured } => out@
                == "state DB belongs to contract "@ + stored@ + ", config points to "@
                + configured@,
            StoreError::MissingStartLedger => out@
                == "TREEPIR_START_LEDGER is required when state DB does not exist"@,
            StoreError::IndexMismatch { next, event } => out@
                == "persistent leaf index mismatch: next="@ + decimal(next as nat) + ", event="@
                + decimal(event as nat),
            StoreError::MissingLeaf(index) => out@ == "missing stored leaf at index "@ + decimal(
                index as nat,
            ),
            StoreError::UnreadableLeaf { index, why } => out@
                == "failed to parse stored leaf at index "@ + decimal(index as nat) + ": "@ + why@,
            StoreError::KeyMismatch { key, value } => out@
                == "stored leaf key/index mismatch: key="@ + decimal(key as nat) + ", value="@
                + decimal(value as nat),
            StoreError::NotContiguous { next, got } => out@
                == "stored leaves are not contiguous: next="@ + decimal(next as nat) + ", got="@
                + decimal(got as nat),
            StoreError::BadHash(why) => forall|told: String| #[trigger]
                call_ensures(HexHashError::message, (&why,), told) ==> out@ == told@,
        },
{
}

/// The environment variable of a number setting.
pub open spec fn variable(setting: NumberSetting) -> Seq<char> {
    match setting {
        NumberSetting::StartLedger => "TREEPIR_START_LEDGER"@,
        NumberSetting::PollIntervalMs => "TREEPIR_POLL_INTERVAL_MS"@,
        NumberSetting::BatchLedgers => "TREEPIR_BATCH_LEDGERS"@,
        NumberSetting::EventsLimit => "TREEPIR_EVENTS_LIMIT"@,
        NumberSetting::EventFinalityLag => "TREEPIR_EVENT_FINALITY_LAG"@,
        NumberSetting::CatchupSleepMs => "TREEPIR_CATCHUP_SLEEP_MS"@,
    }
}

/// A setting that was refused is told with its environment variable and what is wrong.
pub proof fn config_errors_say(error: ConfigError, out: String)
    requires
        call_ensures(ConfigError::message, (&error,), out),
    ensures
        match error {
            ConfigError::BindAddr(why) => out@ == "invalid TREEPIR_BIND_ADDR: "@ + why@,
            ConfigError::MissingContractId(why) => out@ == "missing TREEPIR_MIXER_CONTRACT_ID: "@
                + why@,
            ConfigError::EmptyContractId => out@ == "TREEPIR_MIXER_CONTRACT_ID is empty"@,
            ConfigError::Number(setting, why) => forall|told: &'static str| #[trigger]
                call_ensures(NumberError::message, (why,), told) ==> out@ == "invalid "@ + variable(
                    setting,
                ) + ": "@ + told@,
        },
{
}

} // verus!
