//! Failures of a decode call.

use vstd::prelude::*;
use vstd::string::StringExecFns;
use crate::decimal::decimal;
use crate::decimal::push_decimal;

verus! {

/// The part of the encoding that was being read when the input ran out.
#[derive(Clone, Copy, Debug, PartialEq, Eq, Structural)]
pub enum Field {
    Version,
    InputCount,
    PreviousTxid,
    PreviousOutputIndex,
    ScriptSigLength,
    ScriptSig,
    Sequence,
    OutputCount,
    Value,
    ScriptPubkeyLength,
    ScriptPubkey,
    WitnessItemCount,
    WitnessItemLength,
    WitnessItem,
    LockTime,
}

impl Field {
    /// The field's name in a message.
    pub open spec fn name_text(self) -> Seq<char> {
        match self {
            Field::Version => "version"@,
            Field::InputCount => "input count"@,
            Field::PreviousTxid => "previous transaction id"@,
            Field::PreviousOutputIndex => "previous output index"@,
            Field::ScriptSigLength => "script-sig length"@,
            Field::ScriptSig => "script-sig"@,
            Field::Sequence => "sequence"@,
            Field::OutputCount => "output count"@,
            Field::Value => "value"@,
            Field::ScriptPubkeyLength => "script-pubkey length"@,
            Field::ScriptPubkey => "script-pubkey"@,
            Field::WitnessItemCount => "witness item count"@,
            Field::WitnessItemLength => "witness item length"@,
            Field::WitnessItem => "witness item"@,
            Field::LockTime => "lock time"@,
        }
    }

    /// The field's name in a message.
    pub fn name(&self) -> (text: &'static str)
        ensures
            text@ == self.name_text(),
    {
        match self {
            Field::Version => "version",
            Field::InputCount => "input count",
            Field::PreviousTxid => "previous transaction id",
            Field::PreviousOutputIndex => "previous output index",
            Field::ScriptSigLength => "script-sig length",
            Field::ScriptSig => "script-sig",
            Field::Sequence => "sequence",
            Field::OutputCount => "output count",
            Field::Value => "value",
            Field::ScriptPubkeyLength => "script-pubkey length",
            Field::ScriptPubkey => "script-pubkey",
            Field::WitnessItemCount => "witness item count",
            Field::WitnessItemLength => "witness item length",
            Field::WitnessItem => "witness item",
            Field::LockTime => "lock time",
        }
    }
}

/// Why a decode call returned no transaction.
#[derive(Clone, Copy, Debug, PartialEq, Eq, Structural)]
pub enum DecodeError {
    /// The text is not an even number of hexadecimal digits.
    InvalidHex,
    /// The buffer ended inside `field`.
    TruncatedInput { field: Field },
    /// A zero marker byte is followed by `flag`, which is neither 0 nor 1.
    UnsupportedEncoding { flag: u8 },
    /// `extra` bytes follow the lock time.
    TrailingData { extra: usize },
}

impl DecodeError {
    /// The failure as a sentence.
    pub open spec fn message_text(self) -> Seq<char> {
        match self {
            DecodeError::InvalidHex => "Invalid hex string"@,
            DecodeError::TruncatedInput { field } =>
                "Failed to decode transaction: input ended in "@ + field.name_text(),
            DecodeError::UnsupportedEncoding { flag } =>
                "Failed to decode transaction: unsupported flag "@ + decimal(flag as nat)
                    + " after the marker"@,
            DecodeError::TrailingData { extra } => "Failed to decode transaction: "@ + decimal(
                extra as nat,
            ) + " bytes after the lock time"@,
        }
    }

    /// The failure as a sentence.
    pub fn message(&self) -> (text: String)
        ensures
            text@ == self.message_text(),
    {
        match self {
            DecodeError::InvalidHex => String::from_str("Invalid hex string"),
            DecodeError::TruncatedInput { field } => {
                let mut text = String::from_str("Failed to decode transaction: input ended in ");
                text.append(field.name());
                text
            },
            DecodeError::UnsupportedEncoding { flag } => {
                let mut text = String::from_str("Failed to decode transaction: unsupported flag ");
                push_decimal(&mut text, *flag as usize);
                text.append(" after the marker");
                text
            },
            DecodeError::TrailingData { extra } => {
                let mut text = String::from_str("Failed to decode transaction: ");
                push_decimal(&mut text, *extra);
                text.append(" bytes after the lock time");
                text
            },
        }
    }

    /// True for the failures of the binary decoder, false for `InvalidHex`.
    pub fn is_decode_failure(&self) -> (r: bool)
        ensures
            r == !(*self is InvalidHex),
    {
        match self {
            DecodeError::InvalidHex => false,
            _ => true,
        }
    }
}

} // verus!
