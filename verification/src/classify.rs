//! Labels read off the shape of an input, a witness item or an output. The
//! encoding carries no type tag: the labels for inputs and witness items go
//! by lengths and leading bytes alone and are a best guess, while the anchor
//! test on an output is an exact match.

use vstd::prelude::*;
use vstd::string::StringExecFns;
use crate::decimal::decimal;
use crate::decimal::push_decimal;
use crate::transaction::TxIn;
use crate::transaction::TxInModel;
use crate::transaction::TxOut;

verus! {

/// The spend type that the shape of an input suggests.
#[derive(Clone, Copy, Debug, PartialEq, Eq, Structural)]
pub enum InputType {
    WitnessPublicKeyHash,
    WitnessScriptHash,
    TaprootKeyPath,
    TaprootScriptPath,
    UnknownSegwit,
    LegacyPublicKeyHash,
    LegacyScriptHashOrOther,
    Unknown,
}

/// The role that the length of a witness item suggests.
#[derive(Clone, Copy, Debug, PartialEq, Eq, Structural)]
pub enum WitnessItemKind {
    Empty,
    PublicKey,
    DerSignature,
    FixedWidthSignature,
    Data { len: usize },
    ScriptOrData { len: usize },
}

impl InputType {
    /// The label as text.
    pub open spec fn label_text(self) -> Seq<char> {
        match self {
            InputType::WitnessPublicKeyHash => "pay-to-witness-public-key-hash"@,
            InputType::WitnessScriptHash => "pay-to-witness-script-hash"@,
            InputType::TaprootKeyPath => "taproot key-path spend"@,
            InputType::TaprootScriptPath => "taproot script-path spend"@,
            InputType::UnknownSegwit => "segwit (unknown subtype)"@,
            InputType::LegacyPublicKeyHash => "pay-to-public-key-hash (legacy)"@,
            InputType::LegacyScriptHashOrOther => "pay-to-script-hash or other legacy"@,
            InputType::Unknown => "unknown"@,
        }
    }

    /// The label as text.
    pub fn label(&self) -> (text: &'static str)
        ensures
            text@ == self.label_text(),
    {
        match self {
            InputType::WitnessPublicKeyHash => "pay-to-witness-public-key-hash",
            InputType::WitnessScriptHash => "pay-to-witness-script-hash",
            InputType::TaprootKeyPath => "taproot key-path spend",
            InputType::TaprootScriptPath => "taproot script-path spend",
            InputType::UnknownSegwit => "segwit (unknown subtype)",
            InputType::LegacyPublicKeyHash => "pay-to-public-key-hash (legacy)",
            InputType::LegacyScriptHashOrOther => "pay-to-script-hash or other legacy",
            InputType::Unknown => "unknown",
        }
    }
}

impl WitnessItemKind {
    /// The label as text, with the item's length in decimal where the label
    /// names it.
    pub open spec fn label_text(self) -> Seq<char> {
        match self {
            WitnessItemKind::Empty => "empty witness item"@,
            WitnessItemKind::PublicKey => "public key"@,
            WitnessItemKind::DerSignature => "signature (DER-encoded)"@,
            WitnessItemKind::FixedWidthSignature => "signature (fixed-width)"@,
            WitnessItemKind::Data { len } => "data ("@ + decimal(len as nat) + " bytes)"@,
            WitnessItemKind::ScriptOrData { len } => "script or data ("@ + decimal(len as nat)
                + " bytes)"@,
        }
    }

    /// The label as text.
    pub fn label(&self) -> (text: String)
        ensures
            text@ == self.label_text(),
    {
        match self {
            WitnessItemKind::Empty => String::from_str("empty witness item"),
            WitnessItemKind::PublicKey => String::from_str("public key"),
            WitnessItemKind::DerSignature => String::from_str("signature (DER-encoded)"),
            WitnessItemKind::FixedWidthSignature => String::from_str("signature (fixed-width)"),
            WitnessItemKind::Data { len } => {
                let mut text = String::from_str("data (");
                push_decimal(&mut text, *len);
                text.append(" bytes)");
                text
            },
            WitnessItemKind::ScriptOrData { len } => {
                let mut text = String::from_str("script or data (");
                push_decimal(&mut text, *len);
                text.append(" bytes)");
                text
            },
        }
    }
}

/// The address under which an anchor output is shown.
pub fn anchor_address() -> (text: &'static str)
    ensures
        text@ == "bc1pfeessrawgf"@,
{
    "bc1pfeessrawgf"
}

/// The script of an anchor output: witness version 1 with the two-byte
/// program 0x4e73.
pub open spec fn anchor_script() -> Seq<u8> {
    seq![0x51u8, 0x02u8, 0x4eu8, 0x73u8]
}

/// The label of an input. The rules are tried in this order and the first
/// that matches decides.
pub open spec fn input_type(input: TxInModel) -> InputType {
    let stack = input.witness;
    let script_len = input.script_sig.len();
    if stack.len() > 0 {
        if stack.len() == 2 && (stack[1].len() == 33 || stack[1].len() == 65) {
            InputType::WitnessPublicKeyHash
        } else if stack.len() >= 2 && stack.last().len() > 33 {
            InputType::WitnessScriptHash
        } else if stack.len() == 1 && (stack[0].len() == 64 || stack[0].len() == 65) {
            InputType::TaprootKeyPath
        } else if stack.len() >= 2 && stack.last().len() > 0 && (stack.last()[0] == 0xc0
            || stack.last()[0] == 0xc1) {
            InputType::TaprootScriptPath
        } else {
            InputType::UnknownSegwit
        }
    } else if script_len > 0 {
        if 100 < script_len < 150 {
            InputType::LegacyPublicKeyHash
        } else {
            InputType::LegacyScriptHashOrOther
        }
    } else {
        InputType::Unknown
    }
}

/// The label of a witness item of `len` bytes.
pub open spec fn witness_item_kind(len: nat) -> WitnessItemKind {
    if len == 0 {
        WitnessItemKind::Empty
    } else if len == 33 || len == 65 {
        WitnessItemKind::PublicKey
    } else if 70 <= len <= 73 {
        WitnessItemKind::DerSignature
    } else if len == 64 {
        WitnessItemKind::FixedWidthSignature
    } else if len > 100 {
        WitnessItemKind::ScriptOrData { len: len as usize }
    } else {
        WitnessItemKind::Data { len: len as usize }
    }
}

/// Three shapes and their labels, whatever the bytes are: a stack of a
/// 72-byte and a 33-byte item, a stack of one 64-byte item, and a script of
/// 107 bytes without a witness.
pub proof fn lemma_input_type_by_shape(input: TxInModel)
    ensures
        input.witness.len() == 2 && input.witness[0].len() == 72 && input.witness[1].len() == 33
            ==> input_type(input) == InputType::WitnessPublicKeyHash,
        input.witness.len() == 1 && input.witness[0].len() == 64 ==> input_type(input)
            == InputType::TaprootKeyPath,
        input.witness.len() == 0 && input.script_sig.len() == 107 ==> input_type(input)
            == InputType::LegacyPublicKeyHash,
{
}

/// Labels an input by its witness stack or, without one, by its script.
pub fn detect_input_type(input: &TxIn) -> (label: InputType)
    ensures
        label == input_type(input@),
{
    let count = input.witness.len();
    if count > 0 {
        let last_len = input.witness[count - 1].len();
        if count == 2 && (last_len == 33 || last_len == 65) {
            return InputType::WitnessPublicKeyHash;
        }
        if count >= 2 && last_len > 33 {
            return InputType::WitnessScriptHash;
        }
        if count == 1 {
            if last_len == 64 || last_len == 65 {
                return InputType::TaprootKeyPath;
            }
        } else if last_len > 0 {
            let lead = input.witness[count - 1][0];
            if lead == 0xc0 || lead == 0xc1 {
                return InputType::TaprootScriptPath;
            }
        }
        return InputType::UnknownSegwit;
    }
    let script_len = input.script_sig.len();
    if script_len > 0 {
        if script_len > 100 && script_len < 150 {
            return InputType::LegacyPublicKeyHash;
        }
        return InputType::LegacyScriptHashOrOther;
    }
    InputType::Unknown
}

/// Labels a witness item by its length.
pub fn decode_witness_item(witness: &[u8]) -> (kind: WitnessItemKind)
    ensures
        kind == witness_item_kind(witness@.len()),
{
    let len = witness.len();
    if len == 0 {
        WitnessItemKind::Empty
    } else if len <= 75 {
        if len == 33 || len == 65 {
            WitnessItemKind::PublicKey
        } else if len >= 70 && len <= 73 {
            WitnessItemKind::DerSignature
        } else if len == 64 {
            WitnessItemKind::FixedWidthSignature
        } else {
            WitnessItemKind::Data { len }
        }
    } else if len > 100 {
        WitnessItemKind::ScriptOrData { len }
    } else {
        WitnessItemKind::Data { len }
    }
}

/// True exactly when the output's script is the four bytes of the anchor
/// script.
pub fn is_ephemeral_anchor(output: &TxOut) -> (anchor: bool)
    ensures
        anchor <==> output@.script_pubkey == anchor_script(),
{
    let script = &output.script_pubkey;
    let anchor = script.len() == 4 && script[0] == 0x51 && script[1] == 0x02 && script[2] == 0x4e
        && script[3] == 0x73;
    proof {
        if anchor {
            assert(script@ =~= anchor_script());
        }
    }
    anchor
}

} // verus!
