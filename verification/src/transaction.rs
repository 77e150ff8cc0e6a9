//! The decoded transaction and its parts, each with the mathematical value
//! that the contracts speak of.

use vstd::prelude::*;

verus! {

/// A reference to an output of an earlier transaction.
#[derive(Clone, Debug, PartialEq, Eq)]
pub struct OutPoint {
    /// The 32 bytes of the earlier transaction's identifier, in wire order.
    pub previous_txid: [u8; 32],
    pub previous_output_index: u32,
}

/// One input of a transaction.
#[derive(Clone, Debug, PartialEq, Eq)]
pub struct TxIn {
    pub previous_output: OutPoint,
    pub script_sig: Vec<u8>,
    pub sequence: u32,
    /// The witness stack; empty when the input carries no witness data.
    pub witness: Vec<Vec<u8>>,
}

/// One output of a transaction.
#[derive(Clone, Debug, PartialEq, Eq)]
pub struct TxOut {
    pub value: u64,
    pub script_pubkey: Vec<u8>,
}

/// A decoded transaction.
#[derive(Clone, Debug, PartialEq, Eq)]
pub struct Transaction {
    pub version: i32,
    pub inputs: Vec<TxIn>,
    pub outputs: Vec<TxOut>,
    pub lock_time: u32,
    /// True when the encoding carried the witness marker.
    pub has_witness: bool,
}

/// The value of an `OutPoint`.
#[verifier::ext_equal]
pub struct OutPointModel {
    pub previous_txid: Seq<u8>,
    pub previous_output_index: u32,
}

/// The value of a `TxIn`.
#[verifier::ext_equal]
pub struct TxInModel {
    pub previous_output: OutPointModel,
    pub script_sig: Seq<u8>,
    pub sequence: u32,
    pub witness: Seq<Seq<u8>>,
}

/// The value of a `TxOut`.
#[verifier::ext_equal]
pub struct TxOutModel {
    pub value: u64,
    pub script_pubkey: Seq<u8>,
}

/// The value of a `Transaction`.
#[verifier::ext_equal]
pub struct TransactionModel {
    pub version: i32,
    pub inputs: Seq<TxInModel>,
    pub outputs: Seq<TxOutModel>,
    pub lock_time: u32,
    pub has_witness: bool,
}

/// The items of a witness stack as byte sequences.
pub open spec fn stack_model(items: Seq<Vec<u8>>) -> Seq<Seq<u8>> {
    Seq::new(items.len(), |i: int| items[i]@)
}

/// The values of a run of inputs.
pub open spec fn inputs_model(inputs: Seq<TxIn>) -> Seq<TxInModel> {
    Seq::new(inputs.len(), |i: int| inputs[i]@)
}

/// The values of a run of outputs.
pub open spec fn outputs_model(outputs: Seq<TxOut>) -> Seq<TxOutModel> {
    Seq::new(outputs.len(), |i: int| outputs[i]@)
}

impl View for OutPoint {
    type V = OutPointModel;

    open spec fn view(&self) -> OutPointModel {
        OutPointModel {
            previous_txid: self.previous_txid@,
            previous_output_index: self.previous_output_index,
        }
    }
}

impl View for TxIn {
    type V = TxInModel;

    open spec fn view(&self) -> TxInModel {
        TxInModel {
            previous_output: self.previous_output@,
            script_sig: self.script_sig@,
            sequence: self.sequence,
            witness: stack_model(self.witness@),
        }
    }
}

impl View for TxOut {
    type V = TxOutModel;

    open spec fn view(&self) -> TxOutModel {
        TxOutModel { value: self.value, script_pubkey: self.script_pubkey@ }
    }
}

impl View for Transaction {
    type V = TransactionModel;

    open spec fn view(&self) -> TransactionModel {
        TransactionModel {
            version: self.version,
            inputs: inputs_model(self.inputs@),
            outputs: outputs_model(self.outputs@),
            lock_time: self.lock_time,
            has_witness: self.has_witness,
        }
    }
}

impl TxInModel {
    /// The identifier has 32 bytes and every length can be written as a
    /// compact integer.
    pub open spec fn well_formed(self) -> bool {
        &&& self.previous_output.previous_txid.len() == 32
        &&& self.script_sig.len() <= u64::MAX
        &&& self.witness.len() <= u64::MAX
        &&& forall|k: int|
            0 <= k < self.witness.len() ==> (#[trigger] self.witness[k]).len() <= u64::MAX
    }
}

impl TxOutModel {
    /// The script's length can be written as a compact integer.
    pub open spec fn well_formed(self) -> bool {
        self.script_pubkey.len() <= u64::MAX
    }
}

impl TransactionModel {
    /// Every part is well formed, the counts can be written as compact
    /// integers, and a transaction without the witness marker has no witness
    /// data.
    pub open spec fn well_formed(self) -> bool {
        &&& self.inputs.len() <= u64::MAX
        &&& self.outputs.len() <= u64::MAX
        &&& forall|i: int|
            0 <= i < self.inputs.len() ==> (#[trigger] self.inputs[i]).well_formed()
        &&& forall|i: int|
            0 <= i < self.outputs.len() ==> (#[trigger] self.outputs[i]).well_formed()
        &&& !self.has_witness ==> forall|i: int|
            0 <= i < self.inputs.len() ==> (#[trigger] self.inputs[i]).witness.len() == 0
    }
}

} // verus!
