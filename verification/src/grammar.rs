//! The wire grammar as mathematics: what each part of an encoding reads as,
//! and how a transaction is written with every compact integer in its
//! shortest form.

use vstd::prelude::*;
use crate::cursor::take_bytes;
use crate::cursor::take_u32;
use crate::cursor::take_u64;
use crate::cursor::Parsed;
use crate::error::DecodeError;
use crate::error::Field;
use crate::transaction::OutPointModel;
use crate::transaction::TransactionModel;
use crate::transaction::TxInModel;
use crate::transaction::TxOutModel;
use crate::varint::bytes32;
use crate::varint::bytes64;
use crate::varint::compact_bytes;
use crate::varint::take_compact;

verus! {

/// A compact length at `pos` followed by that many raw bytes.
#[verifier::opaque]
pub open spec fn take_prefixed(s: Seq<u8>, pos: int, length: Field, body: Field) -> Parsed<
    Seq<u8>,
> {
    match take_compact(s, pos, length) {
        Err(e) => Err(e),
        Ok((n, next)) => take_bytes(s, next, n as int, body),
    }
}

/// One input at `pos`: identifier, index, script and sequence. Its witness
/// is empty here; the witness section comes after the outputs.
#[verifier::opaque]
pub open spec fn take_input(s: Seq<u8>, pos: int) -> Parsed<TxInModel> {
    match take_bytes(s, pos, 32, Field::PreviousTxid) {
        Err(e) => Err(e),
        Ok((previous_txid, at1)) => match take_u32(s, at1, Field::PreviousOutputIndex) {
            Err(e) => Err(e),
            Ok((previous_output_index, at2)) => match take_prefixed(
                s,
                at2,
                Field::ScriptSigLength,
                Field::ScriptSig,
            ) {
                Err(e) => Err(e),
                Ok((script_sig, at3)) => match take_u32(s, at3, Field::Sequence) {
                    Err(e) => Err(e),
                    Ok((sequence, at4)) => Ok(
                        (
                            TxInModel {
                                previous_output: OutPointModel {
                                    previous_txid,
                                    previous_output_index,
                                },
                                script_sig,
                                sequence,
                                witness: Seq::empty(),
                            },
                            at4,
                        ),
                    ),
                },
            },
        },
    }
}

/// `count` inputs, one after the other, from `pos`.
pub open spec fn take_inputs(s: Seq<u8>, pos: int, count: nat) -> Parsed<Seq<TxInModel>>
    decreases count,
{
    if count == 0 {
        Ok((Seq::empty(), pos))
    } else {
        match take_input(s, pos) {
            Err(e) => Err(e),
            Ok((first, next)) => match take_inputs(s, next, (count - 1) as nat) {
                Err(e) => Err(e),
                Ok((rest, end)) => Ok((seq![first] + rest, end)),
            },
        }
    }
}

/// One output at `pos`: value and script.
#[verifier::opaque]
pub open spec fn take_output(s: Seq<u8>, pos: int) -> Parsed<TxOutModel> {
    match take_u64(s, pos, Field::Value) {
        Err(e) => Err(e),
        Ok((value, at1)) => match take_prefixed(
            s,
            at1,
            Field::ScriptPubkeyLength,
            Field::ScriptPubkey,
        ) {
            Err(e) => Err(e),
            Ok((script_pubkey, at2)) => Ok((TxOutModel { value, script_pubkey }, at2)),
        },
    }
}

/// `count` outputs, one after the other, from `pos`.
pub open spec fn take_outputs(s: Seq<u8>, pos: int, count: nat) -> Parsed<Seq<TxOutModel>>
    decreases count,
{
    if count == 0 {
        Ok((Seq::empty(), pos))
    } else {
        match take_output(s, pos) {
            Err(e) => Err(e),
            Ok((first, next)) => match take_outputs(s, next, (count - 1) as nat) {
                Err(e) => Err(e),
                Ok((rest, end)) => Ok((seq![first] + rest, end)),
            },
        }
    }
}

/// `count` witness items, each with its compact length, from `pos`.
pub open spec fn take_items(s: Seq<u8>, pos: int, count: nat) -> Parsed<Seq<Seq<u8>>>
    decreases count,
{
    if count == 0 {
        Ok((Seq::empty(), pos))
    } else {
        match take_prefixed(s, pos, Field::WitnessItemLength, Field::WitnessItem) {
            Err(e) => Err(e),
            Ok((first, next)) => match take_items(s, next, (count - 1) as nat) {
                Err(e) => Err(e),
                Ok((rest, end)) => Ok((seq![first] + rest, end)),
            },
        }
    }
}

/// One witness stack at `pos`: a compact item count, then the items.
#[verifier::opaque]
pub open spec fn take_stack(s: Seq<u8>, pos: int) -> Parsed<Seq<Seq<u8>>> {
    match take_compact(s, pos, Field::WitnessItemCount) {
        Err(e) => Err(e),
        Ok((n, next)) => take_items(s, next, n as nat),
    }
}

/// `count` witness stacks, one after the other, from `pos`.
pub open spec fn take_stacks(s: Seq<u8>, pos: int, count: nat) -> Parsed<Seq<Seq<Seq<u8>>>>
    decreases count,
{
    if count == 0 {
        Ok((Seq::empty(), pos))
    } else {
        match take_stack(s, pos) {
            Err(e) => Err(e),
            Ok((first, next)) => match take_stacks(s, next, (count - 1) as nat) {
                Err(e) => Err(e),
                Ok((rest, end)) => Ok((seq![first] + rest, end)),
            },
        }
    }
}

/// The witness marker at `pos`. The two bytes 0, 1 are consumed and say that
/// a witness section follows the outputs. A zero byte followed by a byte
/// other than 0 or 1 is refused. Anything else, fewer than two bytes
/// included, consumes nothing and says that there is no witness section.
pub open spec fn take_marker(s: Seq<u8>, pos: int) -> Parsed<bool> {
    if 0 <= pos && pos + 2 <= s.len() && s[pos] == 0 {
        if s[pos + 1] == 1 {
            Ok((true, pos + 2))
        } else if s[pos + 1] == 0 {
            Ok((false, pos))
        } else {
            Err(DecodeError::UnsupportedEncoding { flag: s[pos + 1] })
        }
    } else {
        Ok((false, pos))
    }
}

/// The signed reading of a 32-bit value.
pub open spec fn signed32(v: u32) -> i32 {
    if v < 0x8000_0000 {
        v as i32
    } else {
        (v - 0x1_0000_0000) as i32
    }
}

/// The unsigned 32-bit value whose signed reading is `v`.
pub open spec fn unsigned32(v: i32) -> u32 {
    if v >= 0 {
        v as u32
    } else {
        (v + 0x1_0000_0000) as u32
    }
}

/// The inputs with input `i` given witness stack `i`.
pub open spec fn with_witnesses(inputs: Seq<TxInModel>, stacks: Seq<Seq<Seq<u8>>>) -> Seq<
    TxInModel,
> {
    Seq::new(
        inputs.len(),
        |i: int|
            TxInModel {
                previous_output: inputs[i].previous_output,
                script_sig: inputs[i].script_sig,
                sequence: inputs[i].sequence,
                witness: stacks[i],
            },
    )
}

/// The witness section at `pos` for `inputs`: one stack per input when the
/// marker was present, nothing otherwise.
pub open spec fn take_witnesses(
    s: Seq<u8>,
    pos: int,
    inputs: Seq<TxInModel>,
    marked: bool,
) -> Parsed<Seq<TxInModel>> {
    if marked {
        match take_stacks(s, pos, inputs.len()) {
            Err(e) => Err(e),
            Ok((stacks, end)) => Ok((with_witnesses(inputs, stacks), end)),
        }
    } else {
        Ok((inputs, pos))
    }
}

/// A compact count at `pos` followed by that many inputs.
#[verifier::opaque]
pub open spec fn take_input_section(s: Seq<u8>, pos: int) -> Parsed<Seq<TxInModel>> {
    match take_compact(s, pos, Field::InputCount) {
        Err(e) => Err(e),
        Ok((count, next)) => take_inputs(s, next, count as nat),
    }
}

/// A compact count at `pos` followed by that many outputs.
#[verifier::opaque]
pub open spec fn take_output_section(s: Seq<u8>, pos: int) -> Parsed<Seq<TxOutModel>> {
    match take_compact(s, pos, Field::OutputCount) {
        Err(e) => Err(e),
        Ok((count, next)) => take_outputs(s, next, count as nat),
    }
}

/// What follows the version and the marker: inputs, outputs, the witness
/// section when `marked`, and the lock time.
#[verifier::opaque]
pub open spec fn take_body(s: Seq<u8>, pos: int, version: i32, marked: bool) -> Parsed<
    TransactionModel,
> {
    match take_input_section(s, pos) {
        Err(e) => Err(e),
        Ok((bare_inputs, at1)) => match take_output_section(s, at1) {
            Err(e) => Err(e),
            Ok((outputs, at2)) => match take_witnesses(s, at2, bare_inputs, marked) {
                Err(e) => Err(e),
                Ok((inputs, at3)) => match take_u32(s, at3, Field::LockTime) {
                    Err(e) => Err(e),
                    Ok((lock_time, at4)) => Ok(
                        (
                            TransactionModel {
                                version,
                                inputs,
                                outputs,
                                lock_time,
                                has_witness: marked,
                            },
                            at4,
                        ),
                    ),
                },
            },
        },
    }
}

/// A transaction at the start of `s`, and the position after its lock time.
pub open spec fn take_transaction(s: Seq<u8>) -> Parsed<TransactionModel> {
    match take_u32(s, 0, Field::Version) {
        Err(e) => Err(e),
        Ok((version, at1)) => match take_marker(s, at1) {
            Err(e) => Err(e),
            Ok((marked, at2)) => take_body(s, at2, signed32(version), marked),
        },
    }
}

/// What the whole buffer `s` decodes to: the transaction that it holds from
/// its first byte to its last, or the failure.
pub open spec fn decoded(s: Seq<u8>) -> Result<TransactionModel, DecodeError> {
    match take_transaction(s) {
        Err(e) => Err(e),
        Ok((tx, end)) => if end == s.len() {
            Ok(tx)
        } else {
            Err(DecodeError::TrailingData { extra: (s.len() - end) as usize })
        },
    }
}

/// A byte string behind its compact length.
pub open spec fn prefixed_bytes(body: Seq<u8>) -> Seq<u8> {
    compact_bytes(body.len() as int) + body
}

/// An input without its witness.
pub open spec fn input_bytes(input: TxInModel) -> Seq<u8> {
    input.previous_output.previous_txid + bytes32(
        input.previous_output.previous_output_index as int,
    ) + prefixed_bytes(input.script_sig) + bytes32(input.sequence as int)
}

/// The inputs, one after the other, without their witnesses.
pub open spec fn inputs_bytes(inputs: Seq<TxInModel>) -> Seq<u8>
    decreases inputs.len(),
{
    if inputs.len() == 0 {
        Seq::empty()
    } else {
        inputs_bytes(inputs.drop_last()) + input_bytes(inputs.last())
    }
}

/// An output.
pub open spec fn output_bytes(output: TxOutModel) -> Seq<u8> {
    bytes64(output.value as int) + prefixed_bytes(output.script_pubkey)
}

/// The outputs, one after the other.
pub open spec fn outputs_bytes(outputs: Seq<TxOutModel>) -> Seq<u8>
    decreases outputs.len(),
{
    if outputs.len() == 0 {
        Seq::empty()
    } else {
        outputs_bytes(outputs.drop_last()) + output_bytes(outputs.last())
    }
}

/// The items of a witness stack, each behind its compact length.
pub open spec fn items_bytes(items: Seq<Seq<u8>>) -> Seq<u8>
    decreases items.len(),
{
    if items.len() == 0 {
        Seq::empty()
    } else {
        items_bytes(items.drop_last()) + prefixed_bytes(items.last())
    }
}

/// A witness stack: its compact item count, then its items.
pub open spec fn stack_bytes(items: Seq<Seq<u8>>) -> Seq<u8> {
    compact_bytes(items.len() as int) + items_bytes(items)
}

/// The witness stacks of the inputs, one after the other.
pub open spec fn witnesses_bytes(inputs: Seq<TxInModel>) -> Seq<u8>
    decreases inputs.len(),
{
    if inputs.len() == 0 {
        Seq::empty()
    } else {
        witnesses_bytes(inputs.drop_last()) + stack_bytes(inputs.last().witness)
    }
}

/// The encoding without marker and witness section: version, inputs,
/// outputs and lock time.
pub open spec fn base_bytes(tx: TransactionModel) -> Seq<u8> {
    bytes32(unsigned32(tx.version) as int) + compact_bytes(tx.inputs.len() as int) + inputs_bytes(
        tx.inputs,
    ) + compact_bytes(tx.outputs.len() as int) + outputs_bytes(tx.outputs) + bytes32(
        tx.lock_time as int,
    )
}

/// The encoding of `tx`. With `has_witness` the marker bytes 0, 1 follow the
/// version and the witness stacks follow the outputs; without it the
/// encoding is `base_bytes`.
pub open spec fn encoded(tx: TransactionModel) -> Seq<u8> {
    if tx.has_witness {
        bytes32(unsigned32(tx.version) as int) + seq![0u8, 1u8] + compact_bytes(
            tx.inputs.len() as int,
        ) + inputs_bytes(tx.inputs) + compact_bytes(tx.outputs.len() as int) + outputs_bytes(
            tx.outputs,
        ) + witnesses_bytes(tx.inputs) + bytes32(tx.lock_time as int)
    } else {
        base_bytes(tx)
    }
}

} // verus!
