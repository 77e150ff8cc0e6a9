//! What a successful read consumed: at least the bytes of the shortest
//! encoding of what it returned, all of them inside the buffer. It follows
//! that a decoded transaction is well formed and that its encoding is no
//! longer than the buffer it came from.

use vstd::prelude::*;
use crate::cursor::take_u32;
use crate::error::Field;
use crate::grammar::decoded;
use crate::grammar::encoded;
use crate::grammar::input_bytes;
use crate::grammar::inputs_bytes;
use crate::grammar::items_bytes;
use crate::grammar::output_bytes;
use crate::grammar::outputs_bytes;
use crate::grammar::prefixed_bytes;
use crate::grammar::stack_bytes;
use crate::grammar::signed32;
use crate::grammar::take_body;
use crate::grammar::unsigned32;
use crate::grammar::take_input;
use crate::grammar::take_input_section;
use crate::grammar::take_output_section;
use crate::grammar::take_inputs;
use crate::grammar::take_items;
use crate::grammar::take_marker;
use crate::grammar::take_output;
use crate::grammar::take_outputs;
use crate::grammar::take_prefixed;
use crate::grammar::take_stack;
use crate::grammar::take_stacks;
use crate::grammar::take_witnesses;
use crate::grammar::with_witnesses;
use crate::grammar::witnesses_bytes;
use crate::transaction::TransactionModel;
use crate::transaction::TxInModel;
use crate::transaction::TxOutModel;
use crate::varint::bytes16;
use crate::varint::bytes32;
use crate::varint::bytes64;
use crate::varint::compact_bytes;
use crate::varint::compact_len;
use crate::varint::take_compact;

verus! {

/// The fixed-width encodings have two, four and eight bytes, and the
/// shortest compact form of `n` has `compact_len(n)`.
pub proof fn lemma_widths(v: int)
    ensures
        bytes16(v).len() == 2,
        bytes32(v).len() == 4,
        bytes64(v).len() == 8,
        compact_bytes(v).len() == compact_len(v),
        1 <= compact_len(v) <= 9,
{
    reveal(bytes16);
    reveal(bytes32);
    reveal(bytes64);
    reveal(compact_bytes);
}

/// A compact integer takes at least as many bytes as its shortest form, and
/// at most nine.
pub proof fn lemma_compact_span(s: Seq<u8>, pos: int, field: Field)
    ensures
        match take_compact(s, pos, field) {
            Ok((v, end)) => 0 <= pos && pos + compact_len(v as int) <= end <= pos + 9 && end
                <= s.len(),
            Err(_) => true,
        },
{
    reveal(take_compact);
}

/// A length-prefixed byte string takes at least the bytes of its shortest
/// encoding.
pub proof fn lemma_prefixed_span(s: Seq<u8>, pos: int, length: Field, body: Field)
    ensures
        match take_prefixed(s, pos, length, body) {
            Ok((v, end)) => 0 <= pos && pos + prefixed_bytes(v).len() <= end <= s.len() && v.len()
                <= u64::MAX,
            Err(_) => true,
        },
{
    reveal(take_prefixed);
    lemma_compact_span(s, pos, length);
    if let Ok((v, end)) = take_prefixed(s, pos, length, body) {
        lemma_widths(v.len() as int);
    }
}

/// An input takes at least the bytes of its shortest encoding.
pub proof fn lemma_input_span(s: Seq<u8>, pos: int)
    ensures
        match take_input(s, pos) {
            Ok((input, end)) => 0 <= pos && pos + input_bytes(input).len() <= end <= s.len()
                && 41 <= input_bytes(input).len() && input.well_formed() && input.witness.len()
                == 0,
            Err(_) => true,
        },
{
    reveal(take_input);
    if let Ok((input, end)) = take_input(s, pos) {
        lemma_prefixed_span(s, pos + 36, Field::ScriptSigLength, Field::ScriptSig);
        lemma_widths(input.previous_output.previous_output_index as int);
        lemma_widths(input.sequence as int);
        lemma_widths(input.script_sig.len() as int);
    }
}

/// An output takes at least the bytes of its shortest encoding.
pub proof fn lemma_output_span(s: Seq<u8>, pos: int)
    ensures
        match take_output(s, pos) {
            Ok((output, end)) => 0 <= pos && pos + output_bytes(output).len() <= end <= s.len()
                && 9 <= output_bytes(output).len() && output.well_formed(),
            Err(_) => true,
        },
{
    reveal(take_output);
    if let Ok((output, end)) = take_output(s, pos) {
        lemma_prefixed_span(s, pos + 8, Field::ScriptPubkeyLength, Field::ScriptPubkey);
        lemma_widths(output.value as int);
        lemma_widths(output.script_pubkey.len() as int);
    }
}

/// The encoding of a run of inputs is that of the first followed by that of
/// the others.
pub proof fn lemma_inputs_bytes_cons(first: TxInModel, rest: Seq<TxInModel>)
    ensures
        inputs_bytes(seq![first] + rest) == input_bytes(first) + inputs_bytes(rest),
    decreases rest.len(),
{
    let all = seq![first] + rest;
    if rest.len() == 0 {
        assert(all.drop_last() =~= Seq::empty());
        assert(rest =~= Seq::empty());
        assert(inputs_bytes(Seq::<TxInModel>::empty()) =~= Seq::<u8>::empty());
        assert(inputs_bytes(all) =~= input_bytes(first) + inputs_bytes(rest));
    } else {
        assert(all.drop_last() =~= seq![first] + rest.drop_last());
        lemma_inputs_bytes_cons(first, rest.drop_last());
        assert(inputs_bytes(all) =~= input_bytes(first) + inputs_bytes(rest));
    }
}

/// The encoding of a run of outputs is that of the first followed by that
/// of the others.
pub proof fn lemma_outputs_bytes_cons(first: TxOutModel, rest: Seq<TxOutModel>)
    ensures
        outputs_bytes(seq![first] + rest) == output_bytes(first) + outputs_bytes(rest),
    decreases rest.len(),
{
    let all = seq![first] + rest;
    if rest.len() == 0 {
        assert(all.drop_last() =~= Seq::empty());
        assert(rest =~= Seq::empty());
        assert(outputs_bytes(Seq::<TxOutModel>::empty()) =~= Seq::<u8>::empty());
        assert(outputs_bytes(all) =~= output_bytes(first) + outputs_bytes(rest));
    } else {
        assert(all.drop_last() =~= seq![first] + rest.drop_last());
        lemma_outputs_bytes_cons(first, rest.drop_last());
        assert(outputs_bytes(all) =~= output_bytes(first) + outputs_bytes(rest));
    }
}

/// The encoding of a run of witness items is that of the first followed by
/// that of the others.
pub proof fn lemma_items_bytes_cons(first: Seq<u8>, rest: Seq<Seq<u8>>)
    ensures
        items_bytes(seq![first] + rest) == prefixed_bytes(first) + items_bytes(rest),
    decreases rest.len(),
{
    let all = seq![first] + rest;
    if rest.len() == 0 {
        assert(all.drop_last() =~= Seq::empty());
        assert(rest =~= Seq::empty());
        assert(items_bytes(Seq::<Seq<u8>>::empty()) =~= Seq::<u8>::empty());
        assert(items_bytes(all) =~= prefixed_bytes(first) + items_bytes(rest));
    } else {
        assert(all.drop_last() =~= seq![first] + rest.drop_last());
        lemma_items_bytes_cons(first, rest.drop_last());
        assert(items_bytes(all) =~= prefixed_bytes(first) + items_bytes(rest));
    }
}

/// The witness section of a run of inputs is the stack of the first
/// followed by the stacks of the others.
pub proof fn lemma_witnesses_bytes_cons(first: TxInModel, rest: Seq<TxInModel>)
    ensures
        witnesses_bytes(seq![first] + rest) == stack_bytes(first.witness) + witnesses_bytes(rest),
    decreases rest.len(),
{
    let all = seq![first] + rest;
    if rest.len() == 0 {
        assert(all.drop_last() =~= Seq::empty());
        assert(rest =~= Seq::empty());
        assert(witnesses_bytes(Seq::<TxInModel>::empty()) =~= Seq::<u8>::empty());
        assert(witnesses_bytes(all) =~= stack_bytes(first.witness) + witnesses_bytes(rest));
    } else {
        assert(all.drop_last() =~= seq![first] + rest.drop_last());
        lemma_witnesses_bytes_cons(first, rest.drop_last());
        assert(witnesses_bytes(all) =~= stack_bytes(first.witness) + witnesses_bytes(rest));
    }
}

/// A run of inputs takes at least the bytes of its shortest encoding, and
/// at least 41 bytes for each input.
pub proof fn lemma_inputs_span(s: Seq<u8>, pos: int, count: nat)
    ensures
        match take_inputs(s, pos, count) {
            Ok((inputs, end)) => {
                &&& inputs.len() == count
                &&& pos + inputs_bytes(inputs).len() <= end
                &&& 41 * count <= inputs_bytes(inputs).len()
                &&& 0 <= pos <= s.len() ==> end <= s.len()
                &&& forall|i: int|
                    0 <= i < inputs.len() ==> (#[trigger] inputs[i]).well_formed()
                        && inputs[i].witness.len() == 0
            },
            Err(_) => true,
        },
    decreases count,
{
    if count > 0 {
        lemma_input_span(s, pos);
        if let Ok((first, next)) = take_input(s, pos) {
            lemma_inputs_span(s, next, (count - 1) as nat);
            if let Ok((rest, end)) = take_inputs(s, next, (count - 1) as nat) {
                lemma_inputs_bytes_cons(first, rest);
            }
        }
    }
}

/// A run of outputs takes at least the bytes of its shortest encoding, and
/// at least nine bytes for each output.
pub proof fn lemma_outputs_span(s: Seq<u8>, pos: int, count: nat)
    ensures
        match take_outputs(s, pos, count) {
            Ok((outputs, end)) => {
                &&& outputs.len() == count
                &&& pos + outputs_bytes(outputs).len() <= end
                &&& 9 * count <= outputs_bytes(outputs).len()
                &&& 0 <= pos <= s.len() ==> end <= s.len()
                &&& forall|i: int| 0 <= i < outputs.len() ==> (#[trigger] outputs[i]).well_formed()
            },
            Err(_) => true,
        },
    decreases count,
{
    if count > 0 {
        lemma_output_span(s, pos);
        if let Ok((first, next)) = take_output(s, pos) {
            lemma_outputs_span(s, next, (count - 1) as nat);
            if let Ok((rest, end)) = take_outputs(s, next, (count - 1) as nat) {
                lemma_outputs_bytes_cons(first, rest);
            }
        }
    }
}

/// A run of witness items takes at least the bytes of its shortest
/// encoding, and at least one byte for each item.
pub proof fn lemma_items_span(s: Seq<u8>, pos: int, count: nat)
    ensures
        match take_items(s, pos, count) {
            Ok((items, end)) => {
                &&& items.len() == count
                &&& pos + items_bytes(items).len() <= end
                &&& count <= items_bytes(items).len()
                &&& 0 <= pos <= s.len() ==> end <= s.len()
                &&& forall|i: int| 0 <= i < items.len() ==> (#[trigger] items[i]).len() <= u64::MAX
            },
            Err(_) => true,
        },
    decreases count,
{
    if count > 0 {
        lemma_prefixed_span(s, pos, Field::WitnessItemLength, Field::WitnessItem);
        if let Ok((first, next)) = take_prefixed(
            s,
            pos,
            Field::WitnessItemLength,
            Field::WitnessItem,
        ) {
            lemma_widths(first.len() as int);
            lemma_items_span(s, next, (count - 1) as nat);
            if let Ok((rest, end)) = take_items(s, next, (count - 1) as nat) {
                lemma_items_bytes_cons(first, rest);
            }
        }
    }
}

/// A witness stack takes at least the bytes of its shortest encoding.
pub proof fn lemma_stack_span(s: Seq<u8>, pos: int)
    ensures
        match take_stack(s, pos) {
            Ok((items, end)) => {
                &&& 0 <= pos
                &&& pos + stack_bytes(items).len() <= end <= s.len()
                &&& 1 <= stack_bytes(items).len()
                &&& items.len() <= u64::MAX
                &&& forall|i: int| 0 <= i < items.len() ==> (#[trigger] items[i]).len() <= u64::MAX
            },
            Err(_) => true,
        },
{
    reveal(take_stack);
    lemma_compact_span(s, pos, Field::WitnessItemCount);
    if let Ok((n, next)) = take_compact(s, pos, Field::WitnessItemCount) {
        lemma_items_span(s, next, n as nat);
        lemma_widths(n as int);
    }
}

/// A run of witness stacks takes at least one byte for each stack, and every
/// stack and item in it can be written behind a compact integer.
pub proof fn lemma_stacks_span(s: Seq<u8>, pos: int, count: nat)
    ensures
        match take_stacks(s, pos, count) {
            Ok((stacks, end)) => {
                &&& stacks.len() == count
                &&& pos + count <= end
                &&& 0 <= pos <= s.len() ==> end <= s.len()
                &&& forall|i: int|
                    0 <= i < stacks.len() ==> (#[trigger] stacks[i]).len() <= u64::MAX
                &&& forall|i: int, k: int|
                    0 <= i < stacks.len() && 0 <= k < stacks[i].len() ==> (
                    #[trigger] stacks[i][k]).len() <= u64::MAX
            },
            Err(_) => true,
        },
    decreases count,
{
    if count > 0 {
        lemma_stack_span(s, pos);
        if let Ok((first, next)) = take_stack(s, pos) {
            lemma_stacks_span(s, next, (count - 1) as nat);
        }
    }
}

/// The witness section takes at least the bytes of its shortest encoding.
pub proof fn lemma_witnesses_span(s: Seq<u8>, pos: int, bare: Seq<TxInModel>)
    requires
        forall|i: int| 0 <= i < bare.len() ==> (#[trigger] bare[i]).well_formed(),
    ensures
        match take_witnesses(s, pos, bare, true) {
            Ok((inputs, end)) => {
                &&& inputs.len() == bare.len()
                &&& pos + witnesses_bytes(inputs).len() <= end
                &&& 0 <= pos <= s.len() ==> end <= s.len()
                &&& inputs_bytes(inputs) == inputs_bytes(bare)
                &&& forall|i: int| 0 <= i < inputs.len() ==> (#[trigger] inputs[i]).well_formed()
            },
            Err(_) => true,
        },
{
    if let Ok((stacks, end)) = take_stacks(s, pos, bare.len()) {
        lemma_stacks_span(s, pos, bare.len());
        lemma_stacks_bytes(s, pos, bare, stacks);
    }
}

/// The stacks read for `bare` take at least the bytes of the witness
/// section of the inputs that carry them; the inputs' own encoding is that
/// of `bare`.
proof fn lemma_stacks_bytes(s: Seq<u8>, pos: int, bare: Seq<TxInModel>, stacks: Seq<Seq<Seq<u8>>>)
    requires
        take_stacks(s, pos, bare.len()) is Ok,
        take_stacks(s, pos, bare.len())->Ok_0.0 == stacks,
    ensures
        pos + witnesses_bytes(with_witnesses(bare, stacks)).len() <= take_stacks(
            s,
            pos,
            bare.len(),
        )->Ok_0.1,
        inputs_bytes(with_witnesses(bare, stacks)) == inputs_bytes(bare),
    decreases bare.len(),
{
    let inputs = with_witnesses(bare, stacks);
    lemma_stacks_span(s, pos, bare.len());
    if bare.len() > 0 {
        lemma_stack_span(s, pos);
        let (first, next) = take_stack(s, pos)->Ok_0;
        let (rest, end) = take_stacks(s, next, (bare.len() - 1) as nat)->Ok_0;
        lemma_stacks_span(s, next, (bare.len() - 1) as nat);
        let bare_rest = bare.skip(1);
        lemma_stacks_bytes(s, next, bare_rest, rest);
        let head = TxInModel {
            previous_output: bare[0].previous_output,
            script_sig: bare[0].script_sig,
            sequence: bare[0].sequence,
            witness: first,
        };
        assert(inputs =~= seq![head] + with_witnesses(bare_rest, rest));
        assert(bare =~= seq![bare[0]] + bare_rest);
        lemma_witnesses_bytes_cons(head, with_witnesses(bare_rest, rest));
        lemma_inputs_bytes_cons(head, with_witnesses(bare_rest, rest));
        lemma_inputs_bytes_cons(bare[0], bare_rest);
        assert(input_bytes(head) == input_bytes(bare[0]));
    } else {
        assert(inputs =~= bare);
    }
}

/// The bytes that `encoded` writes after version and marker.
pub open spec fn body_len(tx: TransactionModel) -> int {
    compact_len(tx.inputs.len() as int) + inputs_bytes(tx.inputs).len() + compact_len(
        tx.outputs.len() as int,
    ) + outputs_bytes(tx.outputs).len() + if tx.has_witness {
        witnesses_bytes(tx.inputs).len() as int
    } else {
        0
    } + 4
}

/// The encoding of a transaction is its version, its marker when it has
/// one, and its body.
pub proof fn lemma_encoded_len(tx: TransactionModel)
    ensures
        encoded(tx).len() == 4 + body_len(tx) + if tx.has_witness {
            2int
        } else {
            0
        },
        body_len(tx) >= 6,
{
    lemma_widths(unsigned32(tx.version) as int);
    lemma_widths(tx.inputs.len() as int);
    lemma_widths(tx.outputs.len() as int);
    lemma_widths(tx.lock_time as int);
}

/// The input section takes at least the bytes of its shortest encoding.
pub proof fn lemma_input_section_span(s: Seq<u8>, pos: int)
    ensures
        match take_input_section(s, pos) {
            Ok((inputs, end)) => {
                &&& 0 <= pos
                &&& 1 <= compact_len(inputs.len() as int)
                &&& pos + compact_len(inputs.len() as int) + inputs_bytes(inputs).len() <= end
                    <= s.len()
                &&& inputs.len() <= u64::MAX
                &&& forall|i: int|
                    0 <= i < inputs.len() ==> (#[trigger] inputs[i]).well_formed()
                        && inputs[i].witness.len() == 0
            },
            Err(_) => true,
        },
{
    reveal(take_input_section);
    lemma_compact_span(s, pos, Field::InputCount);
    if let Ok((count, next)) = take_compact(s, pos, Field::InputCount) {
        lemma_inputs_span(s, next, count as nat);
    }
}

/// The output section takes at least the bytes of its shortest encoding.
pub proof fn lemma_output_section_span(s: Seq<u8>, pos: int)
    ensures
        match take_output_section(s, pos) {
            Ok((outputs, end)) => {
                &&& 0 <= pos
                &&& 1 <= compact_len(outputs.len() as int)
                &&& pos + compact_len(outputs.len() as int) + outputs_bytes(outputs).len() <= end
                    <= s.len()
                &&& outputs.len() <= u64::MAX
                &&& forall|i: int| 0 <= i < outputs.len() ==> (#[trigger] outputs[i]).well_formed()
            },
            Err(_) => true,
        },
{
    reveal(take_output_section);
    lemma_compact_span(s, pos, Field::OutputCount);
    if let Ok((count, next)) = take_compact(s, pos, Field::OutputCount) {
        lemma_outputs_span(s, next, count as nat);
    }
}

/// What follows version and marker takes at least the bytes of its shortest
/// encoding, and reads as a well-formed transaction.
pub proof fn lemma_body_span(s: Seq<u8>, pos: int, version: i32, marked: bool)
    ensures
        match take_body(s, pos, version, marked) {
            Ok((tx, end)) => {
                &&& 0 <= pos
                &&& pos + body_len(tx) <= end <= s.len()
                &&& tx.version == version
                &&& tx.has_witness == marked
                &&& tx.well_formed()
            },
            Err(_) => true,
        },
{
    reveal(take_body);
    lemma_input_section_span(s, pos);
    if let Ok((bare, at1)) = take_input_section(s, pos) {
        lemma_output_section_span(s, at1);
        if let Ok((outputs, at2)) = take_output_section(s, at1) {
            if marked {
                lemma_witnesses_span(s, at2, bare);
            }
        }
    }
}

/// A buffer that decodes holds at least ten bytes, the transaction is well
/// formed, and its encoding is no longer than the buffer.
pub proof fn lemma_decoded_fits(s: Seq<u8>)
    ensures
        match decoded(s) {
            Ok(tx) => tx.well_formed() && 10 <= encoded(tx).len() <= s.len(),
            Err(_) => true,
        },
{
    if let Ok(tx) = decoded(s) {
        let raw = take_u32(s, 0, Field::Version)->Ok_0.0;
        let (marked, at2) = take_marker(s, 4)->Ok_0;
        lemma_body_span(s, at2, signed32(raw), marked);
        lemma_encoded_len(tx);
    }
}

} // verus!
