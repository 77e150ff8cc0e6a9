//! Reading back what was written: a buffer that holds the shortest encoding
//! of an item reads as that item, and the encoding of a well-formed
//! transaction decodes to the transaction.

use vstd::prelude::*;
use crate::bounds::body_len;
use crate::bounds::lemma_body_span;
use crate::bounds::lemma_decoded_fits;
use crate::bounds::lemma_inputs_bytes_cons;
use crate::bounds::lemma_items_bytes_cons;
use crate::bounds::lemma_outputs_bytes_cons;
use crate::bounds::lemma_widths;
use crate::bounds::lemma_witnesses_bytes_cons;
use crate::cursor::le16;
use crate::cursor::le32;
use crate::cursor::le64;
use crate::cursor::take_bytes;
use crate::cursor::take_u16;
use crate::cursor::take_u32;
use crate::cursor::take_u64;
use crate::cursor::gives;
use crate::error::DecodeError;
use crate::error::Field;
use crate::grammar::decoded;
use crate::grammar::encoded;
use crate::grammar::input_bytes;
use crate::grammar::inputs_bytes;
use crate::grammar::items_bytes;
use crate::grammar::output_bytes;
use crate::grammar::outputs_bytes;
use crate::grammar::prefixed_bytes;
use crate::grammar::stack_bytes;
use crate::grammar::take_body;
use crate::grammar::take_input;
use crate::grammar::take_input_section;
use crate::grammar::take_inputs;
use crate::grammar::take_items;
use crate::grammar::take_marker;
use crate::grammar::take_output;
use crate::grammar::take_output_section;
use crate::grammar::take_outputs;
use crate::grammar::take_prefixed;
use crate::grammar::take_stack;
use crate::grammar::take_stacks;
use crate::grammar::unsigned32;
use crate::grammar::with_witnesses;
use crate::grammar::witnesses_bytes;
use crate::locality::same_bytes;
use crate::transaction::TransactionModel;
use crate::transaction::TxInModel;
use crate::transaction::TxOutModel;
use crate::varint::bytes16;
use crate::varint::bytes32;
use crate::varint::bytes64;
use crate::varint::compact_bytes;
use crate::varint::compact_len;
use crate::varint::take_compact;

verus! {

/// `t` holds all of `x` from `q`.
pub open spec fn holds(t: Seq<u8>, q: int, x: Seq<u8>) -> bool {
    0 <= q && q + x.len() <= t.len() && same_bytes(x, 0, t, q, x.len() as int)
}

/// A buffer that holds `a + b` holds `a`, and `b` after it.
pub proof fn lemma_holds_split(t: Seq<u8>, q: int, a: Seq<u8>, b: Seq<u8>)
    requires
        holds(t, q, a + b),
    ensures
        holds(t, q, a),
        holds(t, q + a.len(), b),
{
    assert forall|j: int| q <= j < q + a.len() && j < t.len() implies #[trigger] t[j] == a[j
        - q] by {
        assert((a + b)[j - q] == a[j - q]);
    }
    assert forall|j: int|
        q + a.len() <= j < q + a.len() + b.len() && j < t.len() implies #[trigger] t[j] == b[j - (q
        + a.len())] by {
        assert((a + b)[j - q] == b[j - q - a.len()]);
    }
}

/// A buffer holds itself from its start.
pub proof fn lemma_holds_itself(t: Seq<u8>)
    ensures
        holds(t, 0, t),
{
}

/// A buffer that holds the two bytes of `v` reads as `v`.
pub proof fn lemma_u16_reads_back(t: Seq<u8>, q: int, v: int, field: Field)
    requires
        0 <= v <= u16::MAX,
        holds(t, q, bytes16(v)),
    ensures
        le16(t, q) == v,
        gives(take_u16(t, q, field), v as u16, q + 2),
{
    reveal(bytes16);
    let x = bytes16(v);
    assert(t[q] == x[0]);
    assert(t[q + 1] == x[1]);
}

/// A buffer that holds the four bytes of `v` reads as `v`.
pub proof fn lemma_u32_reads_back(t: Seq<u8>, q: int, v: int, field: Field)
    requires
        0 <= v <= u32::MAX,
        holds(t, q, bytes32(v)),
    ensures
        le32(t, q) == v,
        gives(take_u32(t, q, field), v as u32, q + 4),
{
    reveal(bytes32);
    lemma_widths(v % 0x1_0000);
    lemma_widths(v / 0x1_0000 % 0x1_0000);
    lemma_holds_split(t, q, bytes16(v % 0x1_0000), bytes16(v / 0x1_0000 % 0x1_0000));
    lemma_u16_reads_back(t, q, v % 0x1_0000, field);
    lemma_u16_reads_back(t, q + 2, v / 0x1_0000 % 0x1_0000, field);
}

/// A buffer that holds the eight bytes of `v` reads as `v`.
pub proof fn lemma_u64_reads_back(t: Seq<u8>, q: int, v: int, field: Field)
    requires
        0 <= v <= u64::MAX,
        holds(t, q, bytes64(v)),
    ensures
        le64(t, q) == v,
        gives(take_u64(t, q, field), v as u64, q + 8),
{
    reveal(bytes64);
    lemma_widths(v % 0x1_0000_0000);
    lemma_widths(v / 0x1_0000_0000 % 0x1_0000_0000);
    lemma_holds_split(
        t,
        q,
        bytes32(v % 0x1_0000_0000),
        bytes32(v / 0x1_0000_0000 % 0x1_0000_0000),
    );
    lemma_u32_reads_back(t, q, v % 0x1_0000_0000, field);
    lemma_u32_reads_back(t, q + 4, v / 0x1_0000_0000 % 0x1_0000_0000, field);
}

/// A buffer that holds the shortest compact form of `n` reads as `n`. The
/// form starts with a zero byte only for zero.
pub proof fn lemma_compact_reads_back(t: Seq<u8>, q: int, n: int, field: Field)
    requires
        0 <= n <= u64::MAX,
        holds(t, q, compact_bytes(n)),
    ensures
        gives(take_compact(t, q, field), n as u64, q + compact_len(n)),
        t[q] == 0 <==> n == 0,
{
    reveal(compact_bytes);
    reveal(take_compact);
    lemma_widths(n);
    let x = compact_bytes(n);
    assert(t[q] == x[0]);
    if n < 0xfd {
    } else if n <= 0xffff {
        lemma_holds_split(t, q, seq![0xfdu8], bytes16(n));
        lemma_u16_reads_back(t, q + 1, n, field);
    } else if n <= 0xffff_ffff {
        lemma_holds_split(t, q, seq![0xfeu8], bytes32(n));
        lemma_u32_reads_back(t, q + 1, n, field);
    } else {
        lemma_holds_split(t, q, seq![0xffu8], bytes64(n));
        lemma_u64_reads_back(t, q + 1, n, field);
    }
}

/// A buffer that holds `x` gives `x` when as many bytes are read.
pub proof fn lemma_raw_reads_back(t: Seq<u8>, q: int, x: Seq<u8>, field: Field)
    requires
        holds(t, q, x),
    ensures
        gives(take_bytes(t, q, x.len() as int, field), x, q + x.len()),
{
    assert(t.subrange(q, q + x.len()) =~= x);
}

/// A buffer that holds a byte string behind its length reads as the byte
/// string.
pub proof fn lemma_prefixed_reads_back(
    t: Seq<u8>,
    q: int,
    body: Seq<u8>,
    length: Field,
    field: Field,
)
    requires
        body.len() <= u64::MAX,
        holds(t, q, prefixed_bytes(body)),
    ensures
        gives(take_prefixed(t, q, length, field), body, q + prefixed_bytes(body).len()),
{
    reveal(take_prefixed);
    lemma_widths(body.len() as int);
    lemma_holds_split(t, q, compact_bytes(body.len() as int), body);
    lemma_compact_reads_back(t, q, body.len() as int, length);
    lemma_raw_reads_back(t, q + compact_len(body.len() as int), body, field);
}

/// The input without its witness.
pub open spec fn bare(input: TxInModel) -> TxInModel {
    TxInModel {
        previous_output: input.previous_output,
        script_sig: input.script_sig,
        sequence: input.sequence,
        witness: Seq::empty(),
    }
}

/// The inputs without their witnesses.
pub open spec fn bare_inputs(inputs: Seq<TxInModel>) -> Seq<TxInModel> {
    Seq::new(inputs.len(), |i: int| bare(inputs[i]))
}

/// The witness stacks of the inputs.
pub open spec fn stacks_of(inputs: Seq<TxInModel>) -> Seq<Seq<Seq<u8>>> {
    Seq::new(inputs.len(), |i: int| inputs[i].witness)
}

/// A buffer that holds the encoding of an input reads as the input without
/// its witness.
pub proof fn lemma_input_reads_back(t: Seq<u8>, q: int, input: TxInModel)
    requires
        input.well_formed(),
        holds(t, q, input_bytes(input)),
    ensures
        gives(take_input(t, q), bare(input), q + input_bytes(input).len()),
{
    reveal(take_input);
    let txid = input.previous_output.previous_txid;
    let index = bytes32(input.previous_output.previous_output_index as int);
    let script = prefixed_bytes(input.script_sig);
    let sequence = bytes32(input.sequence as int);
    lemma_widths(input.previous_output.previous_output_index as int);
    lemma_widths(input.sequence as int);
    lemma_holds_split(t, q, txid + index + script, sequence);
    lemma_holds_split(t, q, txid + index, script);
    lemma_holds_split(t, q, txid, index);
    lemma_raw_reads_back(t, q, txid, Field::PreviousTxid);
    lemma_u32_reads_back(
        t,
        q + 32,
        input.previous_output.previous_output_index as int,
        Field::PreviousOutputIndex,
    );
    lemma_prefixed_reads_back(
        t,
        q + 36,
        input.script_sig,
        Field::ScriptSigLength,
        Field::ScriptSig,
    );
    lemma_u32_reads_back(t, q + 36 + script.len(), input.sequence as int, Field::Sequence);
}

/// A buffer that holds the encoding of a run of inputs reads as the inputs
/// without their witnesses.
pub proof fn lemma_inputs_read_back(t: Seq<u8>, q: int, inputs: Seq<TxInModel>)
    requires
        forall|i: int| 0 <= i < inputs.len() ==> (#[trigger] inputs[i]).well_formed(),
        holds(t, q, inputs_bytes(inputs)),
    ensures
        gives(
            take_inputs(t, q, inputs.len()),
            bare_inputs(inputs),
            q + inputs_bytes(inputs).len(),
        ),
    decreases inputs.len(),
{
    if inputs.len() == 0 {
        assert(bare_inputs(inputs) =~= Seq::empty());
    } else {
        let first = inputs[0];
        let rest = inputs.skip(1);
        assert(inputs =~= seq![first] + rest);
        lemma_inputs_bytes_cons(first, rest);
        lemma_holds_split(t, q, input_bytes(first), inputs_bytes(rest));
        lemma_input_reads_back(t, q, first);
        assert forall|i: int| 0 <= i < rest.len() implies (#[trigger] rest[i]).well_formed() by {
            assert(rest[i] == inputs[i + 1]);
        }
        lemma_inputs_read_back(t, q + input_bytes(first).len(), rest);
        assert(bare_inputs(inputs) =~= seq![bare(first)] + bare_inputs(rest));
    }
}

/// A buffer that holds the encoding of an output reads as the output.
pub proof fn lemma_output_reads_back(t: Seq<u8>, q: int, output: TxOutModel)
    requires
        output.well_formed(),
        holds(t, q, output_bytes(output)),
    ensures
        gives(take_output(t, q), output, q + output_bytes(output).len()),
{
    reveal(take_output);
    lemma_widths(output.value as int);
    lemma_holds_split(t, q, bytes64(output.value as int), prefixed_bytes(output.script_pubkey));
    lemma_u64_reads_back(t, q, output.value as int, Field::Value);
    lemma_prefixed_reads_back(
        t,
        q + 8,
        output.script_pubkey,
        Field::ScriptPubkeyLength,
        Field::ScriptPubkey,
    );
}

/// A buffer that holds the encoding of a run of outputs reads as the
/// outputs.
pub proof fn lemma_outputs_read_back(t: Seq<u8>, q: int, outputs: Seq<TxOutModel>)
    requires
        forall|i: int| 0 <= i < outputs.len() ==> (#[trigger] outputs[i]).well_formed(),
        holds(t, q, outputs_bytes(outputs)),
    ensures
        gives(take_outputs(t, q, outputs.len()), outputs, q + outputs_bytes(outputs).len()),
    decreases outputs.len(),
{
    if outputs.len() == 0 {
        assert(outputs =~= Seq::empty());
    } else {
        let first = outputs[0];
        let rest = outputs.skip(1);
        assert(outputs =~= seq![first] + rest);
        lemma_outputs_bytes_cons(first, rest);
        lemma_holds_split(t, q, output_bytes(first), outputs_bytes(rest));
        lemma_output_reads_back(t, q, first);
        assert forall|i: int| 0 <= i < rest.len() implies (#[trigger] rest[i]).well_formed() by {
            assert(rest[i] == outputs[i + 1]);
        }
        lemma_outputs_read_back(t, q + output_bytes(first).len(), rest);
    }
}

/// A buffer that holds the encoding of a run of witness items reads as the
/// items.
pub proof fn lemma_items_read_back(t: Seq<u8>, q: int, items: Seq<Seq<u8>>)
    requires
        forall|i: int| 0 <= i < items.len() ==> (#[trigger] items[i]).len() <= u64::MAX,
        holds(t, q, items_bytes(items)),
    ensures
        gives(take_items(t, q, items.len()), items, q + items_bytes(items).len()),
    decreases items.len(),
{
    if items.len() == 0 {
        assert(items =~= Seq::empty());
    } else {
        let first = items[0];
        let rest = items.skip(1);
        assert(items =~= seq![first] + rest);
        lemma_items_bytes_cons(first, rest);
        lemma_holds_split(t, q, prefixed_bytes(first), items_bytes(rest));
        lemma_prefixed_reads_back(t, q, first, Field::WitnessItemLength, Field::WitnessItem);
        assert forall|i: int| 0 <= i < rest.len() implies (#[trigger] rest[i]).len()
            <= u64::MAX by {
            assert(rest[i] == items[i + 1]);
        }
        lemma_items_read_back(t, q + prefixed_bytes(first).len(), rest);
    }
}

/// A buffer that holds the encoding of a witness stack reads as the stack.
pub proof fn lemma_stack_reads_back(t: Seq<u8>, q: int, items: Seq<Seq<u8>>)
    requires
        items.len() <= u64::MAX,
        forall|i: int| 0 <= i < items.len() ==> (#[trigger] items[i]).len() <= u64::MAX,
        holds(t, q, stack_bytes(items)),
    ensures
        gives(take_stack(t, q), items, q + stack_bytes(items).len()),
{
    reveal(take_stack);
    lemma_widths(items.len() as int);
    lemma_holds_split(t, q, compact_bytes(items.len() as int), items_bytes(items));
    lemma_compact_reads_back(t, q, items.len() as int, Field::WitnessItemCount);
    lemma_items_read_back(t, q + compact_len(items.len() as int), items);
}

/// A buffer that holds the witness section of a run of inputs reads as
/// their stacks.
pub proof fn lemma_stacks_read_back(t: Seq<u8>, q: int, inputs: Seq<TxInModel>)
    requires
        forall|i: int| 0 <= i < inputs.len() ==> (#[trigger] inputs[i]).well_formed(),
        holds(t, q, witnesses_bytes(inputs)),
    ensures
        gives(
            take_stacks(t, q, inputs.len()),
            stacks_of(inputs),
            q + witnesses_bytes(inputs).len(),
        ),
    decreases inputs.len(),
{
    if inputs.len() == 0 {
        assert(stacks_of(inputs) =~= Seq::empty());
    } else {
        let first = inputs[0];
        let rest = inputs.skip(1);
        assert(inputs =~= seq![first] + rest);
        lemma_witnesses_bytes_cons(first, rest);
        lemma_holds_split(t, q, stack_bytes(first.witness), witnesses_bytes(rest));
        assert(first.well_formed());
        lemma_stack_reads_back(t, q, first.witness);
        assert forall|i: int| 0 <= i < rest.len() implies (#[trigger] rest[i]).well_formed() by {
            assert(rest[i] == inputs[i + 1]);
        }
        lemma_stacks_read_back(t, q + stack_bytes(first.witness).len(), rest);
        assert(stacks_of(inputs) =~= seq![first.witness] + stacks_of(rest));
    }
}

/// A buffer that holds, one after the other, the four parts that follow
/// version and marker reads as the transaction's body.
proof fn lemma_body_reads_back(t: Seq<u8>, q: int, tx: TransactionModel)
    requires
        tx.well_formed(),
        holds(
            t,
            q,
            compact_bytes(tx.inputs.len() as int) + inputs_bytes(tx.inputs) + compact_bytes(
                tx.outputs.len() as int,
            ) + outputs_bytes(tx.outputs) + (if tx.has_witness {
                witnesses_bytes(tx.inputs)
            } else {
                Seq::empty()
            }) + bytes32(tx.lock_time as int),
        ),
    ensures
        gives(
            take_body(t, q, tx.version, tx.has_witness),
            tx,
            q + body_len(tx),
        ),
{
    reveal(take_body);
    reveal(take_input_section);
    reveal(take_output_section);
    let n_in = compact_bytes(tx.inputs.len() as int);
    let ins = inputs_bytes(tx.inputs);
    let n_out = compact_bytes(tx.outputs.len() as int);
    let outs = outputs_bytes(tx.outputs);
    let wit = if tx.has_witness {
        witnesses_bytes(tx.inputs)
    } else {
        Seq::empty()
    };
    let lock = bytes32(tx.lock_time as int);
    lemma_widths(tx.inputs.len() as int);
    lemma_widths(tx.outputs.len() as int);
    lemma_widths(tx.lock_time as int);
    lemma_holds_split(t, q, n_in + ins + n_out + outs + wit, lock);
    lemma_holds_split(t, q, n_in + ins + n_out + outs, wit);
    lemma_holds_split(t, q, n_in + ins + n_out, outs);
    lemma_holds_split(t, q, n_in + ins, n_out);
    lemma_holds_split(t, q, n_in, ins);
    let at1 = q + n_in.len();
    let at2 = at1 + ins.len();
    let at3 = at2 + n_out.len();
    let at4 = at3 + outs.len();
    let at5 = at4 + wit.len();
    lemma_compact_reads_back(t, q, tx.inputs.len() as int, Field::InputCount);
    lemma_inputs_read_back(t, at1, tx.inputs);
    lemma_compact_reads_back(t, at2, tx.outputs.len() as int, Field::OutputCount);
    lemma_outputs_read_back(t, at3, tx.outputs);
    let stripped = bare_inputs(tx.inputs);
    if tx.has_witness {
        lemma_stacks_read_back(t, at4, tx.inputs);
        assert(with_witnesses(stripped, stacks_of(tx.inputs)) =~= tx.inputs);
    } else {
        assert forall|i: int| 0 <= i < tx.inputs.len() implies stripped[i] == tx.inputs[i] by {
            assert(tx.inputs[i].witness =~= Seq::empty());
        }
        assert(stripped =~= tx.inputs);
    }
    lemma_u32_reads_back(t, at5, tx.lock_time as int, Field::LockTime);
}

/// The encoding of a well-formed transaction decodes to the transaction.
///
/// One kind of transaction is left out. Without the witness marker, an
/// encoding with no inputs starts its body with a zero byte, which the
/// decoder takes for a marker unless another zero follows: so a transaction
/// without the marker and without inputs reads back only when it has no
/// outputs either.
pub proof fn lemma_round_trip(tx: TransactionModel)
    requires
        tx.well_formed(),
        tx.has_witness || tx.inputs.len() > 0 || tx.outputs.len() == 0,
    ensures
        decoded(encoded(tx)) == Ok::<TransactionModel, DecodeError>(tx),
{
    let t = encoded(tx);
    let version = bytes32(unsigned32(tx.version) as int);
    let n_in = compact_bytes(tx.inputs.len() as int);
    let ins = inputs_bytes(tx.inputs);
    let n_out = compact_bytes(tx.outputs.len() as int);
    let outs = outputs_bytes(tx.outputs);
    let lock = bytes32(tx.lock_time as int);
    lemma_widths(unsigned32(tx.version) as int);
    lemma_widths(tx.inputs.len() as int);
    lemma_widths(tx.outputs.len() as int);
    lemma_widths(tx.lock_time as int);
    lemma_holds_itself(t);
    if tx.has_witness {
        let marker = seq![0u8, 1u8];
        let wit = witnesses_bytes(tx.inputs);
        let body = n_in + ins + n_out + outs + wit + lock;
        assert(t =~= version + marker + body);
        lemma_holds_split(t, 0, version + marker, body);
        lemma_holds_split(t, 0, version, marker);
        lemma_u32_reads_back(t, 0, unsigned32(tx.version) as int, Field::Version);
        assert(t[4] == marker[0] && t[5] == marker[1]);
        lemma_body_reads_back(t, 6, tx);
    } else {
        let body = n_in + ins + n_out + outs + Seq::<u8>::empty() + lock;
        assert(t =~= version + body);
        lemma_holds_split(t, 0, version, body);
        lemma_u32_reads_back(t, 0, unsigned32(tx.version) as int, Field::Version);
        lemma_holds_split(t, 4, n_in + ins + n_out + outs + Seq::<u8>::empty(), lock);
        lemma_holds_split(t, 4, n_in + ins + n_out + outs, Seq::<u8>::empty());
        lemma_holds_split(t, 4, n_in + ins + n_out, outs);
        lemma_holds_split(t, 4, n_in + ins, n_out);
        lemma_holds_split(t, 4, n_in, ins);
        lemma_compact_reads_back(t, 4, tx.inputs.len() as int, Field::InputCount);
        if tx.inputs.len() == 0 {
            assert(ins =~= Seq::<u8>::empty());
            lemma_compact_reads_back(t, 5, tx.outputs.len() as int, Field::OutputCount);
            assert(t[4] == 0 && t[5] == 0);
        } else {
            assert(t[4] != 0);
        }
        assert(gives(take_marker(t, 4), false, 4));
        lemma_body_reads_back(t, 4, tx);
    }
}

/// The transactions that `lemma_round_trip` leaves out do not read back:
/// the zero byte of the input count, followed by the output count, is taken
/// for a marker, so the encoding decodes to a transaction with the witness
/// marker or not at all.
pub proof fn lemma_round_trip_exception(tx: TransactionModel)
    requires
        tx.well_formed(),
        !tx.has_witness,
        tx.inputs.len() == 0,
        tx.outputs.len() > 0,
    ensures
        decoded(encoded(tx)) != Ok::<TransactionModel, DecodeError>(tx),
{
    let t = encoded(tx);
    let version = bytes32(unsigned32(tx.version) as int);
    let n_in = compact_bytes(tx.inputs.len() as int);
    let ins = inputs_bytes(tx.inputs);
    let n_out = compact_bytes(tx.outputs.len() as int);
    let rest = outputs_bytes(tx.outputs) + bytes32(tx.lock_time as int);
    lemma_widths(unsigned32(tx.version) as int);
    lemma_widths(tx.inputs.len() as int);
    lemma_widths(tx.outputs.len() as int);
    assert(ins =~= Seq::<u8>::empty());
    assert(t =~= version + n_in + n_out + rest);
    lemma_holds_itself(t);
    lemma_holds_split(t, 0, version + n_in + n_out, rest);
    lemma_holds_split(t, 0, version + n_in, n_out);
    lemma_holds_split(t, 0, version, n_in);
    lemma_u32_reads_back(t, 0, unsigned32(tx.version) as int, Field::Version);
    lemma_compact_reads_back(t, 4, tx.inputs.len() as int, Field::InputCount);
    lemma_compact_reads_back(t, 5, tx.outputs.len() as int, Field::OutputCount);
    assert(t[4] == 0 && t[5] != 0);
    if let Ok((marked, start)) = take_marker(t, 4) {
        lemma_body_span(t, start, tx.version, marked);
    }
}

/// A transaction that was decoded, written again with every compact
/// integer in its shortest form, decodes to the same transaction. (For the
/// one kind that is left out, see `lemma_round_trip`.)
pub proof fn lemma_decoded_round_trip(s: Seq<u8>)
    requires
        decoded(s) is Ok,
        decoded(s)->Ok_0.has_witness || decoded(s)->Ok_0.inputs.len() > 0 || decoded(
            s,
        )->Ok_0.outputs.len() == 0,
    ensures
        decoded(encoded(decoded(s)->Ok_0)) == decoded(s),
{
    lemma_decoded_fits(s);
    lemma_round_trip(decoded(s)->Ok_0);
}

} // verus!
