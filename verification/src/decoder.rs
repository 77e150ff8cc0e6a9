//! The decoder: one forward pass over the buffer that reads version, marker,
//! inputs, outputs, witness section and lock time, and accepts the buffer
//! only when the lock time ends it.

use vstd::prelude::*;
use crate::bounds::lemma_decoded_fits;
use crate::cursor::reading;
use crate::cursor::ByteCursor;
use crate::cursor::fails;
use crate::cursor::gives;
use crate::cursor::Parsed;
use crate::error::DecodeError;
use crate::error::Field;
use crate::grammar::decoded;
use crate::grammar::signed32;
use crate::grammar::take_body;
use crate::grammar::take_input;
use crate::grammar::take_input_section;
use crate::grammar::take_output_section;
use crate::grammar::take_inputs;
use crate::grammar::take_items;
use crate::grammar::take_marker;
use crate::grammar::take_output;
use crate::grammar::take_outputs;
use crate::grammar::take_prefixed;
use crate::grammar::take_stack;
use crate::grammar::take_stacks;
use crate::grammar::take_witnesses;
use crate::grammar::with_witnesses;
use crate::transaction::inputs_model;
use crate::transaction::outputs_model;
use crate::transaction::stack_model;
use crate::transaction::OutPoint;
use crate::transaction::Transaction;
use crate::transaction::TransactionModel;
use crate::transaction::TxIn;
use crate::transaction::TxInModel;
use crate::transaction::TxOut;
use crate::transaction::TxOutModel;
use crate::varint::read_compact;

verus! {

/// The items read so far, followed by what the rest of a run reads as.
pub open spec fn prepend<T>(done: Seq<T>, rest: Parsed<Seq<T>>) -> Parsed<Seq<T>> {
    match rest {
        Err(e) => Err(e),
        Ok((items, end)) => Ok((done + items, end)),
    }
}

/// Reads a compact length and that many raw bytes.
pub fn read_prefixed(cursor: &mut ByteCursor, length: Field, body: Field) -> (r: Result<
    Vec<u8>,
    DecodeError,
>)
    ensures
        final(cursor).buffer() == old(cursor).buffer(),
        match r {
            Ok(v) => gives(
                take_prefixed(old(cursor).buffer(), old(cursor).offset(), length, body),
                v@,
                final(cursor).offset(),
            ),
            Err(e) => fails(
                take_prefixed(old(cursor).buffer(), old(cursor).offset(), length, body),
                e,
            ),
        },
{
    proof {
        reveal(take_prefixed);
    }
    let n = read_compact(cursor, length)?;
    cursor.read_bytes(n, body)
}

/// Reads one input. Its witness is left empty.
pub fn read_input(cursor: &mut ByteCursor) -> (r: Result<TxIn, DecodeError>)
    ensures
        final(cursor).buffer() == old(cursor).buffer(),
        match r {
            Ok(input) => gives(
                take_input(old(cursor).buffer(), old(cursor).offset()),
                input@,
                final(cursor).offset(),
            ),
            Err(e) => fails(take_input(old(cursor).buffer(), old(cursor).offset()), e),
        },
{
    proof {
        reveal(take_input);
    }
    let previous_txid = cursor.read_array_32(Field::PreviousTxid)?;
    let previous_output_index = cursor.read_u32_le(Field::PreviousOutputIndex)?;
    let script_sig = read_prefixed(cursor, Field::ScriptSigLength, Field::ScriptSig)?;
    let sequence = cursor.read_u32_le(Field::Sequence)?;
    let input = TxIn {
        previous_output: OutPoint { previous_txid, previous_output_index },
        script_sig,
        sequence,
        witness: Vec::new(),
    };
    assert(input@.witness =~= Seq::empty());
    Ok(input)
}

/// Reads `count` inputs.
pub fn read_inputs(cursor: &mut ByteCursor, count: u64) -> (r: Result<Vec<TxIn>, DecodeError>)
    ensures
        final(cursor).buffer() == old(cursor).buffer(),
        match r {
            Ok(inputs) => gives(
                take_inputs(old(cursor).buffer(), old(cursor).offset(), count as nat),
                inputs_model(inputs@),
                final(cursor).offset(),
            ),
            Err(e) => fails(
                take_inputs(old(cursor).buffer(), old(cursor).offset(), count as nat),
                e,
            ),
        },
{
    let ghost s = cursor.buffer();
    let ghost start = cursor.offset();
    let mut inputs: Vec<TxIn> = Vec::new();
    let mut i: u64 = 0;
    assert(inputs_model(inputs@) + take_inputs(s, start, count as nat)->Ok_0.0
        =~= take_inputs(s, start, count as nat)->Ok_0.0);
    while i < count
        invariant
            i <= count,
            cursor.buffer() == s,
            s == old(cursor).buffer(),
            start == old(cursor).offset(),
            take_inputs(s, start, count as nat) == prepend(
                inputs_model(inputs@),
                take_inputs(s, cursor.offset(), (count - i) as nat),
            ),
        decreases count - i,
    {
        let ghost done = inputs_model(inputs@);
        let input = read_input(cursor)?;
        let ghost added = input@;
        inputs.push(input);
        proof {
            assert(inputs_model(inputs@) =~= done.push(added));
            if let Ok((items, end)) = take_inputs(s, cursor.offset(), (count - i - 1) as nat) {
                assert(done + (seq![added] + items) =~= done.push(added) + items);
            }
        }
        i = i + 1;
    }
    assert(inputs_model(inputs@) + Seq::<TxInModel>::empty() =~= inputs_model(inputs@));
    Ok(inputs)
}

/// Reads one output.
pub fn read_output(cursor: &mut ByteCursor) -> (r: Result<TxOut, DecodeError>)
    ensures
        final(cursor).buffer() == old(cursor).buffer(),
        match r {
            Ok(output) => gives(
                take_output(old(cursor).buffer(), old(cursor).offset()),
                output@,
                final(cursor).offset(),
            ),
            Err(e) => fails(take_output(old(cursor).buffer(), old(cursor).offset()), e),
        },
{
    proof {
        reveal(take_output);
    }
    let value = cursor.read_u64_le(Field::Value)?;
    let script_pubkey = read_prefixed(
        cursor,
        Field::ScriptPubkeyLength,
        Field::ScriptPubkey,
    )?;
    Ok(TxOut { value, script_pubkey })
}

/// Reads `count` outputs.
pub fn read_outputs(cursor: &mut ByteCursor, count: u64) -> (r: Result<Vec<TxOut>, DecodeError>)
    ensures
        final(cursor).buffer() == old(cursor).buffer(),
        match r {
            Ok(outputs) => gives(
                take_outputs(old(cursor).buffer(), old(cursor).offset(), count as nat),
                outputs_model(outputs@),
                final(cursor).offset(),
            ),
            Err(e) => fails(
                take_outputs(old(cursor).buffer(), old(cursor).offset(), count as nat),
                e,
            ),
        },
{
    let ghost s = cursor.buffer();
    let ghost start = cursor.offset();
    let mut outputs: Vec<TxOut> = Vec::new();
    let mut i: u64 = 0;
    assert(outputs_model(outputs@) + take_outputs(s, start, count as nat)->Ok_0.0
        =~= take_outputs(s, start, count as nat)->Ok_0.0);
    while i < count
        invariant
            i <= count,
            cursor.buffer() == s,
            s == old(cursor).buffer(),
            start == old(cursor).offset(),
            take_outputs(s, start, count as nat) == prepend(
                outputs_model(outputs@),
                take_outputs(s, cursor.offset(), (count - i) as nat),
            ),
        decreases count - i,
    {
        let ghost done = outputs_model(outputs@);
        let output = read_output(cursor)?;
        let ghost added = output@;
        outputs.push(output);
        proof {
            assert(outputs_model(outputs@) =~= done.push(added));
            if let Ok((items, end)) = take_outputs(s, cursor.offset(), (count - i - 1) as nat) {
                assert(done + (seq![added] + items) =~= done.push(added) + items);
            }
        }
        i = i + 1;
    }
    assert(outputs_model(outputs@) + Seq::<TxOutModel>::empty() =~= outputs_model(outputs@));
    Ok(outputs)
}

/// Reads `count` witness items.
pub fn read_items(cursor: &mut ByteCursor, count: u64) -> (r: Result<Vec<Vec<u8>>, DecodeError>)
    ensures
        final(cursor).buffer() == old(cursor).buffer(),
        match r {
            Ok(items) => gives(
                take_items(old(cursor).buffer(), old(cursor).offset(), count as nat),
                stack_model(items@),
                final(cursor).offset(),
            ),
            Err(e) => fails(
                take_items(old(cursor).buffer(), old(cursor).offset(), count as nat),
                e,
            ),
        },
{
    let ghost s = cursor.buffer();
    let ghost start = cursor.offset();
    let mut items: Vec<Vec<u8>> = Vec::new();
    let mut i: u64 = 0;
    assert(stack_model(items@) + take_items(s, start, count as nat)->Ok_0.0 =~= take_items(
        s,
        start,
        count as nat,
    )->Ok_0.0);
    while i < count
        invariant
            i <= count,
            cursor.buffer() == s,
            s == old(cursor).buffer(),
            start == old(cursor).offset(),
            take_items(s, start, count as nat) == prepend(
                stack_model(items@),
                take_items(s, cursor.offset(), (count - i) as nat),
            ),
        decreases count - i,
    {
        let ghost done = stack_model(items@);
        let item = read_prefixed(cursor, Field::WitnessItemLength, Field::WitnessItem)?;
        let ghost added = item@;
        items.push(item);
        proof {
            assert(stack_model(items@) =~= done.push(added));
            if let Ok((more, end)) = take_items(s, cursor.offset(), (count - i - 1) as nat) {
                assert(done + (seq![added] + more) =~= done.push(added) + more);
            }
        }
        i = i + 1;
    }
    assert(stack_model(items@) + Seq::<Seq<u8>>::empty() =~= stack_model(items@));
    Ok(items)
}

/// Reads one witness stack: a compact item count, then the items.
pub fn read_stack(cursor: &mut ByteCursor) -> (r: Result<Vec<Vec<u8>>, DecodeError>)
    ensures
        final(cursor).buffer() == old(cursor).buffer(),
        match r {
            Ok(items) => gives(
                take_stack(old(cursor).buffer(), old(cursor).offset()),
                stack_model(items@),
                final(cursor).offset(),
            ),
            Err(e) => fails(take_stack(old(cursor).buffer(), old(cursor).offset()), e),
        },
{
    proof {
        reveal(take_stack);
    }
    let n = read_compact(cursor, Field::WitnessItemCount)?;
    read_items(cursor, n)
}

/// Reads one witness stack for each input, in order, and gives input `i`
/// stack `i`.
pub fn read_witnesses(cursor: &mut ByteCursor, inputs: &mut Vec<TxIn>) -> (r: Result<
    (),
    DecodeError,
>)
    ensures
        final(cursor).buffer() == old(cursor).buffer(),
        match r {
            Ok(_) => gives(
                take_witnesses(
                    old(cursor).buffer(),
                    old(cursor).offset(),
                    inputs_model(old(inputs)@),
                    true,
                ),
                inputs_model(final(inputs)@),
                final(cursor).offset(),
            ),
            Err(e) => fails(
                take_witnesses(
                    old(cursor).buffer(),
                    old(cursor).offset(),
                    inputs_model(old(inputs)@),
                    true,
                ),
                e,
            ),
        },
{
    let ghost s = cursor.buffer();
    let ghost start = cursor.offset();
    let ghost bare = inputs_model(inputs@);
    let ghost mut stacks: Seq<Seq<Seq<u8>>> = Seq::empty();
    let n = inputs.len();
    let mut i: usize = 0;
    assert(stacks + take_stacks(s, start, n as nat)->Ok_0.0 =~= take_stacks(
        s,
        start,
        n as nat,
    )->Ok_0.0);
    while i < n
        invariant
            i <= n,
            n == inputs.len(),
            n == bare.len(),
            bare == inputs_model(old(inputs)@),
            cursor.buffer() == s,
            s == old(cursor).buffer(),
            start == old(cursor).offset(),
            stacks.len() == i,
            take_stacks(s, start, n as nat) == prepend(
                stacks,
                take_stacks(s, cursor.offset(), (n - i) as nat),
            ),
            forall|k: int|
                0 <= k < i ==> (#[trigger] inputs@[k])@ == (TxInModel {
                    previous_output: bare[k].previous_output,
                    script_sig: bare[k].script_sig,
                    sequence: bare[k].sequence,
                    witness: stacks[k],
                }),
            forall|k: int| i <= k < n ==> (#[trigger] inputs@[k])@ == bare[k],
        decreases n - i,
    {
        let ghost done = stacks;
        let stack = read_stack(cursor)?;
        let ghost added = stack_model(stack@);
        inputs[i].witness = stack;
        proof {
            stacks = done.push(added);
            if let Ok((more, end)) = take_stacks(s, cursor.offset(), (n - i - 1) as nat) {
                assert(done + (seq![added] + more) =~= done.push(added) + more);
            }
        }
        i = i + 1;
    }
    proof {
        assert(stacks + Seq::<Seq<Seq<u8>>>::empty() =~= stacks);
        assert(inputs_model(inputs@) =~= with_witnesses(bare, stacks));
    }
    Ok(())
}

/// Looks at the next two bytes for the witness marker, and consumes them
/// when they are 0, 1.
pub fn read_marker(cursor: &mut ByteCursor) -> (r: Result<bool, DecodeError>)
    ensures
        final(cursor).buffer() == old(cursor).buffer(),
        reading(r, final(cursor).offset()) == take_marker(
            old(cursor).buffer(),
            old(cursor).offset(),
        ),
{
    match (cursor.peek(0), cursor.peek(1)) {
        (Some(marker), Some(flag)) => {
            if marker != 0 || flag == 0 {
                Ok(false)
            } else if flag == 1 {
                cursor.skip(2);
                Ok(true)
            } else {
                Err(DecodeError::UnsupportedEncoding { flag })
            }
        },
        _ => Ok(false),
    }
}

/// Decodes the transaction that `bytes` holds from its first byte to its
/// last.
///
/// The result is `decoded(bytes@)`: the transaction, or `TruncatedInput` with
/// the field in which the buffer ended, `UnsupportedEncoding` for a marker
/// that is followed by an unknown flag, or `TrailingData` with the number of
/// bytes after the lock time. A transaction that comes back is well formed
/// and its encoding is no longer than `bytes`, so its sizes can be taken.
pub fn decode(bytes: &[u8]) -> (r: Result<Transaction, DecodeError>)
    ensures
        match r {
            Ok(tx) => decoded(bytes@) == Ok::<TransactionModel, DecodeError>(tx@)
                && tx@.well_formed() && tx@.total_size() <= bytes@.len()
                && tx@.fits_in_memory(),
            Err(e) => decoded(bytes@) == Err::<TransactionModel, DecodeError>(e),
        },
{
    proof {
        lemma_decoded_fits(bytes@);
        assert(bytes@.len() == bytes.len());
        reveal(take_body);
        reveal(take_input_section);
        reveal(take_output_section);
    }
    let mut cursor = ByteCursor::new(bytes);
    let raw_version = cursor.read_u32_le(Field::Version)?;
    let version = to_signed(raw_version);
    let has_witness = read_marker(&mut cursor)?;
    let input_count = read_compact(&mut cursor, Field::InputCount)?;
    let mut inputs = read_inputs(&mut cursor, input_count)?;
    let output_count = read_compact(&mut cursor, Field::OutputCount)?;
    let outputs = read_outputs(&mut cursor, output_count)?;
    if has_witness {
        read_witnesses(&mut cursor, &mut inputs)?;
    }
    let lock_time = cursor.read_u32_le(Field::LockTime)?;
    let extra = cursor.remaining();
    if extra != 0 {
        return Err(DecodeError::TrailingData { extra });
    }
    Ok(Transaction { version, inputs, outputs, lock_time, has_witness })
}

/// The signed reading of a 32-bit value.
fn to_signed(v: u32) -> (r: i32)
    ensures
        r == signed32(v),
{
    if v < 0x8000_0000 {
        v as i32
    } else {
        let low = (v - 0x8000_0000) as i32;
        low - 0x4000_0000 - 0x4000_0000
    }
}

} // verus!
